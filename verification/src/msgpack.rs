//! The part of MessagePack that the queue uses: unsigned integers and
//! arrays of them.
//!
//! An unsigned integer is one tag byte, and for the tags `0xcc`, `0xcd`,
//! `0xce` and `0xcf` one, two, four or eight bytes more, most significant
//! first; a tag up to `0x7f` is the number itself. An array is a header
//! that gives the number of elements (`0x90` to `0x9f`, or `0xdc` and two
//! bytes, or `0xdd` and four bytes), then the elements one after another.
//! Every other tag is refused: a signed integer is no unsigned one here,
//! even where its value is not negative.

use crate::radix::{
    be_bytes, be_value, lemma_be_bytes_value, lemma_be_value_bound, lemma_pow256_small, read_be,
};
use vstd::prelude::*;
use vstd::slice::slice_subrange;

verus! {

/// How many bytes follow the tag of an unsigned integer; `None` for a tag
/// that opens no unsigned integer.
pub open spec fn uint_width(tag: u8) -> Option<nat> {
    if tag <= 0x7f {
        Some(0)
    } else if tag == 0xcc {
        Some(1)
    } else if tag == 0xcd {
        Some(2)
    } else if tag == 0xce {
        Some(4)
    } else if tag == 0xcf {
        Some(8)
    } else {
        None
    }
}

/// The unsigned integer at the start of `bytes` and the number of bytes it
/// takes; `None` where there is none, or where it is cut short.
pub open spec fn spec_unpack_uint(bytes: Seq<u8>) -> Option<(u64, nat)> {
    if bytes.len() == 0 {
        None
    } else {
        match uint_width(bytes[0]) {
            None => None,
            Some(width) => {
                if width == 0 {
                    Some((bytes[0] as u64, 1))
                } else if bytes.len() < 1 + width {
                    None
                } else {
                    Some((be_value(bytes.subrange(1, 1 + width as int)) as u64, 1 + width))
                }
            },
        }
    }
}

/// The `count` unsigned integers that `bytes` begins with, in order; `None`
/// where one of them is missing. Bytes after the last one are not looked at.
pub open spec fn spec_unpack_uints(bytes: Seq<u8>, count: nat) -> Option<Seq<u64>>
    decreases count,
{
    if count == 0 {
        Some(Seq::empty())
    } else {
        match spec_unpack_uint(bytes) {
            None => None,
            Some((value, used)) => match spec_unpack_uints(
                bytes.skip(used as int),
                (count - 1) as nat,
            ) {
                None => None,
                Some(rest) => Some(seq![value] + rest),
            },
        }
    }
}

/// The number of elements that an array header at the start of `bytes`
/// announces, and the number of bytes the header takes.
pub open spec fn spec_array_header(bytes: Seq<u8>) -> Option<(nat, nat)> {
    if bytes.len() == 0 {
        None
    } else if 0x90 <= bytes[0] <= 0x9f {
        Some(((bytes[0] - 0x90) as nat, 1))
    } else if bytes[0] == 0xdc {
        if bytes.len() < 3 {
            None
        } else {
            Some((be_value(bytes.subrange(1, 3)), 3))
        }
    } else if bytes[0] == 0xdd {
        if bytes.len() < 5 {
            None
        } else {
            Some((be_value(bytes.subrange(1, 5)), 5))
        }
    } else {
        None
    }
}

/// The array of unsigned integers at the start of `bytes`; `None` where the
/// header or an element is missing. Bytes after the array are not looked at.
pub open spec fn spec_unpack_array(bytes: Seq<u8>) -> Option<Seq<u64>> {
    match spec_array_header(bytes) {
        None => None,
        Some((count, used)) => spec_unpack_uints(bytes.skip(used as int), count),
    }
}

/// The shortest form of `value`.
pub open spec fn spec_pack_uint(value: u64) -> Seq<u8> {
    if value <= 0x7f {
        seq![value as u8]
    } else if value <= 0xff {
        seq![0xccu8, value as u8]
    } else if value <= 0xffff {
        seq![0xcdu8] + be_bytes(value as nat, 2)
    } else if value <= 0xffff_ffff {
        seq![0xceu8] + be_bytes(value as nat, 4)
    } else {
        seq![0xcfu8] + be_bytes(value as nat, 8)
    }
}

/// The shortest forms of `values`, one after another.
pub open spec fn spec_pack_uints(values: Seq<u64>) -> Seq<u8>
    decreases values.len(),
{
    if values.len() == 0 {
        Seq::empty()
    } else {
        spec_pack_uint(values[0]) + spec_pack_uints(values.skip(1))
    }
}

/// The shortest header for an array of `count` elements.
pub open spec fn spec_pack_array_header(count: nat) -> Seq<u8>
    recommends
        count <= 0xffff_ffff,
{
    if count <= 15 {
        seq![(0x90 + count) as u8]
    } else if count <= 0xffff {
        seq![0xdcu8] + be_bytes(count, 2)
    } else {
        seq![0xddu8] + be_bytes(count, 4)
    }
}

/// `values` as an array: the header, then each element in its shortest form.
pub open spec fn spec_pack_array(values: Seq<u64>) -> Seq<u8>
    recommends
        values.len() <= 0xffff_ffff,
{
    spec_pack_array_header(values.len()) + spec_pack_uints(values)
}

/// An unsigned integer takes at least one byte and never more than there are.
pub proof fn lemma_unpack_uint_used(bytes: Seq<u8>)
    ensures
        spec_unpack_uint(bytes) matches Some((_, used)) ==> 1 <= used <= bytes.len() && used <= 9,
{
}

/// Unpacking gives back the number that was packed, whatever follows it.
pub proof fn lemma_unpack_packed_uint(value: u64, after: Seq<u8>)
    ensures
        spec_unpack_uint(spec_pack_uint(value) + after) == Some(
            (value, spec_pack_uint(value).len()),
        ),
        1 <= spec_pack_uint(value).len() <= 9,
{
    let packed = spec_pack_uint(value);
    let all = packed + after;
    lemma_pow256_small();
    if value <= 0x7f {
    } else if value <= 0xff {
        assert(all[0] == 0xcc);
        let body = all.subrange(1, 2);
        assert(body =~= seq![value as u8]);
        assert(body.drop_last() =~= Seq::<u8>::empty());
        assert(be_value(body.drop_last()) == 0);
        assert(be_value(body) == value);
    } else if value <= 0xffff {
        lemma_be_bytes_value(value as nat, 2);
        assert(all[0] == 0xcd);
        assert(all.subrange(1, 3) =~= be_bytes(value as nat, 2));
    } else if value <= 0xffff_ffff {
        lemma_be_bytes_value(value as nat, 4);
        assert(all[0] == 0xce);
        assert(all.subrange(1, 5) =~= be_bytes(value as nat, 4));
    } else {
        lemma_be_bytes_value(value as nat, 8);
        assert(all[0] == 0xcf);
        assert(all.subrange(1, 9) =~= be_bytes(value as nat, 8));
    }
}

/// Unpacking gives back the numbers that were packed one after another,
/// whatever follows them.
pub proof fn lemma_unpack_packed_uints(values: Seq<u64>, after: Seq<u8>)
    ensures
        spec_unpack_uints(spec_pack_uints(values) + after, values.len()) == Some(values),
    decreases values.len(),
{
    if values.len() == 0 {
        assert(values =~= Seq::<u64>::empty());
    } else {
        let head = spec_pack_uint(values[0]);
        let tail = spec_pack_uints(values.skip(1));
        let all = spec_pack_uints(values) + after;
        assert(all =~= head + (tail + after));
        lemma_unpack_packed_uint(values[0], tail + after);
        assert(all.skip(head.len() as int) =~= tail + after);
        lemma_unpack_packed_uints(values.skip(1), after);
        assert(seq![values[0]] + values.skip(1) =~= values);
    }
}

/// Unpacking gives back the array that was packed, whatever follows it.
pub proof fn lemma_unpack_packed_array(values: Seq<u64>, after: Seq<u8>)
    requires
        values.len() <= 0xffff_ffff,
    ensures
        spec_unpack_array(spec_pack_array(values) + after) == Some(values),
{
    let count = values.len();
    let header = spec_pack_array_header(count);
    let body = spec_pack_uints(values);
    let all = spec_pack_array(values) + after;
    lemma_pow256_small();
    assert(all =~= header + (body + after));
    if count <= 15 {
        assert(all[0] == (0x90 + count) as u8);
    } else if count <= 0xffff {
        lemma_be_bytes_value(count, 2);
        assert(all[0] == 0xdc);
        assert(all.subrange(1, 3) =~= be_bytes(count, 2));
    } else {
        lemma_be_bytes_value(count, 4);
        assert(all[0] == 0xdd);
        assert(all.subrange(1, 5) =~= be_bytes(count, 4));
    }
    assert(spec_array_header(all) == Some((count, header.len())));
    assert(all.skip(header.len() as int) =~= body + after);
    lemma_unpack_packed_uints(values, after);
}

/// Reads the unsigned integer at the start of `bytes`: the number and how
/// many bytes it took.
pub fn unpack_uint(bytes: &[u8]) -> (r: Option<(u64, usize)>)
    ensures
        match r {
            Some((value, used)) => spec_unpack_uint(bytes@) == Some((value, used as nat)),
            None => spec_unpack_uint(bytes@) is None,
        },
{
    if bytes.len() == 0 {
        return None;
    }
    let tag: u8 = bytes[0];
    if tag <= 0x7f {
        return Some((tag as u64, 1));
    }
    let width: usize = if tag == 0xcc {
        1
    } else if tag == 0xcd {
        2
    } else if tag == 0xce {
        4
    } else if tag == 0xcf {
        8
    } else {
        return None;
    };
    if bytes.len() - 1 < width {
        return None;
    }
    let value: u64 = read_be(slice_subrange(bytes, 1, 1 + width));
    Some((value, 1 + width))
}

/// Reads the array header at the start of `bytes`: the number of elements
/// and how many bytes the header took.
pub fn unpack_array_header(bytes: &[u8]) -> (r: Option<(u32, usize)>)
    ensures
        match r {
            Some((count, used)) => spec_array_header(bytes@) == Some((count as nat, used as nat)),
            None => spec_array_header(bytes@) is None,
        },
{
    let len: usize = bytes.len();
    if len == 0 {
        return None;
    }
    let tag: u8 = bytes[0];
    proof {
        lemma_pow256_small();
    }
    if 0x90 <= tag && tag <= 0x9f {
        Some(((tag - 0x90) as u32, 1))
    } else if tag == 0xdc {
        if len < 3 {
            return None;
        }
        proof {
            lemma_be_value_bound(bytes@.subrange(1, 3));
        }
        Some((read_be(slice_subrange(bytes, 1, 3)) as u32, 3))
    } else if tag == 0xdd {
        if len < 5 {
            return None;
        }
        proof {
            lemma_be_value_bound(bytes@.subrange(1, 5));
        }
        Some((read_be(slice_subrange(bytes, 1, 5)) as u32, 5))
    } else {
        None
    }
}

/// Reads the array of unsigned integers at the start of `bytes`.
pub fn unpack_array(bytes: &[u8]) -> (r: Option<Vec<u64>>)
    ensures
        match r {
            Some(values) => spec_unpack_array(bytes@) == Some(values@),
            None => spec_unpack_array(bytes@) is None,
        },
{
    let len: usize = bytes.len();
    let (count, start): (u32, usize) = match unpack_array_header(bytes) {
        None => {
            return None;
        },
        Some(header) => header,
    };
    let mut values: Vec<u64> = Vec::new();
    let mut pos: usize = start;
    let mut done: u32 = 0;
    proof {
        let all = spec_unpack_uints(bytes@.skip(start as int), count as nat);
        assert(all is Some ==> Seq::<u64>::empty() + all->0 =~= all->0);
    }
    while done < count
        invariant
            len == bytes.len(),
            pos <= len,
            done <= count,
            spec_unpack_array(bytes@) == match spec_unpack_uints(
                bytes@.skip(pos as int),
                (count - done) as nat,
            ) {
                Some(rest) => Some(values@ + rest),
                None => None,
            },
        decreases count - done,
    {
        let ghost here = bytes@.skip(pos as int);
        let item = unpack_uint(slice_subrange(bytes, pos, len));
        proof {
            assert(bytes@.subrange(pos as int, len as int) =~= here);
            lemma_unpack_uint_used(here);
        }
        match item {
            None => {
                return None;
            },
            Some((value, used)) => {
                proof {
                    assert(here.skip(used as int) =~= bytes@.skip(pos + used));
                    let after = spec_unpack_uints(
                        bytes@.skip(pos + used),
                        (count - done - 1) as nat,
                    );
                    assert(after is Some ==> values@.push(value) + after->0 =~= values@ + (
                    seq![value] + after->0));
                }
                values.push(value);
                pos = pos + used;
                done = done + 1;
            },
        }
    }
    proof {
        assert(values@ + Seq::<u64>::empty() =~= values@);
    }
    Some(values)
}

/// Packing one number more appends its form.
pub proof fn lemma_pack_uints_push(values: Seq<u64>, value: u64)
    ensures
        spec_pack_uints(values.push(value)) == spec_pack_uints(values) + spec_pack_uint(value),
    decreases values.len(),
{
    if values.len() == 0 {
        assert(values.push(value).skip(1) =~= Seq::<u64>::empty());
        assert(spec_pack_uints(Seq::<u64>::empty()) =~= Seq::<u8>::empty());
        assert(spec_pack_uints(values.push(value)) =~= spec_pack_uint(value));
        assert(spec_pack_uints(values) + spec_pack_uint(value) =~= spec_pack_uint(value));
    } else {
        let rest = values.skip(1);
        assert(values.push(value).skip(1) =~= rest.push(value));
        lemma_pack_uints_push(rest, value);
        assert(spec_pack_uint(values[0]) + (spec_pack_uints(rest) + spec_pack_uint(value))
            =~= (spec_pack_uint(values[0]) + spec_pack_uints(rest)) + spec_pack_uint(value));
    }
}

/// Writes `value` in its shortest form.
pub fn pack_uint(value: u64) -> (bytes: Vec<u8>)
    ensures
        bytes@ == spec_pack_uint(value),
{
    let mut bytes: Vec<u8> = Vec::new();
    push_uint(&mut bytes, value);
    proof {
        assert(Seq::<u8>::empty() + spec_pack_uint(value) =~= spec_pack_uint(value));
    }
    bytes
}

/// Writes `values` as an array, each in its shortest form; `None` where
/// they are more than an array header can count.
pub fn pack_array(values: &[u64]) -> (r: Option<Vec<u8>>)
    ensures
        match r {
            Some(bytes) => values@.len() <= 0xffff_ffff && bytes@ == spec_pack_array(values@),
            None => values@.len() > 0xffff_ffff,
        },
{
    let count: usize = values.len();
    let mut bytes: Vec<u8> = Vec::new();
    if count <= 15 {
        bytes.push(0x90 + count as u8);
    } else if count <= 0xffff {
        bytes.push(0xdc);
        push_be(&mut bytes, count as u64, 2);
    } else if count <= 0xffff_ffff {
        bytes.push(0xdd);
        push_be(&mut bytes, count as u64, 4);
    } else {
        return None;
    }
    let ghost header = bytes@;
    proof {
        assert(header =~= spec_pack_array_header(count as nat));
        assert(values@.take(0) =~= Seq::<u64>::empty());
        assert(header + spec_pack_uints(values@.take(0)) =~= header);
    }
    let mut i: usize = 0;
    while i < count
        invariant
            count == values@.len(),
            i <= count,
            header == spec_pack_array_header(count as nat),
            bytes@ == header + spec_pack_uints(values@.take(i as int)),
        decreases count - i,
    {
        let ghost before = bytes@;
        push_uint(&mut bytes, values[i]);
        proof {
            let done = values@.take(i as int);
            lemma_pack_uints_push(done, values@[i as int]);
            assert(values@.take(i + 1) =~= done.push(values@[i as int]));
            assert(before + spec_pack_uint(values@[i as int]) =~= header + (spec_pack_uints(done)
                + spec_pack_uint(values@[i as int])));
        }
        i = i + 1;
    }
    proof {
        assert(values@.take(count as int) =~= values@);
    }
    Some(bytes)
}

/// Appends `value` in its shortest form.
fn push_uint(out: &mut Vec<u8>, value: u64)
    ensures
        final(out)@ == old(out)@ + spec_pack_uint(value),
{
    if value <= 0x7f {
        out.push(value as u8);
        proof {
            assert(out@ =~= old(out)@ + seq![value as u8]);
        }
    } else if value <= 0xff {
        out.push(0xcc);
        out.push(value as u8);
        proof {
            assert(out@ =~= old(out)@ + seq![0xccu8, value as u8]);
        }
    } else if value <= 0xffff {
        out.push(0xcd);
        push_be(out, value, 2);
        proof {
            assert(out@ =~= old(out)@ + (seq![0xcdu8] + be_bytes(value as nat, 2)));
        }
    } else if value <= 0xffff_ffff {
        out.push(0xce);
        push_be(out, value, 4);
        proof {
            assert(out@ =~= old(out)@ + (seq![0xceu8] + be_bytes(value as nat, 4)));
        }
    } else {
        out.push(0xcf);
        push_be(out, value, 8);
        proof {
            assert(out@ =~= old(out)@ + (seq![0xcfu8] + be_bytes(value as nat, 8)));
        }
    }
}

/// Appends the `width` low bytes of `value`, most significant first.
fn push_be(out: &mut Vec<u8>, value: u64, width: usize)
    ensures
        final(out)@ == old(out)@ + be_bytes(value as nat, width as nat),
    decreases width,
{
    if width > 0 {
        push_be(out, value / 256, width - 1);
        out.push((value % 256) as u8);
        proof {
            let front = be_bytes((value / 256) as nat, (width - 1) as nat);
            assert((old(out)@ + front).push((value % 256) as u8) =~= old(out)@ + front.push(
                (value % 256) as u8,
            ));
        }
    } else {
        proof {
            assert(old(out)@ + be_bytes(value as nat, 0) =~= old(out)@);
        }
    }
}

} // verus!
