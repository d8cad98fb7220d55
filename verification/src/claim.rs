//! The reply of the remote claim procedure, and how it is taken apart.
//!
//! A reply that claims something is laid out as
//!
//! ```text
//! [b0] [b0 bytes: L, least significant first] [L bytes: integers] [keys and values]
//! ```
//!
//! The integers are a MessagePack array of unsigned integers, five for each
//! claimed entry: retry count, the two halves of the entry's time stamp,
//! length of the key, length of the value. The keys and values follow in
//! the same order, each key right before its value, nothing in between.
//! An empty reply, or one whose `b0` is 6 or more, claims nothing.

use crate::decimal::{entry_id, format_entry_id};
use crate::msgpack::{
    lemma_unpack_packed_array, pack_array, spec_pack_array, spec_unpack_array, unpack_array,
};
use crate::radix::{
    le_bytes, le_value, le_width, lemma_le_bytes_value, lemma_le_width_bound, lemma_pow256_small,
    lemma_shortest_le, pow256, read_le, shortest_le, u64_bin,
};
use vstd::prelude::*;
use vstd::slice::{slice_subrange, slice_to_vec};

verus! {

/// The first `b0` that is taken for a format of the future.
pub const UNKNOWN_FORMAT: u8 = 6;

/// How many integers describe one claimed entry.
pub const CHUNK: usize = 5;

/// Why a reply that claims something could not be taken apart.
#[derive(Clone, Copy, Debug, PartialEq, Eq, Structural)]
pub enum MalformedResponse {
    /// A length in the reply reaches past its end: that of the integers, or
    /// that of a key or a value.
    Truncated,
    /// The integers are no MessagePack array of unsigned integers.
    Integers,
    /// The number of integers is no multiple of five.
    Chunks,
}

/// An entry that the claim procedure has handed to this consumer.
#[derive(Clone, Debug, PartialEq, Eq)]
pub struct ClaimedEntry {
    /// How often the entry has been taken over from a consumer that let it lie.
    pub retry: u64,
    /// First half of the entry's time stamp.
    pub t0: u64,
    /// Second half of the entry's time stamp.
    pub t1: u64,
    /// The key under which the entry's payload was appended.
    pub key: Vec<u8>,
    /// The payload.
    pub val: Vec<u8>,
}

/// What a [`ClaimedEntry`] holds, as mathematics.
pub struct ClaimRecord {
    pub retry: u64,
    pub t0: u64,
    pub t1: u64,
    pub key: Seq<u8>,
    pub val: Seq<u8>,
}

impl View for ClaimedEntry {
    type V = ClaimRecord;

    open spec fn view(&self) -> ClaimRecord {
        ClaimRecord {
            retry: self.retry,
            t0: self.t0,
            t1: self.t1,
            key: self.key@,
            val: self.val@,
        }
    }
}

impl ClaimedEntry {
    /// The entry's identifier as the store writes it, and as acknowledging
    /// the entry wants it: the two halves of the time stamp in decimal, a
    /// hyphen between them.
    pub fn id(&self) -> (id: String)
        ensures
            id@ == entry_id(self.t0, self.t1),
    {
        format_entry_id(self.t0, self.t1)
    }
}

/// The records that `entries` hold, in order.
pub open spec fn claim_views(entries: Seq<ClaimedEntry>) -> Seq<ClaimRecord> {
    Seq::new(entries.len(), |i: int| entries[i]@)
}

/// Where the key of entry `i` begins, when the keys and values begin at
/// `start`: behind the keys and values of all entries before it.
pub open spec fn payload_offset(start: int, ints: Seq<u64>, i: nat) -> int
    decreases i,
{
    if i == 0 {
        start
    } else {
        payload_offset(start, ints, (i - 1) as nat) + ints[5 * (i - 1) + 3] + ints[5 * (i - 1) + 4]
    }
}

/// Entry `i` as the integers describe it, its key and value cut out of `buf`.
pub open spec fn claim_at(buf: Seq<u8>, start: int, ints: Seq<u64>, i: int) -> ClaimRecord {
    let at = payload_offset(start, ints, i as nat);
    let key_len = ints[5 * i + 3] as int;
    let val_len = ints[5 * i + 4] as int;
    ClaimRecord {
        retry: ints[5 * i],
        t0: ints[5 * i + 1],
        t1: ints[5 * i + 2],
        key: buf.subrange(at, at + key_len),
        val: buf.subrange(at + key_len, at + key_len + val_len),
    }
}

/// The entries that `ints` describe, with keys and values from `buf` at
/// `start` on.
pub open spec fn spec_split_claims(buf: Seq<u8>, start: int, ints: Seq<u64>) -> Result<
    Seq<ClaimRecord>,
    MalformedResponse,
> {
    let count = ints.len() / 5;
    if ints.len() % 5 != 0 {
        Err(MalformedResponse::Chunks)
    } else if payload_offset(start, ints, count) > buf.len() {
        Err(MalformedResponse::Truncated)
    } else {
        Ok(Seq::new(count, |i: int| claim_at(buf, start, ints, i)))
    }
}

/// Where the integers of a reply lie, as the positions of their first byte
/// and of the first byte behind them; `Ok(None)` for a reply that claims
/// nothing.
pub open spec fn spec_claim_segment(buf: Seq<u8>) -> Result<Option<(int, int)>, MalformedResponse> {
    if buf.len() == 0 || buf[0] >= UNKNOWN_FORMAT {
        Ok(None)
    } else {
        let begin = 1 + buf[0] as int;
        if buf.len() < begin {
            Err(MalformedResponse::Truncated)
        } else {
            let end = begin + le_value(buf.subrange(1, begin));
            if buf.len() < end {
                Err(MalformedResponse::Truncated)
            } else {
                Ok(Some((begin, end)))
            }
        }
    }
}

/// What a reply means: `Ok(None)` where it claims nothing, the claimed
/// entries in the order of the reply, or why it cannot be read.
pub open spec fn spec_decode_claims(buf: Seq<u8>) -> Result<
    Option<Seq<ClaimRecord>>,
    MalformedResponse,
> {
    match spec_claim_segment(buf) {
        Err(e) => Err(e),
        Ok(None) => Ok(None),
        Ok(Some((begin, end))) => match spec_unpack_array(buf.subrange(begin, end)) {
            None => Err(MalformedResponse::Integers),
            Some(ints) => match spec_split_claims(buf, end, ints) {
                Err(e) => Err(e),
                Ok(records) => Ok(Some(records)),
            },
        },
    }
}

/// Keys and values only ever move the offset forward.
pub proof fn lemma_payload_offset_grows(start: int, ints: Seq<u64>, i: nat, j: nat)
    requires
        i <= j,
    ensures
        payload_offset(start, ints, i) <= payload_offset(start, ints, j),
    decreases j,
{
    if i < j {
        lemma_payload_offset_grows(start, ints, i, (j - 1) as nat);
    }
}

/// A key or a value that is declared longer than what is left of the reply
/// makes the reply malformed, whichever entry it belongs to.
pub proof fn lemma_overlong_field_is_truncation(buf: Seq<u8>, start: int, ints: Seq<u64>, i: nat)
    requires
        ints.len() % 5 == 0,
        i < ints.len() / 5,
        ({
            let at = payload_offset(start, ints, i);
            let key_len = ints[5 * (i as int) + 3];
            let val_len = ints[5 * (i as int) + 4];
            at + key_len > buf.len() || at + key_len + val_len > buf.len()
        }),
    ensures
        spec_split_claims(buf, start, ints) == Err::<Seq<ClaimRecord>, _>(
            MalformedResponse::Truncated,
        ),
{
    lemma_payload_offset_grows(start, ints, i + 1, ints.len() / 5);
}

/// A reply whose first byte is 6 or more claims nothing, whatever follows.
pub proof fn lemma_unknown_format_claims_nothing(buf: Seq<u8>)
    requires
        buf.len() > 0,
        buf[0] >= UNKNOWN_FORMAT,
    ensures
        spec_decode_claims(buf) == Ok::<Option<Seq<ClaimRecord>>, MalformedResponse>(None),
{
}

/// The integers that describe `records`: five for each, in order.
pub open spec fn claim_ints(records: Seq<ClaimRecord>) -> Seq<u64> {
    Seq::new(
        5 * records.len(),
        |j: int|
            {
                let record = records[j / 5];
                if j % 5 == 0 {
                    record.retry
                } else if j % 5 == 1 {
                    record.t0
                } else if j % 5 == 2 {
                    record.t1
                } else if j % 5 == 3 {
                    record.key.len() as u64
                } else {
                    record.val.len() as u64
                }
            },
    )
}

/// The keys and values of `records` back to back, each key before its value.
pub open spec fn claim_payload(records: Seq<ClaimRecord>) -> Seq<u8>
    decreases records.len(),
{
    if records.len() == 0 {
        Seq::empty()
    } else {
        claim_payload(records.drop_last()) + records.last().key + records.last().val
    }
}

/// A reply put together: the width of the length, the length of `packed` in
/// that many bytes, `packed`, and `payload`.
pub open spec fn claim_frame(b0: u8, packed: Seq<u8>, payload: Seq<u8>) -> Seq<u8> {
    seq![b0] + le_bytes(packed.len(), b0 as nat) + packed + payload
}

/// Whether the lengths of all keys and values can be written as integers of
/// the reply.
pub open spec fn lengths_fit(records: Seq<ClaimRecord>) -> bool {
    forall|i: int|
        0 <= i < records.len() ==> (#[trigger] records[i]).key.len() <= u64::MAX
            && records[i].val.len() <= u64::MAX
}

/// The payload of the first `i` records opens the payload of all of them,
/// and the key and value of record `i` follow it.
pub proof fn lemma_payload_of_prefix(records: Seq<ClaimRecord>, i: int)
    requires
        0 <= i < records.len(),
    ensures
        ({
            let before = claim_payload(records.take(i));
            let all = claim_payload(records);
            let key = records[i].key;
            let val = records[i].val;
            let at = before.len() as int;
            let mid = at + key.len();
            let end = mid + val.len();
            &&& end <= all.len()
            &&& all.subrange(0, at) == before
            &&& all.subrange(at, mid) == key
            &&& all.subrange(mid, end) == val
            &&& claim_payload(records.take(i + 1)) == before + key + val
        }),
    decreases records.len(),
{
    let all = claim_payload(records);
    let front = records.drop_last();
    let before = claim_payload(records.take(i));
    let key = records[i].key;
    let val = records[i].val;
    let at = before.len() as int;
    let mid = at + key.len();
    let end = mid + val.len();
    assert(records.take(i + 1).drop_last() =~= records.take(i));
    assert(records.take(i + 1).last() == records[i]);
    if i == records.len() - 1 {
        assert(records.take(i) =~= front);
        assert(records.take(i + 1) =~= records);
        assert(all.subrange(0, at) =~= before);
        assert(all.subrange(at, mid) =~= key);
        assert(all.subrange(mid, end) =~= val);
    } else {
        lemma_payload_of_prefix(front, i);
        assert(front.take(i) =~= records.take(i));
        assert(front.take(i + 1) =~= records.take(i + 1));
        let shorter = claim_payload(front);
        assert(all.subrange(0, shorter.len() as int) =~= shorter);
        assert(all.subrange(0, at) =~= shorter.subrange(0, at));
        assert(all.subrange(at, mid) =~= shorter.subrange(at, mid));
        assert(all.subrange(mid, end) =~= shorter.subrange(mid, end));
    }
}

/// The key of record `i` begins behind the payload of the records before it.
pub proof fn lemma_payload_offset_of_records(start: int, records: Seq<ClaimRecord>, i: nat)
    requires
        i <= records.len(),
        lengths_fit(records),
    ensures
        payload_offset(start, claim_ints(records), i) == start + claim_payload(
            records.take(i as int),
        ).len(),
    decreases i,
{
    if i == 0 {
        assert(records.take(0) =~= Seq::<ClaimRecord>::empty());
    } else {
        lemma_payload_offset_of_records(start, records, (i - 1) as nat);
        lemma_payload_of_prefix(records, i - 1);
        let ints = claim_ints(records);
        assert(ints[5 * (i - 1) + 3] == records[i - 1].key.len());
        assert(ints[5 * (i - 1) + 4] == records[i - 1].val.len());
    }
}

/// What was framed is what decoding finds: for every reply that is laid out
/// as the format says, with a length of at most five bytes and integers that
/// unpack to those of `records`, decoding gives `records` back, every
/// number, key and value as it went in.
pub proof fn lemma_decode_frame(b0: u8, packed: Seq<u8>, records: Seq<ClaimRecord>)
    requires
        b0 < UNKNOWN_FORMAT,
        packed.len() < pow256(b0 as nat),
        spec_unpack_array(packed) == Some(claim_ints(records)),
        lengths_fit(records),
    ensures
        spec_decode_claims(claim_frame(b0, packed, claim_payload(records))) == Ok::<
            _,
            MalformedResponse,
        >(Some(records)),
{
    let payload = claim_payload(records);
    let buf = claim_frame(b0, packed, payload);
    let ints = claim_ints(records);
    let count = records.len();
    let begin = 1 + b0 as int;
    let end = begin + packed.len();
    lemma_le_bytes_value(packed.len(), b0 as nat);
    assert(buf[0] == b0);
    assert(buf.subrange(1, begin) =~= le_bytes(packed.len(), b0 as nat));
    assert(buf.subrange(begin, end) =~= packed);
    assert(buf.len() == end + payload.len());
    assert(ints.len() == 5 * count);
    lemma_payload_offset_of_records(end, records, count);
    assert(records.take(count as int) =~= records);
    let found = Seq::new(count, |i: int| claim_at(buf, end, ints, i));
    assert forall|i: int| 0 <= i < count implies found[i] == records[i] by {
        lemma_payload_offset_of_records(end, records, i as nat);
        lemma_payload_of_prefix(records, i);
        let before = claim_payload(records.take(i));
        let key = records[i].key;
        let val = records[i].val;
        let at = before.len() as int;
        let mid = at + key.len();
        assert(buf.subrange(end + at, end + mid) =~= payload.subrange(at, mid));
        assert(buf.subrange(end + mid, end + mid + val.len()) =~= payload.subrange(
            mid,
            mid + val.len(),
        ));
        assert(ints[5 * i] == records[i].retry);
        assert(ints[5 * i + 1] == records[i].t0);
        assert(ints[5 * i + 2] == records[i].t1);
        assert(ints[5 * i + 3] == key.len());
        assert(ints[5 * i + 4] == val.len());
    }
    assert(found =~= records);
}

/// What was packed and framed is what decoding finds: the records' own
/// integers as a MessagePack array in its shortest form, framed with a
/// length of `b0` bytes, decode to the records.
pub proof fn lemma_decode_packed_frame(b0: u8, records: Seq<ClaimRecord>)
    requires
        b0 < UNKNOWN_FORMAT,
        5 * records.len() <= 0xffff_ffff,
        spec_pack_array(claim_ints(records)).len() < pow256(b0 as nat),
        lengths_fit(records),
    ensures
        spec_decode_claims(
            claim_frame(b0, spec_pack_array(claim_ints(records)), claim_payload(records)),
        ) == Ok::<_, MalformedResponse>(Some(records)),
{
    let packed = spec_pack_array(claim_ints(records));
    lemma_unpack_packed_array(claim_ints(records), Seq::empty());
    assert(packed + Seq::<u8>::empty() =~= packed);
    lemma_decode_frame(b0, packed, records);
}

/// A reply that was cut short is malformed: of a reply laid out as the
/// format says, every beginning that is not the whole, and not empty,
/// decodes to a truncation, wherever the cut falls.
pub proof fn lemma_cut_frame_is_truncated(
    b0: u8,
    packed: Seq<u8>,
    records: Seq<ClaimRecord>,
    cut: int,
)
    requires
        b0 < UNKNOWN_FORMAT,
        packed.len() < pow256(b0 as nat),
        spec_unpack_array(packed) == Some(claim_ints(records)),
        lengths_fit(records),
        0 < cut < claim_frame(b0, packed, claim_payload(records)).len(),
    ensures
        spec_decode_claims(claim_frame(b0, packed, claim_payload(records)).take(cut)) == Err::<
            Option<Seq<ClaimRecord>>,
            _,
        >(MalformedResponse::Truncated),
{
    let payload = claim_payload(records);
    let whole = claim_frame(b0, packed, payload);
    let buf = whole.take(cut);
    let begin = 1 + b0 as int;
    let end = begin + packed.len();
    lemma_le_bytes_value(packed.len(), b0 as nat);
    assert(buf[0] == b0);
    if cut >= begin {
        assert(buf.subrange(1, begin) =~= le_bytes(packed.len(), b0 as nat));
        if cut >= end {
            assert(buf.subrange(begin, end) =~= packed);
            lemma_payload_offset_of_records(end, records, records.len());
            assert(records.take(records.len() as int) =~= records);
            assert(whole.len() == end + payload.len());
            assert(claim_ints(records).len() == 5 * records.len());
        }
    }
}

/// Whether `records` can be written as one reply: their integers can be
/// counted by an array header, and the array's length written in five bytes.
pub open spec fn can_frame(records: Seq<ClaimRecord>) -> bool {
    5 * records.len() <= 0xffff_ffff && spec_pack_array(claim_ints(records)).len() < pow256(5)
}

/// `records` as a reply: their integers as an array, everything in its
/// shortest form, then their keys and values.
pub open spec fn spec_encode_claims(records: Seq<ClaimRecord>) -> Seq<u8> {
    let packed = spec_pack_array(claim_ints(records));
    claim_frame(le_width(packed.len()) as u8, packed, claim_payload(records))
}

/// Decoding gives back what was encoded.
pub proof fn lemma_decode_encoded(records: Seq<ClaimRecord>)
    requires
        can_frame(records),
        lengths_fit(records),
    ensures
        spec_decode_claims(spec_encode_claims(records)) == Ok::<_, MalformedResponse>(
            Some(records),
        ),
{
    let length = spec_pack_array(claim_ints(records)).len();
    lemma_le_width_bound(length, 5);
    lemma_shortest_le(length);
    lemma_decode_packed_frame(le_width(length) as u8, records);
}

/// Cuts the keys and values of the entries that `ints` describe out of
/// `buf`, from `start` on.
pub fn split_claims(buf: &[u8], start: usize, ints: &Vec<u64>) -> (r: Result<
    Vec<ClaimedEntry>,
    MalformedResponse,
>)
    ensures
        match r {
            Ok(entries) => spec_split_claims(buf@, start as int, ints@) == Ok::<
                _,
                MalformedResponse,
            >(claim_views(entries@)),
            Err(e) => spec_split_claims(buf@, start as int, ints@) == Err::<Seq<ClaimRecord>, _>(e),
        },
{
    let len: usize = buf.len();
    let count: usize = ints.len() / CHUNK;
    if ints.len() % CHUNK != 0 {
        return Err(MalformedResponse::Chunks);
    }
    if start > len {
        proof {
            lemma_payload_offset_grows(start as int, ints@, 0, count as nat);
        }
        return Err(MalformedResponse::Truncated);
    }
    let mut entries: Vec<ClaimedEntry> = Vec::new();
    let mut pos: usize = start;
    let mut i: usize = 0;
    while i < count
        invariant
            len == buf.len(),
            count == ints.len() / 5,
            ints.len() % 5 == 0,
            i <= count,
            pos <= len,
            pos == payload_offset(start as int, ints@, i as nat),
            entries@.len() == i,
            forall|j: int| 0 <= j < i ==> (#[trigger] entries@[j])@ == claim_at(buf@, start as int, ints@, j),
        decreases count - i,
    {
        let retry: u64 = ints[CHUNK * i];
        let t0: u64 = ints[CHUNK * i + 1];
        let t1: u64 = ints[CHUNK * i + 2];
        let key_len: u64 = ints[CHUNK * i + 3];
        let val_len: u64 = ints[CHUNK * i + 4];
        let room: usize = len - pos;
        if key_len > room as u64 {
            proof {
                lemma_overlong_field_is_truncation(buf@, start as int, ints@, i as nat);
            }
            return Err(MalformedResponse::Truncated);
        }
        let key_end: usize = pos + key_len as usize;
        if val_len > (len - key_end) as u64 {
            proof {
                lemma_overlong_field_is_truncation(buf@, start as int, ints@, i as nat);
            }
            return Err(MalformedResponse::Truncated);
        }
        let val_end: usize = key_end + val_len as usize;
        let key: Vec<u8> = slice_to_vec(slice_subrange(buf, pos, key_end));
        let val: Vec<u8> = slice_to_vec(slice_subrange(buf, key_end, val_end));
        entries.push(ClaimedEntry { retry, t0, t1, key, val });
        pos = val_end;
        i = i + 1;
    }
    proof {
        assert(claim_views(entries@) =~= Seq::new(
            count as nat,
            |i: int| claim_at(buf@, start as int, ints@, i),
        ));
    }
    Ok(entries)
}

/// Finds the integers of a claim reply: the positions of their first byte
/// and of the first byte behind them, where the keys and values begin.
/// `Ok(None)` for a reply that claims nothing.
pub fn claim_segment(buf: &[u8]) -> (r: Result<Option<(usize, usize)>, MalformedResponse>)
    ensures
        match r {
            Ok(Some((begin, end))) => {
                &&& spec_claim_segment(buf@) == Ok::<_, MalformedResponse>(
                    Some((begin as int, end as int)),
                )
                &&& begin <= end <= buf@.len()
            },
            Ok(None) => spec_claim_segment(buf@) == Ok::<Option<(int, int)>, MalformedResponse>(
                None,
            ),
            Err(e) => spec_claim_segment(buf@) == Err::<Option<(int, int)>, _>(e),
        },
{
    let len: usize = buf.len();
    if len == 0 {
        return Ok(None);
    }
    let b0: u8 = buf[0];
    if b0 >= UNKNOWN_FORMAT {
        return Ok(None);
    }
    let begin: usize = 1 + b0 as usize;
    if len < begin {
        return Err(MalformedResponse::Truncated);
    }
    let declared: u64 = read_le(slice_subrange(buf, 1, begin));
    if declared > (len - begin) as u64 {
        return Err(MalformedResponse::Truncated);
    }
    Ok(Some((begin, begin + declared as usize)))
}

/// Takes a claim reply apart.
///
/// `Ok(None)` for a reply that claims nothing: an empty one, or one in a
/// format that this version does not know. Otherwise the claimed entries in
/// the order of the reply, every key and value exactly as long as the reply
/// declares it; or the reason why the reply cannot be read. Nothing is
/// returned for a reply of which only a part can be read.
pub fn decode_claims(buf: &[u8]) -> (r: Result<Option<Vec<ClaimedEntry>>, MalformedResponse>)
    ensures
        match r {
            Ok(Some(entries)) => spec_decode_claims(buf@) == Ok::<_, MalformedResponse>(
                Some(claim_views(entries@)),
            ),
            Ok(None) => spec_decode_claims(buf@) == Ok::<Option<Seq<ClaimRecord>>, MalformedResponse>(
                None,
            ),
            Err(e) => spec_decode_claims(buf@) == Err::<Option<Seq<ClaimRecord>>, _>(e),
        },
        buf@.len() == 0 || buf@[0] >= UNKNOWN_FORMAT ==> r == Ok::<
            Option<Vec<ClaimedEntry>>,
            MalformedResponse,
        >(None),
{
    match claim_segment(buf) {
        Err(e) => Err(e),
        Ok(None) => Ok(None),
        Ok(Some((begin, end))) => match unpack_array(slice_subrange(buf, begin, end)) {
            None => Err(MalformedResponse::Integers),
            Some(ints) => match split_claims(buf, end, &ints) {
                Err(e) => Err(e),
                Ok(entries) => Ok(Some(entries)),
            },
        },
    }
}

/// Appends `bytes` to `out`.
fn append_bytes(out: &mut Vec<u8>, bytes: &[u8])
    ensures
        final(out)@ == old(out)@ + bytes@,
{
    out.extend_from_slice(bytes);
    proof {
        assert(out@ =~= old(out)@ + bytes@);
    }
}

/// The integers that describe `entries`: five for each, in order.
fn claim_numbers(entries: &[ClaimedEntry]) -> (numbers: Vec<u64>)
    ensures
        numbers@ == claim_ints(claim_views(entries@)),
{
    let ghost records = claim_views(entries@);
    let mut numbers: Vec<u64> = Vec::new();
    let mut i: usize = 0;
    proof {
        assert(numbers@ =~= claim_ints(records.take(0)));
    }
    while i < entries.len()
        invariant
            i <= entries@.len(),
            records == claim_views(entries@),
            numbers@ == claim_ints(records.take(i as int)),
        decreases entries@.len() - i,
    {
        let ghost before = numbers@;
        let entry = &entries[i];
        numbers.push(entry.retry);
        numbers.push(entry.t0);
        numbers.push(entry.t1);
        numbers.push(entry.key.len() as u64);
        numbers.push(entry.val.len() as u64);
        proof {
            let next = claim_ints(records.take(i + 1));
            assert(numbers@.len() == next.len());
            assert forall|j: int| 0 <= j < next.len() implies numbers@[j] == next[j] by {
                if j < 5 * i {
                    assert(numbers@[j] == before[j]);
                    assert(records.take(i + 1)[j / 5] == records.take(i as int)[j / 5]);
                } else {
                    assert(j / 5 == i);
                    assert(records.take(i + 1)[j / 5] == entries@[i as int]@);
                }
            }
            assert(numbers@ =~= next);
        }
        i = i + 1;
    }
    proof {
        assert(records.take(entries@.len() as int) =~= records);
    }
    numbers
}

/// Puts a claim reply together: the reply that decodes to `entries`, its
/// integers and its length in their shortest forms. `None` where there are
/// more entries, or longer integers, than a reply can hold.
pub fn encode_claims(entries: &[ClaimedEntry]) -> (r: Option<Vec<u8>>)
    ensures
        match r {
            Some(buf) => {
                &&& can_frame(claim_views(entries@))
                &&& buf@ == spec_encode_claims(claim_views(entries@))
                &&& spec_decode_claims(buf@) == Ok::<_, MalformedResponse>(
                    Some(claim_views(entries@)),
                )
            },
            None => !can_frame(claim_views(entries@)),
        },
{
    let ghost records = claim_views(entries@);
    let numbers = claim_numbers(entries);
    let packed = match pack_array(numbers.as_slice()) {
        None => {
            return None;
        },
        Some(packed) => packed,
    };
    proof {
        lemma_pow256_small();
    }
    if packed.len() as u64 >= 0x100_0000_0000 {
        return None;
    }
    let length = u64_bin(packed.len() as u64);
    proof {
        lemma_le_width_bound(packed@.len(), 5);
        lemma_shortest_le(packed@.len());
        assert forall|i: int| 0 <= i < records.len() implies (#[trigger] records[i]).key.len()
            <= u64::MAX && records[i].val.len() <= u64::MAX by {
            assert(entries@[i].key.len() == records[i].key.len());
            assert(entries@[i].val.len() == records[i].val.len());
        }
        lemma_decode_encoded(records);
    }
    let mut buf: Vec<u8> = Vec::new();
    buf.push(length.len() as u8);
    append_bytes(&mut buf, length.as_slice());
    append_bytes(&mut buf, packed.as_slice());
    let ghost head = buf@;
    let mut i: usize = 0;
    proof {
        assert(records.take(0) =~= Seq::<ClaimRecord>::empty());
        assert(head + claim_payload(records.take(0)) =~= head);
    }
    while i < entries.len()
        invariant
            i <= entries@.len(),
            records == claim_views(entries@),
            buf@ == head + claim_payload(records.take(i as int)),
        decreases entries@.len() - i,
    {
        let ghost before = claim_payload(records.take(i as int));
        proof {
            lemma_payload_of_prefix(records, i as int);
        }
        append_bytes(&mut buf, entries[i].key.as_slice());
        append_bytes(&mut buf, entries[i].val.as_slice());
        proof {
            assert(buf@ =~= head + (before + records[i as int].key + records[i as int].val));
        }
        i = i + 1;
    }
    proof {
        assert(records.take(entries@.len() as int) =~= records);
        assert(head =~= seq![le_width(packed@.len()) as u8] + shortest_le(packed@.len())
            + packed@);
        assert(buf@ =~= spec_encode_claims(records));
    }
    Some(buf)
}

} // verus!
