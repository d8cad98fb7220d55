//! Numbers written as strings of bytes, base 256.
//!
//! The claim reply carries its segment length with the least significant
//! byte first, in as few bytes as the number needs; MessagePack writes its
//! integers with the most significant byte first, in a fixed width.

use vstd::prelude::*;

verus! {

/// 256 to the power `n`.
pub open spec fn pow256(n: nat) -> nat
    decreases n,
{
    if n == 0 {
        1
    } else {
        256 * pow256((n - 1) as nat)
    }
}

/// The number that `bytes` spell, least significant byte first.
pub open spec fn le_value(bytes: Seq<u8>) -> nat
    decreases bytes.len(),
{
    if bytes.len() == 0 {
        0
    } else {
        bytes[0] as nat + 256 * le_value(bytes.skip(1))
    }
}

/// The number that `bytes` spell, most significant byte first.
pub open spec fn be_value(bytes: Seq<u8>) -> nat
    decreases bytes.len(),
{
    if bytes.len() == 0 {
        0
    } else {
        256 * be_value(bytes.drop_last()) + bytes.last() as nat
    }
}

/// The `width` bytes that spell `n`, least significant first. Digits of `n`
/// beyond `width` are dropped.
pub open spec fn le_bytes(n: nat, width: nat) -> Seq<u8>
    decreases width,
{
    if width == 0 {
        Seq::empty()
    } else {
        seq![(n % 256) as u8] + le_bytes(n / 256, (width - 1) as nat)
    }
}

/// The `width` bytes that spell `n`, most significant first. Digits of `n`
/// beyond `width` are dropped.
pub open spec fn be_bytes(n: nat, width: nat) -> Seq<u8>
    decreases width,
{
    if width == 0 {
        Seq::empty()
    } else {
        be_bytes(n / 256, (width - 1) as nat).push((n % 256) as u8)
    }
}

/// Whether `bytes` is the shortest little-endian spelling of a number: it
/// does not end in a zero byte.
pub open spec fn is_shortest_le(bytes: Seq<u8>) -> bool {
    bytes.len() > 0 ==> bytes.last() != 0
}

pub proof fn lemma_pow256_positive(n: nat)
    ensures
        pow256(n) >= 1,
    decreases n,
{
    if n > 0 {
        lemma_pow256_positive((n - 1) as nat);
    }
}

pub proof fn lemma_pow256_increases(a: nat, b: nat)
    requires
        a <= b,
    ensures
        pow256(a) <= pow256(b),
    decreases b,
{
    if a < b {
        lemma_pow256_increases(a, (b - 1) as nat);
        lemma_pow256_positive((b - 1) as nat);
    }
}

/// The powers of 256 that fit the machine's integers.
pub proof fn lemma_pow256_small()
    ensures
        pow256(0) == 1,
        pow256(1) == 0x100,
        pow256(2) == 0x1_0000,
        pow256(3) == 0x100_0000,
        pow256(4) == 0x1_0000_0000,
        pow256(5) == 0x100_0000_0000,
        pow256(6) == 0x1_0000_0000_0000,
        pow256(7) == 0x100_0000_0000_0000,
        pow256(8) == 0x1_0000_0000_0000_0000,
{
    reveal_with_fuel(pow256, 9);
}

/// A little-endian string of `k` bytes spells a number below `256^k`.
pub proof fn lemma_le_value_bound(bytes: Seq<u8>)
    ensures
        le_value(bytes) < pow256(bytes.len()),
    decreases bytes.len(),
{
    if bytes.len() > 0 {
        lemma_le_value_bound(bytes.skip(1));
    }
}

/// A big-endian string of `k` bytes spells a number below `256^k`.
pub proof fn lemma_be_value_bound(bytes: Seq<u8>)
    ensures
        be_value(bytes) < pow256(bytes.len()),
    decreases bytes.len(),
{
    if bytes.len() > 0 {
        lemma_be_value_bound(bytes.drop_last());
    }
}

/// Reading back what `le_bytes` wrote gives the number, where it fits the width.
pub proof fn lemma_le_bytes_value(n: nat, width: nat)
    requires
        n < pow256(width),
    ensures
        le_bytes(n, width).len() == width,
        le_value(le_bytes(n, width)) == n,
    decreases width,
{
    if width > 0 {
        let rest = le_bytes(n / 256, (width - 1) as nat);
        lemma_le_bytes_value(n / 256, (width - 1) as nat);
        assert(le_bytes(n, width).skip(1) =~= rest);
    }
}

/// Reading back what `be_bytes` wrote gives the number, where it fits the width.
pub proof fn lemma_be_bytes_value(n: nat, width: nat)
    requires
        n < pow256(width),
    ensures
        be_bytes(n, width).len() == width,
        be_value(be_bytes(n, width)) == n,
    decreases width,
{
    if width > 0 {
        let front = be_bytes(n / 256, (width - 1) as nat);
        lemma_be_bytes_value(n / 256, (width - 1) as nat);
        assert(be_bytes(n, width).drop_last() =~= front);
    }
}

/// The number spelled by at most eight bytes, least significant first.
pub fn read_le(bytes: &[u8]) -> (v: u64)
    requires
        bytes.len() <= 8,
    ensures
        v == le_value(bytes@),
{
    let n: usize = bytes.len();
    let mut i: usize = n;
    let mut acc: u64 = 0;
    proof {
        assert(bytes@.subrange(n as int, n as int) =~= Seq::<u8>::empty());
    }
    while i > 0
        invariant
            i <= n,
            n == bytes.len(),
            n <= 8,
            acc == le_value(bytes@.subrange(i as int, n as int)),
        decreases i,
    {
        proof {
            let tail = bytes@.subrange(i as int, n as int);
            lemma_le_value_bound(tail);
            lemma_pow256_increases(tail.len(), 7);
            lemma_pow256_small();
            assert(bytes@.subrange(i - 1, n as int).skip(1) =~= tail);
        }
        i -= 1;
        acc = acc * 256 + bytes[i] as u64;
    }
    proof {
        assert(bytes@.subrange(0, n as int) =~= bytes@);
    }
    acc
}

/// The number spelled by at most eight bytes, most significant first.
pub fn read_be(bytes: &[u8]) -> (v: u64)
    requires
        bytes.len() <= 8,
    ensures
        v == be_value(bytes@),
{
    let n: usize = bytes.len();
    let mut i: usize = 0;
    let mut acc: u64 = 0;
    proof {
        assert(bytes@.subrange(0, 0) =~= Seq::<u8>::empty());
    }
    while i < n
        invariant
            i <= n,
            n == bytes.len(),
            n <= 8,
            acc == be_value(bytes@.subrange(0, i as int)),
        decreases n - i,
    {
        proof {
            let head = bytes@.subrange(0, i as int);
            lemma_be_value_bound(head);
            lemma_pow256_increases(head.len(), 7);
            lemma_pow256_small();
            assert(bytes@.subrange(0, i + 1).drop_last() =~= head);
        }
        acc = acc * 256 + bytes[i] as u64;
        i += 1;
    }
    proof {
        assert(bytes@.subrange(0, n as int) =~= bytes@);
    }
    acc
}

/// How many bytes the shortest little-endian spelling of `n` has.
pub open spec fn le_width(n: nat) -> nat
    decreases n,
{
    if n == 0 {
        0
    } else {
        1 + le_width(n / 256)
    }
}

/// The shortest little-endian spelling of `n`.
pub open spec fn shortest_le(n: nat) -> Seq<u8> {
    le_bytes(n, le_width(n))
}

/// A number below `256^k` is spelled in `k` bytes or fewer.
pub proof fn lemma_le_width_bound(n: nat, k: nat)
    requires
        n < pow256(k),
    ensures
        le_width(n) <= k,
    decreases n,
{
    if n > 0 {
        lemma_le_width_bound(n / 256, (k - 1) as nat);
    }
}

/// The shortest spelling spells the number, and no spelling that spells
/// it is shorter: it has no zero byte at its end.
pub proof fn lemma_shortest_le(n: nat)
    ensures
        shortest_le(n).len() == le_width(n),
        le_value(shortest_le(n)) == n,
        is_shortest_le(shortest_le(n)),
        n < pow256(le_width(n)),
    decreases n,
{
    if n > 0 {
        lemma_shortest_le(n / 256);
        let rest = shortest_le(n / 256);
        assert(shortest_le(n) =~= seq![(n % 256) as u8] + rest);
        assert(shortest_le(n).skip(1) =~= rest);
        if rest.len() > 0 {
            assert(shortest_le(n).last() == rest.last());
        }
    }
}

/// The shortest little-endian spelling of `n`: its bytes from the least
/// significant up to the last one that is not zero. Zero is the empty string.
pub fn u64_bin(n: u64) -> (bytes: Vec<u8>)
    ensures
        bytes@ == shortest_le(n as nat),
        le_value(bytes@) == n,
        is_shortest_le(bytes@),
        bytes@.len() <= 8,
{
    let mut bytes: Vec<u8> = Vec::new();
    let mut rest: u64 = n;
    proof {
        assert(bytes@ + shortest_le(rest as nat) =~= shortest_le(n as nat));
    }
    while rest > 0
        invariant
            bytes@ + shortest_le(rest as nat) == shortest_le(n as nat),
        decreases rest,
    {
        let low: u8 = (rest % 256) as u8;
        proof {
            let after = shortest_le((rest / 256) as nat);
            assert(shortest_le(rest as nat) =~= seq![low] + after);
            assert(bytes@.push(low) + after =~= bytes@ + (seq![low] + after));
        }
        bytes.push(low);
        rest = rest / 256;
    }
    proof {
        assert(bytes@ + Seq::<u8>::empty() =~= bytes@);
        lemma_shortest_le(n as nat);
        lemma_pow256_small();
        lemma_le_width_bound(n as nat, 8);
    }
    bytes
}

} // verus!
