//! Big-endian integer interpretation of byte strings.
//!
//! Record bodies, cell counts, and page pointers all store integers as
//! big-endian byte strings of a known width; this module gives those strings
//! their mathematical value and decodes them without overflow.

use vstd::prelude::*;

verus! {

/// 256 raised to `n`: the number of byte strings of length `n`.
pub open spec fn pow256(n: nat) -> nat
    decreases n,
{
    if n == 0 {
        1
    } else {
        256 * pow256((n - 1) as nat)
    }
}

/// The unsigned value of a big-endian byte string.
pub open spec fn be_uint(bytes: Seq<u8>) -> nat
    decreases bytes.len(),
{
    if bytes.len() == 0 {
        0
    } else {
        (be_uint(bytes.drop_last()) * 256 + bytes.last()) as nat
    }
}

/// The two's-complement signed value of a big-endian byte string: the
/// unsigned value, shifted down by one whole range when the sign bit of the
/// leading byte is set.
pub open spec fn be_sint(bytes: Seq<u8>) -> int {
    if bytes.len() > 0 && bytes[0] >= 128 {
        be_uint(bytes) - pow256(bytes.len())
    } else {
        be_uint(bytes) as int
    }
}

/// `pow256` never vanishes.
pub proof fn lemma_pow256_pos(n: nat)
    ensures
        pow256(n) >= 1,
    decreases n,
{
    if n > 0 {
        lemma_pow256_pos((n - 1) as nat);
    }
}

/// `pow256` is monotone in its exponent.
pub proof fn lemma_pow256_le(a: nat, b: nat)
    requires
        a <= b,
    ensures
        pow256(a) <= pow256(b),
    decreases b,
{
    if a < b {
        lemma_pow256_le(a, (b - 1) as nat);
        lemma_pow256_pos((b - 1) as nat);
    }
}

/// The concrete powers the decoders bound their accumulators with.
pub proof fn lemma_pow256_values()
    ensures
        pow256(1) == 0x100,
        pow256(2) == 0x1_0000,
        pow256(4) == 0x1_0000_0000,
        pow256(7) == 0x100_0000_0000_0000,
        pow256(8) == 0x1_0000_0000_0000_0000,
{
    assert(pow256(0) == 1);
    assert(pow256(1) == 0x100);
    assert(pow256(2) == 0x1_0000);
    assert(pow256(3) == 0x100_0000);
    assert(pow256(4) == 0x1_0000_0000);
    assert(pow256(5) == 0x100_0000_0000);
    assert(pow256(6) == 0x1_0000_0000_0000);
    assert(pow256(7) == 0x100_0000_0000_0000);
    assert(pow256(8) == 0x1_0000_0000_0000_0000);
}

/// The unsigned value of a byte string fits in its width.
pub proof fn lemma_be_uint_bound(bytes: Seq<u8>)
    ensures
        be_uint(bytes) < pow256(bytes.len()),
    decreases bytes.len(),
{
    if bytes.len() > 0 {
        lemma_be_uint_bound(bytes.drop_last());
    }
}

/// Decodes a big-endian unsigned integer of at most eight bytes.
pub fn parse_int(bytes: &[u8]) -> (r: u64)
    requires
        bytes@.len() <= 8,
    ensures
        r == be_uint(bytes@),
{
    let mut value: u64 = 0;
    let mut i: usize = 0;
    while i < bytes.len()
        invariant
            i <= bytes@.len() <= 8,
            value == be_uint(bytes@.take(i as int)),
            value < pow256(i as nat),
        decreases bytes@.len() - i,
    {
        proof {
            lemma_pow256_le(i as nat, 7);
            lemma_pow256_values();
            assert(bytes@.take(i + 1).drop_last() =~= bytes@.take(i as int));
            assert(bytes@.take(i + 1).last() == bytes@[i as int]);
        }
        value = value * 256 + bytes[i] as u64;
        i = i + 1;
    }
    proof {
        assert(bytes@.take(bytes@.len() as int) =~= bytes@);
    }
    value
}

/// Decodes a big-endian two's-complement signed integer of at most eight
/// bytes; an empty string decodes to zero.
pub fn parse_int_signed(bytes: &[u8]) -> (r: i64)
    requires
        bytes@.len() <= 8,
    ensures
        r == be_sint(bytes@),
{
    if bytes.len() == 0 {
        return 0;
    }
    let b0 = bytes[0];
    let mut value: i64 = if b0 >= 128 {
        b0 as i64 - 256
    } else {
        b0 as i64
    };
    proof {
        assert(bytes@.take(1).drop_last() =~= Seq::<u8>::empty());
        assert(bytes@.take(1).last() == b0);
        assert(bytes@.take(1)[0] == b0);
        assert(be_uint(Seq::<u8>::empty()) == 0);
        assert(be_uint(bytes@.take(1)) == b0);
        assert(pow256(0) == 1);
        assert(pow256(1) == 256);
    }
    let mut i: usize = 1;
    while i < bytes.len()
        invariant
            1 <= i <= bytes@.len() <= 8,
            value == be_sint(bytes@.take(i as int)),
            -128 * pow256((i - 1) as nat) <= value < 128 * pow256((i - 1) as nat),
        decreases bytes@.len() - i,
    {
        proof {
            lemma_pow256_le((i - 1) as nat, 6);
            lemma_pow256_values();
            let pre = bytes@.take(i as int);
            let post = bytes@.take(i + 1);
            assert(post.drop_last() =~= pre);
            assert(post.last() == bytes@[i as int]);
            assert(post[0] == pre[0]);
        }
        value = value * 256 + bytes[i] as i64;
        i = i + 1;
    }
    proof {
        assert(bytes@.take(bytes@.len() as int) =~= bytes@);
    }
    value
}

} // verus!
