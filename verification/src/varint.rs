//! The base-128 variable-length integer encoding used throughout headers and
//! records.
//!
//! Each byte contributes its low seven bits, most significant first; a set
//! high bit announces another byte.  At most nine bytes are read, and the
//! ninth contributes all eight of its bits.

use vstd::prelude::*;

use crate::errors::DbError;

verus! {

/// 128 raised to `n`: the number of `n`-digit base-128 strings.
pub open spec fn pow128(n: nat) -> nat
    decreases n,
{
    if n == 0 {
        1
    } else {
        128 * pow128((n - 1) as nat)
    }
}

/// `pow128` never vanishes.
pub proof fn lemma_pow128_pos(n: nat)
    ensures
        pow128(n) >= 1,
    decreases n,
{
    if n > 0 {
        lemma_pow128_pos((n - 1) as nat);
    }
}

/// `pow128` is monotone in its exponent.
pub proof fn lemma_pow128_le(a: nat, b: nat)
    requires
        a <= b,
    ensures
        pow128(a) <= pow128(b),
    decreases b,
{
    if a < b {
        lemma_pow128_le(a, (b - 1) as nat);
        lemma_pow128_pos((b - 1) as nat);
    }
}

/// The concrete powers the codec bounds its accumulator with.
pub proof fn lemma_pow128_values()
    ensures
        pow128(1) == 0x80,
        pow128(7) == 0x2_0000_0000_0000,
        pow128(8) == 0x100_0000_0000_0000,
{
    assert(pow128(0) == 1);
    assert(pow128(1) == 0x80);
    assert(pow128(2) == 0x4000);
    assert(pow128(3) == 0x20_0000);
    assert(pow128(4) == 0x1000_0000);
    assert(pow128(5) == 0x8_0000_0000);
    assert(pow128(6) == 0x400_0000_0000);
    assert(pow128(7) == 0x2_0000_0000_0000);
    assert(pow128(8) == 0x100_0000_0000_0000);
}

/// One step of decoding with `acc` already holding the bits of `consumed`
/// continuation bytes: the decoded value and the total count of bytes
/// consumed, or `None` if the bytes run out before a terminator.
pub open spec fn varint_decode_rec(bytes: Seq<u8>, acc: nat, consumed: nat) -> Option<(nat, nat)>
    decreases 9 - consumed,
{
    if consumed >= 9 {
        None
    } else if bytes.len() == 0 {
        None
    } else if consumed == 8 {
        Some(((acc * 256 + bytes[0]) as nat, 9))
    } else if bytes[0] < 128 {
        Some(((acc * 128 + bytes[0]) as nat, (consumed + 1) as nat))
    } else {
        varint_decode_rec(bytes.skip(1), (acc * 128 + bytes[0] - 128) as nat, (consumed + 1) as nat)
    }
}

/// The value encoded at the front of `bytes` and the count of bytes it
/// occupies, or `None` if `bytes` ends before a terminator.
pub open spec fn varint_decode(bytes: Seq<u8>) -> Option<(nat, nat)> {
    varint_decode_rec(bytes, 0, 0)
}

/// A successful decode consumes between one and nine available bytes and
/// yields a value below two to the sixty-fourth.
pub proof fn lemma_varint_decode_rec_props(bytes: Seq<u8>, acc: nat, consumed: nat)
    requires
        acc < pow128(consumed),
        consumed <= 8,
    ensures
        (match varint_decode_rec(bytes, acc, consumed) {
            Some(r) => consumed < r.1 <= 9 && r.1 - consumed <= bytes.len() && r.0
                < 0x1_0000_0000_0000_0000,
            None => true,
        }),
    decreases 9 - consumed,
{
    lemma_pow128_values();
    lemma_pow128_le(consumed, 8);
    if consumed < 8 && bytes.len() > 0 && bytes[0] >= 128 {
        lemma_pow128_le((consumed + 1) as nat, 8);
        lemma_varint_decode_rec_props(
            bytes.skip(1),
            (acc * 128 + bytes[0] - 128) as nat,
            (consumed + 1) as nat,
        );
    }
}

/// Consequences of `lemma_varint_decode_rec_props` for a whole decode.
pub proof fn lemma_varint_decode_props(bytes: Seq<u8>)
    ensures
        (match varint_decode(bytes) {
            Some(r) => 1 <= r.1 <= 9 && r.1 <= bytes.len() && r.0 < 0x1_0000_0000_0000_0000,
            None => true,
        }),
{
    lemma_varint_decode_rec_props(bytes, 0, 0);
}

/// Decodes the variable-length integer at the front of `cell`, returning the
/// value and the count of bytes consumed, or `MalformedVarint` if the slice
/// is exhausted before a terminating byte.
pub fn parse_varint(cell: &[u8]) -> (r: Result<(u64, usize), DbError>)
    ensures
        (match r {
            Ok(p) => varint_decode(cell@) == Some((p.0 as nat, p.1 as nat)) && 1 <= p.1 <= 9
                && p.1 <= cell@.len(),
            Err(e) => e == DbError::MalformedVarint && varint_decode(cell@) is None,
        }),
{
    let mut acc: u64 = 0;
    let mut i: usize = 0;
    proof {
        assert(cell@.skip(0) =~= cell@);
    }
    loop
        invariant
            i <= 8,
            i <= cell@.len(),
            (acc as nat) < pow128(i as nat),
            varint_decode_rec(cell@.skip(i as int), acc as nat, i as nat) == varint_decode(cell@),
        decreases 9 - i,
    {
        proof {
            lemma_pow128_le(i as nat, 8);
            lemma_pow128_values();
        }
        if i >= cell.len() {
            proof {
                assert(cell@.skip(i as int).len() == 0);
            }
            return Err(DbError::MalformedVarint);
        }
        let b = cell[i];
        proof {
            assert(cell@.skip(i as int)[0] == cell@[i as int]);
        }
        if i == 8 {
            return Ok((acc * 256 + b as u64, 9));
        }
        if b < 128 {
            return Ok((acc * 128 + b as u64, i + 1));
        }
        proof {
            assert(cell@.skip(i as int).skip(1) =~= cell@.skip(i as int + 1));
        }
        acc = acc * 128 + (b - 128) as u64;
        i = i + 1;
    }
}

/// The count of base-128 digits of `v`.
pub open spec fn len7(v: nat) -> nat
    decreases v,
{
    if v < 128 {
        1
    } else {
        (1 + len7(v / 128)) as nat
    }
}

/// A value fits in its own digit count.
pub proof fn lemma_len7_pow(v: nat)
    ensures
        v < pow128(len7(v)),
    decreases v,
{
    if v < 128 {
        assert(len7(v) == 1);
        assert(pow128(0) == 1);
        assert(pow128(1) == 128);
        assert(v < pow128(len7(v)));
    } else {
        lemma_len7_pow(v / 128);
        let l = len7(v / 128);
        assert(len7(v) == l + 1);
        assert(pow128((l + 1) as nat) == 128 * pow128(l));
        assert(v == 128 * (v / 128) + v % 128) by {
            vstd::arithmetic::div_mod::lemma_fundamental_div_mod(v as int, 128);
        };
        assert(v % 128 < 128) by {
            vstd::arithmetic::div_mod::lemma_mod_division_less_than_divisor(v as int, 128);
        };
        assert(v / 128 <= pow128(l) - 1);
        assert(128 * (v / 128) <= 128 * (pow128(l) - 1));
        assert(v < 128 * pow128(l));
        assert(v < pow128(len7(v)));
    }
}

/// Every value has at least one digit.
pub proof fn lemma_len7_pos(v: nat)
    ensures
        len7(v) >= 1,
    decreases v,
{
    if v >= 128 {
        lemma_len7_pos(v / 128);
    }
}

/// A value below `pow128(n)` has at most `n` digits.
pub proof fn lemma_len7_le(v: nat, n: nat)
    requires
        v < pow128(n),
        n >= 1,
    ensures
        len7(v) <= n,
    decreases n,
{
    if v >= 128 {
        let p = pow128((n - 1) as nat);
        lemma_pow128_pos((n - 1) as nat);
        vstd::arithmetic::div_mod::lemma_multiply_divide_lt(v as int, 128, p as int);
        lemma_len7_le(v / 128, (n - 1) as nat);
    }
}

/// Exactly `n` continuation-marked big-endian base-128 digits of `v`.
pub open spec fn cont_bytes(v: nat, n: nat) -> Seq<u8>
    decreases n,
{
    if n == 0 {
        Seq::empty()
    } else {
        seq![((v / pow128((n - 1) as nat)) % 128 + 128) as u8] + cont_bytes(v, (n - 1) as nat)
    }
}

/// `cont_bytes` yields exactly the asked-for count of bytes.
pub proof fn lemma_cont_bytes_len(v: nat, n: nat)
    ensures
        cont_bytes(v, n).len() == n,
    decreases n,
{
    if n > 0 {
        lemma_cont_bytes_len(v, (n - 1) as nat);
    }
}

/// The encoding of `v`: its minimal continuation digits and a final plain
/// byte, except that a value of fifty-seven bits or more takes eight
/// continuation bytes and a final byte carrying all eight of its bits.
pub open spec fn varint_encode(v: nat) -> Seq<u8> {
    if v < pow128(8) {
        cont_bytes(v / 128, (len7(v) - 1) as nat) + seq![(v % 128) as u8]
    } else {
        cont_bytes(v / 256, 8) + seq![(v % 256) as u8]
    }
}

/// Running the decoder over continuation bytes accumulates exactly their
/// value.
proof fn lemma_decode_cont(v: nat, n: nat, tail: Seq<u8>, acc: nat, consumed: nat)
    requires
        consumed + n <= 8,
        acc < pow128(consumed),
    ensures
        varint_decode_rec(cont_bytes(v, n) + tail, acc, consumed) == varint_decode_rec(
            tail,
            (acc * pow128(n) + v % pow128(n)) as nat,
            (consumed + n) as nat,
        ),
    decreases n,
{
    if n == 0 {
        assert(cont_bytes(v, 0) + tail =~= tail);
        assert(pow128(0) == 1);
        assert(v % 1 == 0) by {
            vstd::arithmetic::div_mod::lemma_mod_division_less_than_divisor(v as int, 1);
        };
    } else {
        let p = pow128((n - 1) as nat);
        lemma_pow128_pos((n - 1) as nat);
        let head = (v / p) % 128;
        assert(head < 128) by {
            vstd::arithmetic::div_mod::lemma_mod_division_less_than_divisor((v / p) as int, 128);
        };
        let s = cont_bytes(v, n) + tail;
        lemma_cont_bytes_len(v, n);
        assert(s[0] == (head + 128) as u8);
        assert(pow128((consumed + 1) as nat) == 128 * pow128(consumed));
        let acc1 = (acc * 128 + head) as nat;
        assert(s.skip(1) =~= cont_bytes(v, (n - 1) as nat) + tail);
        lemma_decode_cont(v, (n - 1) as nat, tail, acc1, (consumed + 1) as nat);
        assert(v % (p * 128) == p * ((v / p) % 128) + v % p) by {
            vstd::arithmetic::div_mod::lemma_breakdown(v as int, p as int, 128);
        };
        assert(pow128(n) == 128 * p);
        assert((acc * 128 + head) * p == acc * (128 * p) + head * p) by (nonlinear_arith);
        assert(acc1 * p + v % p == acc * pow128(n) + v % pow128(n));
    }
}

/// Emits `cont_bytes(w, n)`.
fn emit_cont(w: u64, n: usize) -> (r: Vec<u8>)
    requires
        n <= 8,
    ensures
        r@ == cont_bytes(w as nat, n as nat),
{
    let mut out: Vec<u8> = Vec::new();
    if n == 0 {
        proof {
            assert(out@ =~= cont_bytes(w as nat, 0));
        }
        return out;
    }
    let mut d: u64 = 1;
    let mut k: usize = 1;
    while k < n
        invariant
            1 <= k <= n <= 8,
            d == pow128((k - 1) as nat),
        decreases n - k,
    {
        proof {
            lemma_pow128_le((k - 1) as nat, 6);
            lemma_pow128_values();
        }
        d = d * 128;
        k = k + 1;
    }
    let mut m = n;
    proof {
        assert(out@ + cont_bytes(w as nat, n as nat) =~= cont_bytes(w as nat, n as nat));
    }
    while m > 0
        invariant
            m <= n <= 8,
            m >= 1 ==> d == pow128((m - 1) as nat),
            out@ + cont_bytes(w as nat, m as nat) == cont_bytes(w as nat, n as nat),
        decreases m,
    {
        proof {
            lemma_pow128_pos((m - 1) as nat);
        }
        let ghost pre = out@;
        let ghost m0 = m as nat;
        let digit = (w / d) % 128;
        out.push((digit + 128) as u8);
        m = m - 1;
        proof {
            assert(cont_bytes(w as nat, m0) == seq![
                (((w as nat) / pow128((m0 - 1) as nat)) % 128 + 128) as u8,
            ] + cont_bytes(w as nat, (m0 - 1) as nat));
            assert(out@ + cont_bytes(w as nat, m as nat) =~= pre + cont_bytes(w as nat, m0));
        }
        if m > 0 {
            proof {
                assert(pow128((m - 1) as nat) * 128 == d);
                assert(d / 128 == pow128((m - 1) as nat)) by (nonlinear_arith)
                    requires
                        pow128((m - 1) as nat) * 128 == d,
                ;
            }
            d = d / 128;
        }
    }
    proof {
        assert(out@ + cont_bytes(w as nat, 0) =~= out@);
    }
    out
}

/// Encodes `v` as a variable-length integer.
pub fn encode_varint(v: u64) -> (r: Vec<u8>)
    ensures
        r@ == varint_encode(v as nat),
{
    proof {
        lemma_pow128_values();
    }
    if v >= 0x100_0000_0000_0000 {
        let mut out = emit_cont(v / 256, 8);
        out.push((v % 256) as u8);
        proof {
            assert(out@ =~= varint_encode(v as nat));
        }
        out
    } else {
        proof {
            lemma_len7_le(v as nat, 8);
        }
        let mut w = v;
        let mut n: usize = 0;
        while w >= 128
            invariant
                len7(v as nat) == n + len7(w as nat),
                len7(v as nat) <= 8,
                n <= 8,
            decreases w,
        {
            proof {
                lemma_len7_pos((w / 128) as nat);
            }
            w = w / 128;
            n = n + 1;
        }
        proof {
            assert(len7(w as nat) == 1);
            assert(len7(v as nat) == n + 1);
        }
        let mut out = emit_cont(v / 128, n);
        out.push((v % 128) as u8);
        proof {
            assert(out@ =~= varint_encode(v as nat));
        }
        out
    }
}

/// Round trip: decoding an encoding yields the encoded value back and
/// consumes the whole encoding, for every value of the executable integer
/// width.
pub proof fn lemma_varint_round_trip(v: u64)
    ensures
        1 <= varint_encode(v as nat).len() <= 9,
        varint_decode(varint_encode(v as nat)) == Some((
            v as nat,
            varint_encode(v as nat).len() as nat,
        )),
{
    lemma_pow128_values();
    if (v as nat) < pow128(8) {
        lemma_len7_le(v as nat, 8);
        lemma_len7_pow(v as nat);
        let n = (len7(v as nat) - 1) as nat;
        let hi = (v as nat) / 128;
        let lo = (v as nat) % 128;
        lemma_pow128_pos(n);
        assert(pow128((n + 1) as nat) == 128 * pow128(n));
        vstd::arithmetic::div_mod::lemma_multiply_divide_lt(v as int, 128, pow128(n) as int);
        assert(hi < pow128(n));
        let tail = seq![lo as u8];
        lemma_decode_cont(hi, n, tail, 0, 0);
        lemma_cont_bytes_len(hi, n);
        vstd::arithmetic::div_mod::lemma_small_mod(hi, pow128(n));
        assert(varint_decode_rec(tail, hi, n) == Some(((hi * 128 + lo) as nat, (n + 1) as nat)));
        assert(hi * 128 + lo == v) by {
            vstd::arithmetic::div_mod::lemma_fundamental_div_mod(v as int, 128);
        };
    } else {
        let hi = (v as nat) / 256;
        let lo = (v as nat) % 256;
        let tail = seq![lo as u8];
        lemma_decode_cont(hi, 8, tail, 0, 0);
        lemma_cont_bytes_len(hi, 8);
        assert(hi < pow128(8)) by {
            assert((v as nat) < 256 * pow128(8));
            vstd::arithmetic::div_mod::lemma_multiply_divide_lt(v as int, 256, pow128(8) as int);
        };
        vstd::arithmetic::div_mod::lemma_small_mod(hi, pow128(8));
        assert(varint_decode_rec(tail, hi, 8) == Some(((hi * 256 + lo) as nat, 9nat)));
        assert(hi * 256 + lo == v) by {
            vstd::arithmetic::div_mod::lemma_fundamental_div_mod(v as int, 256);
        };
    }
}

} // verus!
