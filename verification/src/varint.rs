//! The 1-to-9-byte big-endian variable-length integer encoding used
//! throughout the file format.
//!
//! The low seven bits of each of the first eight bytes accumulate into
//! the result most-significant-first; a set high bit marks a
//! continuation. If a ninth byte is reached, all eight of its bits
//! contribute. The accumulated 64-bit pattern is read as a signed
//! two's-complement integer.

use vstd::prelude::*;
use vstd::arithmetic::power2::pow2;

verus! {

/// The 64-bit two's-complement reading of an accumulated bit pattern.
pub open spec fn to_signed(v: nat) -> int {
    if v < 0x8000_0000_0000_0000 {
        v as int
    } else {
        v - 0x1_0000_0000_0000_0000
    }
}

/// One step of decoding: byte number `k` (1-based) is read at `pos`
/// with `acc` holding the bits gathered so far.
pub open spec fn spec_varint_rec(s: Seq<u8>, pos: int, k: nat, acc: nat) -> Option<(nat, nat)>
    decreases 10 - k,
{
    if k < 1 || k > 9 || pos < 0 || pos >= s.len() {
        None
    } else {
        let b = s[pos] as nat;
        if k == 9 {
            Some((acc * 256 + b, 9))
        } else if b < 128 {
            Some((acc * 128 + b, k))
        } else {
            spec_varint_rec(s, pos + 1, k + 1, (acc * 128 + (b - 128)) as nat)
        }
    }
}

/// What decoding a varint at `pos` of `s` yields: the two's-complement
/// value and the number of bytes consumed, or nothing if the bytes run
/// out first.
pub open spec fn spec_read_varint(s: Seq<u8>, pos: int) -> Option<(int, nat)> {
    match spec_varint_rec(s, pos, 1, 0) {
        None => None,
        Some((v, len)) => Some((to_signed(v), len)),
    }
}

/// The number of bytes a canonical encoding of `n` occupies: the
/// fewest seven-bit groups that hold its bits, or nine bytes once
/// fifty-six bits no longer suffice.
pub open spec fn canonical_varint_len(n: u64) -> nat {
    if n < 0x80 { 1 } else if n < 0x4000 { 2 } else if n < 0x20_0000 { 3
    } else if n < 0x1000_0000 { 4 } else if n < 0x8_0000_0000 { 5
    } else if n < 0x400_0000_0000 { 6 } else if n < 0x2_0000_0000_0000 { 7
    } else if n < 0x100_0000_0000_0000 { 8 } else { 9 }
}

/// The accumulated value never exceeds 64 bits: starting byte `k` with
/// `acc` under `2^(7*(k-1))` keeps every outcome under `2^64`.
proof fn lemma_varint_rec_bound(s: Seq<u8>, pos: int, k: nat, acc: nat)
    requires
        1 <= k <= 9,
        acc < pow2((7 * (k - 1)) as nat),
    ensures
        spec_varint_rec(s, pos, k, acc) matches Some((v, len))
            ==> v < 0x1_0000_0000_0000_0000 && k <= len <= 9,
    decreases 10 - k,
{
    vstd::arithmetic::power2::lemma2_to64();
    vstd::arithmetic::power2::lemma2_to64_rest();
    if 1 <= k <= 9 && 0 <= pos < s.len() {
        let b = s[pos] as nat;
        if k == 9 {
            assert(acc < pow2(56));
            assert(acc * 256 + b < pow2(56) * 256) by (nonlinear_arith)
                requires acc < pow2(56), b < 256;
            assert(pow2(56) * 256 == 0x1_0000_0000_0000_0000);
        } else if b < 128 {
            assert(acc * 128 + b < pow2((7 * (k - 1)) as nat) * 128) by (nonlinear_arith)
                requires acc < pow2((7 * (k - 1)) as nat), b < 128;
            assert(pow2((7 * (k - 1)) as nat) * 128 == pow2((7 * k) as nat)) by {
                vstd::arithmetic::power2::lemma_pow2_adds((7 * (k - 1)) as nat, 7);
            };
            vstd::arithmetic::power2::lemma_pow2_strictly_increases((7 * k) as nat, 64);
        } else {
            let acc2 = (acc * 128 + (b - 128)) as nat;
            assert(acc2 < pow2((7 * k) as nat)) by {
                assert(acc * 128 + (b - 128) < pow2((7 * (k - 1)) as nat) * 128) by (nonlinear_arith)
                    requires acc < pow2((7 * (k - 1)) as nat), b - 128 < 128;
                vstd::arithmetic::power2::lemma_pow2_adds((7 * (k - 1)) as nat, 7);
            };
            lemma_varint_rec_bound(s, pos + 1, k + 1, acc2);
        }
    }
}

/// Reads a varint starting at byte `pos` of `buf`.
///
/// Returns the parsed number and the varint length, or an error when
/// the input ends before the varint does.
pub fn read_varint(buf: &[u8], pos: usize) -> (r: Result<(i64, usize), crate::error::Error>)
    ensures
        match r {
            Ok((val, len)) => {
                &&& spec_read_varint(buf@, pos as int) == Some((val as int, len as nat))
                &&& 1 <= len <= 9
                &&& pos + len <= buf@.len()
            },
            Err(e) => {
                &&& spec_read_varint(buf@, pos as int) is None
                &&& e == crate::error::Error::VarintTruncated
            },
        },
{
    proof {
        vstd::arithmetic::power2::lemma2_to64();
        vstd::arithmetic::power2::lemma2_to64_rest();
    }
    let mut acc: u64 = 0;
    let mut k: usize = 1;
    let mut p: usize = pos;
    loop
        invariant
            1 <= k <= 9,
            pos <= p,
            p - pos == k - 1,
            p <= usize::MAX,
            acc < pow2((7 * (k - 1)) as nat),
            spec_varint_rec(buf@, pos as int, 1, 0) == spec_varint_rec(buf@, p as int, k as nat, acc as nat),
        decreases 10 - k,
    {
        proof {
            vstd::arithmetic::power2::lemma2_to64();
            vstd::arithmetic::power2::lemma2_to64_rest();
            lemma_varint_rec_bound(buf@, p as int, k as nat, acc as nat);
        }
        if p >= buf.len() {
            return Err(crate::error::Error::VarintTruncated);
        }
        let b = buf[p];
        if k == 9 {
            let v = acc * 256 + (b as u64);
            let val = signed_of(v);
            return Ok((val, 9));
        } else if b < 128 {
            proof {
                vstd::arithmetic::power2::lemma_pow2_adds((7 * (k - 1)) as nat, 7);
            }
            let v = acc * 128 + (b as u64);
            let val = signed_of(v);
            return Ok((val, k));
        } else {
            proof {
                vstd::arithmetic::power2::lemma_pow2_adds((7 * (k - 1)) as nat, 7);
            }
            acc = acc * 128 + ((b - 128) as u64);
            k = k + 1;
            p = p + 1;
        }
    }
}

/// Reads a 64-bit pattern as a signed two's-complement integer.
pub fn signed_of(v: u64) -> (r: i64)
    ensures
        r as int == to_signed(v as nat),
{
    if v < 0x8000_0000_0000_0000 {
        v as i64
    } else {
        ((v - 0x8000_0000_0000_0000) as i64) + i64::MIN
    }
}

/// The big-endian base-128 digit of `n` at position `i` of an
/// `len`-digit expansion (position 0 is the most significant).
pub open spec fn digit128(n: nat, len: nat, i: nat) -> nat {
    (n / pow2((7 * (len - 1 - i)) as nat)) % 128
}

/// Dropping the digits above position `7m` leaves every digit at or
/// below `7m - 7` unchanged.
proof fn lemma_digit_drop(n: nat, m: nat, j: nat)
    requires
        j + 7 <= 7 * m,
    ensures
        ((n % pow2(7 * m)) / pow2(j)) % 128 == (n / pow2(j)) % 128,
{
    let pj = pow2(j) as int;
    let pr = pow2((7 * m - j) as nat) as int;
    vstd::arithmetic::power2::lemma_pow2_pos(j);
    vstd::arithmetic::power2::lemma_pow2_pos((7 * m - j) as nat);
    vstd::arithmetic::power2::lemma_pow2_pos(7 * m);
    vstd::arithmetic::power2::lemma_pow2_adds(j, (7 * m - j) as nat);
    vstd::arithmetic::div_mod::lemma_breakdown(n as int, pj, pr);
    let a = (n as int / pj) % pr;
    let r = n as int % pj;
    vstd::arithmetic::div_mod::lemma_mod_bound(n as int, pj);
    vstd::arithmetic::div_mod::lemma_mod_bound(n as int / pj, pr);
    assert(n as int % (pj * pr) == pj * a + r);
    vstd::arithmetic::div_mod::lemma_fundamental_div_mod_converse(pj * a + r, pj, a, r);
    assert((n as int % (pj * pr)) / pj == a);
    assert(pow2(7 * m) as int == pj * pr);
    vstd::arithmetic::power2::lemma2_to64();
    vstd::arithmetic::power2::lemma_pow2_adds(7, (7 * m - j - 7) as nat);
    assert(pr == 128 * pow2((7 * m - j - 7) as nat));
    vstd::arithmetic::div_mod::lemma_mod_mod(n as int / pj, 128, pow2((7 * m - j - 7) as nat) as int);
}

/// The lowest seven bits survive reducing modulo any larger power of
/// one hundred twenty-eight.
proof fn lemma_mod_mod_pow(n: nat, m: nat)
    requires
        1 <= m,
    ensures
        (n % pow2(7 * m)) % 128 == n % 128,
{
    vstd::arithmetic::power2::lemma2_to64();
    vstd::arithmetic::power2::lemma_pow2_pos((7 * m - 7) as nat);
    vstd::arithmetic::power2::lemma_pow2_adds(7, (7 * m - 7) as nat);
    vstd::arithmetic::div_mod::lemma_mod_mod(n as int, 128, pow2((7 * m - 7) as nat) as int);
}

/// Decoding a run of `len` continuation bytes that spell the base-128
/// digits of `n` multiplies the accumulator by `2^(7 len)`, adds `n`,
/// and moves on to byte `k + len`.
proof fn lemma_decode_cont(s: Seq<u8>, pos: int, k: nat, acc: nat, n: nat, len: nat)
    requires
        1 <= len,
        1 <= k,
        k + len <= 9,
        0 <= pos,
        pos + len <= s.len(),
        n < pow2(7 * len),
        forall|i: int| pos <= i < pos + len ==> #[trigger] (s[i]) as nat == 128 + digit128(
            n,
            len,
            (i - pos) as nat,
        ),
    ensures
        spec_varint_rec(s, pos, k, acc) == spec_varint_rec(
            s,
            pos + len,
            k + len,
            (acc * pow2(7 * len) + n) as nat,
        ),
    decreases len,
{
    vstd::arithmetic::power2::lemma2_to64();
    let hi = n / pow2((7 * (len - 1)) as nat);
    vstd::arithmetic::power2::lemma_pow2_pos((7 * (len - 1)) as nat);
    assert(hi < 128) by {
        vstd::arithmetic::power2::lemma_pow2_adds((7 * (len - 1)) as nat, 7);
        assert(pow2(7 * len) == pow2((7 * (len - 1)) as nat) * 128);
        if hi >= 128 {
            vstd::arithmetic::div_mod::lemma_fundamental_div_mod(
                n as int,
                pow2((7 * (len - 1)) as nat) as int,
            );
            assert(pow2((7 * (len - 1)) as nat) * hi >= pow2((7 * (len - 1)) as nat) * 128)
                by (nonlinear_arith)
                requires hi >= 128, pow2((7 * (len - 1)) as nat) > 0;
            vstd::arithmetic::div_mod::lemma_mod_bound(
                n as int,
                pow2((7 * (len - 1)) as nat) as int,
            );
        }
    };
    assert(s[pos] as nat == 128 + hi) by {
        assert(s[pos] as nat == 128 + digit128(n, len, 0));
        vstd::arithmetic::div_mod::lemma_small_mod(hi, 128);
    };
    if len == 1 {
        vstd::arithmetic::div_mod::lemma_small_mod(n, 128);
        vstd::arithmetic::div_mod::lemma_div_basics(n as int);
        assert(hi == n);
        assert(spec_varint_rec(s, pos, k, acc) == spec_varint_rec(
            s,
            pos + 1,
            k + 1,
            (acc * 128 + n) as nat,
        ));
    } else {
        let lo = n % pow2((7 * (len - 1)) as nat);
        vstd::arithmetic::div_mod::lemma_fundamental_div_mod(
            n as int,
            pow2((7 * (len - 1)) as nat) as int,
        );
        vstd::arithmetic::div_mod::lemma_mod_bound(n as int, pow2((7 * (len - 1)) as nat) as int);
        assert forall|i: int| pos + 1 <= i < pos + 1 + (len - 1) implies #[trigger] (s[i]) as nat
            == 128 + digit128(lo, (len - 1) as nat, (i - (pos + 1)) as nat) by {
            let ii = (i - pos) as nat;
            assert(s[i] as nat == 128 + digit128(n, len, ii));
            if ii < len - 1 {
                lemma_digit_drop(n, (len - 1) as nat, (7 * (len - 1 - ii)) as nat);
                assert(digit128(lo, (len - 1) as nat, (ii - 1) as nat) == ((n % pow2(
                    (7 * (len - 1)) as nat,
                )) / pow2((7 * (len - 1 - ii)) as nat)) % 128);
                assert(digit128(n, len, ii) == (n / pow2((7 * (len - 1 - ii)) as nat)) % 128);
            } else {
                vstd::arithmetic::div_mod::lemma_div_basics(n as int);
                vstd::arithmetic::div_mod::lemma_div_basics(lo as int);
                assert(digit128(n, len, ii) == n % 128);
                assert(digit128(lo, (len - 1) as nat, (ii - 1) as nat) == lo % 128);
                lemma_mod_mod_pow(n, (len - 1) as nat);
            }
        };
        lemma_decode_cont(s, pos + 1, k + 1, (acc * 128 + hi) as nat, lo, (len - 1) as nat);
        assert((acc * 128 + hi) * pow2((7 * (len - 1)) as nat) + lo == acc * pow2(7 * len) + n) by {
            vstd::arithmetic::power2::lemma_pow2_adds(7, (7 * (len - 1)) as nat);
            assert(pow2(7 * len) == 128 * pow2((7 * (len - 1)) as nat));
            assert(n == pow2((7 * (len - 1)) as nat) * hi + lo);
            assert((acc * 128 + hi) * pow2((7 * (len - 1)) as nat) == acc * (128 * pow2(
                (7 * (len - 1)) as nat,
            )) + hi * pow2((7 * (len - 1)) as nat)) by (nonlinear_arith);
            assert(hi * pow2((7 * (len - 1)) as nat) == pow2((7 * (len - 1)) as nat) * hi)
                by (nonlinear_arith);
        };
    }
}

/// Shifting and masking picks out exactly one base-128 digit, which
/// always fits below one hundred twenty-eight.
proof fn lemma_shift_digit(n: u64, len: nat, i: nat, sh: u64)
    requires
        i < len,
        len <= 8,
        n < pow2((7 * len) as nat),
        sh == 7 * (len - 1 - i),
    ensures
        ((n >> sh) & 0x7f) as nat == digit128(n as nat, len, i),
        digit128(n as nat, len, i) < 128,
{
    assert(sh <= 49);
    assert((n >> sh) as nat == n as nat / pow2(sh as nat)) by {
        vstd::bits::lemma_u64_shr_is_div(n, sh);
    };
    assert(((n >> sh) & 0x7f) as nat == (n >> sh) as nat % 128) by (bit_vector);
    assert(digit128(n as nat, len, i) < 128) by {
        vstd::arithmetic::div_mod::lemma_mod_bound(
            (n as nat / pow2((7 * (len - 1 - i)) as nat)) as int,
            128,
        );
    };
}

/// Encodes `n` as a canonical varint.
///
/// Decoding the result restores `n` (read as two's complement) and
/// consumes exactly the canonical length, so encoding followed by
/// decoding is the identity on every value below `2^63`.
pub fn write_varint(n: u64) -> (r: Vec<u8>)
    ensures
        r@.len() == canonical_varint_len(n),
        spec_read_varint(r@, 0) == Some((to_signed(n as nat), canonical_varint_len(n))),
        n < 0x8000_0000_0000_0000 ==> spec_read_varint(r@, 0) == Some(
            (n as int, canonical_varint_len(n)),
        ),
{
    proof {
        vstd::arithmetic::power2::lemma2_to64();
        vstd::arithmetic::power2::lemma2_to64_rest();
    }
    let mut out: Vec<u8> = Vec::new();
    if n >= 0x100_0000_0000_0000 {
        // nine bytes: eight seven-bit groups of the top fifty-six bits,
        // then the whole low byte
        let hi = n >> 8;
        proof {
            assert(n >> 8 == n / 256) by (bit_vector);
            assert(((n >> 8) as nat) < pow2(56)) by {
                assert(n >> 8 < 0x100_0000_0000_0000) by (bit_vector);
            };
        }
        let mut i: usize = 0;
        while i < 8
            invariant
                0 <= i <= 8,
                hi == n >> 8,
                (hi as nat) < pow2(56),
                out@.len() == i,
                forall|j: int| 0 <= j < i ==> #[trigger] (out@[j]) as nat == 128 + digit128(
                    hi as nat,
                    8,
                    j as nat,
                ),
            decreases 8 - i,
        {
            let shift: u64 = 7 * ((7 - i) as u64);
            let masked = (hi >> shift) & 0x7f;
            proof {
                lemma_shift_digit(hi, 8, i as nat, shift);
                assert(masked < 128 ==> ((masked | 0x80) == masked + 128 && masked + 128 < 256))
                    by (bit_vector);
            }
            let byte: u8 = (masked | 0x80) as u8;
            out.push(byte);
            i = i + 1;
        }
        let last: u8 = (n % 256) as u8;
        out.push(last);
        proof {
            assert forall|j: int| 0 <= j < 8 implies #[trigger] (out@[j]) as nat == 128 + digit128(
                hi as nat,
                8,
                j as nat,
            ) by {}
            lemma_decode_cont(out@, 0, 1, 0, hi as nat, 8);
            assert(spec_varint_rec(out@, 0, 1, 0) == spec_varint_rec(out@, 8, 9, hi as nat));
            assert(out@[8] as nat == n as nat % 256);
            assert(spec_varint_rec(out@, 8, 9, hi as nat) == Some(
                ((hi as nat * 256 + n as nat % 256) as nat, 9nat),
            ));
            assert(hi as nat * 256 + n as nat % 256 == n as nat) by {
                vstd::arithmetic::div_mod::lemma_fundamental_div_mod(n as int, 256);
            };
        }
        return out;
    }
    // at most eight bytes: find the canonical length, then emit the
    // seven-bit groups most significant first
    let mut len: usize = 1;
    let mut bound: u64 = 0x80;
    while len < 8 && n >= bound
        invariant
            1 <= len <= 8,
            bound == pow2((7 * len) as nat),
            len > 1 ==> n >= pow2((7 * (len - 1)) as nat),
            len < 8 ==> bound < 0x100_0000_0000_0000,
            n < 0x100_0000_0000_0000,
        decreases 8 - len,
    {
        proof {
            vstd::arithmetic::power2::lemma_pow2_adds((7 * len) as nat, 7);
            vstd::arithmetic::power2::lemma2_to64();
            vstd::arithmetic::power2::lemma2_to64_rest();
        }
        bound = bound * 0x80;
        len = len + 1;
    }
    proof {
        vstd::arithmetic::power2::lemma2_to64();
        vstd::arithmetic::power2::lemma2_to64_rest();
        assert(len == canonical_varint_len(n));
        assert((n as nat) < pow2((7 * len) as nat));
    }
    let mut i: usize = 0;
    while i < len - 1
        invariant
            0 <= i <= len - 1,
            1 <= len <= 8,
            (n as nat) < pow2((7 * len) as nat),
            n < 0x100_0000_0000_0000,
            out@.len() == i,
            forall|j: int| 0 <= j < i ==> #[trigger] (out@[j]) as nat == 128 + digit128(
                n as nat,
                len as nat,
                j as nat,
            ),
        decreases len - i,
    {
        let shift: u64 = 7 * ((len - 1 - i) as u64);
        let masked = (n >> shift) & 0x7f;
        proof {
            lemma_shift_digit(n, len as nat, i as nat, shift);
            assert(masked < 128 ==> ((masked | 0x80) == masked + 128 && masked + 128 < 256))
                by (bit_vector);
        }
        let byte: u8 = (masked | 0x80) as u8;
        out.push(byte);
        i = i + 1;
    }
    let last: u8 = (n % 128) as u8;
    out.push(last);
    proof {
        vstd::arithmetic::power2::lemma2_to64();
        let m = (n / 128) as nat;
        if len > 1 {
            // the leading bytes hold the digits of n / 128
            assert forall|j: int| 0 <= j < len - 1 implies #[trigger] (out@[j]) as nat == 128
                + digit128(m, (len - 1) as nat, j as nat) by {
                assert(out@[j] as nat == 128 + digit128(n as nat, len as nat, j as nat));
                assert(digit128(n as nat, len as nat, j as nat) == digit128(
                    m,
                    (len - 1) as nat,
                    j as nat,
                )) by {
                    let e = (7 * (len - 1 - j - 1)) as nat;
                    vstd::arithmetic::power2::lemma_pow2_pos(e);
                    vstd::arithmetic::div_mod::lemma_div_denominator(n as int, 128, pow2(e) as int);
                    assert(pow2((7 * (len - 1 - j)) as nat) == 128 * pow2(e)) by {
                        vstd::arithmetic::power2::lemma_pow2_adds(7, e);
                    };
                    assert((n as int / 128) / pow2(e) as int == n as int / (128 * pow2(e) as int));
                };
            };
            assert(m < pow2((7 * (len - 1)) as nat)) by {
                let e = (7 * (len - 1)) as nat;
                vstd::arithmetic::power2::lemma_pow2_pos(e);
                assert(pow2((7 * len) as nat) == pow2(e) * 128) by {
                    vstd::arithmetic::power2::lemma_pow2_adds(e, 7);
                };
                vstd::arithmetic::div_mod::lemma_multiply_divide_lt(n as int, pow2(e) as int, 128);
            };
            lemma_decode_cont(out@, 0, 1, 0, m, (len - 1) as nat);
            assert(spec_varint_rec(out@, 0, 1, 0) == spec_varint_rec(
                out@,
                (len - 1) as int,
                len as nat,
                m,
            ));
            // the final byte, below 128, ends the decode
            assert(out@[len - 1] as nat == n as nat % 128);
            assert(spec_varint_rec(out@, (len - 1) as int, len as nat, m) == Some(
                ((m * 128 + n as nat % 128) as nat, len as nat),
            ));
            assert(m * 128 + n as nat % 128 == n as nat) by {
                vstd::arithmetic::div_mod::lemma_fundamental_div_mod(n as int, 128);
            };
        } else {
            assert(out@.len() == 1);
            assert(out@[0] as nat == n as nat % 128);
            vstd::arithmetic::div_mod::lemma_small_mod(n as nat, 128);
            assert(spec_varint_rec(out@, 0, 1, 0) == Some((n as nat, 1nat)));
        }
    }
    out
}

} // verus!
