//! The GDSII eight-byte real.
//!
//! On the wire the format is one sign bit, seven exponent bits (biased by
//! 64, base 16) and 56 mantissa bits with no implicit leading one.  The
//! represented value is `(-1)^neg * mant * 16^(exp - 64) / 2^56`, which is
//! `(-1)^neg * mant * 2^(4*exp - 312)`.  The library keeps such reals in
//! their wire form, so encoding and decoding are exact and bit-stable.

use vstd::prelude::*;
use vstd::arithmetic::power2::{pow2, lemma_pow2_adds};

verus! {

/// A GDSII eight-byte real held as sign, biased base-16 exponent and
/// 56-bit mantissa.
#[derive(Clone, Copy, Debug, PartialEq, Eq, Structural)]
pub struct GdsReal {
    /// Sign bit: true for negative values.
    pub neg: bool,
    /// Exponent, biased by 64, base 16; fits in seven bits.
    pub exp: u8,
    /// Mantissa; fits in 56 bits.
    pub mant: u64,
}

impl GdsReal {
    /// The representation stays inside its wire fields.
    pub open spec fn wf(self) -> bool {
        self.exp < 128 && self.mant < 0x100_0000_0000_0000
    }

    /// The represented value, scaled by the fixed factor 2^312 so that it
    /// is an integer: the real value is `self.scaled() / 2^312`.
    pub open spec fn scaled(self) -> int {
        (if self.neg {
            -1int
        } else {
            1int
        }) * self.mant * pow2((4 * self.exp) as nat)
    }

    /// The zero real: all eight bytes zero.
    pub fn zero() -> (r: GdsReal)
        ensures
            r == (GdsReal { neg: false, exp: 0, mant: 0 }),
    {
        GdsReal { neg: false, exp: 0, mant: 0 }
    }

    /// The canonical encoding of 10^-3, the database unit expressed in
    /// default user units (micron user unit over nanometre grid).
    pub fn milli() -> (r: GdsReal)
        ensures
            r == (GdsReal { neg: false, exp: 0x3E, mant: 0x41_89_37_4B_C6_A7_F0 }),
    {
        GdsReal { neg: false, exp: 0x3E, mant: 0x41_89_37_4B_C6_A7_F0 }
    }

    /// The canonical encoding of 10^-9, the default database unit in
    /// meters (a nanometre grid).
    pub fn nano() -> (r: GdsReal)
        ensures
            r == (GdsReal { neg: false, exp: 0x39, mant: 0x44_B8_2F_A0_9B_5A_54 }),
    {
        GdsReal { neg: false, exp: 0x39, mant: 0x44_B8_2F_A0_9B_5A_54 }
    }

    /// The exact eight-byte real for a small unsigned integer, with the
    /// given sign.  Covers every magnification, angle and extension value
    /// that is a whole number.
    pub fn from_uint(v: u64, neg: bool) -> (r: GdsReal)
        requires
            v < 0x10_0000_0000_0000,
        ensures
            r.wf(),
            v == 0 ==> r == (GdsReal { neg: false, exp: 0, mant: 0 }),
            v > 0 ==> r.neg == neg && r.mant * pow2((4 * r.exp) as nat) == v * pow2(312),
            v > 0 ==> r.mant >= 0x10_0000_0000_0000,
    {
        if v == 0 {
            return GdsReal { neg: false, exp: 0, mant: 0 };
        }
        let mut mant: u64 = v;
        let mut exp: u8 = 78;
        proof {
            lemma_pow2_adds(312, 0);
        }
        assert(mant * pow2((4 * exp) as nat) == v * pow2(312)) by {
            assert(4 * 78 == 312);
        }
        while mant < 0x10_0000_0000_0000
            invariant
                1 <= mant < 0x10_0000_0000_0000 * 16,
                exp <= 78,
                mant * pow2((4 * exp) as nat) == v * pow2(312),
                1 <= v < 0x10_0000_0000_0000,
            decreases exp,
        {
            proof {
                // mant * 2^(4 exp) == v * 2^312 with mant < 2^52 and
                // v >= 1 forces 2^(4 exp) > 2^260, so exp never reaches 0.
                if exp < 66 {
                    vstd::arithmetic::power2::lemma_pow2_pos((4 * exp) as nat);
                    assert(pow2((4 * exp) as nat) <= pow2(260)) by {
                        if 4 * exp < 260 {
                            vstd::arithmetic::power2::lemma_pow2_strictly_increases(
                                (4 * exp) as nat,
                                260,
                            );
                        }
                    }
                    assert(mant * pow2((4 * exp) as nat) < 0x10_0000_0000_0000 * pow2(260)) by {
                        vstd::arithmetic::mul::lemma_mul_strict_inequality(
                            mant as int,
                            0x10_0000_0000_0000 as int,
                            pow2((4 * exp) as nat) as int,
                        );
                        vstd::arithmetic::mul::lemma_mul_inequality(
                            pow2((4 * exp) as nat) as int,
                            pow2(260) as int,
                            0x10_0000_0000_0000 as int,
                        );
                    }
                    assert(0x10_0000_0000_0000 * pow2(260) == pow2(312)) by {
                        lemma_pow2_adds(52, 260);
                        vstd::arithmetic::power2::lemma2_to64();
                        vstd::arithmetic::power2::lemma2_to64_rest();
                    }
                    assert(v * pow2(312) >= pow2(312)) by {
                        vstd::arithmetic::mul::lemma_mul_inequality(
                            1,
                            v as int,
                            pow2(312) as int,
                        );
                    }
                    assert(false);
                }
            }
            let ghost old_exp = exp;
            let ghost old_mant = mant;
            mant = mant * 16;
            exp = exp - 1;
            proof {
                lemma_pow2_adds(4, (4 * exp) as nat);
                vstd::arithmetic::power2::lemma2_to64();
                assert(mant * pow2((4 * exp) as nat) == old_mant * (16 * pow2(
                    (4 * exp) as nat,
                ))) by {
                    vstd::arithmetic::mul::lemma_mul_is_associative(
                        old_mant as int,
                        16,
                        pow2((4 * exp) as nat) as int,
                    );
                }
            }
        }
        GdsReal { neg, exp, mant }
    }
}

/// The eight wire bytes of a real: sign and exponent packed in the first
/// byte, then the mantissa big-endian.
pub open spec fn spec_real_bytes(r: GdsReal) -> Seq<u8> {
    seq![
        ((if r.neg {
            128int
        } else {
            0int
        }) + r.exp) as u8,
        ((r.mant / 0x1_0000_0000_0000) % 256) as u8,
        ((r.mant / 0x100_0000_0000) % 256) as u8,
        ((r.mant / 0x1_0000_0000) % 256) as u8,
        ((r.mant / 0x100_0000) % 256) as u8,
        ((r.mant / 0x1_0000) % 256) as u8,
        ((r.mant / 0x100) % 256) as u8,
        (r.mant % 256) as u8,
    ]
}

/// The real a sequence of eight wire bytes stands for.
pub open spec fn spec_decode_real(s: Seq<u8>) -> GdsReal
    recommends
        s.len() == 8,
{
    GdsReal {
        neg: s[0] >= 128,
        exp: (s[0] % 128) as u8,
        mant: (s[1] * 0x1_0000_0000_0000 + s[2] * 0x100_0000_0000 + s[3] * 0x1_0000_0000 + s[4]
            * 0x100_0000 + s[5] * 0x1_0000 + s[6] * 0x100 + s[7]) as u64,
    }
}

/// Append the eight wire bytes of a real to a byte vector.
pub fn encode_real(r: GdsReal, out: &mut Vec<u8>)
    requires
        r.wf(),
        old(out)@.len() + 8 <= usize::MAX,
    ensures
        final(out)@ == old(out)@ + spec_real_bytes(r),
{
    let b0: u8 = if r.neg {
        128 + r.exp
    } else {
        r.exp
    };
    out.push(b0);
    out.push(((r.mant / 0x1_0000_0000_0000) % 256) as u8);
    out.push(((r.mant / 0x100_0000_0000) % 256) as u8);
    out.push(((r.mant / 0x1_0000_0000) % 256) as u8);
    out.push(((r.mant / 0x100_0000) % 256) as u8);
    out.push(((r.mant / 0x1_0000) % 256) as u8);
    out.push(((r.mant / 0x100) % 256) as u8);
    out.push((r.mant % 256) as u8);
    assert(out@ =~= old(out)@ + spec_real_bytes(r));
}

/// Decode eight wire bytes into a real.  Fails exactly when the slice is
/// not eight bytes long.
pub fn gdsii_eight_byte_real(byte: &[u8]) -> (r: Result<GdsReal, crate::gds_error::GDSIIError>)
    ensures
        r is Ok <==> byte@.len() == 8,
        r is Ok ==> r->Ok_0 == spec_decode_real(byte@) && r->Ok_0.wf(),
        r is Err ==> r->Err_0.kind == crate::gds_error::GdsErrorKind::InvalidFloat,
{
    if byte.len() != 8 {
        return Err(
            crate::gds_error::GDSIIError::of_kind(
                crate::gds_error::GdsErrorKind::InvalidFloat,
                "transfer eight byte real failed: byte length != 8",
            ),
        );
    }
    let neg = byte[0] >= 128;
    let exp = byte[0] % 128;
    let mant: u64 = (byte[1] as u64) * 0x1_0000_0000_0000 + (byte[2] as u64) * 0x100_0000_0000 + (
    byte[3] as u64) * 0x1_0000_0000 + (byte[4] as u64) * 0x100_0000 + (byte[5] as u64) * 0x1_0000
        + (byte[6] as u64) * 0x100 + (byte[7] as u64);
    Ok(GdsReal { neg, exp, mant })
}

/// Decoding the wire bytes of a well-formed real gives the real back: the
/// eight-byte codec loses nothing on values the encoder produces.
pub proof fn lemma_real_round_trip(r: GdsReal)
    requires
        r.wf(),
    ensures
        spec_decode_real(spec_real_bytes(r)) == r,
{
    let s = spec_real_bytes(r);
    assert(s[0] == ((if r.neg {
        128int
    } else {
        0int
    }) + r.exp) as u8);
    assert(spec_decode_real(s).neg == r.neg);
    assert(spec_decode_real(s).exp == r.exp);
    let m = r.mant;
    assert(m < 0x100_0000_0000_0000 ==> ((m / 0x1_0000_0000_0000) % 256) * 0x1_0000_0000_0000 + ((m
        / 0x100_0000_0000) % 256) * 0x100_0000_0000 + ((m / 0x1_0000_0000) % 256) * 0x1_0000_0000
        + ((m / 0x100_0000) % 256) * 0x100_0000 + ((m / 0x1_0000) % 256) * 0x1_0000 + ((m / 0x100)
        % 256) * 0x100 + (m % 256) == m) by (bit_vector);
    assert(spec_decode_real(s).mant == r.mant);
}

} // verus!
