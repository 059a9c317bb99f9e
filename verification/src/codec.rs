//! The numeric codec: converting native numeric values to and from the
//! fixed-point representation that the cryptosystem encrypts.
//!
//! Every supported numeric type implements [`CouldCode`].  Encoding is a pure
//! function of the value and the codec parameters; decoding succeeds exactly
//! on the plaintexts that denote a representable value of the requested type
//! and recovers that value, so encode-then-decode is lossless on the whole
//! supported envelope.

use vstd::prelude::*;
use vstd::arithmetic::div_mod::{
    lemma_fundamental_div_mod, lemma_fundamental_div_mod_converse, lemma_mod_bound,
};
use vstd::arithmetic::power::lemma_pow_positive;
use crate::fixedpoint::{checked_pow_base, fits_i128, pow_base, Coder, Fx, Plaintext, FRAC_BASE};

verus! {

/// A numeric type that the codec can bridge to and from the fixed-point
/// plaintext domain.
pub trait CouldCode: Sized + Copy {
    /// The fixed-point scalar this value encodes to.
    spec fn enc(self) -> Fx;

    /// Whether a fixed-point scalar denotes a value of this type exactly.
    spec fn decodable(v: Fx) -> bool;

    /// The value a decodable fixed-point scalar denotes.
    spec fn decode_of(v: Fx) -> Self;

    /// Encodes the value; deterministic, total on the type's whole range.
    fn encode(&self, coder: &Coder) -> (r: Plaintext)
        ensures
            r@ == self.enc(),
    ;

    /// Decodes a plaintext back to this type; fails exactly where the
    /// plaintext does not denote a representable value.
    fn decode(p: &Plaintext, coder: &Coder) -> (r: Option<Self>)
        ensures
            r is Some <==> Self::decodable(p@),
            r matches Some(v) ==> v == Self::decode_of(p@),
    ;

    /// Encoding then decoding recovers the value exactly.
    proof fn lemma_round_trip(self)
        ensures
            Self::decodable(self.enc()),
            Self::decode_of(self.enc()) == self,
    ;

    /// Decoding is value-preserving: the decoded value re-encodes to a
    /// fixed-point scalar denoting the same number (mantissas agree once
    /// cross-scaled to a common exponent).
    proof fn lemma_decode_value(v: Fx)
        requires
            Self::decodable(v),
        ensures
            Self::decode_of(v).enc().m * pow_base(v.e) == v.m * pow_base(
                Self::decode_of(v).enc().e,
            ),
    ;
}

/// The fixed-point encodings of a sequence of values.
pub open spec fn enc_seq<T: CouldCode>(s: Seq<T>) -> Seq<Fx> {
    s.map(|i: int, v: T| v.enc())
}

/// For a positive divisor, a value and its negation are divisible together,
/// and exact quotients negate.
proof fn lemma_neg_divides(x: int, d: int)
    requires
        d > 0,
    ensures
        ((-x) % d == 0) <==> (x % d == 0),
        x % d == 0 ==> (-x) / d == -(x / d),
{
    let q = x / d;
    let r = x % d;
    lemma_fundamental_div_mod(x, d);
    lemma_mod_bound(x, d);
    if r == 0 {
        assert(-x == (-q) * d + 0) by (nonlinear_arith)
            requires
                x == d * q + r,
                r == 0,
        ;
        lemma_fundamental_div_mod_converse(-x, d, -q, 0);
    } else {
        assert(-x == (-q - 1) * d + (d - r)) by (nonlinear_arith)
            requires
                x == d * q + r,
        ;
        lemma_fundamental_div_mod_converse(-x, d, -q - 1, d - r);
    }
}

/// Exact quotient of a mantissa by `FRAC_BASE^e`: `Some` exactly where the
/// division leaves no remainder.
fn decode_quotient(m: i128, e: u32) -> (r: Option<i128>)
    ensures
        r is Some <==> (m as int) % pow_base(e as nat) == 0,
        r matches Some(q) ==> q as int == (m as int) / pow_base(e as nat),
{
    let ghost pb = pow_base(e as nat);
    proof {
        lemma_pow_positive(FRAC_BASE as int, e as nat);
    }
    let pw = match checked_pow_base(e) {
        Some(v) => v,
        None => {
            // The scale exceeds every nonzero `i128` mantissa in magnitude,
            // so only a zero mantissa divides evenly.
            if m == 0 {
                proof {
                    lemma_fundamental_div_mod_converse(0, pb, 0, 0);
                }
                return Some(0);
            } else if m > 0 {
                proof {
                    lemma_fundamental_div_mod_converse(m as int, pb, 0, m as int);
                }
                return None;
            } else {
                proof {
                    lemma_fundamental_div_mod_converse(m as int, pb, -1, m as int + pb);
                }
                return None;
            }
        },
    };
    let rem = match m.checked_rem(pw) {
        Some(v) => v,
        None => {
            proof {
                assert(false);
            }
            return None;
        },
    };
    proof {
        if m < 0 {
            lemma_neg_divides(m as int, pb);
        }
    }
    if rem != 0 {
        return None;
    }
    let q = match m.checked_div(pw) {
        Some(v) => v,
        None => {
            proof {
                let qq = m as int / pb;
                lemma_fundamental_div_mod(m as int, pb);
                if m > 0 {
                    assert(0 <= qq <= m as int) by (nonlinear_arith)
                        requires
                            m as int == pb * qq,
                            pb >= 1,
                            m > 0,
                    ;
                } else if m < 0 {
                    assert(m as int <= qq <= 0) by (nonlinear_arith)
                        requires
                            m as int == pb * qq,
                            pb >= 1,
                            m < 0,
                    ;
                } else {
                    lemma_fundamental_div_mod_converse(0, pb, 0, 0);
                }
                assert(false);
            }
            return None;
        },
    };
    proof {
        let qq = m as int / pb;
        lemma_fundamental_div_mod(m as int, pb);
        if m == 0 {
            lemma_fundamental_div_mod_converse(0, pb, 0, 0);
        } else if m > 0 {
            assert(0 <= qq <= m as int) by (nonlinear_arith)
                requires
                    m as int == pb * qq,
                    pb >= 1,
                    m > 0,
            ;
        } else {
            assert(m as int <= qq <= 0) by (nonlinear_arith)
                requires
                    m as int == pb * qq,
                    pb >= 1,
                    m < 0,
            ;
        }
    }
    Some(q)
}

impl CouldCode for i64 {
    open spec fn enc(self) -> Fx {
        Fx { m: self as int, e: 0 }
    }

    open spec fn decodable(v: Fx) -> bool {
        &&& v.m % pow_base(v.e) == 0
        &&& i64::MIN <= v.m / pow_base(v.e) <= i64::MAX
    }

    open spec fn decode_of(v: Fx) -> i64 {
        (v.m / pow_base(v.e)) as i64
    }

    fn encode(&self, coder: &Coder) -> (r: Plaintext) {
        let _ = coder;
        Plaintext { mantissa: *self as i128, exponent: 0 }
    }

    fn decode(p: &Plaintext, coder: &Coder) -> (r: Option<i64>) {
        let _ = coder;
        match decode_quotient(p.mantissa, p.exponent) {
            Some(q) => {
                if i64::MIN as i128 <= q && q <= i64::MAX as i128 {
                    Some(q as i64)
                } else {
                    None
                }
            },
            None => None,
        }
    }

    proof fn lemma_round_trip(self) {
        vstd::arithmetic::power::lemma_pow0(FRAC_BASE as int);
        lemma_fundamental_div_mod_converse(self as int, 1, self as int, 0);
    }

    proof fn lemma_decode_value(v: Fx) {
        vstd::arithmetic::power::lemma_pow0(FRAC_BASE as int);
        lemma_pow_positive(FRAC_BASE as int, v.e);
        lemma_fundamental_div_mod(v.m, pow_base(v.e));
        let pb = pow_base(v.e);
        let q = v.m / pb;
        assert(Self::decode_of(v).enc().m == q);
        assert(v.m == pb * q);
        assert(q * pb == pb * q) by (nonlinear_arith);
    }
}

impl CouldCode for u64 {
    open spec fn enc(self) -> Fx {
        Fx { m: self as int, e: 0 }
    }

    open spec fn decodable(v: Fx) -> bool {
        &&& v.m % pow_base(v.e) == 0
        &&& 0 <= v.m / pow_base(v.e) <= u64::MAX
    }

    open spec fn decode_of(v: Fx) -> u64 {
        (v.m / pow_base(v.e)) as u64
    }

    fn encode(&self, coder: &Coder) -> (r: Plaintext) {
        let _ = coder;
        Plaintext { mantissa: *self as i128, exponent: 0 }
    }

    fn decode(p: &Plaintext, coder: &Coder) -> (r: Option<u64>) {
        let _ = coder;
        match decode_quotient(p.mantissa, p.exponent) {
            Some(q) => {
                if 0 <= q && q <= u64::MAX as i128 {
                    Some(q as u64)
                } else {
                    None
                }
            },
            None => None,
        }
    }

    proof fn lemma_round_trip(self) {
        vstd::arithmetic::power::lemma_pow0(FRAC_BASE as int);
        lemma_fundamental_div_mod_converse(self as int, 1, self as int, 0);
    }

    proof fn lemma_decode_value(v: Fx) {
        vstd::arithmetic::power::lemma_pow0(FRAC_BASE as int);
        lemma_pow_positive(FRAC_BASE as int, v.e);
        lemma_fundamental_div_mod(v.m, pow_base(v.e));
        let pb = pow_base(v.e);
        let q = v.m / pb;
        assert(Self::decode_of(v).enc().m == q);
        assert(v.m == pb * q);
        assert(q * pb == pb * q) by (nonlinear_arith);
    }
}

impl CouldCode for Plaintext {
    /// The identity codec: raw access to the fixed-point representation,
    /// used to read results (such as a mean) that are not whole numbers.
    open spec fn enc(self) -> Fx {
        self@
    }

    open spec fn decodable(v: Fx) -> bool {
        &&& fits_i128(v.m)
        &&& v.e <= u32::MAX
    }

    open spec fn decode_of(v: Fx) -> Plaintext {
        Plaintext { mantissa: v.m as i128, exponent: v.e as u32 }
    }

    fn encode(&self, coder: &Coder) -> (r: Plaintext) {
        let _ = coder;
        *self
    }

    fn decode(p: &Plaintext, coder: &Coder) -> (r: Option<Plaintext>) {
        let _ = coder;
        Some(*p)
    }

    proof fn lemma_round_trip(self) {
    }

    proof fn lemma_decode_value(v: Fx) {
    }
}

} // verus!
