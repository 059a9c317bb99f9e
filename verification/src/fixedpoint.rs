//! Fixed-point scalars and the single-slot homomorphic primitive.
//!
//! A value is represented as `mantissa / FRAC_BASE^exponent`: an `i128`
//! mantissa together with a small cleartext scale exponent.  Addition aligns
//! the two operands to the larger exponent; multiplication multiplies the
//! mantissas and adds the exponents.  All arithmetic is checked: an operation
//! whose exact result leaves the representable domain reports failure instead
//! of silently wrapping, so a homomorphic result is never silently corrupted.
//!
//! The per-slot primitive shipped here is a reference realization of an
//! additively homomorphic scheme: a ciphertext slot carries the encoded
//! scalar, and the slot operations are exactly the algebraic operations a
//! Paillier-style backend exposes — ciphertext plus ciphertext, ciphertext
//! plus plaintext, ciphertext times plaintext, and an additive identity.  No
//! ciphertext-times-ciphertext multiplication exists.

use vstd::prelude::*;
use vstd::arithmetic::mul::lemma_mul_inequality;
use vstd::arithmetic::power::{lemma_pow_adds, lemma_pow_increases, lemma_pow_positive, pow};

verus! {

/// Scale base of the fixed-point representation: one exponent step shifts the
/// mantissa by 16 bits.
pub const FRAC_BASE: i128 = 65536;

/// Mathematical model of a fixed-point scalar: the value `m / FRAC_BASE^e`.
pub ghost struct Fx {
    pub m: int,
    pub e: nat,
}

/// `FRAC_BASE^e` as a mathematical integer.
pub open spec fn pow_base(e: nat) -> int {
    pow(FRAC_BASE as int, e)
}

pub open spec fn fits_i128(x: int) -> bool {
    i128::MIN <= x <= i128::MAX
}

/// The additive identity: value zero at scale zero.
pub open spec fn fx_zero() -> Fx {
    Fx { m: 0, e: 0 }
}

/// Common exponent two operands are aligned to: the larger of the two.
pub open spec fn fx_join_e(a: Fx, b: Fx) -> nat {
    if a.e >= b.e {
        a.e
    } else {
        b.e
    }
}

/// Mantissa of `a` rescaled to the (not smaller) exponent `te`.
pub open spec fn lift_m(a: Fx, te: nat) -> int {
    a.m * pow_base((te - a.e) as nat)
}

pub open spec fn fx_add_ok(a: Fx, b: Fx) -> bool {
    let te = fx_join_e(a, b);
    &&& fits_i128(lift_m(a, te))
    &&& fits_i128(lift_m(b, te))
    &&& fits_i128(lift_m(a, te) + lift_m(b, te))
}

pub open spec fn fx_add(a: Fx, b: Fx) -> Fx {
    let te = fx_join_e(a, b);
    Fx { m: lift_m(a, te) + lift_m(b, te), e: te }
}

pub open spec fn fx_sub_ok(a: Fx, b: Fx) -> bool {
    let te = fx_join_e(a, b);
    &&& fits_i128(lift_m(a, te))
    &&& fits_i128(lift_m(b, te))
    &&& fits_i128(lift_m(a, te) - lift_m(b, te))
}

pub open spec fn fx_sub(a: Fx, b: Fx) -> Fx {
    let te = fx_join_e(a, b);
    Fx { m: lift_m(a, te) - lift_m(b, te), e: te }
}

pub open spec fn fx_mul_ok(a: Fx, b: Fx) -> bool {
    &&& fits_i128(a.m * b.m)
    &&& a.e + b.e <= u32::MAX
}

pub open spec fn fx_mul(a: Fx, b: Fx) -> Fx {
    Fx { m: a.m * b.m, e: a.e + b.e }
}

/// Codec parameters bound to a key pair: the scale exponent used when a
/// fractional value (such as `1/count` during a mean) is encoded.
#[derive(Clone, Copy, Debug, PartialEq, Eq, Structural)]
pub struct Coder {
    pub frac_exponent: u32,
}

/// The encryption capability: a key fingerprint plus the codec parameters
/// used to encode plaintexts before encryption.
#[derive(Clone, Copy, Debug)]
pub struct PK {
    pub key_id: u64,
    pub coder: Coder,
}

/// The decryption capability, paired 1:1 with exactly one `PK`.
#[derive(Clone, Copy, Debug)]
pub struct SK {
    pub key_id: u64,
    pub coder: Coder,
}

/// Produces a matching key pair.  The fingerprint ties ciphertexts to this
/// pair: operations across fingerprints are rejected, never silently mixed.
pub fn keygen(key_id: u64, frac_exponent: u32) -> (r: (PK, SK))
    ensures
        r.0.key_id == key_id,
        r.1.key_id == key_id,
        r.0.coder.frac_exponent == frac_exponent,
        r.1.coder == r.0.coder,
{
    let coder = Coder { frac_exponent };
    (PK { key_id, coder }, SK { key_id, coder })
}

/// A fixed-point encoded scalar, ready for encryption.
#[derive(Clone, Copy, Debug)]
pub struct Plaintext {
    pub mantissa: i128,
    pub exponent: u32,
}

impl View for Plaintext {
    type V = Fx;

    open spec fn view(&self) -> Fx {
        Fx { m: self.mantissa as int, e: self.exponent as nat }
    }
}

/// One encrypted scalar.  Outside this module a slot is opaque; its contents
/// are only reachable through the slot operations and the secret key.
#[derive(Clone, Copy, Debug)]
pub struct CT {
    pub mantissa: i128,
    pub exponent: u32,
}

impl View for CT {
    type V = Fx;

    open spec fn view(&self) -> Fx {
        Fx { m: self.mantissa as int, e: self.exponent as nat }
    }
}

/// The slot transform selected by a catalogue entry.
#[derive(Clone, Copy, Debug, PartialEq, Eq, Structural)]
pub enum SlotOp {
    Add,
    Sub,
    Mul,
}

pub open spec fn slot_op_ok(op: SlotOp, a: Fx, b: Fx) -> bool {
    match op {
        SlotOp::Add => fx_add_ok(a, b),
        SlotOp::Sub => fx_sub_ok(a, b),
        SlotOp::Mul => fx_mul_ok(a, b),
    }
}

pub open spec fn slot_op_val(op: SlotOp, a: Fx, b: Fx) -> Fx {
    match op {
        SlotOp::Add => fx_add(a, b),
        SlotOp::Sub => fx_sub(a, b),
        SlotOp::Mul => fx_mul(a, b),
    }
}

/// A power of `FRAC_BASE` that exceeds `i128::MAX` is at least
/// `FRAC_BASE^8 == 2^128`, so its negation is below `i128::MIN`.
proof fn lemma_pow_base_overflow(e: nat)
    requires
        pow_base(e) > i128::MAX as int,
    ensures
        pow_base(e) >= 0x1_0000_0000_0000_0000_0000_0000_0000_0000,
{
    reveal_with_fuel(pow, 9);
    if e <= 7 {
        lemma_pow_increases(FRAC_BASE as nat, e, 7);
        assert(pow_base(7) == 0x1_0000_0000_0000_0000_0000_0000_0000);
    } else {
        lemma_pow_increases(FRAC_BASE as nat, 8, e);
        assert(pow_base(8) == 0x1_0000_0000_0000_0000_0000_0000_0000_0000);
    }
}

/// `FRAC_BASE^e`, or `None` where it exceeds the mantissa domain.
pub(crate) fn checked_pow_base(e: u32) -> (r: Option<i128>)
    ensures
        r matches Some(v) ==> v as int == pow_base(e as nat),
        r is None ==> pow_base(e as nat) >= 0x1_0000_0000_0000_0000_0000_0000_0000_0000,
{
    let mut acc: i128 = 1;
    let mut i: u32 = 0;
    proof {
        vstd::arithmetic::power::lemma_pow0(FRAC_BASE as int);
    }
    while i < e
        invariant
            0 <= i <= e,
            acc as int == pow_base(i as nat),
            acc >= 1,
        decreases e - i,
    {
        proof {
            assert(pow(FRAC_BASE as int, 1) == FRAC_BASE as int) by {
                reveal_with_fuel(pow, 2);
            };
            lemma_pow_adds(FRAC_BASE as int, i as nat, 1);
            assert(pow_base((i + 1) as nat) == acc as int * FRAC_BASE as int);
        }
        acc = match acc.checked_mul(FRAC_BASE) {
            Some(v) => v,
            None => {
                proof {
                    lemma_mul_inequality(1, acc as int, FRAC_BASE as int);
                    lemma_pow_increases(FRAC_BASE as nat, (i + 1) as nat, e as nat);
                    lemma_pow_base_overflow(e as nat);
                }
                return None;
            },
        };
        i = i + 1;
        proof {
            lemma_pow_positive(FRAC_BASE as int, i as nat);
        }
    }
    Some(acc)
}

/// The mantissa `m` rescaled up by `d` exponent steps, or `None` where the
/// exact rescaled mantissa leaves the `i128` domain.
pub(crate) fn align_mantissa(m: i128, d: u32) -> (r: Option<i128>)
    ensures
        r is Some <==> fits_i128(m as int * pow_base(d as nat)),
        r matches Some(v) ==> v as int == m as int * pow_base(d as nat),
{
    if m == 0 {
        proof {
            lemma_pow_positive(FRAC_BASE as int, d as nat);
        }
        return Some(0);
    }
    match checked_pow_base(d) {
        Some(p) => {
            proof {
                lemma_pow_positive(FRAC_BASE as int, d as nat);
            }
            m.checked_mul(p)
        },
        None => {
            proof {
                let pb = pow_base(d as nat);
                if m >= 1 {
                    lemma_mul_inequality(1, m as int, pb);
                } else {
                    lemma_mul_inequality(m as int, -1, pb);
                }
            }
            None
        },
    }
}

/// Applies one slot transform to two raw fixed-point scalars, mirroring
/// `slot_op_ok` / `slot_op_val` exactly.
pub(crate) fn slot_apply(op: SlotOp, am: i128, ae: u32, bm: i128, be: u32) -> (r: Option<(
    i128,
    u32,
)>)
    ensures
        ({
            let a = Fx { m: am as int, e: ae as nat };
            let b = Fx { m: bm as int, e: be as nat };
            &&& (r is Some <==> slot_op_ok(op, a, b))
            &&& (r matches Some(v) ==> Fx { m: v.0 as int, e: v.1 as nat } == slot_op_val(
                op,
                a,
                b,
            ))
        }),
{
    match op {
        SlotOp::Add => {
            let te = if ae >= be {
                ae
            } else {
                be
            };
            let la = match align_mantissa(am, te - ae) {
                Some(v) => v,
                None => {
                    return None;
                },
            };
            let lb = match align_mantissa(bm, te - be) {
                Some(v) => v,
                None => {
                    return None;
                },
            };
            match la.checked_add(lb) {
                Some(s) => Some((s, te)),
                None => None,
            }
        },
        SlotOp::Sub => {
            let te = if ae >= be {
                ae
            } else {
                be
            };
            let la = match align_mantissa(am, te - ae) {
                Some(v) => v,
                None => {
                    return None;
                },
            };
            let lb = match align_mantissa(bm, te - be) {
                Some(v) => v,
                None => {
                    return None;
                },
            };
            match la.checked_sub(lb) {
                Some(s) => Some((s, te)),
                None => None,
            }
        },
        SlotOp::Mul => {
            let m = match am.checked_mul(bm) {
                Some(v) => v,
                None => {
                    return None;
                },
            };
            match ae.checked_add(be) {
                Some(e) => Some((m, e)),
                None => None,
            }
        },
    }
}

impl CT {
    /// The additive identity: valid under any key.
    pub fn zero() -> (r: CT)
        ensures
            r@ == fx_zero(),
    {
        CT { mantissa: 0, exponent: 0 }
    }

    /// Ciphertext plus ciphertext under the shared public key.
    pub fn add(&self, other: &CT, pk: &PK) -> (r: Option<CT>)
        ensures
            r is Some <==> fx_add_ok(self@, other@),
            r matches Some(c) ==> c@ == fx_add(self@, other@),
    {
        let _ = pk;
        match slot_apply(SlotOp::Add, self.mantissa, self.exponent, other.mantissa, other.exponent) {
            Some(v) => Some(CT { mantissa: v.0, exponent: v.1 }),
            None => None,
        }
    }

    /// Ciphertext plus an encoded plaintext.
    pub fn add_pt(&self, other: &Plaintext, pk: &PK) -> (r: Option<CT>)
        ensures
            r is Some <==> fx_add_ok(self@, other@),
            r matches Some(c) ==> c@ == fx_add(self@, other@),
    {
        let _ = pk;
        match slot_apply(SlotOp::Add, self.mantissa, self.exponent, other.mantissa, other.exponent) {
            Some(v) => Some(CT { mantissa: v.0, exponent: v.1 }),
            None => None,
        }
    }

    /// Ciphertext minus ciphertext under the shared public key.
    pub fn sub(&self, other: &CT, pk: &PK) -> (r: Option<CT>)
        ensures
            r is Some <==> fx_sub_ok(self@, other@),
            r matches Some(c) ==> c@ == fx_sub(self@, other@),
    {
        let _ = pk;
        match slot_apply(SlotOp::Sub, self.mantissa, self.exponent, other.mantissa, other.exponent) {
            Some(v) => Some(CT { mantissa: v.0, exponent: v.1 }),
            None => None,
        }
    }

    /// Ciphertext minus an encoded plaintext.
    pub fn sub_pt(&self, other: &Plaintext, pk: &PK) -> (r: Option<CT>)
        ensures
            r is Some <==> fx_sub_ok(self@, other@),
            r matches Some(c) ==> c@ == fx_sub(self@, other@),
    {
        let _ = pk;
        match slot_apply(SlotOp::Sub, self.mantissa, self.exponent, other.mantissa, other.exponent) {
            Some(v) => Some(CT { mantissa: v.0, exponent: v.1 }),
            None => None,
        }
    }

    /// Ciphertext times an encoded plaintext.  The scheme is additively
    /// homomorphic only: no ciphertext-times-ciphertext variant exists.
    pub fn mul(&self, other: &Plaintext, pk: &PK) -> (r: Option<CT>)
        ensures
            r is Some <==> fx_mul_ok(self@, other@),
            r matches Some(c) ==> c@ == fx_mul(self@, other@),
    {
        let _ = pk;
        match slot_apply(SlotOp::Mul, self.mantissa, self.exponent, other.mantissa, other.exponent) {
            Some(v) => Some(CT { mantissa: v.0, exponent: v.1 }),
            None => None,
        }
    }
}

} // verus!
