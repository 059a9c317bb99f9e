//! The algebraic laws of the engine, stated and proved over the contracts of
//! the codec, the slot primitive and the reduction fold.
//!
//! Together with the operation contracts these pin the pipeline down:
//! encrypting integer tensors, combining them homomorphically and decrypting
//! recovers exactly the arithmetic on the plaintexts, for every input inside
//! the fixed-point envelope.  Round-trip losslessness of the codec itself is
//! `CouldCode::lemma_round_trip`, proved by every codec impl.  The sequential
//! and data-parallel operation modes carry the identical contract, each
//! pinning the output as the same function of the inputs, so their outputs
//! cannot differ.

use vstd::prelude::*;
use vstd::arithmetic::div_mod::lemma_fundamental_div_mod;
use vstd::arithmetic::power::{lemma_pow0, lemma_pow_adds};
use crate::codec::{enc_seq, CouldCode};
use crate::fixedpoint::{
    fits_i128, fx_add, fx_add_ok, fx_join_e, fx_mul, fx_mul_ok, fx_zero, lift_m, pow_base, Fx,
    FRAC_BASE,
};
use crate::reduce::{inv_fx, sum_fold};

verus! {

/// Homomorphic addition: adding the slotwise encodings of two integer
/// tensors yields, in every slot, a value that decodes back to the sum of
/// the corresponding plaintext elements, whenever each elementwise sum fits
/// the plaintext type.
pub proof fn lemma_add_homomorphic(a: Seq<i64>, b: Seq<i64>)
    requires
        a.len() == b.len(),
        forall|i: int| 0 <= i < a.len() ==> i64::MIN <= #[trigger] (a[i] + b[i]) <= i64::MAX,
    ensures
        forall|i: int| 0 <= i < a.len() ==> fx_add_ok(#[trigger] enc_seq(a)[i], enc_seq(b)[i]),
        forall|i: int|
            0 <= i < a.len() ==> <i64 as CouldCode>::decodable(
                fx_add(#[trigger] enc_seq(a)[i], enc_seq(b)[i]),
            ) && <i64 as CouldCode>::decode_of(fx_add(enc_seq(a)[i], enc_seq(b)[i])) == a[i] + b[i],
{
    lemma_pow0(FRAC_BASE as int);
    assert forall|i: int| 0 <= i < a.len() implies fx_add_ok(#[trigger] enc_seq(a)[i], enc_seq(b)[i])
        && <i64 as CouldCode>::decodable(fx_add(enc_seq(a)[i], enc_seq(b)[i]))
        && <i64 as CouldCode>::decode_of(fx_add(enc_seq(a)[i], enc_seq(b)[i])) == a[i] + b[i] by {
        let ea = enc_seq(a)[i];
        let eb = enc_seq(b)[i];
        assert(ea == a[i].enc());
        assert(eb == b[i].enc());
        assert(ea.m * pow_base(0) == ea.m);
        assert(eb.m * pow_base(0) == eb.m);
        let s = (a[i] + b[i]) as i64;
        assert(fx_add(ea, eb) == s.enc());
        s.lemma_round_trip();
    }
}

/// Scalar linearity: multiplying every slot encoding by the encoding of one
/// integer scalar yields values that decode to the elementwise products,
/// whenever each product fits the plaintext type.
pub proof fn lemma_mul_scalar_linear(a: Seq<i64>, k: i64)
    requires
        forall|i: int| 0 <= i < a.len() ==> i64::MIN <= #[trigger] (a[i] * k) <= i64::MAX,
    ensures
        forall|i: int| 0 <= i < a.len() ==> fx_mul_ok(#[trigger] enc_seq(a)[i], k.enc()),
        forall|i: int|
            0 <= i < a.len() ==> <i64 as CouldCode>::decodable(
                fx_mul(#[trigger] enc_seq(a)[i], k.enc()),
            ) && <i64 as CouldCode>::decode_of(fx_mul(enc_seq(a)[i], k.enc())) == a[i] * k,
{
    lemma_pow0(FRAC_BASE as int);
    assert forall|i: int| 0 <= i < a.len() implies fx_mul_ok(#[trigger] enc_seq(a)[i], k.enc())
        && <i64 as CouldCode>::decodable(fx_mul(enc_seq(a)[i], k.enc()))
        && <i64 as CouldCode>::decode_of(fx_mul(enc_seq(a)[i], k.enc())) == a[i] * k by {
        let ea = enc_seq(a)[i];
        assert(ea == a[i].enc());
        let p = (a[i] * k) as i64;
        assert(fx_mul(ea, k.enc()) == p.enc());
        p.lemma_round_trip();
    }
}

/// The exact integer sum of the first `k` slot mantissas.
pub open spec fn m_sum(s: Seq<Fx>, k: int) -> int
    decreases k,
{
    if k <= 0 {
        0
    } else {
        m_sum(s, k - 1) + s[k - 1].m
    }
}

/// A fold over integer-scale slots with plaintext-sized mantissas never
/// overflows the fixed-point domain and computes the exact mantissa sum.
pub proof fn lemma_sum_fold_ints(s: Seq<Fx>, k: int)
    requires
        0 <= k <= 0xFFFF_FFFF_FFFF_FFFF,
        forall|i: int|
            0 <= i < k ==> (#[trigger] s[i]).e == 0 && -0x8000_0000_0000_0000 <= s[i].m
                <= 0x7FFF_FFFF_FFFF_FFFF,
    ensures
        sum_fold(s, k) == Some(Fx { m: m_sum(s, k), e: 0 as nat }),
        -k * 0x8000_0000_0000_0000 <= m_sum(s, k) <= k * 0x7FFF_FFFF_FFFF_FFFF,
    decreases k,
{
    lemma_pow0(FRAC_BASE as int);
    if k > 0 {
        lemma_sum_fold_ints(s, k - 1);
        let acc = Fx { m: m_sum(s, k - 1), e: 0 as nat };
        assert(acc.m * pow_base(0) == acc.m);
        assert(s[k - 1].m * pow_base(0) == s[k - 1].m);
        assert(fx_add_ok(acc, s[k - 1]));
    }
}

/// Reduction correctness: the fold of an encrypted integer tensor succeeds
/// for every length and yields exactly the encoding of the plaintext sum;
/// where that sum also fits the plaintext type, it decodes back to it.
pub proof fn lemma_sum_homomorphic(a: Seq<i64>)
    requires
        a.len() <= 0xFFFF_FFFF_FFFF_FFFF,
    ensures
        sum_fold(enc_seq(a), a.len() as int) == Some(
            Fx { m: m_sum(enc_seq(a), a.len() as int), e: 0 as nat },
        ),
        i64::MIN <= m_sum(enc_seq(a), a.len() as int) <= i64::MAX
            ==> <i64 as CouldCode>::decodable(
            Fx { m: m_sum(enc_seq(a), a.len() as int), e: 0 as nat },
        ) && <i64 as CouldCode>::decode_of(
            Fx { m: m_sum(enc_seq(a), a.len() as int), e: 0 as nat },
        ) == m_sum(enc_seq(a), a.len() as int),
{
    assert forall|i: int| 0 <= i < a.len() as int implies (#[trigger] enc_seq(a)[i]).e == 0
        && -0x8000_0000_0000_0000 <= enc_seq(a)[i].m <= 0x7FFF_FFFF_FFFF_FFFF by {
        assert(enc_seq(a)[i] == a[i].enc());
    }
    lemma_sum_fold_ints(enc_seq(a), a.len() as int);
    let total = m_sum(enc_seq(a), a.len() as int);
    if i64::MIN <= total <= i64::MAX {
        let t = total as i64;
        t.lemma_round_trip();
        assert((Fx { m: total, e: 0 as nat }) == t.enc());
    }
}

/// Mean exactness: where the slot count divides the coder's scale, the mean
/// slot denotes exactly `sum / n` — its mantissa at scale `fe`, multiplied
/// by `n`, recovers the sum cross-scaled to `fe`.
pub proof fn lemma_mean_value(total: Fx, n: int, fe: nat)
    requires
        total.e == 0,
        n >= 1,
        pow_base(fe) % n == 0,
    ensures
        fx_mul(total, inv_fx(n, fe)).e == fe,
        fx_mul(total, inv_fx(n, fe)).m * n == total.m * pow_base(fe),
{
    lemma_fundamental_div_mod(pow_base(fe), n);
    let q = pow_base(fe) / n;
    assert(pow_base(fe) == n * q);
    assert((total.m * q) * n == total.m * (n * q)) by (nonlinear_arith);
}

/// The exact integer dot product of the first `k` slot mantissa pairs.
pub open spec fn m_dot(x: Seq<Fx>, y: Seq<Fx>, k: int) -> int
    decreases k,
{
    if k <= 0 {
        0
    } else {
        m_dot(x, y, k - 1) + x[k - 1].m * y[k - 1].m
    }
}

/// Matrix-multiplication value correctness: over integer-scale slots whose
/// mantissas are bounded, the multiply-accumulate fold never leaves the
/// fixed-point domain and computes the exact integer dot product.
pub proof fn lemma_mac_fold_ints(x: Seq<Fx>, y: Seq<Fx>, k: int, bx: int, by: int)
    requires
        0 <= k,
        bx >= 0,
        by >= 0,
        forall|i: int| 0 <= i < k ==> (#[trigger] x[i]).e == 0 && -bx <= x[i].m <= bx,
        forall|i: int| 0 <= i < k ==> (#[trigger] y[i]).e == 0 && -by <= y[i].m <= by,
        k * (bx * by) <= i128::MAX as int,
    ensures
        crate::ops::mac_fold(x, y, k) == Some(Fx { m: m_dot(x, y, k), e: 0 as nat }),
        -k * (bx * by) <= m_dot(x, y, k) <= k * (bx * by),
    decreases k,
{
    lemma_pow0(FRAC_BASE as int);
    if k > 0 {
        assert((k - 1) * (bx * by) <= k * (bx * by)) by (nonlinear_arith)
            requires
                bx >= 0,
                by >= 0,
                k >= 1,
        ;
        lemma_mac_fold_ints(x, y, k - 1, bx, by);
        let xm = x[k - 1].m;
        let ym = y[k - 1].m;
        let p = xm * ym;
        assert(xm * ym <= bx * by) by (nonlinear_arith)
            requires
                -bx <= xm <= bx,
                -by <= ym <= by,
                bx >= 0,
                by >= 0,
        ;
        assert(-(bx * by) <= xm * ym) by (nonlinear_arith)
            requires
                -bx <= xm <= bx,
                -by <= ym <= by,
                bx >= 0,
                by >= 0,
        ;
        assert(-(k * (bx * by)) <= m_dot(x, y, k - 1) + p <= k * (bx * by)) by (nonlinear_arith)
            requires
                -(k - 1) * (bx * by) <= m_dot(x, y, k - 1) <= (k - 1) * (bx * by),
                -(bx * by) <= p <= bx * by,
        ;
        assert((-k) * (bx * by) == -(k * (bx * by))) by (nonlinear_arith);
        assert(m_dot(x, y, k) == m_dot(x, y, k - 1) + p);
        assert(bx * by >= 0) by (nonlinear_arith)
            requires
                bx >= 0,
                by >= 0,
        ;
        assert(bx * by <= k * (bx * by)) by (nonlinear_arith)
            requires
                k >= 1,
                bx * by >= 0,
        ;
        let acc = Fx { m: m_dot(x, y, k - 1), e: 0 as nat };
        let prod = fx_mul(x[k - 1], y[k - 1]);
        assert(fx_mul_ok(x[k - 1], y[k - 1]));
        assert(acc.m * pow_base(0) == acc.m);
        assert(prod.m * pow_base(0) == prod.m);
        assert(fx_join_e(acc, prod) == 0);
        assert(lift_m(acc, 0) == acc.m);
        assert(lift_m(prod, 0) == prod.m);
        assert(fits_i128(acc.m));
        assert(fits_i128(prod.m));
        assert(fits_i128(acc.m + prod.m));
        assert(fx_add_ok(acc, prod));
    }
}

/// Slot addition admits the additive identity: folding zero into any scalar
/// is always representable and leaves the scalar unchanged.  This is one of
/// the two algebraic facts tree-parallel reduction rests on.
pub proof fn lemma_fx_add_identity(x: Fx)
    requires
        fits_i128(x.m),
    ensures
        fx_add_ok(fx_zero(), x),
        fx_add(fx_zero(), x) == x,
        fx_add_ok(x, fx_zero()),
        fx_add(x, fx_zero()) == x,
{
    lemma_pow0(FRAC_BASE as int);
    assert(x.m * pow_base(0) == x.m);
    assert(lift_m(x, fx_join_e(fx_zero(), x)) == x.m);
    assert(lift_m(fx_zero(), fx_join_e(fx_zero(), x)) == 0);
}

/// Slot addition is commutative.
pub proof fn lemma_fx_add_commutative(a: Fx, b: Fx)
    ensures
        fx_add_ok(a, b) == fx_add_ok(b, a),
        fx_add(a, b) == fx_add(b, a),
{
}

/// Slot addition is associative on exact values: whichever way three scalars
/// are grouped, the result denotes the same mantissa at the same scale.
/// Together with the identity and commutativity this is what lets each
/// parallel worker fold its own partition and combine partials in any order.
pub proof fn lemma_fx_add_associative(a: Fx, b: Fx, c: Fx)
    ensures
        ({
            let e = fx_join_e(fx_add(a, b), c);
            &&& fx_add(fx_add(a, b), c).e == e
            &&& fx_add(a, fx_add(b, c)).e == e
            &&& fx_add(fx_add(a, b), c).m == lift_m(a, e) + lift_m(b, e) + lift_m(c, e)
            &&& fx_add(a, fx_add(b, c)).m == lift_m(a, e) + lift_m(b, e) + lift_m(c, e)
        }),
{
    let e = fx_join_e(fx_add(a, b), c);
    lemma_lift_twice(a, fx_join_e(a, b), e);
    lemma_lift_twice(b, fx_join_e(a, b), e);
    lemma_lift_twice(b, fx_join_e(b, c), e);
    lemma_lift_twice(c, fx_join_e(b, c), e);
    let ab = fx_add(a, b);
    let bc = fx_add(b, c);
    assert(lift_m(ab, e) == (lift_m(a, fx_join_e(a, b)) + lift_m(b, fx_join_e(a, b))) * pow_base(
        (e - ab.e) as nat,
    ));
    assert((lift_m(a, fx_join_e(a, b)) + lift_m(b, fx_join_e(a, b))) * pow_base((e - ab.e) as nat)
        == lift_m(a, fx_join_e(a, b)) * pow_base((e - ab.e) as nat) + lift_m(b, fx_join_e(a, b))
        * pow_base((e - ab.e) as nat)) by (nonlinear_arith);
    assert(lift_m(bc, e) == (lift_m(b, fx_join_e(b, c)) + lift_m(c, fx_join_e(b, c))) * pow_base(
        (e - bc.e) as nat,
    ));
    assert((lift_m(b, fx_join_e(b, c)) + lift_m(c, fx_join_e(b, c))) * pow_base((e - bc.e) as nat)
        == lift_m(b, fx_join_e(b, c)) * pow_base((e - bc.e) as nat) + lift_m(c, fx_join_e(b, c))
        * pow_base((e - bc.e) as nat)) by (nonlinear_arith);
}

/// Rescaling in two steps equals rescaling in one: lifting a scalar to an
/// intermediate exponent and on to a final one multiplies by the product of
/// the two scale factors.
proof fn lemma_lift_twice(x: Fx, mid: nat, e: nat)
    requires
        x.e <= mid <= e,
    ensures
        lift_m(x, mid) * pow_base((e - mid) as nat) == lift_m(x, e),
{
    lemma_pow_adds(FRAC_BASE as int, (mid - x.e) as nat, (e - mid) as nat);
    assert((x.m * pow_base((mid - x.e) as nat)) * pow_base((e - mid) as nat) == x.m * (pow_base(
        (mid - x.e) as nat,
    ) * pow_base((e - mid) as nat))) by (nonlinear_arith);
}

} // verus!
