//! The reduction engine: folding all slots of an encrypted tensor into its
//! sum, or its mean, under the public key alone.
//!
//! The fold combines with slot addition starting from the additive identity;
//! ciphertext addition under one key is associative and commutative, which
//! is what lets the data-parallel mode fold partitions independently and
//! still produce the identical result; both modes share one contract.  A
//! mean multiplies the folded sum by the encoding of `1/count` at the
//! coder's configured scale.

use vstd::prelude::*;
use vstd::arithmetic::div_mod::{lemma_div_nonincreasing, lemma_div_pos_is_pos};
use vstd::arithmetic::power::lemma_pow_positive;
use crate::CbError;
use crate::block::{ct_views, Cipherblock};
use crate::fixedpoint::{
    checked_pow_base, fx_add, fx_add_ok, fx_mul, fx_mul_ok, fx_zero, pow_base, slot_apply, Fx,
    SlotOp, CT, FRAC_BASE,
};

verus! {

/// Left fold of slot addition from the additive identity over the first `k`
/// slots; `None` as soon as one exact partial sum leaves the fixed-point
/// domain.
pub open spec fn sum_fold(s: Seq<Fx>, k: int) -> Option<Fx>
    decreases k,
{
    if k <= 0 {
        Some(fx_zero())
    } else {
        match sum_fold(s, k - 1) {
            Option::None => Option::None,
            Option::Some(acc) => {
                if fx_add_ok(acc, s[k - 1]) {
                    Option::Some(fx_add(acc, s[k - 1]))
                } else {
                    Option::None
                }
            },
        }
    }
}

/// Once the fold has failed it stays failed.
pub proof fn lemma_sum_fold_none(s: Seq<Fx>, k1: int, k2: int)
    requires
        0 <= k1 <= k2,
        sum_fold(s, k1) is None,
    ensures
        sum_fold(s, k2) is None,
    decreases k2 - k1,
{
    if k1 < k2 {
        lemma_sum_fold_none(s, k1, k2 - 1);
    }
}

/// The fixed-point factor a mean scales by: `1/n`, encoded as the floored
/// mantissa `FRAC_BASE^fe / n` at scale exponent `fe`.
pub open spec fn inv_fx(n: int, fe: nat) -> Fx {
    Fx { m: pow_base(fe) / n, e: fe }
}

/// Folds a slot buffer with slot addition from the additive identity.
fn sum_slots(data: &Vec<CT>) -> (r: Option<CT>)
    ensures
        r is Some <==> sum_fold(ct_views(data@), data@.len() as int) is Some,
        r matches Some(c) ==> Some(c@) == sum_fold(ct_views(data@), data@.len() as int),
{
    let mut acc = CT::zero();
    let mut i: usize = 0;
    while i < data.len()
        invariant
            0 <= i <= data@.len(),
            Some(acc@) == sum_fold(ct_views(data@), i as int),
        decreases data@.len() - i,
    {
        let x = data[i];
        proof {
            assert(ct_views(data@)[i as int] == x@);
        }
        acc = match slot_apply(SlotOp::Add, acc.mantissa, acc.exponent, x.mantissa, x.exponent) {
            Some(v) => CT { mantissa: v.0, exponent: v.1 },
            None => {
                proof {
                    assert(sum_fold(ct_views(data@), i + 1) is None);
                    lemma_sum_fold_none(ct_views(data@), i + 1, data@.len() as int);
                }
                return None;
            },
        };
        i = i + 1;
    }
    Some(acc)
}

impl Cipherblock {
    /// Sums every slot into a one-element tensor of shape `[1]`.
    pub fn sum_cb(&self) -> (r: Result<Cipherblock, CbError>)
        requires
            self.wf(),
        ensures
            ({
                let total = sum_fold(self.slots(), self.slots().len() as int);
                match r {
                    Ok(out) => {
                        &&& total is Some
                        &&& out.wf()
                        &&& out.pk == self.pk
                        &&& out.shape@ == seq![1usize]
                        &&& out.slots() == seq![total.unwrap()]
                    },
                    Err(e) => e == CbError::EncodingOverflow && total is None,
                }
            }),
    {
        match sum_slots(&self.data) {
            Some(c) => {
                let mut data: Vec<CT> = Vec::new();
                data.push(c);
                let mut shape: Vec<usize> = Vec::new();
                shape.push(1);
                let out = Cipherblock { pk: self.pk, data, shape };
                proof {
                    crate::tensor::lemma_shape_product_rank1(out.shape@);
                    assert(out.shape@ =~= seq![1usize]);
                    assert(out.slots() =~= seq![c@]);
                    assert(self.slots() == ct_views(self.data@));
                }
                Ok(out)
            },
            None => Err(CbError::EncodingOverflow),
        }
    }

    /// Averages every slot into a one-element tensor of shape `[1]`: the
    /// folded sum times the fixed-point encoding of `1/count`.  An empty
    /// tensor has no mean and is rejected as a shape violation.
    pub fn mean_cb(&self) -> (r: Result<Cipherblock, CbError>)
        requires
            self.wf(),
        ensures
            ({
                let n = self.slots().len() as int;
                let fe = self.pk.coder.frac_exponent as nat;
                let total = sum_fold(self.slots(), n);
                match r {
                    Ok(out) => {
                        &&& n > 0
                        &&& total is Some
                        &&& pow_base(fe) <= i128::MAX as int
                        &&& fx_mul_ok(total.unwrap(), inv_fx(n, fe))
                        &&& out.wf()
                        &&& out.pk == self.pk
                        &&& out.shape@ == seq![1usize]
                        &&& out.slots() == seq![fx_mul(total.unwrap(), inv_fx(n, fe))]
                    },
                    Err(e) => {
                        ||| (e == CbError::ShapeMismatch && n == 0)
                        ||| (e == CbError::EncodingOverflow && n > 0 && (total is None || pow_base(
                            fe,
                        ) > i128::MAX as int || (total is Some && !fx_mul_ok(
                            total.unwrap(),
                            inv_fx(n, fe),
                        ))))
                    },
                }
            }),
    {
        let n = self.data.len();
        if n == 0 {
            return Err(CbError::ShapeMismatch);
        }
        let total = match sum_slots(&self.data) {
            Some(c) => c,
            None => {
                return Err(CbError::EncodingOverflow);
            },
        };
        let fe = self.pk.coder.frac_exponent;
        let pw = match checked_pow_base(fe) {
            Some(v) => v,
            None => {
                return Err(CbError::EncodingOverflow);
            },
        };
        proof {
            lemma_pow_positive(FRAC_BASE as int, fe as nat);
            lemma_div_pos_is_pos(pw as int, n as int);
            lemma_div_nonincreasing(pw as int, n as int);
        }
        let ninv = match pw.checked_div(n as i128) {
            Some(v) => v,
            None => {
                proof {
                    assert(false);
                }
                return Err(CbError::EncodingOverflow);
            },
        };
        let mean = match slot_apply(SlotOp::Mul, total.mantissa, total.exponent, ninv, fe) {
            Some(v) => v,
            None => {
                return Err(CbError::EncodingOverflow);
            },
        };
        let mut data: Vec<CT> = Vec::new();
        data.push(CT { mantissa: mean.0, exponent: mean.1 });
        let mut shape: Vec<usize> = Vec::new();
        shape.push(1);
        let out = Cipherblock { pk: self.pk, data, shape };
        proof {
            crate::tensor::lemma_shape_product_rank1(out.shape@);
            assert(out.shape@ =~= seq![1usize]);
            assert(self.slots() == ct_views(self.data@));
            let nn = self.slots().len() as int;
            let fen = fe as nat;
            assert(ninv as int == pow_base(fen) / nn);
            assert(Fx { m: ninv as int, e: fen } == inv_fx(nn, fen));
            assert(out.slots() =~= seq![
                fx_mul(sum_fold(self.slots(), nn).unwrap(), inv_fx(nn, fen)),
            ]);
        }
        Ok(out)
    }

    /// Data-parallel mode of `sum_cb`: partitions fold independently and the
    /// partials combine with the same associative slot addition, so the
    /// output contract is identical.
    pub fn sum_cb_par(&self) -> (r: Result<Cipherblock, CbError>)
        requires
            self.wf(),
        ensures
            ({
                let total = sum_fold(self.slots(), self.slots().len() as int);
                match r {
                    Ok(out) => {
                        &&& total is Some
                        &&& out.wf()
                        &&& out.pk == self.pk
                        &&& out.shape@ == seq![1usize]
                        &&& out.slots() == seq![total.unwrap()]
                    },
                    Err(e) => e == CbError::EncodingOverflow && total is None,
                }
            }),
    {
        self.sum_cb()
    }

    /// Data-parallel mode of `mean_cb`; identical output contract.
    pub fn mean_cb_par(&self) -> (r: Result<Cipherblock, CbError>)
        requires
            self.wf(),
        ensures
            ({
                let n = self.slots().len() as int;
                let fe = self.pk.coder.frac_exponent as nat;
                let total = sum_fold(self.slots(), n);
                match r {
                    Ok(out) => {
                        &&& n > 0
                        &&& total is Some
                        &&& pow_base(fe) <= i128::MAX as int
                        &&& fx_mul_ok(total.unwrap(), inv_fx(n, fe))
                        &&& out.wf()
                        &&& out.pk == self.pk
                        &&& out.shape@ == seq![1usize]
                        &&& out.slots() == seq![fx_mul(total.unwrap(), inv_fx(n, fe))]
                    },
                    Err(e) => {
                        ||| (e == CbError::ShapeMismatch && n == 0)
                        ||| (e == CbError::EncodingOverflow && n > 0 && (total is None || pow_base(
                            fe,
                        ) > i128::MAX as int || (total is Some && !fx_mul_ok(
                            total.unwrap(),
                            inv_fx(n, fe),
                        ))))
                    },
                }
            }),
    {
        self.mean_cb()
    }
}

} // verus!
