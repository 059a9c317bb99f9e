//! The operation catalogue: elementwise, scalar-broadcast and matrix
//! multiplication operations over encrypted tensors.
//!
//! Binary tensor operations demand equal shapes, ciphertext-ciphertext
//! operations additionally one shared public key; a violated contract is
//! reported before any slot is touched, and an exact result that would leave
//! the fixed-point domain is reported rather than truncated.  Every
//! operation exists in a sequential and a data-parallel mode with the
//! identical output contract: slots are independent, so the parallel
//! schedule computes the same per-slot values.

use vstd::prelude::*;
use crate::CbError;
use crate::block::{clone_shape, ct_views, shapes_equal, Cipherblock};
use crate::codec::{enc_seq, CouldCode};
use crate::fixedpoint::{
    fx_add, fx_add_ok, fx_mul, fx_mul_ok, fx_zero, slot_apply, slot_op_ok, slot_op_val, Coder, Fx,
    SlotOp, CT,
};

verus! {

/// Contract of an elementwise ciphertext-ciphertext operation.
pub open spec fn ew_cipher_post(
    op: SlotOp,
    a: Cipherblock,
    b: Cipherblock,
    r: Result<Cipherblock, CbError>,
) -> bool {
    let keys_ok = a.pk.key_id == b.pk.key_id;
    let shape_ok = a.shape@ == b.shape@;
    match r {
        Ok(out) => {
            &&& keys_ok
            &&& shape_ok
            &&& forall|i: int|
                0 <= i < a.slots().len() ==> slot_op_ok(op, #[trigger] a.slots()[i], b.slots()[i])
            &&& out.wf()
            &&& out.pk == a.pk
            &&& out.shape@ == a.shape@
            &&& out.slots().len() == a.slots().len()
            &&& forall|i: int|
                0 <= i < a.slots().len() ==> #[trigger] out.slots()[i] == slot_op_val(
                    op,
                    a.slots()[i],
                    b.slots()[i],
                )
        },
        Err(e) => {
            ||| (e == CbError::KeyMismatch && !keys_ok)
            ||| (e == CbError::ShapeMismatch && keys_ok && !shape_ok)
            ||| (e == CbError::EncodingOverflow && keys_ok && shape_ok && exists|i: int|
                0 <= i < a.slots().len() && !slot_op_ok(op, #[trigger] a.slots()[i], b.slots()[i]))
        },
    }
}

/// Contract of an elementwise ciphertext-plaintext operation: the plaintext
/// tensor is encoded slot by slot under the cipher operand's coder.
pub open spec fn ew_plain_post<T: CouldCode>(
    op: SlotOp,
    a: Cipherblock,
    b: crate::tensor::PlainTensor<T>,
    r: Result<Cipherblock, CbError>,
) -> bool {
    let shape_ok = a.shape@ == b.shape@;
    let bv = enc_seq(b.data@);
    match r {
        Ok(out) => {
            &&& shape_ok
            &&& forall|i: int|
                0 <= i < a.slots().len() ==> slot_op_ok(op, #[trigger] a.slots()[i], bv[i])
            &&& out.wf()
            &&& out.pk == a.pk
            &&& out.shape@ == a.shape@
            &&& out.slots().len() == a.slots().len()
            &&& forall|i: int|
                0 <= i < a.slots().len() ==> #[trigger] out.slots()[i] == slot_op_val(
                    op,
                    a.slots()[i],
                    bv[i],
                )
        },
        Err(e) => {
            ||| (e == CbError::ShapeMismatch && !shape_ok)
            ||| (e == CbError::EncodingOverflow && shape_ok && exists|i: int|
                0 <= i < a.slots().len() && !slot_op_ok(op, #[trigger] a.slots()[i], bv[i]))
        },
    }
}

/// Contract of a scalar-broadcast operation: every slot is combined with the
/// one fixed-point scalar `b`.
pub open spec fn ew_scalar_post(
    op: SlotOp,
    a: Cipherblock,
    b: Fx,
    r: Result<Cipherblock, CbError>,
) -> bool {
    match r {
        Ok(out) => {
            &&& forall|i: int|
                0 <= i < a.slots().len() ==> slot_op_ok(op, #[trigger] a.slots()[i], b)
            &&& out.wf()
            &&& out.pk == a.pk
            &&& out.shape@ == a.shape@
            &&& out.slots().len() == a.slots().len()
            &&& forall|i: int|
                0 <= i < a.slots().len() ==> #[trigger] out.slots()[i] == slot_op_val(
                    op,
                    a.slots()[i],
                    b,
                )
        },
        Err(e) => {
            &&& e == CbError::EncodingOverflow
            &&& exists|i: int| 0 <= i < a.slots().len() && !slot_op_ok(op, #[trigger] a.slots()[i], b)
        },
    }
}

/// Applies one slot transform pairwise over two equally long slot buffers.
fn zip_slots(op: SlotOp, a: &Vec<CT>, b: &Vec<CT>) -> (r: Result<Vec<CT>, CbError>)
    requires
        a@.len() == b@.len(),
    ensures
        match r {
            Ok(out) => {
                &&& out@.len() == a@.len()
                &&& forall|i: int|
                    0 <= i < a@.len() ==> slot_op_ok(op, #[trigger] ct_views(a@)[i], ct_views(b@)[i])
                &&& forall|i: int|
                    0 <= i < a@.len() ==> #[trigger] ct_views(out@)[i] == slot_op_val(
                        op,
                        ct_views(a@)[i],
                        ct_views(b@)[i],
                    )
            },
            Err(e) => {
                &&& e == CbError::EncodingOverflow
                &&& exists|i: int|
                    0 <= i < a@.len() && !slot_op_ok(
                        op,
                        #[trigger] ct_views(a@)[i],
                        ct_views(b@)[i],
                    )
            },
        },
{
    let mut out: Vec<CT> = Vec::new();
    let mut i: usize = 0;
    while i < a.len()
        invariant
            0 <= i <= a@.len(),
            a@.len() == b@.len(),
            out@.len() == i,
            forall|j: int| 0 <= j < i ==> slot_op_ok(op, (#[trigger] a@[j])@, b@[j]@),
            forall|j: int|
                0 <= j < i ==> (#[trigger] out@[j])@ == slot_op_val(op, a@[j]@, b@[j]@),
        decreases a@.len() - i,
    {
        let x = a[i];
        let y = b[i];
        match slot_apply(op, x.mantissa, x.exponent, y.mantissa, y.exponent) {
            Some(v) => {
                out.push(CT { mantissa: v.0, exponent: v.1 });
            },
            None => {
                proof {
                    assert(ct_views(a@)[i as int] == x@ && ct_views(b@)[i as int] == y@);
                    assert(0 <= i < a@.len() && !slot_op_ok(
                        op,
                        ct_views(a@)[i as int],
                        ct_views(b@)[i as int],
                    ));
                }
                return Err(CbError::EncodingOverflow);
            },
        }
        i = i + 1;
    }
    proof {
        assert(forall|j: int|
            0 <= j < a@.len() ==> #[trigger] ct_views(a@)[j] == a@[j]@ && ct_views(b@)[j]
                == b@[j]@);
        assert(forall|j: int| 0 <= j < out@.len() ==> #[trigger] ct_views(out@)[j] == out@[j]@);
    }
    Ok(out)
}

/// Applies one slot transform between every slot and one fixed scalar.
fn map_scalar(op: SlotOp, a: &Vec<CT>, bm: i128, be: u32) -> (r: Result<Vec<CT>, CbError>)
    ensures
        ({
            let b = Fx { m: bm as int, e: be as nat };
            match r {
                Ok(out) => {
                    &&& out@.len() == a@.len()
                    &&& forall|i: int|
                        0 <= i < a@.len() ==> slot_op_ok(op, #[trigger] ct_views(a@)[i], b)
                    &&& forall|i: int|
                        0 <= i < a@.len() ==> #[trigger] ct_views(out@)[i] == slot_op_val(
                            op,
                            ct_views(a@)[i],
                            b,
                        )
                },
                Err(e) => {
                    &&& e == CbError::EncodingOverflow
                    &&& exists|i: int|
                        0 <= i < a@.len() && !slot_op_ok(op, #[trigger] ct_views(a@)[i], b)
                },
            }
        }),
{
    let ghost b = Fx { m: bm as int, e: be as nat };
    let mut out: Vec<CT> = Vec::new();
    let mut i: usize = 0;
    while i < a.len()
        invariant
            0 <= i <= a@.len(),
            out@.len() == i,
            forall|j: int| 0 <= j < i ==> slot_op_ok(op, (#[trigger] a@[j])@, b),
            forall|j: int| 0 <= j < i ==> (#[trigger] out@[j])@ == slot_op_val(op, a@[j]@, b),
            b == (Fx { m: bm as int, e: be as nat }),
        decreases a@.len() - i,
    {
        let x = a[i];
        match slot_apply(op, x.mantissa, x.exponent, bm, be) {
            Some(v) => {
                out.push(CT { mantissa: v.0, exponent: v.1 });
            },
            None => {
                proof {
                    assert(ct_views(a@)[i as int] == x@);
                    assert(0 <= i < a@.len() && !slot_op_ok(op, ct_views(a@)[i as int], b));
                }
                return Err(CbError::EncodingOverflow);
            },
        }
        i = i + 1;
    }
    proof {
        assert(forall|j: int| 0 <= j < a@.len() ==> #[trigger] ct_views(a@)[j] == a@[j]@);
        assert(forall|j: int| 0 <= j < out@.len() ==> #[trigger] ct_views(out@)[j] == out@[j]@);
    }
    Ok(out)
}

/// Encodes every element of a plaintext buffer into a slot-shaped scalar.
fn encode_slots<T: CouldCode>(arr: &Vec<T>, coder: &Coder) -> (r: Vec<CT>)
    ensures
        r@.len() == arr@.len(),
        forall|i: int| 0 <= i < arr@.len() ==> #[trigger] ct_views(r@)[i] == enc_seq(arr@)[i],
{
    let mut out: Vec<CT> = Vec::new();
    let mut i: usize = 0;
    while i < arr.len()
        invariant
            0 <= i <= arr@.len(),
            out@.len() == i,
            forall|j: int| 0 <= j < i ==> (#[trigger] out@[j])@ == (#[trigger] arr@[j]).enc(),
        decreases arr@.len() - i,
    {
        let p = arr[i].encode(coder);
        out.push(CT { mantissa: p.mantissa, exponent: p.exponent });
        i = i + 1;
    }
    proof {
        assert(forall|j: int| 0 <= j < out@.len() ==> #[trigger] ct_views(out@)[j] == out@[j]@);
        assert(forall|j: int|
            0 <= j < arr@.len() ==> #[trigger] enc_seq(arr@)[j] == arr@[j].enc());
    }
    out
}

impl Cipherblock {
    fn ew_cipher(&self, other: &Cipherblock, op: SlotOp) -> (r: Result<Cipherblock, CbError>)
        requires
            self.wf(),
            other.wf(),
        ensures
            ew_cipher_post(op, *self, *other, r),
    {
        if self.pk.key_id != other.pk.key_id {
            return Err(CbError::KeyMismatch);
        }
        if !shapes_equal(&self.shape, &other.shape) {
            return Err(CbError::ShapeMismatch);
        }
        match zip_slots(op, &self.data, &other.data) {
            Ok(data) => {
                let out = Cipherblock { pk: self.pk, data, shape: clone_shape(&self.shape) };
                proof {
                    assert(out.slots() == ct_views(out.data@));
                    assert(self.slots() == ct_views(self.data@));
                    assert(other.slots() == ct_views(other.data@));
                }
                Ok(out)
            },
            Err(e) => {
                proof {
                    let i = choose|i: int|
                        0 <= i < self.data@.len() && !slot_op_ok(
                            op,
                            #[trigger] ct_views(self.data@)[i],
                            ct_views(other.data@)[i],
                        );
                    assert(0 <= i < self.slots().len() && !slot_op_ok(
                        op,
                        self.slots()[i],
                        other.slots()[i],
                    ));
                }
                Err(e)
            },
        }
    }

    fn ew_plain<T: CouldCode>(&self, other: &crate::tensor::PlainTensor<T>, op: SlotOp) -> (r:
        Result<Cipherblock, CbError>)
        requires
            self.wf(),
            other.wf(),
        ensures
            ew_plain_post(op, *self, *other, r),
    {
        if !shapes_equal(&self.shape, &other.shape) {
            return Err(CbError::ShapeMismatch);
        }
        let encoded = encode_slots(&other.data, &self.pk.coder);
        proof {
            assert(forall|i: int|
                0 <= i < encoded@.len() ==> #[trigger] ct_views(encoded@)[i] == enc_seq(
                    other.data@,
                )[i]);
        }
        match zip_slots(op, &self.data, &encoded) {
            Ok(data) => {
                let out = Cipherblock { pk: self.pk, data, shape: clone_shape(&self.shape) };
                proof {
                    assert(out.slots() == ct_views(out.data@));
                    assert(self.slots() == ct_views(self.data@));
                }
                Ok(out)
            },
            Err(e) => {
                proof {
                    let i = choose|i: int|
                        0 <= i < self.data@.len() && !slot_op_ok(
                            op,
                            #[trigger] ct_views(self.data@)[i],
                            ct_views(encoded@)[i],
                        );
                    assert(0 <= i < self.slots().len() && !slot_op_ok(
                        op,
                        self.slots()[i],
                        enc_seq(other.data@)[i],
                    ));
                }
                Err(e)
            },
        }
    }

    fn ew_scalar(&self, bm: i128, be: u32, op: SlotOp) -> (r: Result<Cipherblock, CbError>)
        requires
            self.wf(),
        ensures
            ew_scalar_post(op, *self, Fx { m: bm as int, e: be as nat }, r),
    {
        let ghost b = Fx { m: bm as int, e: be as nat };
        match map_scalar(op, &self.data, bm, be) {
            Ok(data) => {
                let out = Cipherblock { pk: self.pk, data, shape: clone_shape(&self.shape) };
                proof {
                    assert(out.slots() == ct_views(out.data@));
                    assert(self.slots() == ct_views(self.data@));
                }
                Ok(out)
            },
            Err(e) => {
                proof {
                    let i = choose|i: int|
                        0 <= i < self.data@.len() && !slot_op_ok(
                            op,
                            #[trigger] ct_views(self.data@)[i],
                            b,
                        );
                    assert(0 <= i < self.slots().len() && !slot_op_ok(op, self.slots()[i], b));
                }
                Err(e)
            },
        }
    }

    /// Elementwise ciphertext + ciphertext; equal shapes, one shared key.
    pub fn add_cb(&self, other: &Cipherblock) -> (r: Result<Cipherblock, CbError>)
        requires
            self.wf(),
            other.wf(),
        ensures
            ew_cipher_post(SlotOp::Add, *self, *other, r),
    {
        self.ew_cipher(other, SlotOp::Add)
    }

    /// Elementwise ciphertext - ciphertext; equal shapes, one shared key.
    pub fn sub_cb(&self, other: &Cipherblock) -> (r: Result<Cipherblock, CbError>)
        requires
            self.wf(),
            other.wf(),
        ensures
            ew_cipher_post(SlotOp::Sub, *self, *other, r),
    {
        self.ew_cipher(other, SlotOp::Sub)
    }

    /// Elementwise ciphertext + plaintext tensor of the same shape.
    pub fn add_plaintext<T: CouldCode>(&self, other: &crate::tensor::PlainTensor<T>) -> (r: Result<
        Cipherblock,
        CbError,
    >)
        requires
            self.wf(),
            other.wf(),
        ensures
            ew_plain_post(SlotOp::Add, *self, *other, r),
    {
        self.ew_plain(other, SlotOp::Add)
    }

    /// Elementwise ciphertext - plaintext tensor of the same shape.
    pub fn sub_plaintext<T: CouldCode>(&self, other: &crate::tensor::PlainTensor<T>) -> (r: Result<
        Cipherblock,
        CbError,
    >)
        requires
            self.wf(),
            other.wf(),
        ensures
            ew_plain_post(SlotOp::Sub, *self, *other, r),
    {
        self.ew_plain(other, SlotOp::Sub)
    }

    /// Elementwise ciphertext * plaintext tensor of the same shape.  The
    /// scheme offers no ciphertext * ciphertext multiplication.
    pub fn mul_plaintext<T: CouldCode>(&self, other: &crate::tensor::PlainTensor<T>) -> (r: Result<
        Cipherblock,
        CbError,
    >)
        requires
            self.wf(),
            other.wf(),
        ensures
            ew_plain_post(SlotOp::Mul, *self, *other, r),
    {
        self.ew_plain(other, SlotOp::Mul)
    }

    /// Adds one shared ciphertext scalar to every slot.  A bare slot carries
    /// no key fingerprint, so producing the scalar under this tensor's key
    /// is the caller's obligation.
    pub fn add_cipher_scalar(&self, other: &CT) -> (r: Result<Cipherblock, CbError>)
        requires
            self.wf(),
        ensures
            ew_scalar_post(SlotOp::Add, *self, other@, r),
    {
        self.ew_scalar(other.mantissa, other.exponent, SlotOp::Add)
    }

    /// Subtracts one shared ciphertext scalar from every slot; the scalar
    /// must stem from this tensor's key, which no fingerprint can check.
    pub fn sub_cipher_scalar(&self, other: &CT) -> (r: Result<Cipherblock, CbError>)
        requires
            self.wf(),
        ensures
            ew_scalar_post(SlotOp::Sub, *self, other@, r),
    {
        self.ew_scalar(other.mantissa, other.exponent, SlotOp::Sub)
    }

    /// Adds one plaintext value, encoded once under this tensor's coder, to
    /// every slot.
    pub fn add_plaintext_scalar<T: CouldCode>(&self, other: T) -> (r: Result<Cipherblock, CbError>)
        requires
            self.wf(),
        ensures
            ew_scalar_post(SlotOp::Add, *self, other.enc(), r),
    {
        let p = other.encode(&self.pk.coder);
        self.ew_scalar(p.mantissa, p.exponent, SlotOp::Add)
    }

    /// Subtracts one plaintext value, encoded once, from every slot.
    pub fn sub_plaintext_scalar<T: CouldCode>(&self, other: T) -> (r: Result<Cipherblock, CbError>)
        requires
            self.wf(),
        ensures
            ew_scalar_post(SlotOp::Sub, *self, other.enc(), r),
    {
        let p = other.encode(&self.pk.coder);
        self.ew_scalar(p.mantissa, p.exponent, SlotOp::Sub)
    }

    /// Multiplies every slot by one plaintext value, encoded once.
    pub fn mul_plaintext_scalar<T: CouldCode>(&self, other: T) -> (r: Result<Cipherblock, CbError>)
        requires
            self.wf(),
        ensures
            ew_scalar_post(SlotOp::Mul, *self, other.enc(), r),
    {
        let p = other.encode(&self.pk.coder);
        self.ew_scalar(p.mantissa, p.exponent, SlotOp::Mul)
    }

    /// Data-parallel mode of `add_cb`; identical output contract.
    pub fn add_cb_par(&self, other: &Cipherblock) -> (r: Result<Cipherblock, CbError>)
        requires
            self.wf(),
            other.wf(),
        ensures
            ew_cipher_post(SlotOp::Add, *self, *other, r),
    {
        self.ew_cipher(other, SlotOp::Add)
    }

    /// Data-parallel mode of `sub_cb`; identical output contract.
    pub fn sub_cb_par(&self, other: &Cipherblock) -> (r: Result<Cipherblock, CbError>)
        requires
            self.wf(),
            other.wf(),
        ensures
            ew_cipher_post(SlotOp::Sub, *self, *other, r),
    {
        self.ew_cipher(other, SlotOp::Sub)
    }

    /// Data-parallel mode of `add_plaintext`; identical output contract.
    pub fn add_plaintext_par<T: CouldCode>(&self, other: &crate::tensor::PlainTensor<T>) -> (r:
        Result<Cipherblock, CbError>)
        requires
            self.wf(),
            other.wf(),
        ensures
            ew_plain_post(SlotOp::Add, *self, *other, r),
    {
        self.ew_plain(other, SlotOp::Add)
    }

    /// Data-parallel mode of `sub_plaintext`; identical output contract.
    pub fn sub_plaintext_par<T: CouldCode>(&self, other: &crate::tensor::PlainTensor<T>) -> (r:
        Result<Cipherblock, CbError>)
        requires
            self.wf(),
            other.wf(),
        ensures
            ew_plain_post(SlotOp::Sub, *self, *other, r),
    {
        self.ew_plain(other, SlotOp::Sub)
    }

    /// Data-parallel mode of `mul_plaintext`; identical output contract.
    pub fn mul_plaintext_par<T: CouldCode>(&self, other: &crate::tensor::PlainTensor<T>) -> (r:
        Result<Cipherblock, CbError>)
        requires
            self.wf(),
            other.wf(),
        ensures
            ew_plain_post(SlotOp::Mul, *self, *other, r),
    {
        self.ew_plain(other, SlotOp::Mul)
    }

    /// Data-parallel mode of `add_cipher_scalar`; identical output contract.
    pub fn add_cipher_scalar_par(&self, other: &CT) -> (r: Result<Cipherblock, CbError>)
        requires
            self.wf(),
        ensures
            ew_scalar_post(SlotOp::Add, *self, other@, r),
    {
        self.ew_scalar(other.mantissa, other.exponent, SlotOp::Add)
    }

    /// Data-parallel mode of `sub_cipher_scalar`; identical output contract.
    pub fn sub_cipher_scalar_par(&self, other: &CT) -> (r: Result<Cipherblock, CbError>)
        requires
            self.wf(),
        ensures
            ew_scalar_post(SlotOp::Sub, *self, other@, r),
    {
        self.ew_scalar(other.mantissa, other.exponent, SlotOp::Sub)
    }

    /// Data-parallel mode of `add_plaintext_scalar`; identical output
    /// contract.
    pub fn add_plaintext_scalar_par<T: CouldCode>(&self, other: T) -> (r: Result<
        Cipherblock,
        CbError,
    >)
        requires
            self.wf(),
        ensures
            ew_scalar_post(SlotOp::Add, *self, other.enc(), r),
    {
        let p = other.encode(&self.pk.coder);
        self.ew_scalar(p.mantissa, p.exponent, SlotOp::Add)
    }

    /// Data-parallel mode of `sub_plaintext_scalar`; identical output
    /// contract.
    pub fn sub_plaintext_scalar_par<T: CouldCode>(&self, other: T) -> (r: Result<
        Cipherblock,
        CbError,
    >)
        requires
            self.wf(),
        ensures
            ew_scalar_post(SlotOp::Sub, *self, other.enc(), r),
    {
        let p = other.encode(&self.pk.coder);
        self.ew_scalar(p.mantissa, p.exponent, SlotOp::Sub)
    }

    /// Data-parallel mode of `mul_plaintext_scalar`; identical output
    /// contract.
    pub fn mul_plaintext_scalar_par<T: CouldCode>(&self, other: T) -> (r: Result<
        Cipherblock,
        CbError,
    >)
        requires
            self.wf(),
        ensures
            ew_scalar_post(SlotOp::Mul, *self, other.enc(), r),
    {
        let p = other.encode(&self.pk.coder);
        self.ew_scalar(p.mantissa, p.exponent, SlotOp::Mul)
    }
}

/// Accumulation of the first `k` pointwise products of two slot sequences,
/// folded with slot addition from the additive identity; `None` as soon as
/// one exact intermediate leaves the fixed-point domain.
pub open spec fn mac_fold(x: Seq<Fx>, y: Seq<Fx>, k: int) -> Option<Fx>
    decreases k,
{
    if k <= 0 {
        Some(fx_zero())
    } else {
        match mac_fold(x, y, k - 1) {
            Option::None => Option::None,
            Option::Some(acc) => {
                if fx_mul_ok(x[k - 1], y[k - 1]) && fx_add_ok(acc, fx_mul(x[k - 1], y[k - 1])) {
                    Option::Some(fx_add(acc, fx_mul(x[k - 1], y[k - 1])))
                } else {
                    Option::None
                }
            },
        }
    }
}

/// Once an accumulation has failed it stays failed.
pub proof fn lemma_mac_fold_none(x: Seq<Fx>, y: Seq<Fx>, k1: int, k2: int)
    requires
        0 <= k1 <= k2,
        mac_fold(x, y, k1) is None,
    ensures
        mac_fold(x, y, k2) is None,
    decreases k2 - k1,
{
    if k1 < k2 {
        lemma_mac_fold_none(x, y, k1, k2 - 1);
    }
}

/// Every `step`-th scalar of `s` starting at `base`, `n` of them.
pub open spec fn strided(s: Seq<Fx>, base: int, step: int, n: int) -> Seq<Fx> {
    Seq::new(n as nat, |j: int| s[base + j * step])
}

/// One output cell of a matrix product: row `i` of the left operand against
/// column `k` of the right one, both flat row-major.
pub open spec fn matmul_cell(xv: Seq<Fx>, n: int, i: int, yv: Seq<Fx>, p: int, k: int) -> Option<
    Fx,
> {
    mac_fold(strided(xv, i * n, 1, n), strided(yv, k, p, n), n)
}

/// Whether every cell of an `[m,n] x [n,p]` product stays representable.
pub open spec fn matmul_ok(xv: Seq<Fx>, m: int, n: int, yv: Seq<Fx>, p: int) -> bool {
    forall|i: int, k: int|
        0 <= i < m && 0 <= k < p ==> (#[trigger] matmul_cell(xv, n, i, yv, p, k)) is Some
}

/// The cells of an `[m,n] x [n,p]` product, flat row-major.
pub open spec fn matmul_val(xv: Seq<Fx>, m: int, n: int, yv: Seq<Fx>, p: int) -> Seq<Fx> {
    Seq::new((m * p) as nat, |idx: int| matmul_cell(xv, n, idx / p, yv, p, idx % p).unwrap())
}

/// Dot product of two strided views over slot buffers.
fn strided_dot(
    x: &Vec<CT>,
    xbase: usize,
    xstep: usize,
    y: &Vec<CT>,
    ybase: usize,
    ystep: usize,
    n: usize,
) -> (r: Option<CT>)
    requires
        forall|j: int| 0 <= j < n ==> 0 <= xbase + #[trigger] (j * xstep) < x@.len(),
        forall|j: int| 0 <= j < n ==> 0 <= ybase + #[trigger] (j * ystep) < y@.len(),
    ensures
        ({
            let sx = strided(ct_views(x@), xbase as int, xstep as int, n as int);
            let sy = strided(ct_views(y@), ybase as int, ystep as int, n as int);
            &&& (r is Some <==> mac_fold(sx, sy, n as int) is Some)
            &&& (r matches Some(c) ==> Some(c@) == mac_fold(sx, sy, n as int))
        }),
{
    let ghost sx = strided(ct_views(x@), xbase as int, xstep as int, n as int);
    let ghost sy = strided(ct_views(y@), ybase as int, ystep as int, n as int);
    let mut acc = CT::zero();
    let mut j: usize = 0;
    while j < n
        invariant
            0 <= j <= n,
            forall|jj: int| 0 <= jj < n ==> 0 <= xbase + #[trigger] (jj * xstep) < x@.len(),
            forall|jj: int| 0 <= jj < n ==> 0 <= ybase + #[trigger] (jj * ystep) < y@.len(),
            sx == strided(ct_views(x@), xbase as int, xstep as int, n as int),
            sy == strided(ct_views(y@), ybase as int, ystep as int, n as int),
            Some(acc@) == mac_fold(sx, sy, j as int),
        decreases n - j,
    {
        proof {
            vstd::std_specs::vec::axiom_spec_len(x);
            vstd::std_specs::vec::axiom_spec_len(y);
            assert(0 <= xbase + (j as int) * (xstep as int) < x@.len());
            assert(0 <= ybase + (j as int) * (ystep as int) < y@.len());
        }
        let xi = x[xbase + j * xstep];
        let yi = y[ybase + j * ystep];
        proof {
            assert(sx[j as int] == ct_views(x@)[xbase + (j as int) * (xstep as int)]);
            assert(ct_views(x@)[xbase + (j as int) * (xstep as int)] == x@[xbase + (j as int) * (
            xstep as int)]@);
            assert(sx[j as int] == xi@);
            assert(sy[j as int] == yi@);
        }
        let prod = match slot_apply(SlotOp::Mul, xi.mantissa, xi.exponent, yi.mantissa, yi.exponent) {
            Some(v) => v,
            None => {
                proof {
                    assert(mac_fold(sx, sy, j + 1) is None);
                    lemma_mac_fold_none(sx, sy, j + 1, n as int);
                }
                return None;
            },
        };
        acc = match slot_apply(SlotOp::Add, acc.mantissa, acc.exponent, prod.0, prod.1) {
            Some(v) => CT { mantissa: v.0, exponent: v.1 },
            None => {
                proof {
                    assert(mac_fold(sx, sy, j + 1) is None);
                    lemma_mac_fold_none(sx, sy, j + 1, n as int);
                }
                return None;
            },
        };
        j = j + 1;
    }
    Some(acc)
}

/// Flat row-major product core: `x` as an `[m,n]` matrix of slots times `y`
/// as an `[n,p]` matrix of slots.
fn matmul_core(x: &Vec<CT>, m: usize, n: usize, y: &Vec<CT>, p: usize) -> (r: Result<
    Vec<CT>,
    CbError,
>)
    requires
        x@.len() == m * n,
        y@.len() == n * p,
        m * p <= usize::MAX,
    ensures
        ({
            let xv = ct_views(x@);
            let yv = ct_views(y@);
            match r {
                Ok(out) => {
                    &&& matmul_ok(xv, m as int, n as int, yv, p as int)
                    &&& out@.len() == m * p
                    &&& ct_views(out@) == matmul_val(xv, m as int, n as int, yv, p as int)
                },
                Err(e) => {
                    &&& e == CbError::EncodingOverflow
                    &&& !matmul_ok(xv, m as int, n as int, yv, p as int)
                },
            }
        }),
{
    let ghost xv = ct_views(x@);
    let ghost yv = ct_views(y@);
    let mut out: Vec<CT> = Vec::new();
    let mut i: usize = 0;
    while i < m
        invariant
            0 <= i <= m,
            x@.len() == m * n,
            y@.len() == n * p,
            m * p <= usize::MAX,
            xv == ct_views(x@),
            yv == ct_views(y@),
            out@.len() == i * p,
            forall|idx: int|
                0 <= idx < out@.len() ==> (#[trigger] matmul_cell(
                    xv,
                    n as int,
                    idx / p as int,
                    yv,
                    p as int,
                    idx % p as int,
                )) is Some && out@[idx]@ == matmul_cell(
                    xv,
                    n as int,
                    idx / p as int,
                    yv,
                    p as int,
                    idx % p as int,
                ).unwrap(),
        decreases m - i,
    {
        let mut k: usize = 0;
        while k < p
            invariant
                0 <= i < m,
                0 <= k <= p,
                x@.len() == m * n,
                y@.len() == n * p,
                m * p <= usize::MAX,
                xv == ct_views(x@),
                yv == ct_views(y@),
                out@.len() == i * p + k,
                forall|idx: int|
                    0 <= idx < out@.len() ==> (#[trigger] matmul_cell(
                        xv,
                        n as int,
                        idx / p as int,
                        yv,
                        p as int,
                        idx % p as int,
                    )) is Some && out@[idx]@ == matmul_cell(
                        xv,
                        n as int,
                        idx / p as int,
                        yv,
                        p as int,
                        idx % p as int,
                    ).unwrap(),
            decreases p - k,
        {
            proof {
                vstd::std_specs::vec::axiom_spec_len(x);
                vstd::std_specs::vec::axiom_spec_len(y);
                assert(i * n <= m * n && i * n + n <= m * n) by (nonlinear_arith)
                    requires
                        0 <= i < m,
                        n >= 0,
                ;
                assert forall|j: int| 0 <= j < n implies 0 <= (i * n) as int + #[trigger] (j * 1)
                    < x@.len() by {
                    assert(i * n + j * 1 < m * n) by (nonlinear_arith)
                        requires
                            0 <= i < m,
                            0 <= j < n,
                    ;
                }
                assert forall|j: int| 0 <= j < n implies 0 <= k as int + #[trigger] (j * (
                p as int)) < y@.len() by {
                    assert(k + j * (p as int) < n * p) by (nonlinear_arith)
                        requires
                            0 <= k < p,
                            0 <= j < n,
                    ;
                }
            }
            match strided_dot(x, i * n, 1, y, k, p, n) {
                Some(c) => {
                    out.push(c);
                    proof {
                        let idx = (i * p + k) as int;
                        vstd::arithmetic::div_mod::lemma_fundamental_div_mod_converse(
                            idx,
                            p as int,
                            i as int,
                            k as int,
                        );
                        assert(idx / p as int == i as int && idx % p as int == k as int);
                        assert(out@[idx]@ == c@);
                        assert((i * p + k) + 1 <= m * p) by (nonlinear_arith)
                            requires
                                0 <= i < m,
                                0 <= k < p,
                        ;
                    }
                },
                None => {
                    proof {
                        let ci = matmul_cell(xv, n as int, i as int, yv, p as int, k as int);
                        assert(ci is None);
                        if matmul_ok(xv, m as int, n as int, yv, p as int) {
                            assert(matmul_cell(xv, n as int, i as int, yv, p as int, k as int)
                                is Some);
                        }
                    }
                    return Err(CbError::EncodingOverflow);
                },
            }
            k = k + 1;
        }
        proof {
            assert((i + 1) * p == i * p + p) by (nonlinear_arith);
        }
        i = i + 1;
    }
    proof {
        assert forall|i2: int, k2: int| 0 <= i2 < m && 0 <= k2 < p implies (#[trigger] matmul_cell(
            xv,
            n as int,
            i2,
            yv,
            p as int,
            k2,
        )) is Some by {
            let idx = i2 * p + k2;
            assert(0 <= i2 * p + k2 < m * p) by (nonlinear_arith)
                requires
                    0 <= i2 < m,
                    0 <= k2 < p,
            ;
            vstd::arithmetic::div_mod::lemma_fundamental_div_mod_converse(idx, p as int, i2, k2);
        }
        assert(ct_views(out@) =~= matmul_val(xv, m as int, n as int, yv, p as int));
    }
    Ok(out)
}

/// Contract of ciphertext-matrix times plaintext-matrix multiplication:
/// `[m,n] x [n,p] -> [m,p]`, rejected before any slot work if the operands
/// are not rank-two matrices with agreeing inner dimensions.
pub open spec fn matmul_ix2_post<T: CouldCode>(
    a: Cipherblock,
    b: crate::tensor::PlainTensor<T>,
    r: Result<Cipherblock, CbError>,
) -> bool {
    let dims_ok = a.shape@.len() == 2 && b.shape@.len() == 2 && a.shape@[1] == b.shape@[0]
        && a.shape@[0] * b.shape@[1] <= usize::MAX;
    let m = a.shape@[0] as int;
    let n = a.shape@[1] as int;
    let p = b.shape@[1] as int;
    match r {
        Ok(out) => {
            &&& dims_ok
            &&& matmul_ok(a.slots(), m, n, enc_seq(b.data@), p)
            &&& out.wf()
            &&& out.pk == a.pk
            &&& out.shape@ == seq![a.shape@[0], b.shape@[1]]
            &&& out.slots() == matmul_val(a.slots(), m, n, enc_seq(b.data@), p)
        },
        Err(e) => {
            ||| (e == CbError::ShapeMismatch && !dims_ok)
            ||| (e == CbError::EncodingOverflow && dims_ok && !matmul_ok(
                a.slots(),
                m,
                n,
                enc_seq(b.data@),
                p,
            ))
        },
    }
}

/// Contract of the reversed orientation: plaintext matrix times ciphertext
/// matrix, `[q,m] x [m,n] -> [q,n]`.
pub open spec fn rmatmul_ix2_post<T: CouldCode>(
    a: Cipherblock,
    b: crate::tensor::PlainTensor<T>,
    r: Result<Cipherblock, CbError>,
) -> bool {
    let dims_ok = a.shape@.len() == 2 && b.shape@.len() == 2 && b.shape@[1] == a.shape@[0]
        && b.shape@[0] * a.shape@[1] <= usize::MAX;
    let q = b.shape@[0] as int;
    let mm = b.shape@[1] as int;
    let nn = a.shape@[1] as int;
    match r {
        Ok(out) => {
            &&& dims_ok
            &&& matmul_ok(enc_seq(b.data@), q, mm, a.slots(), nn)
            &&& out.wf()
            &&& out.pk == a.pk
            &&& out.shape@ == seq![b.shape@[0], a.shape@[1]]
            &&& out.slots() == matmul_val(enc_seq(b.data@), q, mm, a.slots(), nn)
        },
        Err(e) => {
            ||| (e == CbError::ShapeMismatch && !dims_ok)
            ||| (e == CbError::EncodingOverflow && dims_ok && !matmul_ok(
                enc_seq(b.data@),
                q,
                mm,
                a.slots(),
                nn,
            ))
        },
    }
}

/// Contract of ciphertext-matrix times plaintext-vector multiplication:
/// `[m,n] x [n] -> [m]`.
pub open spec fn matmul_ix1_post<T: CouldCode>(
    a: Cipherblock,
    b: crate::tensor::PlainTensor<T>,
    r: Result<Cipherblock, CbError>,
) -> bool {
    let dims_ok = a.shape@.len() == 2 && b.shape@.len() == 1 && a.shape@[1] == b.shape@[0];
    let m = a.shape@[0] as int;
    let n = a.shape@[1] as int;
    match r {
        Ok(out) => {
            &&& dims_ok
            &&& matmul_ok(a.slots(), m, n, enc_seq(b.data@), 1)
            &&& out.wf()
            &&& out.pk == a.pk
            &&& out.shape@ == seq![a.shape@[0]]
            &&& out.slots() == matmul_val(a.slots(), m, n, enc_seq(b.data@), 1)
        },
        Err(e) => {
            ||| (e == CbError::ShapeMismatch && !dims_ok)
            ||| (e == CbError::EncodingOverflow && dims_ok && !matmul_ok(
                a.slots(),
                m,
                n,
                enc_seq(b.data@),
                1,
            ))
        },
    }
}

/// Contract of the reversed orientation: plaintext vector times ciphertext
/// matrix, `[m] x [m,n] -> [n]`.
pub open spec fn rmatmul_ix1_post<T: CouldCode>(
    a: Cipherblock,
    b: crate::tensor::PlainTensor<T>,
    r: Result<Cipherblock, CbError>,
) -> bool {
    let dims_ok = a.shape@.len() == 2 && b.shape@.len() == 1 && b.shape@[0] == a.shape@[0];
    let mm = a.shape@[0] as int;
    let nn = a.shape@[1] as int;
    match r {
        Ok(out) => {
            &&& dims_ok
            &&& matmul_ok(enc_seq(b.data@), 1, mm, a.slots(), nn)
            &&& out.wf()
            &&& out.pk == a.pk
            &&& out.shape@ == seq![a.shape@[1]]
            &&& out.slots() == matmul_val(enc_seq(b.data@), 1, mm, a.slots(), nn)
        },
        Err(e) => {
            ||| (e == CbError::ShapeMismatch && !dims_ok)
            ||| (e == CbError::EncodingOverflow && dims_ok && !matmul_ok(
                enc_seq(b.data@),
                1,
                mm,
                a.slots(),
                nn,
            ))
        },
    }
}

impl Cipherblock {
    /// Ciphertext matrix times plaintext matrix, `[m,n] x [n,p] -> [m,p]`.
    pub fn matmul_plaintext_ix2<T: CouldCode>(&self, other: &crate::tensor::PlainTensor<T>) -> (r:
        Result<Cipherblock, CbError>)
        requires
            self.wf(),
            other.wf(),
        ensures
            matmul_ix2_post(*self, *other, r),
    {
        if self.shape.len() != 2 || other.shape.len() != 2 {
            return Err(CbError::ShapeMismatch);
        }
        let m = self.shape[0];
        let n = self.shape[1];
        let p = other.shape[1];
        if other.shape[0] != n {
            return Err(CbError::ShapeMismatch);
        }
        if m.checked_mul(p).is_none() {
            return Err(CbError::ShapeMismatch);
        }
        proof {
            crate::tensor::lemma_shape_product_rank2(self.shape@);
            crate::tensor::lemma_shape_product_rank2(other.shape@);
        }
        let encoded = encode_slots(&other.data, &self.pk.coder);
        proof {
            assert(ct_views(encoded@) =~= enc_seq(other.data@));
            assert(self.slots() == ct_views(self.data@));
        }
        match matmul_core(&self.data, m, n, &encoded, p) {
            Ok(data) => {
                let mut shape: Vec<usize> = Vec::new();
                shape.push(m);
                shape.push(p);
                let out = Cipherblock { pk: self.pk, data, shape };
                proof {
                    assert(out.shape@ =~= seq![m, p]);
                    crate::tensor::lemma_shape_product_rank2(out.shape@);
                    assert(out.slots() == ct_views(out.data@));
                }
                Ok(out)
            },
            Err(e) => Err(e),
        }
    }

    /// Plaintext matrix times ciphertext matrix, `[q,m] x [m,n] -> [q,n]`.
    pub fn rmatmul_plaintext_ix2<T: CouldCode>(&self, other: &crate::tensor::PlainTensor<T>) -> (r:
        Result<Cipherblock, CbError>)
        requires
            self.wf(),
            other.wf(),
        ensures
            rmatmul_ix2_post(*self, *other, r),
    {
        if self.shape.len() != 2 || other.shape.len() != 2 {
            return Err(CbError::ShapeMismatch);
        }
        let q = other.shape[0];
        let mm = other.shape[1];
        let nn = self.shape[1];
        if mm != self.shape[0] {
            return Err(CbError::ShapeMismatch);
        }
        if q.checked_mul(nn).is_none() {
            return Err(CbError::ShapeMismatch);
        }
        proof {
            crate::tensor::lemma_shape_product_rank2(self.shape@);
            crate::tensor::lemma_shape_product_rank2(other.shape@);
        }
        let encoded = encode_slots(&other.data, &self.pk.coder);
        proof {
            assert(ct_views(encoded@) =~= enc_seq(other.data@));
            assert(self.slots() == ct_views(self.data@));
        }
        match matmul_core(&encoded, q, mm, &self.data, nn) {
            Ok(data) => {
                let mut shape: Vec<usize> = Vec::new();
                shape.push(q);
                shape.push(nn);
                let out = Cipherblock { pk: self.pk, data, shape };
                proof {
                    assert(out.shape@ =~= seq![q, nn]);
                    crate::tensor::lemma_shape_product_rank2(out.shape@);
                    assert(out.slots() == ct_views(out.data@));
                }
                Ok(out)
            },
            Err(e) => Err(e),
        }
    }

    /// Ciphertext matrix times plaintext vector, `[m,n] x [n] -> [m]`.
    pub fn matmul_plaintext_ix1<T: CouldCode>(&self, other: &crate::tensor::PlainTensor<T>) -> (r:
        Result<Cipherblock, CbError>)
        requires
            self.wf(),
            other.wf(),
        ensures
            matmul_ix1_post(*self, *other, r),
    {
        if self.shape.len() != 2 || other.shape.len() != 1 {
            return Err(CbError::ShapeMismatch);
        }
        let m = self.shape[0];
        let n = self.shape[1];
        if other.shape[0] != n {
            return Err(CbError::ShapeMismatch);
        }
        proof {
            crate::tensor::lemma_shape_product_rank2(self.shape@);
            crate::tensor::lemma_shape_product_rank1(other.shape@);
        }
        let encoded = encode_slots(&other.data, &self.pk.coder);
        proof {
            assert(ct_views(encoded@) =~= enc_seq(other.data@));
            assert(self.slots() == ct_views(self.data@));
        }
        match matmul_core(&self.data, m, n, &encoded, 1) {
            Ok(data) => {
                let mut shape: Vec<usize> = Vec::new();
                shape.push(m);
                let out = Cipherblock { pk: self.pk, data, shape };
                proof {
                    assert(out.shape@ =~= seq![m]);
                    crate::tensor::lemma_shape_product_rank1(out.shape@);
                    assert(out.slots() == ct_views(out.data@));
                }
                Ok(out)
            },
            Err(e) => Err(e),
        }
    }

    /// Plaintext vector times ciphertext matrix, `[m] x [m,n] -> [n]`.
    pub fn rmatmul_plaintext_ix1<T: CouldCode>(&self, other: &crate::tensor::PlainTensor<T>) -> (r:
        Result<Cipherblock, CbError>)
        requires
            self.wf(),
            other.wf(),
        ensures
            rmatmul_ix1_post(*self, *other, r),
    {
        if self.shape.len() != 2 || other.shape.len() != 1 {
            return Err(CbError::ShapeMismatch);
        }
        let mm = self.shape[0];
        let nn = self.shape[1];
        if other.shape[0] != mm {
            return Err(CbError::ShapeMismatch);
        }
        proof {
            crate::tensor::lemma_shape_product_rank2(self.shape@);
            crate::tensor::lemma_shape_product_rank1(other.shape@);
        }
        let encoded = encode_slots(&other.data, &self.pk.coder);
        proof {
            assert(ct_views(encoded@) =~= enc_seq(other.data@));
            assert(self.slots() == ct_views(self.data@));
        }
        match matmul_core(&encoded, 1, mm, &self.data, nn) {
            Ok(data) => {
                let mut shape: Vec<usize> = Vec::new();
                shape.push(nn);
                let out = Cipherblock { pk: self.pk, data, shape };
                proof {
                    assert(out.shape@ =~= seq![nn]);
                    crate::tensor::lemma_shape_product_rank1(out.shape@);
                    assert(out.slots() == ct_views(out.data@));
                }
                Ok(out)
            },
            Err(e) => Err(e),
        }
    }

    /// Data-parallel mode of `matmul_plaintext_ix2`; identical output
    /// contract.
    pub fn matmul_plaintext_ix2_par<T: CouldCode>(
        &self,
        other: &crate::tensor::PlainTensor<T>,
    ) -> (r: Result<Cipherblock, CbError>)
        requires
            self.wf(),
            other.wf(),
        ensures
            matmul_ix2_post(*self, *other, r),
    {
        self.matmul_plaintext_ix2(other)
    }

    /// Data-parallel mode of `rmatmul_plaintext_ix2`; identical output
    /// contract.
    pub fn rmatmul_plaintext_ix2_par<T: CouldCode>(
        &self,
        other: &crate::tensor::PlainTensor<T>,
    ) -> (r: Result<Cipherblock, CbError>)
        requires
            self.wf(),
            other.wf(),
        ensures
            rmatmul_ix2_post(*self, *other, r),
    {
        self.rmatmul_plaintext_ix2(other)
    }

    /// Data-parallel mode of `matmul_plaintext_ix1`; identical output
    /// contract.
    pub fn matmul_plaintext_ix1_par<T: CouldCode>(
        &self,
        other: &crate::tensor::PlainTensor<T>,
    ) -> (r: Result<Cipherblock, CbError>)
        requires
            self.wf(),
            other.wf(),
        ensures
            matmul_ix1_post(*self, *other, r),
    {
        self.matmul_plaintext_ix1(other)
    }

    /// Data-parallel mode of `rmatmul_plaintext_ix1`; identical output
    /// contract.
    pub fn rmatmul_plaintext_ix1_par<T: CouldCode>(
        &self,
        other: &crate::tensor::PlainTensor<T>,
    ) -> (r: Result<Cipherblock, CbError>)
        requires
            self.wf(),
            other.wf(),
        ensures
            rmatmul_ix1_post(*self, *other, r),
    {
        self.rmatmul_plaintext_ix1(other)
    }
}

} // verus!
