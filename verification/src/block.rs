//! The encrypted tensor: a flat buffer of ciphertext slots under one public
//! key, tagged with a shape, plus the key pair interface that builds one from
//! a plaintext tensor and opens one back up.

use vstd::prelude::*;
use crate::CbError;
use crate::codec::{enc_seq, CouldCode};
use crate::fixedpoint::{Fx, Plaintext, CT, PK, SK};
use crate::tensor::{shape_product, PlainTensor};

verus! {

/// The fixed-point scalars a slot buffer denotes.
pub open spec fn ct_views(s: Seq<CT>) -> Seq<Fx> {
    s.map(|i: int, c: CT| c@)
}

/// An encrypted tensor: every slot was produced under `pk`, and the buffer
/// holds exactly as many slots as the shape's dimension product.  A
/// cipherblock is immutable once built; every operation returns a new one.
#[derive(Clone, Debug)]
pub struct Cipherblock {
    pub pk: PK,
    pub data: Vec<CT>,
    pub shape: Vec<usize>,
}

impl Cipherblock {
    /// The slot count matches the shape.
    pub open spec fn wf(self) -> bool {
        self.data@.len() == shape_product(self.shape@)
    }

    /// The fixed-point scalars this tensor's slots denote.
    pub open spec fn slots(self) -> Seq<Fx> {
        ct_views(self.data@)
    }

    /// The tensor's shape.
    pub fn shape(&self) -> (r: &Vec<usize>)
        ensures
            r@ == self.shape@,
    {
        &self.shape
    }

    /// The number of ciphertext slots.
    pub fn len(&self) -> (r: usize)
        ensures
            r == self.data@.len(),
    {
        self.data.len()
    }
}

/// Copies a shape buffer.
pub(crate) fn clone_shape(s: &Vec<usize>) -> (r: Vec<usize>)
    ensures
        r@ == s@,
{
    let mut out: Vec<usize> = Vec::new();
    let mut i: usize = 0;
    while i < s.len()
        invariant
            0 <= i <= s@.len(),
            out@ =~= s@.take(i as int),
        decreases s@.len() - i,
    {
        out.push(s[i]);
        proof {
            assert(out@ =~= s@.take(i + 1));
        }
        i = i + 1;
    }
    proof {
        assert(s@.take(s@.len() as int) =~= s@);
    }
    out
}

/// Whether two shapes agree dimension for dimension.
pub(crate) fn shapes_equal(a: &Vec<usize>, b: &Vec<usize>) -> (r: bool)
    ensures
        r <==> a@ == b@,
{
    if a.len() != b.len() {
        return false;
    }
    let mut i: usize = 0;
    while i < a.len()
        invariant
            0 <= i <= a@.len(),
            a@.len() == b@.len(),
            forall|j: int| 0 <= j < i ==> a@[j] == b@[j],
        decreases a@.len() - i,
    {
        if a[i] != b[i] {
            return false;
        }
        i = i + 1;
    }
    proof {
        assert(a@ =~= b@);
    }
    true
}

impl PK {
    /// Encrypts a plaintext tensor: every element is encoded with this key's
    /// coder and sealed into its own slot; the shape carries over.
    pub fn encrypt_array<T: CouldCode>(&self, array: &PlainTensor<T>) -> (r: Cipherblock)
        requires
            array.wf(),
        ensures
            r.wf(),
            r.pk == *self,
            r.shape@ == array.shape@,
            r.slots() == enc_seq(array.data@),
    {
        let mut data: Vec<CT> = Vec::new();
        let mut i: usize = 0;
        while i < array.data.len()
            invariant
                0 <= i <= array.data@.len(),
                data@.len() == i,
                forall|j: int| 0 <= j < i ==> data@[j]@ == (#[trigger] array.data@[j]).enc(),
            decreases array.data@.len() - i,
        {
            let p = array.data[i].encode(&self.coder);
            data.push(CT { mantissa: p.mantissa, exponent: p.exponent });
            i = i + 1;
        }
        let r = Cipherblock { pk: *self, data, shape: clone_shape(&array.shape) };
        proof {
            assert(r.slots() =~= enc_seq(array.data@));
        }
        r
    }

    /// The data-parallel encryption mode: every slot is independent, so the
    /// parallel schedule computes the identical per-slot encoding; the output
    /// contract is the same as `encrypt_array`.
    pub fn encrypt_array_par<T: CouldCode>(&self, array: &PlainTensor<T>) -> (r: Cipherblock)
        requires
            array.wf(),
        ensures
            r.wf(),
            r.pk == *self,
            r.shape@ == array.shape@,
            r.slots() == enc_seq(array.data@),
    {
        self.encrypt_array(array)
    }
}

impl SK {
    /// Decrypts every slot and decodes it to `T`.  Fails with `KeyMismatch`
    /// on a cipherblock of another key pair, and with `DecodeMismatch` as
    /// soon as any slot does not denote a representable `T` exactly.
    pub fn decrypt_array<T: CouldCode>(&self, a: &Cipherblock) -> (r: Result<
        PlainTensor<T>,
        CbError,
    >)
        requires
            a.wf(),
        ensures
            match r {
                Ok(t) => {
                    &&& self.key_id == a.pk.key_id
                    &&& t.wf()
                    &&& t.shape@ == a.shape@
                    &&& t.data@.len() == a.slots().len()
                    &&& forall|i: int|
                        0 <= i < a.slots().len() ==> T::decodable(#[trigger] a.slots()[i])
                            && t.data@[i] == T::decode_of(a.slots()[i])
                },
                Err(e) => {
                    ||| (e == CbError::KeyMismatch && self.key_id != a.pk.key_id)
                    ||| (e == CbError::DecodeMismatch && self.key_id == a.pk.key_id && exists|
                        i: int,
                    |
                        0 <= i < a.slots().len() && !T::decodable(#[trigger] a.slots()[i]))
                },
            },
    {
        if self.key_id != a.pk.key_id {
            return Err(CbError::KeyMismatch);
        }
        let mut out: Vec<T> = Vec::new();
        let mut i: usize = 0;
        while i < a.data.len()
            invariant
                0 <= i <= a.data@.len(),
                self.key_id == a.pk.key_id,
                out@.len() == i,
                forall|j: int|
                    0 <= j < i ==> T::decodable(#[trigger] a.slots()[j]) && out@[j]
                        == T::decode_of(a.slots()[j]),
            decreases a.data@.len() - i,
        {
            let p = Plaintext { mantissa: a.data[i].mantissa, exponent: a.data[i].exponent };
            proof {
                assert(p@ == a.slots()[i as int]);
            }
            match T::decode(&p, &self.coder) {
                Some(v) => {
                    out.push(v);
                },
                None => {
                    proof {
                        assert(0 <= i < a.slots().len() && !T::decodable(a.slots()[i as int]));
                    }
                    return Err(CbError::DecodeMismatch);
                },
            }
            i = i + 1;
        }
        Ok(PlainTensor { data: out, shape: clone_shape(&a.shape) })
    }

    /// The data-parallel decryption mode; identical output contract to
    /// `decrypt_array`.
    pub fn decrypt_array_par<T: CouldCode>(&self, a: &Cipherblock) -> (r: Result<
        PlainTensor<T>,
        CbError,
    >)
        requires
            a.wf(),
        ensures
            match r {
                Ok(t) => {
                    &&& self.key_id == a.pk.key_id
                    &&& t.wf()
                    &&& t.shape@ == a.shape@
                    &&& t.data@.len() == a.slots().len()
                    &&& forall|i: int|
                        0 <= i < a.slots().len() ==> T::decodable(#[trigger] a.slots()[i])
                            && t.data@[i] == T::decode_of(a.slots()[i])
                },
                Err(e) => {
                    ||| (e == CbError::KeyMismatch && self.key_id != a.pk.key_id)
                    ||| (e == CbError::DecodeMismatch && self.key_id == a.pk.key_id && exists|
                        i: int,
                    |
                        0 <= i < a.slots().len() && !T::decodable(#[trigger] a.slots()[i]))
                },
            },
    {
        self.decrypt_array(a)
    }
}

} // verus!
