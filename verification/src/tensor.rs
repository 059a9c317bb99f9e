//! Plaintext tensors: a flat, row-major element buffer tagged with a shape.
//!
//! This is the form in which numeric data enters encryption and leaves
//! decryption.  The one invariant is that the buffer holds exactly as many
//! elements as the shape's dimension product.

use vstd::prelude::*;
use vstd::arithmetic::mul::lemma_mul_inequality;
use crate::CbError;

verus! {

/// Number of elements a shape calls for: the product of its dimensions.
pub open spec fn shape_product(s: Seq<usize>) -> int
    decreases s.len(),
{
    if s.len() == 0 {
        1
    } else {
        shape_product(s.drop_last()) * s.last()
    }
}

pub proof fn lemma_shape_product_nonneg(s: Seq<usize>)
    ensures
        shape_product(s) >= 0,
    decreases s.len(),
{
    if s.len() > 0 {
        lemma_shape_product_nonneg(s.drop_last());
        lemma_mul_inequality(0, shape_product(s.drop_last()), s.last() as int);
    }
}

/// A zero dimension anywhere forces a zero element count.
pub proof fn lemma_shape_product_zero(s: Seq<usize>, i: int)
    requires
        0 <= i < s.len(),
        s[i] == 0,
    ensures
        shape_product(s) == 0,
    decreases s.len(),
{
    if i == s.len() - 1 {
        assert(shape_product(s) == shape_product(s.drop_last()) * 0);
    } else {
        lemma_shape_product_zero(s.drop_last(), i);
    }
}

/// A shape without zero dimensions calls for at least one element.
pub proof fn lemma_shape_product_pos(s: Seq<usize>)
    requires
        forall|j: int| 0 <= j < s.len() ==> s[j] >= 1,
    ensures
        shape_product(s) >= 1,
    decreases s.len(),
{
    if s.len() > 0 {
        assert(forall|j: int| 0 <= j < s.drop_last().len() ==> s.drop_last()[j] >= 1);
        lemma_shape_product_pos(s.drop_last());
        let z = shape_product(s.drop_last());
        let l = s.last() as int;
        assert(z * l >= 1) by (nonlinear_arith)
            requires
                z >= 1,
                l >= 1,
        ;
    }
}

/// With no zero dimension, the product only grows as dimensions are taken in.
pub proof fn lemma_shape_product_prefix(s: Seq<usize>, i: int)
    requires
        0 <= i <= s.len(),
        forall|j: int| 0 <= j < s.len() ==> s[j] >= 1,
    ensures
        shape_product(s) >= shape_product(s.take(i)),
        shape_product(s.take(i)) >= 1,
    decreases s.len() - i,
{
    assert(forall|j: int| 0 <= j < s.take(i).len() ==> s.take(i)[j] >= 1);
    lemma_shape_product_pos(s.take(i));
    if i == s.len() {
        assert(s.take(i) =~= s);
    } else {
        lemma_shape_product_prefix(s, i + 1);
        assert(s.take(i + 1).drop_last() =~= s.take(i));
        assert(shape_product(s.take(i + 1)) == shape_product(s.take(i)) * s[i]);
        lemma_shape_product_nonneg(s.take(i));
        lemma_mul_inequality(1, s[i] as int, shape_product(s.take(i)));
        assert(shape_product(s.take(i)) * s[i] == s[i] as int * shape_product(s.take(i)))
            by (nonlinear_arith);
    }
}

/// A rank-one shape calls for exactly its dimension.
pub proof fn lemma_shape_product_rank1(s: Seq<usize>)
    requires
        s.len() == 1,
    ensures
        shape_product(s) == s[0],
{
    assert(s.drop_last() =~= Seq::<usize>::empty());
    assert(shape_product(Seq::<usize>::empty()) == 1);
    assert(shape_product(s) == shape_product(s.drop_last()) * s.last());
    assert(s.last() == s[0]);
}

/// A rank-two shape calls for the product of its two dimensions.
pub proof fn lemma_shape_product_rank2(s: Seq<usize>)
    requires
        s.len() == 2,
    ensures
        shape_product(s) == s[0] * s[1],
{
    lemma_shape_product_rank1(s.drop_last());
    assert(s.drop_last()[0] == s[0]);
}

/// A shaped plaintext tensor: `data` holds the elements row-major.
#[derive(Clone, Debug)]
pub struct PlainTensor<T> {
    pub data: Vec<T>,
    pub shape: Vec<usize>,
}

impl<T> PlainTensor<T> {
    /// The element buffer matches the shape's dimension product.
    pub open spec fn wf(self) -> bool {
        self.data@.len() == shape_product(self.shape@)
    }

    /// Builds a tensor, rejecting a buffer whose length contradicts the
    /// shape.
    pub fn new(data: Vec<T>, shape: Vec<usize>) -> (r: Result<PlainTensor<T>, CbError>)
        ensures
            r is Ok <==> data@.len() == shape_product(shape@),
            r matches Ok(t) ==> t.data == data && t.shape == shape && t.wf(),
            r is Err ==> r == Err::<PlainTensor<T>, CbError>(CbError::ShapeMismatch),
    {
        let mut i: usize = 0;
        let mut has_zero = false;
        while i < shape.len()
            invariant
                0 <= i <= shape.len(),
                has_zero <==> exists|j: int| 0 <= j < i && shape@[j] == 0,
            decreases shape.len() - i,
        {
            if shape[i] == 0 {
                has_zero = true;
            }
            i = i + 1;
        }
        if has_zero {
            proof {
                let j = choose|j: int| 0 <= j < shape@.len() && shape@[j] == 0;
                lemma_shape_product_zero(shape@, j);
            }
            if data.len() == 0 {
                Ok(PlainTensor { data, shape })
            } else {
                Err(CbError::ShapeMismatch)
            }
        } else {
            let mut acc: usize = 1;
            let mut k: usize = 0;
            proof {
                assert(shape@.take(0) =~= Seq::<usize>::empty());
            }
            while k < shape.len()
                invariant
                    0 <= k <= shape.len(),
                    forall|j: int| 0 <= j < shape@.len() ==> shape@[j] >= 1,
                    acc as int == shape_product(shape@.take(k as int)),
                decreases shape.len() - k,
            {
                let ghost prefix = shape@.take(k as int);
                proof {
                    assert(shape@.take(k + 1).drop_last() =~= prefix);
                    let dim_k = shape@[k as int];
                    assert(shape_product(shape@.take(k + 1)) == shape_product(prefix) * dim_k);
                }
                acc = match acc.checked_mul(shape[k]) {
                    Some(v) => v,
                    None => {
                        proof {
                            let dim_k = shape@[k as int];
                            assert(acc as int * dim_k > usize::MAX as int);
                            assert(shape_product(shape@.take(k + 1)) == acc as int * dim_k);
                            lemma_shape_product_prefix(shape@, k + 1);
                            assert(shape_product(shape@) >= shape_product(shape@.take(k + 1)));
                            vstd::std_specs::vec::axiom_spec_len(&data);
                            assert(data@.len() <= usize::MAX as int);
                        }
                        return Err(CbError::ShapeMismatch);
                    },
                };
                k = k + 1;
            }
            proof {
                assert(shape@.take(shape@.len() as int) =~= shape@);
            }
            if data.len() == acc {
                Ok(PlainTensor { data, shape })
            } else {
                Err(CbError::ShapeMismatch)
            }
        }
    }

    /// Builds a rank-one tensor over the whole buffer.
    pub fn from_vec(data: Vec<T>) -> (r: PlainTensor<T>)
        ensures
            r.wf(),
            r.data == data,
            r.shape@.len() == 1,
            r.shape@[0] == data@.len(),
    {
        let n = data.len();
        let mut shape: Vec<usize> = Vec::new();
        shape.push(n);
        proof {
            let sv = shape@;
            assert(sv.drop_last() =~= Seq::<usize>::empty());
            assert(shape_product(sv) == shape_product(sv.drop_last()) * sv.last());
            assert(shape_product(Seq::<usize>::empty()) == 1);
        }
        PlainTensor { data, shape }
    }
}

} // verus!
