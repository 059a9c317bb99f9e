use fate_tensor::block::Cipherblock;
use fate_tensor::fixedpoint::{keygen, Plaintext, PK, SK};
use fate_tensor::tensor::PlainTensor;
use fate_tensor::CbError;

fn setup(key: u64, v: Vec<i64>, shape: Vec<usize>) -> (PK, SK, Cipherblock) {
    let (pk, sk) = keygen(key, 2);
    let t = PlainTensor::new(v, shape).unwrap();
    let cb = pk.encrypt_array(&t);
    (pk, sk, cb)
}

fn decrypt_i64(sk: &SK, cb: &Cipherblock) -> Vec<i64> {
    let t: PlainTensor<i64> = sk.decrypt_array(cb).unwrap();
    t.data
}

#[test]
fn matmul_ix2_values_and_shape() {
    let (_pk, sk, ca) = setup(1, vec![1, 2, 3, 4], vec![2, 2]);
    let mb = PlainTensor::new(vec![5i64, 6, 7, 8], vec![2, 2]).unwrap();
    let r = ca.matmul_plaintext_ix2(&mb).unwrap();
    assert_eq!(r.shape().clone(), vec![2, 2]);
    assert_eq!(decrypt_i64(&sk, &r), vec![19, 22, 43, 50]);
}

#[test]
fn matmul_ix2_dimension_law() {
    // [2,3] x [3,2] -> [2,2]
    let (_pk, _sk, ca) = setup(1, vec![1, 2, 3, 4, 5, 6], vec![2, 3]);
    let mb = PlainTensor::new(vec![1i64, 0, 0, 1, 1, 1], vec![3, 2]).unwrap();
    let r = ca.matmul_plaintext_ix2(&mb).unwrap();
    assert_eq!(r.shape().clone(), vec![2, 2]);
    // mismatched inner dimension fails before any ciphertext work
    let bad = PlainTensor::new(vec![1i64, 2, 3, 4], vec![2, 2]).unwrap();
    assert!(matches!(
        ca.matmul_plaintext_ix2(&bad),
        Err(CbError::ShapeMismatch)
    ));
}

#[test]
fn rmatmul_ix2_values() {
    // plain [2,2] x cipher [2,2]
    let (_pk, sk, ca) = setup(1, vec![1, 2, 3, 4], vec![2, 2]);
    let mb = PlainTensor::new(vec![5i64, 6, 7, 8], vec![2, 2]).unwrap();
    let r = ca.rmatmul_plaintext_ix2(&mb).unwrap();
    assert_eq!(r.shape().clone(), vec![2, 2]);
    // [[5,6],[7,8]] x [[1,2],[3,4]] = [[23,34],[31,46]]
    assert_eq!(decrypt_i64(&sk, &r), vec![23, 34, 31, 46]);
}

#[test]
fn matmul_ix1_values() {
    let (_pk, sk, ca) = setup(1, vec![1, 2, 3, 4], vec![2, 2]);
    let vb = PlainTensor::from_vec(vec![5i64, 6]);
    let r = ca.matmul_plaintext_ix1(&vb).unwrap();
    assert_eq!(r.shape().clone(), vec![2]);
    assert_eq!(decrypt_i64(&sk, &r), vec![17, 39]);
}

#[test]
fn rmatmul_ix1_values() {
    let (_pk, sk, ca) = setup(1, vec![1, 2, 3, 4], vec![2, 2]);
    let vb = PlainTensor::from_vec(vec![5i64, 6]);
    let r = ca.rmatmul_plaintext_ix1(&vb).unwrap();
    assert_eq!(r.shape().clone(), vec![2]);
    // [5,6] x [[1,2],[3,4]] = [23, 34]
    assert_eq!(decrypt_i64(&sk, &r), vec![23, 34]);
}

#[test]
fn matmul_parallel_matches_sequential() {
    let (_pk, sk, ca) = setup(1, vec![1, 2, 3, 4, 5, 6], vec![2, 3]);
    let mb = PlainTensor::new(vec![7i64, 8, 9, 10, 11, 12], vec![3, 2]).unwrap();
    let s = ca.matmul_plaintext_ix2(&mb).unwrap();
    let p = ca.matmul_plaintext_ix2_par(&mb).unwrap();
    assert_eq!(decrypt_i64(&sk, &s), decrypt_i64(&sk, &p));
    let vb = PlainTensor::from_vec(vec![1i64, 2, 3]);
    let s1 = ca.matmul_plaintext_ix1(&vb).unwrap();
    let p1 = ca.matmul_plaintext_ix1_par(&vb).unwrap();
    assert_eq!(decrypt_i64(&sk, &s1), decrypt_i64(&sk, &p1));
    let wb = PlainTensor::from_vec(vec![1i64, 2]);
    let s2 = ca.rmatmul_plaintext_ix1(&wb).unwrap();
    let p2 = ca.rmatmul_plaintext_ix1_par(&wb).unwrap();
    assert_eq!(decrypt_i64(&sk, &s2), decrypt_i64(&sk, &p2));
    // [3,2] x [2,3] -> [3,3] in the reversed orientation
    let s3 = ca.rmatmul_plaintext_ix2(&mb).unwrap();
    let p3 = ca.rmatmul_plaintext_ix2_par(&mb).unwrap();
    assert_eq!(s3.shape().clone(), vec![3, 3]);
    assert_eq!(decrypt_i64(&sk, &s3), decrypt_i64(&sk, &p3));
}

#[test]
fn elementwise_shape_mismatch() {
    let (pk, _sk, ca) = setup(1, vec![1, 2], vec![2]);
    let t3 = PlainTensor::from_vec(vec![1i64, 2, 3]);
    let cb3 = pk.encrypt_array(&t3);
    assert!(matches!(ca.add_cb(&cb3), Err(CbError::ShapeMismatch)));
    assert!(matches!(
        ca.add_plaintext(&t3),
        Err(CbError::ShapeMismatch)
    ));
}

#[test]
fn key_mismatch_detected() {
    let (_pk1, sk1, ca) = setup(1, vec![1, 2], vec![2]);
    let (_pk2, sk2, cb) = setup(2, vec![3, 4], vec![2]);
    assert!(matches!(ca.add_cb(&cb), Err(CbError::KeyMismatch)));
    assert!(matches!(
        sk2.decrypt_array::<i64>(&ca),
        Err(CbError::KeyMismatch)
    ));
    assert!(decrypt_i64(&sk1, &ca) == vec![1, 2]);
}

#[test]
fn decode_mismatch_on_fractional_result() {
    // mean of [1,2] is 1.5: not an integer, so an i64 decrypt must refuse.
    let (_pk, sk, ca) = setup(1, vec![1, 2], vec![2]);
    let m = ca.mean_cb().unwrap();
    assert!(matches!(
        sk.decrypt_array::<i64>(&m),
        Err(CbError::DecodeMismatch)
    ));
    // the raw fixed-point decrypt still reads it
    let t: PlainTensor<Plaintext> = sk.decrypt_array(&m).unwrap();
    assert_eq!(t.data.len(), 1);
}

#[test]
fn decode_mismatch_on_negative_as_u64() {
    let (_pk, sk, ca) = setup(1, vec![-5], vec![1]);
    assert!(matches!(
        sk.decrypt_array::<u64>(&ca),
        Err(CbError::DecodeMismatch)
    ));
}

#[test]
fn encoding_overflow_reported() {
    let (_pk, _sk, ca) = setup(1, vec![i64::MAX], vec![1]);
    let big = ca.mul_plaintext_scalar(i64::MAX).unwrap();
    assert!(matches!(
        big.mul_plaintext_scalar(i64::MAX),
        Err(CbError::EncodingOverflow)
    ));
}

#[test]
fn mean_of_empty_rejected() {
    let (_pk, _sk, ca) = setup(1, vec![], vec![0]);
    assert!(matches!(ca.mean_cb(), Err(CbError::ShapeMismatch)));
}
