use fate_tensor::block::Cipherblock;
use fate_tensor::codec::CouldCode;
use fate_tensor::fixedpoint::{keygen, Coder, Plaintext, CT, FRAC_BASE};
use fate_tensor::tensor::PlainTensor;
use fate_tensor::CbError;

fn coder() -> Coder {
    Coder { frac_exponent: 2 }
}

fn encrypt_vec(key: u64, v: Vec<i64>) -> (fate_tensor::fixedpoint::PK, fate_tensor::fixedpoint::SK, Cipherblock) {
    let (pk, sk) = keygen(key, 2);
    let t = PlainTensor::from_vec(v);
    let cb = pk.encrypt_array(&t);
    (pk, sk, cb)
}

fn decrypt_i64(sk: &fate_tensor::fixedpoint::SK, cb: &Cipherblock) -> Vec<i64> {
    let t: PlainTensor<i64> = sk.decrypt_array(cb).unwrap();
    t.data
}

#[test]
fn round_trip_i64() {
    let c = coder();
    for v in [0i64, 1, -1, 42, -42, i64::MAX, i64::MIN] {
        let p = v.encode(&c);
        assert_eq!(<i64 as CouldCode>::decode(&p, &c), Some(v));
    }
}

#[test]
fn round_trip_u64() {
    let c = coder();
    for v in [0u64, 1, 7, u64::MAX] {
        let p = v.encode(&c);
        assert_eq!(<u64 as CouldCode>::decode(&p, &c), Some(v));
    }
}

#[test]
fn round_trip_plaintext_raw() {
    let c = coder();
    let p = Plaintext { mantissa: 12345, exponent: 3 };
    let q = p.encode(&c);
    let back = <Plaintext as CouldCode>::decode(&q, &c).unwrap();
    assert_eq!(back.mantissa, 12345);
    assert_eq!(back.exponent, 3);
}

#[test]
fn encrypt_decrypt_identity() {
    let (_pk, sk, cb) = encrypt_vec(7, vec![5, -3, 0, 99]);
    assert_eq!(decrypt_i64(&sk, &cb), vec![5, -3, 0, 99]);
    assert_eq!(cb.shape().clone(), vec![4]);
}

#[test]
fn add_cb_homomorphic() {
    let (pk, sk, ca) = encrypt_vec(1, vec![1, 2, 3]);
    let tb = PlainTensor::from_vec(vec![10i64, 20, 30]);
    let cbb = pk.encrypt_array(&tb);
    let sum = ca.add_cb(&cbb).unwrap();
    assert_eq!(decrypt_i64(&sk, &sum), vec![11, 22, 33]);
}

#[test]
fn sub_cb_homomorphic() {
    let (pk, sk, ca) = encrypt_vec(1, vec![10, 2, -3]);
    let tb = PlainTensor::from_vec(vec![1i64, 2, 3]);
    let cbb = pk.encrypt_array(&tb);
    let d = ca.sub_cb(&cbb).unwrap();
    assert_eq!(decrypt_i64(&sk, &d), vec![9, 0, -6]);
}

#[test]
fn add_plaintext_elementwise() {
    let (_pk, sk, ca) = encrypt_vec(1, vec![1, 2, 3]);
    let tb = PlainTensor::from_vec(vec![100i64, 200, 300]);
    let r = ca.add_plaintext(&tb).unwrap();
    assert_eq!(decrypt_i64(&sk, &r), vec![101, 202, 303]);
}

#[test]
fn sub_plaintext_elementwise() {
    let (_pk, sk, ca) = encrypt_vec(1, vec![1, 2, 3]);
    let tb = PlainTensor::from_vec(vec![10i64, 10, 10]);
    let r = ca.sub_plaintext(&tb).unwrap();
    assert_eq!(decrypt_i64(&sk, &r), vec![-9, -8, -7]);
}

#[test]
fn mul_plaintext_elementwise() {
    let (_pk, sk, ca) = encrypt_vec(1, vec![1, -2, 3]);
    let tb = PlainTensor::from_vec(vec![4i64, 5, -6]);
    let r = ca.mul_plaintext(&tb).unwrap();
    assert_eq!(decrypt_i64(&sk, &r), vec![4, -10, -18]);
}

#[test]
fn scalar_broadcast_plaintext() {
    let (_pk, sk, ca) = encrypt_vec(1, vec![1, 2, 3]);
    let r = ca.add_plaintext_scalar(10i64).unwrap();
    assert_eq!(decrypt_i64(&sk, &r), vec![11, 12, 13]);
    let r = ca.sub_plaintext_scalar(1i64).unwrap();
    assert_eq!(decrypt_i64(&sk, &r), vec![0, 1, 2]);
    let r = ca.mul_plaintext_scalar(5i64).unwrap();
    assert_eq!(decrypt_i64(&sk, &r), vec![5, 10, 15]);
}

#[test]
fn scalar_broadcast_cipher() {
    let (pk, sk, ca) = encrypt_vec(1, vec![1, 2, 3]);
    let one = PlainTensor::from_vec(vec![100i64]);
    let cb_one = pk.encrypt_array(&one);
    let ct: CT = cb_one.data[0];
    let r = ca.add_cipher_scalar(&ct).unwrap();
    assert_eq!(decrypt_i64(&sk, &r), vec![101, 102, 103]);
    let r = ca.sub_cipher_scalar(&ct).unwrap();
    assert_eq!(decrypt_i64(&sk, &r), vec![-99, -98, -97]);
}

#[test]
fn sum_reduction() {
    let (_pk, sk, ca) = encrypt_vec(1, vec![1, 2, 3, 4]);
    let s = ca.sum_cb().unwrap();
    assert_eq!(s.shape().clone(), vec![1]);
    assert_eq!(decrypt_i64(&sk, &s), vec![10]);
}

#[test]
fn sum_of_empty_is_zero() {
    let (_pk, sk, ca) = encrypt_vec(1, vec![]);
    let s = ca.sum_cb().unwrap();
    assert_eq!(decrypt_i64(&sk, &s), vec![0]);
}

#[test]
fn mean_reduction() {
    let (_pk, sk, ca) = encrypt_vec(1, vec![1, 2, 3, 4]);
    let m = ca.mean_cb().unwrap();
    assert_eq!(m.shape().clone(), vec![1]);
    let t: PlainTensor<Plaintext> = sk.decrypt_array(&m).unwrap();
    let slot = t.data[0];
    let scale = (FRAC_BASE as f64).powi(slot.exponent as i32);
    let value = slot.mantissa as f64 / scale;
    assert!((value - 2.5).abs() < 1e-9);
}

#[test]
fn concrete_scenario() {
    // encrypt [1,2,3,4]; shift down by 1; sum; mean.
    let (_pk, sk, ca) = encrypt_vec(1, vec![1, 2, 3, 4]);
    let shifted = ca.sub_plaintext_scalar(1i64).unwrap();
    assert_eq!(decrypt_i64(&sk, &shifted), vec![0, 1, 2, 3]);
    let s = ca.sum_cb().unwrap();
    assert_eq!(decrypt_i64(&sk, &s), vec![10]);
    let m = ca.mean_cb().unwrap();
    let t: PlainTensor<Plaintext> = sk.decrypt_array(&m).unwrap();
    let slot = t.data[0];
    let scale = (FRAC_BASE as f64).powi(slot.exponent as i32);
    assert!((slot.mantissa as f64 / scale - 2.5).abs() < 1e-9);
}

#[test]
fn parallel_modes_match_sequential() {
    let (pk, sk, ca) = encrypt_vec(1, vec![3, 1, 4, 1, 5]);
    let tb = PlainTensor::from_vec(vec![9i64, 2, 6, 5, 3]);
    let cbb = pk.encrypt_array(&tb);
    let cbb_par = pk.encrypt_array_par(&tb);

    let seq_add = ca.add_cb(&cbb).unwrap();
    let par_add = ca.add_cb_par(&cbb_par).unwrap();
    assert_eq!(decrypt_i64(&sk, &seq_add), decrypt_i64(&sk, &par_add));

    let seq_mul = ca.mul_plaintext(&tb).unwrap();
    let par_mul = ca.mul_plaintext_par(&tb).unwrap();
    assert_eq!(decrypt_i64(&sk, &seq_mul), decrypt_i64(&sk, &par_mul));

    let seq_sum = ca.sum_cb().unwrap();
    let par_sum = ca.sum_cb_par().unwrap();
    assert_eq!(decrypt_i64(&sk, &seq_sum), decrypt_i64(&sk, &par_sum));

    let seq_mean = ca.mean_cb().unwrap();
    let par_mean = ca.mean_cb_par().unwrap();
    let ts: PlainTensor<Plaintext> = sk.decrypt_array(&seq_mean).unwrap();
    let tp: PlainTensor<Plaintext> = sk.decrypt_array_par(&par_mean).unwrap();
    assert_eq!(ts.data[0].mantissa, tp.data[0].mantissa);
    assert_eq!(ts.data[0].exponent, tp.data[0].exponent);

    let seq_scal = ca.sub_plaintext_scalar(2i64).unwrap();
    let par_scal = ca.sub_plaintext_scalar_par(2i64).unwrap();
    assert_eq!(decrypt_i64(&sk, &seq_scal), decrypt_i64(&sk, &par_scal));
}

#[test]
fn u64_tensor_support() {
    let (pk, sk) = keygen(9, 2);
    let t = PlainTensor::from_vec(vec![1u64, u64::MAX, 0]);
    let cb = pk.encrypt_array(&t);
    let back: PlainTensor<u64> = sk.decrypt_array(&cb).unwrap();
    assert_eq!(back.data, vec![1, u64::MAX, 0]);
}

#[test]
fn tensor_new_checks_shape() {
    let t = PlainTensor::new(vec![1i64, 2, 3, 4], vec![2, 2]).unwrap();
    assert_eq!(t.shape, vec![2, 2]);
    assert!(matches!(
        PlainTensor::new(vec![1i64, 2, 3], vec![2, 2]),
        Err(CbError::ShapeMismatch)
    ));
    let empty = PlainTensor::new(Vec::<i64>::new(), vec![0, 5]).unwrap();
    assert_eq!(empty.shape, vec![0, 5]);
}

#[test]
fn slot_primitive_ops() {
    let (pk, _sk, ca) = encrypt_vec(3, vec![2, 3]);
    assert_eq!(ca.len(), 2);
    let a = ca.data[0];
    let b = ca.data[1];
    let s = a.add(&b, &pk).unwrap();
    assert_eq!(s.mantissa, 5);
    let d = a.sub(&b, &pk).unwrap();
    assert_eq!(d.mantissa, -1);
    let z = CT::zero();
    let s2 = z.add(&a, &pk).unwrap();
    assert_eq!(s2.mantissa, 2);
    let p = 4i64.encode(&pk.coder);
    let m = a.mul(&p, &pk).unwrap();
    assert_eq!(m.mantissa, 8);
    let ap = a.add_pt(&p, &pk).unwrap();
    assert_eq!(ap.mantissa, 6);
    let sp = a.sub_pt(&p, &pk).unwrap();
    assert_eq!(sp.mantissa, -2);
}
