use tblis::TblisBiCfg;
use tblis::TblisReduceOp;
use tblis::TblisTensor;
use tblis::TblisTriCfg;
use tblis::TblisUniCfg;
use tblis::check_size_dict;
use tblis::tblis_tensor_add_f;
use tblis::tblis_tensor_dot_f;
use tblis::tblis_tensor_mult_f;
use tblis::tblis_tensor_reduce_f;
use tblis::tblis_tensor_scale_f;
use tblis::tblis_tensor_set_f;
use tblis::tblis_tensor_shift_f;
use tblis::TblisError;

fn tensor(data: Vec<i64>, shape: &[isize], stride: &[isize]) -> TblisTensor {
    TblisTensor::new(data, &shape.to_vec(), &stride.to_vec())
}

#[test]
fn test_matmul() {
    // C[ik] = sum_j A[ij] * B[jk] over [[1,2],[3,4]] and [[5,6],[7,8]]
    let a = tensor(vec![1, 2, 3, 4], &[2, 2], &[2, 1]);
    let b = tensor(vec![5, 6, 7, 8], &[2, 2], &[2, 1]);
    let mut c = tensor(vec![0; 4], &[2, 2], &[2, 1]);
    let r = tblis_tensor_mult_f(&a, "ij", &b, "jk", &mut c, "ik", None);
    assert!(r.is_ok());
    assert_eq!(c.data, vec![19, 22, 43, 50]);
}

#[test]
fn test_workable() {
    // the strided four-dimensional contraction C[abcd] = A[cebf] B[afed]
    let a = tensor(vec![1; 10 * 9 * 2 * 5], &[10, 9, 2, 5], &[1, 10, 90, 180]);
    let b = tensor(vec![1; 7 * 5 * 9 * 8], &[7, 5, 9, 8], &[1, 7, 35, 315]);
    let mut c = tensor(vec![0; 7 * 2 * 10 * 8], &[7, 2, 10, 8], &[1, 7, 14, 140]);
    let r = tblis_tensor_mult_f(&a, "cebf", &b, "afed", &mut c, "abcd", None);
    assert!(r.is_ok());
    // every output element sums over e and f: 9 * 5 = 45 ones
    assert_eq!(c.data[0], 45);
    assert_eq!(c.data[7 * 2 * 10 * 8 - 1], 45);
}

#[test]
fn test_mult_beta_accumulate() {
    let a = tensor(vec![1, 2], &[2], &[1]);
    let b = tensor(vec![3, 4], &[2], &[1]);
    let mut c = tensor(vec![10, 20], &[2], &[1]);
    let cfg = TblisTriCfg { alpha: 2, beta: 1, conja: false, conjb: false };
    let r = tblis_tensor_mult_f(&a, "i", &b, "i", &mut c, "i", Some(cfg));
    assert!(r.is_ok());
    // c[i] = 2 * a[i] * b[i] + c[i]
    assert_eq!(c.data, vec![16, 36]);
}

#[test]
fn test_mult_unique_index_rejected() {
    let a = tensor(vec![1, 2, 3, 4], &[2, 2], &[2, 1]);
    let b = tensor(vec![1, 2, 3, 4], &[2, 2], &[2, 1]);
    let mut c = tensor(vec![0; 4], &[2, 2], &[2, 1]);
    // l appears only in B and not in the output
    let r = tblis_tensor_mult_f(&a, "ij", &b, "kl", &mut c, "ij", None);
    assert_eq!(r, Err(TblisError::UniqueIndex));
}

#[test]
fn test_add_transpose() {
    let a = tensor(vec![1, 2, 3, 4, 5, 6], &[2, 3], &[3, 1]);
    let mut b = tensor(vec![0; 6], &[3, 2], &[2, 1]);
    let cfg = TblisBiCfg { alpha: 1, beta: 0, conja: false, conjb: false };
    let r = tblis_tensor_add_f(&a, "ij", &mut b, "ji", Some(cfg));
    assert!(r.is_ok());
    assert_eq!(b.data, vec![1, 4, 2, 5, 3, 6]);
}

#[test]
fn test_add_trace_rows() {
    // B[i] = sum_j A[ij]
    let a = tensor(vec![1, 2, 3, 4, 5, 6], &[2, 3], &[3, 1]);
    let mut b = tensor(vec![0; 2], &[2], &[1]);
    let cfg = TblisBiCfg { alpha: 1, beta: 0, conja: false, conjb: false };
    let r = tblis_tensor_add_f(&a, "ij", &mut b, "i", Some(cfg));
    assert!(r.is_ok());
    assert_eq!(b.data, vec![6, 15]);
}

#[test]
fn test_add_broadcast() {
    // B[ij] = A[i] replicated over j, accumulated onto beta * B
    let a = tensor(vec![1, 2], &[2], &[1]);
    let mut b = tensor(vec![1, 1, 1, 1, 1, 1], &[2, 3], &[3, 1]);
    let cfg = TblisBiCfg { alpha: 10, beta: 1, conja: false, conjb: false };
    let r = tblis_tensor_add_f(&a, "i", &mut b, "ij", Some(cfg));
    assert!(r.is_ok());
    assert_eq!(b.data, vec![11, 11, 11, 21, 21, 21]);
}

#[test]
fn test_add_both_unique_rejected() {
    let a = tensor(vec![1, 2], &[2], &[1]);
    let mut b = tensor(vec![0, 0], &[2], &[1]);
    let r = tblis_tensor_add_f(&a, "i", &mut b, "j", None);
    assert_eq!(r, Err(TblisError::UniqueIndex));
}

#[test]
fn test_dot() {
    let a = tensor(vec![1, 2, 3, 4], &[2, 2], &[2, 1]);
    let b = tensor(vec![5, 6, 7, 8], &[2, 2], &[2, 1]);
    let r = tblis_tensor_dot_f(&a, "ij", &b, "ij", None);
    assert_eq!(r, Ok(5 + 12 + 21 + 32));
}

#[test]
fn test_dot_unique_rejected() {
    let a = tensor(vec![1, 2], &[2], &[1]);
    let b = tensor(vec![1, 2, 3, 4], &[2, 2], &[2, 1]);
    let r = tblis_tensor_dot_f(&a, "i", &b, "ij", None);
    assert_eq!(r, Err(TblisError::UniqueIndex));
}

#[test]
fn test_reduce_sum_and_extrema() {
    let a = tensor(vec![3, -7, 5, 1], &[4], &[1]);
    assert_eq!(tblis_tensor_reduce_f(&a, "i", TblisReduceOp::Sum, None), Ok(2));
    assert_eq!(tblis_tensor_reduce_f(&a, "i", TblisReduceOp::SumAbs, None), Ok(16));
    assert_eq!(tblis_tensor_reduce_f(&a, "i", TblisReduceOp::Max, None), Ok(5));
    assert_eq!(tblis_tensor_reduce_f(&a, "i", TblisReduceOp::MaxAbs, None), Ok(7));
    assert_eq!(tblis_tensor_reduce_f(&a, "i", TblisReduceOp::Min, None), Ok(-7));
    assert_eq!(tblis_tensor_reduce_f(&a, "i", TblisReduceOp::MinAbs, None), Ok(1));
}

#[test]
fn test_reduce_with_alpha() {
    let a = tensor(vec![1, 2, 3], &[3], &[1]);
    let cfg = TblisUniCfg { alpha: 2, conj: false };
    assert_eq!(tblis_tensor_reduce_f(&a, "i", TblisReduceOp::Sum, Some(cfg)), Ok(12));
}

#[test]
fn test_reduce_norm2_unsupported() {
    let a = tensor(vec![1, 2], &[2], &[1]);
    let r = tblis_tensor_reduce_f(&a, "i", TblisReduceOp::Norm2, None);
    assert_eq!(r, Err(TblisError::UnsupportedReduceOp));
}

#[test]
fn test_reduce_diagonal() {
    // repeated labels address the diagonal
    let a = tensor(vec![1, 2, 3, 4], &[2, 2], &[2, 1]);
    assert_eq!(tblis_tensor_reduce_f(&a, "ii", TblisReduceOp::Sum, None), Ok(5));
}

#[test]
fn test_scale_set_shift() {
    let mut a = tensor(vec![1, 2, 3], &[3], &[1]);
    let cfg = TblisUniCfg { alpha: 3, conj: false };
    assert!(tblis_tensor_scale_f(&mut a, "i", Some(cfg)).is_ok());
    assert_eq!(a.data, vec![3, 6, 9]);
    let cfg2 = TblisUniCfg { alpha: 2, conj: false };
    assert!(tblis_tensor_shift_f(&mut a, "i", 1, Some(cfg2)).is_ok());
    assert_eq!(a.data, vec![7, 13, 19]);
    assert!(tblis_tensor_set_f(&mut a, "i", 4, None).is_ok());
    assert_eq!(a.data, vec![4, 4, 4]);
}

#[test]
fn test_to_scalar() {
    let mut a = tensor(vec![21], &[], &[]);
    a.set_scalar(2);
    assert_eq!(a.to_scalar(), Ok(42));
    let b = tensor(vec![1, 2], &[2], &[1]);
    assert_eq!(b.to_scalar(), Err(TblisError::NotScalar));
}

#[test]
fn test_reduce_op_names() {
    assert_eq!(TblisReduceOp::from("sum"), TblisReduceOp::Sum);
    assert_eq!(TblisReduceOp::from("SumAbs"), TblisReduceOp::SumAbs);
    assert_eq!(TblisReduceOp::from("NORM-1"), TblisReduceOp::SumAbs);
    assert_eq!(TblisReduceOp::from("norm_inf"), TblisReduceOp::MaxAbs);
    assert_eq!(TblisReduceOp::from("Max"), TblisReduceOp::Max);
    assert_eq!(TblisReduceOp::from("min abs"), TblisReduceOp::MinAbs);
}

#[test]
fn test_check_size_dict_ok() {
    let subs = vec!["ij", "jk"];
    let shapes = vec![vec![2isize, 3], vec![3isize, 4]];
    let m = check_size_dict(&subs, &shapes).unwrap();
    assert_eq!(m, vec![('i', 2), ('j', 3), ('k', 4)]);
}

#[test]
fn test_check_size_dict_errors() {
    let shapes2 = vec![vec![2isize, 3]];
    assert_eq!(
        check_size_dict(&vec!["ij", "jk"], &shapes2),
        Err(TblisError::CountMismatch)
    );
    assert_eq!(
        check_size_dict(&vec!["ijk"], &shapes2),
        Err(TblisError::RankMismatch)
    );
    assert_eq!(
        check_size_dict(&vec!["ij"], &vec![vec![2isize, -1]]),
        Err(TblisError::NegativeDim)
    );
    assert_eq!(
        check_size_dict(&vec!["ij", "jk"], &vec![vec![2isize, 3], vec![4isize, 5]]),
        Err(TblisError::SizeConflict)
    );
}

#[test]
fn test_mult_too_large_index_space() {
    // stride-zero handles keep huge shapes well-formed, but the index
    // space exceeds the machine and is rejected before any work
    let big = isize::MAX;
    let a = tensor(vec![7], &[big, big], &[0, 0]);
    let b = tensor(vec![7], &[big, big], &[0, 0]);
    let mut c = tensor(vec![0], &[big, big], &[0, 0]);
    let r = tblis_tensor_mult_f(&a, "ij", &b, "ij", &mut c, "ij", None);
    assert_eq!(r, Err(TblisError::TooLarge));
    assert_eq!(c.data, vec![0]);
}
