use tblis::TblisContractStep;
use tblis::TblisError;
use tblis::TblisMemLimit;
use tblis::TblisTensor;
use tblis::tblis_einsum_f;
use tblis::tblis_einsum_prep_f;
use tblis::tblis_einsum_run;
use tblis::validate_plan;

fn tensor(data: Vec<i64>, shape: &[isize], stride: &[isize]) -> TblisTensor {
    TblisTensor::new(data, &shape.to_vec(), &stride.to_vec())
}

fn einsum(subscripts: &str, operands: Vec<TblisTensor>, optimize: &str) -> TblisTensor {
    let mut out: Option<TblisTensor> = None;
    let r = tblis_einsum_f(
        subscripts,
        &operands,
        optimize,
        &TblisMemLimit::Unlimited,
        true,
        &mut out,
    );
    r.unwrap().unwrap()
}

#[test]
fn test_einsum_matmul() {
    // the end-to-end example: "ij,jk->ik" over [[1,2],[3,4]] and [[5,6],[7,8]]
    let a = tensor(vec![1, 2, 3, 4], &[2, 2], &[2, 1]);
    let b = tensor(vec![5, 6, 7, 8], &[2, 2], &[2, 1]);
    let t = einsum("ij,jk->ik", vec![a, b], "optimal");
    assert_eq!(t.shape, vec![2, 2]);
    assert_eq!(t.data, vec![19, 22, 43, 50]);
}

#[test]
fn test_einsum_output_buffer() {
    // a matching pre-allocated output receives the same values, and the
    // call returns None
    let a = tensor(vec![1, 2, 3, 4], &[2, 2], &[2, 1]);
    let b = tensor(vec![5, 6, 7, 8], &[2, 2], &[2, 1]);
    let plain = einsum("ij,jk->ik", vec![a.clone(), b.clone()], "optimal");

    let mut out = Some(tensor(vec![0; 4], &[2, 2], &[2, 1]));
    let r = tblis_einsum_f(
        "ij,jk->ik",
        &vec![a, b],
        "optimal",
        &TblisMemLimit::Unlimited,
        true,
        &mut out,
    );
    assert!(matches!(r, Ok(None)));
    let written = out.unwrap();
    assert_eq!(written.data, plain.data);
    assert_eq!(written.data, vec![19, 22, 43, 50]);
}

#[test]
fn test_einsum_output_shape_mismatch() {
    let a = tensor(vec![1, 2, 3, 4], &[2, 2], &[2, 1]);
    let b = tensor(vec![5, 6, 7, 8], &[2, 2], &[2, 1]);
    let mut out = Some(tensor(vec![0; 6], &[2, 3], &[3, 1]));
    let r = tblis_einsum_f(
        "ij,jk->ik",
        &vec![a, b],
        "optimal",
        &TblisMemLimit::Unlimited,
        true,
        &mut out,
    );
    assert!(matches!(r, Err(TblisError::OutputShapeMismatch)));
    // the caller's buffer is untouched
    assert_eq!(out.unwrap().data, vec![0; 6]);
}

#[test]
fn test_einsum_scalar_product() {
    // ",,->" multiplies three zero-dimensional operands
    let a = tensor(vec![3], &[], &[]);
    let b = tensor(vec![5], &[], &[]);
    let c = tensor(vec![7], &[], &[]);
    let t = einsum(",,->", vec![a, b, c], "optimal");
    assert_eq!(t.data, vec![105]);
}

#[test]
fn test_einsum_scalar_applies_multiplier() {
    // the handle's scalar multiplier is applied when an operand is read
    // as a scalar value
    let mut a = tensor(vec![3], &[], &[]);
    a.set_scalar(2);
    let b = tensor(vec![5], &[], &[]);
    let t = einsum(",->", vec![a, b], "optimal");
    assert_eq!(t.data, vec![30]);
}

#[test]
fn test_einsum_trace_unique_label() {
    // "eca,ab->e": the label c is unique to the first operand and must be
    // summed out before the pairwise step
    let e = 2usize;
    let cc = 3usize;
    let aa = 2usize;
    let bb = 2usize;
    let mut data_a: Vec<i64> = Vec::new();
    for i in 0..(e * cc * aa) as i64 {
        data_a.push(i + 1);
    }
    let mut data_b: Vec<i64> = Vec::new();
    for i in 0..(aa * bb) as i64 {
        data_b.push(2 * i + 1);
    }
    // reference result by direct summation
    let mut expect = vec![0i64; e];
    for ie in 0..e {
        for ic in 0..cc {
            for ia in 0..aa {
                for ib in 0..bb {
                    expect[ie] += data_a[(ie * cc + ic) * aa + ia] * data_b[ia * bb + ib];
                }
            }
        }
    }
    let a = tensor(data_a, &[2, 3, 2], &[6, 2, 1]);
    let b = tensor(data_b, &[2, 2], &[2, 1]);
    let t = einsum("eca,ab->e", vec![a, b], "optimal");
    assert_eq!(t.data, expect);
}

#[test]
fn test_einsum_order_invariance() {
    // the numeric result does not depend on the contraction order the
    // optimizer picks
    let mut data_a: Vec<i64> = Vec::new();
    for i in 0..6i64 {
        data_a.push(i - 2);
    }
    let mut data_b: Vec<i64> = Vec::new();
    for i in 0..12i64 {
        data_b.push(2 * i - 5);
    }
    let mut data_c: Vec<i64> = Vec::new();
    for i in 0..8i64 {
        data_c.push(i * i - 3);
    }
    let mk = || {
        vec![
            tensor(data_a.clone(), &[2, 3], &[3, 1]),
            tensor(data_b.clone(), &[3, 4], &[4, 1]),
            tensor(data_c.clone(), &[4, 2], &[2, 1]),
        ]
    };
    let r1 = einsum("ab,bc,cd->ad", mk(), "optimal");
    let r2 = einsum("ab,bc,cd->ad", mk(), "greedy");
    let r3 = einsum("ab,bc,cd->ad", mk(), "dp");
    let r4 = einsum("ab,bc,cd->ad", mk(), "auto");
    assert_eq!(r1.data, r2.data);
    assert_eq!(r1.data, r3.data);
    assert_eq!(r1.data, r4.data);
    // and it matches direct summation
    let mut expect = vec![0i64; 4];
    for ia in 0..2 {
        for ib in 0..3 {
            for ic in 0..4 {
                for id in 0..2 {
                    expect[ia * 2 + id] +=
                        data_a[ia * 3 + ib] * data_b[ib * 4 + ic] * data_c[ic * 2 + id];
                }
            }
        }
    }
    assert_eq!(r1.data, expect);
}

#[test]
fn test_einsum_hadamard_broadcast() {
    // "ab,ab,c->c" over ones: every output element is the number of (a,b)
    // pairs
    let a = tensor(vec![1; 6], &[2, 3], &[3, 1]);
    let b = tensor(vec![1; 6], &[2, 3], &[3, 1]);
    let c = tensor(vec![1; 4], &[4], &[1]);
    let t = einsum("ab,ab,c->c", vec![a, b, c], "optimal");
    assert_eq!(t.data, vec![6, 6, 6, 6]);
}

#[test]
fn test_einsum_transpose_single() {
    let a = tensor(vec![1, 2, 3, 4, 5, 6], &[2, 3], &[3, 1]);
    let t = einsum("ij->ji", vec![a], "optimal");
    assert_eq!(t.shape, vec![3, 2]);
    assert_eq!(t.data, vec![1, 4, 2, 5, 3, 6]);
}

#[test]
fn test_einsum_col_major() {
    // the same contraction in col-major layout
    let a = tensor(vec![1, 3, 2, 4], &[2, 2], &[1, 2]);
    let b = tensor(vec![5, 7, 6, 8], &[2, 2], &[1, 2]);
    let mut out: Option<TblisTensor> = None;
    let r = tblis_einsum_f(
        "ij,jk->ik",
        &vec![a, b],
        "optimal",
        &TblisMemLimit::Unlimited,
        false,
        &mut out,
    );
    let t = r.unwrap().unwrap();
    // col-major [19,43,22,50] corresponds to [[19,22],[43,50]]
    assert_eq!(t.data, vec![19, 43, 22, 50]);
}

#[test]
fn test_einsum_rejects_ellipsis() {
    let a = tensor(vec![1, 2, 3, 4], &[2, 2], &[2, 1]);
    let mut out: Option<TblisTensor> = None;
    let r = tblis_einsum_f(
        "...i->i",
        &vec![a],
        "optimal",
        &TblisMemLimit::Unlimited,
        true,
        &mut out,
    );
    assert!(matches!(r, Err(TblisError::UnsupportedSubscript)));
}

#[test]
fn test_einsum_rejects_unknown_strategy() {
    let a = tensor(vec![1, 2], &[2], &[1]);
    let mut out: Option<TblisTensor> = None;
    let r = tblis_einsum_f(
        "i->i",
        &vec![a],
        "newest-and-best",
        &TblisMemLimit::Unlimited,
        true,
        &mut out,
    );
    assert!(matches!(r, Err(TblisError::UnknownStrategy)));
}

#[test]
fn test_einsum_size_conflict() {
    let a = tensor(vec![1, 2, 3, 4, 5, 6], &[2, 3], &[3, 1]);
    let b = tensor(vec![1, 2, 3, 4], &[4], &[1]);
    let mut out: Option<TblisTensor> = None;
    let r = tblis_einsum_f(
        "ij,j->i",
        &vec![a, b],
        "optimal",
        &TblisMemLimit::Unlimited,
        true,
        &mut out,
    );
    assert!(r.is_err());
}

#[test]
fn test_prep_reports_steps() {
    let shapes = vec![vec![2usize, 3], vec![3usize, 4], vec![4usize, 2]];
    let steps =
        tblis_einsum_prep_f("ab,bc,cd->ad", &shapes, "optimal", &TblisMemLimit::Unlimited).unwrap();
    assert_eq!(steps.len(), 2);
    for s in &steps {
        assert_eq!(s.indices.len(), 2);
        assert!(s.idx_b.is_some());
        assert_eq!(s.shape_c.len(), s.idx_c.len());
    }
    assert!(validate_plan(&steps, 3));
}

#[test]
fn three_records_collapse() {
    // the working set of three operands collapses to exactly one entry
    // under a hand-written two-step plan
    let steps = vec![
        TblisContractStep {
            indices: vec![0, 1],
            idx_a: vec!['i'],
            idx_b: Some(vec!['i']),
            idx_c: vec!['i'],
            shape_c: vec![2],
        },
        TblisContractStep {
            indices: vec![0, 1],
            idx_a: vec!['i'],
            idx_b: Some(vec!['i']),
            idx_c: vec![],
            shape_c: vec![],
        },
    ];
    assert!(validate_plan(&steps, 3));
    let mut ws = vec![
        (tensor(vec![1, 2], &[2], &[1]), false),
        (tensor(vec![3, 4], &[2], &[1]), false),
        (tensor(vec![5, 6], &[2], &[1]), false),
    ];
    let mut out: Option<TblisTensor> = None;
    let r = tblis_einsum_run(&steps, &mut ws, true, &mut out);
    assert_eq!(r, Ok(false));
    assert_eq!(ws.len(), 1);
    // step one: elementwise [3, 8]; step two: contraction with [5, 6]
    assert_eq!(ws[0].0.data, vec![3 * 5 + 8 * 6]);
}

#[test]
fn test_einsum_zero_dimension() {
    // a zero-sized axis gives an empty result
    let a = tensor(vec![], &[0, 2], &[2, 1]);
    let b = tensor(vec![1, 2, 3, 4], &[2, 2], &[2, 1]);
    let t = einsum("ij,jk->ik", vec![a, b], "optimal");
    assert_eq!(t.shape, vec![0, 2]);
    assert_eq!(t.data.len(), 0);
}

#[test]
fn test_einsum_path_error_is_reported() {
    let a = tensor(vec![1, 2, 3, 4, 5, 6], &[2, 3], &[3, 1]);
    let b = tensor(vec![1, 2, 3, 4], &[4], &[1]);
    let mut out: Option<TblisTensor> = None;
    let r = tblis_einsum_f(
        "ij,j->i",
        &vec![a, b],
        "optimal",
        &TblisMemLimit::Unlimited,
        true,
        &mut out,
    );
    assert!(matches!(r, Err(TblisError::PathOptimizer(_))));
}

#[test]
fn test_validate_plan_rejects_bad_plans() {
    let step = |indices: Vec<usize>, two: bool| TblisContractStep {
        indices,
        idx_a: vec!['i'],
        idx_b: if two { Some(vec!['i']) } else { None },
        idx_c: vec!['i'],
        shape_c: vec![2],
    };
    // position out of range
    assert!(!validate_plan(&vec![step(vec![0, 2], true)], 2));
    // repeated position
    assert!(!validate_plan(&vec![step(vec![1, 1], true)], 2));
    // does not collapse to one tensor
    assert!(!validate_plan(&vec![step(vec![0, 1], true)], 3));
    // a sound two-operand plan
    assert!(validate_plan(&vec![step(vec![0, 1], true)], 2));
}

#[test]
fn test_einsum_output_buffer_unary() {
    // a matching pre-allocated output is honored on a unary final step too
    let a = tensor(vec![1, 2, 3, 4, 5, 6], &[2, 3], &[3, 1]);
    let mut out = Some(tensor(vec![9; 6], &[3, 2], &[2, 1]));
    let r = tblis_einsum_f(
        "ij->ji",
        &vec![a],
        "optimal",
        &TblisMemLimit::Unlimited,
        true,
        &mut out,
    );
    assert!(matches!(r, Ok(None)));
    assert_eq!(out.unwrap().data, vec![1, 4, 2, 5, 3, 6]);
}

#[test]
fn test_einsum_rejects_comma_in_output() {
    // a comma after the arrow can never be an output label; the path
    // optimizer would abort on it, so the crate rejects it up front
    let a = tensor(vec![1, 2, 3, 4, 5, 6], &[2, 3], &[3, 1]);
    let b = tensor(vec![1, 2, 3, 4, 5, 6, 7, 8, 9, 10, 11, 12], &[4, 3], &[3, 1]);
    let mut out: Option<TblisTensor> = None;
    let r = tblis_einsum_f(
        "ab,cd->a,c",
        &vec![a, b],
        "optimal",
        &TblisMemLimit::Unlimited,
        true,
        &mut out,
    );
    assert!(matches!(r, Err(TblisError::UnsupportedSubscript)));
}
