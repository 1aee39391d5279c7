//! Verified tensor operations: the pairwise multiply-accumulate, the unary
//! add (transpose / trace / broadcast), dot, reduce, scale, set and shift.
//!
//! Each operation walks the cartesian index space of its distinct labels
//! with a linear counter.  The specification of a result is the fold of the
//! per-point updates in that counter order; wrapping `i64` arithmetic keeps
//! every fold total.

use vstd::prelude::*;

use crate::TblisError;
use crate::char_parse::cp_check;
use crate::char_parse::cp_ok;
use crate::char_parse::strs_views;
use crate::containers::TblisTensor;
use crate::containers::TensorModel;
use crate::indexing::all_pos;
use crate::indexing::axes_wf;
use crate::indexing::build_weights;
use crate::indexing::checked_total;
use crate::indexing::lemma_maxoff_bridge;
use crate::indexing::lemma_offset_le_maxoff;
use crate::indexing::maxoff;
use crate::indexing::offset_of;
use crate::indexing::own_maxoff;
use crate::indexing::prod_from;
use crate::indexing::shape_pos;
use crate::indexing::toff;
use crate::indexing::weights_ok;
use crate::labels::char_views;
use crate::labels::contains_char;
use crate::labels::covered_by;
use crate::labels::covered_by2;
use crate::labels::dedup_all;
use crate::labels::dedup_append;
use crate::labels::dedup_extend;
use crate::labels::first_pos;
use crate::labels::keys_of;
use crate::labels::label_size;
use crate::labels::lemma_dedup_all_contains;
use crate::labels::lemma_first_pos;
use crate::labels::sd_ok;
use crate::labels::shape_views;
use crate::labels::size_dict_chars;
use crate::labels::str_chars;
use crate::labels::vec_first_pos;
use crate::labels::all_covered;
use crate::labels::all_covered2;
use vstd::wrapping::i64_specs;

verus! {

/// Strides reinterpreted as unsigned element offsets.
pub open spec fn spec_stride_u(stride: Seq<isize>) -> Seq<usize> {
    Seq::new(stride.len(), |j: int| stride[j] as usize)
}

/// Dimension sizes of the distinct labels, in first-occurrence order.
pub open spec fn spec_dims(subs: Seq<Seq<char>>, shapes: Seq<Seq<isize>>) -> Seq<usize> {
    Seq::new(dedup_all(subs).len(), |p: int| label_size(subs, shapes, dedup_all(subs)[p]) as usize)
}

/// Axis map of one subscript into the label list.
pub open spec fn spec_pos(sub: Seq<char>, labels: Seq<char>) -> Seq<usize> {
    Seq::new(sub.len(), |j: int| first_pos(labels, sub[j]) as usize)
}

/// The index space of the given subscripts fits the machine.
pub open spec fn fits(subs: Seq<Seq<char>>, shapes: Seq<Seq<isize>>) -> bool {
    all_pos(spec_dims(subs, shapes)) ==> prod_from(spec_dims(subs, shapes), 0) <= usize::MAX
}

/// Geometry of one tensor inside an operation's label space: the axis map is
/// sound and every reachable offset stays inside a buffer of `data_len`
/// elements.
pub open spec fn kern_wf(pos: Seq<usize>, stride: Seq<usize>, dims: Seq<usize>, data_len: int) -> bool {
    &&& axes_wf(pos, stride, dims)
    &&& maxoff(pos, stride, dims) < data_len
}

/// Data after the first `n` points of the affine pass
/// `x <- addc + mulc * x` over the tensor's addressed elements.
pub open spec fn affine_fold(
    data: Seq<i64>,
    pos: Seq<usize>,
    stride: Seq<usize>,
    dims: Seq<usize>,
    addc: i64,
    mulc: i64,
    n: int,
) -> Seq<i64>
    decreases n,
{
    if n <= 0 {
        data
    } else {
        let prev = affine_fold(data, pos, stride, dims, addc, mulc, n - 1);
        let o = toff(n - 1, pos, stride, dims);
        prev.update(o, i64_specs::wrapping_add(addc, i64_specs::wrapping_mul(mulc, prev[o])))
    }
}

/// Data of the destination after the first `n` accumulations
/// `b[ob] <- b[ob] + alpha * a[oa]` of the unary add.
pub open spec fn add_fold(
    a: Seq<i64>,
    pa: Seq<usize>,
    sa: Seq<usize>,
    b: Seq<i64>,
    pb: Seq<usize>,
    sb: Seq<usize>,
    dims: Seq<usize>,
    alpha: i64,
    n: int,
) -> Seq<i64>
    decreases n,
{
    if n <= 0 {
        b
    } else {
        let prev = add_fold(a, pa, sa, b, pb, sb, dims, alpha, n - 1);
        let oa = toff(n - 1, pa, sa, dims);
        let ob = toff(n - 1, pb, sb, dims);
        prev.update(
            ob,
            i64_specs::wrapping_add(prev[ob], i64_specs::wrapping_mul(alpha, a[oa])),
        )
    }
}

/// Data of the destination after the first `n` accumulations
/// `c[oc] <- c[oc] + alpha * a[oa] * b[ob]` of the pairwise multiply.
pub open spec fn mult_fold(
    a: Seq<i64>,
    pa: Seq<usize>,
    sa: Seq<usize>,
    b: Seq<i64>,
    pb: Seq<usize>,
    sb: Seq<usize>,
    c: Seq<i64>,
    pc: Seq<usize>,
    sc: Seq<usize>,
    dims: Seq<usize>,
    alpha: i64,
    n: int,
) -> Seq<i64>
    decreases n,
{
    if n <= 0 {
        c
    } else {
        let prev = mult_fold(a, pa, sa, b, pb, sb, c, pc, sc, dims, alpha, n - 1);
        let oa = toff(n - 1, pa, sa, dims);
        let ob = toff(n - 1, pb, sb, dims);
        let oc = toff(n - 1, pc, sc, dims);
        prev.update(
            oc,
            i64_specs::wrapping_add(
                prev[oc],
                i64_specs::wrapping_mul(alpha, i64_specs::wrapping_mul(a[oa], b[ob])),
            ),
        )
    }
}

/// Scalar accumulated by the first `n` points of the dot product
/// `acc <- acc + (alpha * a[oa]) * (beta * b[ob])`.
pub open spec fn dot_fold(
    a: Seq<i64>,
    pa: Seq<usize>,
    sa: Seq<usize>,
    b: Seq<i64>,
    pb: Seq<usize>,
    sb: Seq<usize>,
    dims: Seq<usize>,
    alpha: i64,
    beta: i64,
    n: int,
) -> i64
    decreases n,
{
    if n <= 0 {
        0
    } else {
        let prev = dot_fold(a, pa, sa, b, pb, sb, dims, alpha, beta, n - 1);
        let oa = toff(n - 1, pa, sa, dims);
        let ob = toff(n - 1, pb, sb, dims);
        i64_specs::wrapping_add(
            prev,
            i64_specs::wrapping_mul(
                i64_specs::wrapping_mul(alpha, a[oa]),
                i64_specs::wrapping_mul(beta, b[ob]),
            ),
        )
    }
}

/// The affine pass keeps the buffer length.
pub proof fn lemma_affine_fold_len(
    data: Seq<i64>,
    pos: Seq<usize>,
    stride: Seq<usize>,
    dims: Seq<usize>,
    addc: i64,
    mulc: i64,
    n: int,
)
    requires
        axes_wf(pos, stride, dims),
        all_pos(dims),
        kern_wf(pos, stride, dims, data.len() as int),
    ensures
        affine_fold(data, pos, stride, dims, addc, mulc, n).len() == data.len(),
    decreases n,
{
    if n > 0 {
        lemma_affine_fold_len(data, pos, stride, dims, addc, mulc, n - 1);
        if n - 1 >= 0 {
            lemma_offset_le_maxoff(n - 1, pos, stride, dims, pos.len() as int);
        }
    }
}

/// The unary add keeps the destination's buffer length.
pub proof fn lemma_add_fold_len(
    a: Seq<i64>,
    pa: Seq<usize>,
    sa: Seq<usize>,
    b: Seq<i64>,
    pb: Seq<usize>,
    sb: Seq<usize>,
    dims: Seq<usize>,
    alpha: i64,
    n: int,
)
    requires
        axes_wf(pb, sb, dims),
        all_pos(dims),
        kern_wf(pb, sb, dims, b.len() as int),
    ensures
        add_fold(a, pa, sa, b, pb, sb, dims, alpha, n).len() == b.len(),
    decreases n,
{
    if n > 0 {
        lemma_add_fold_len(a, pa, sa, b, pb, sb, dims, alpha, n - 1);
        lemma_offset_le_maxoff(n - 1, pb, sb, dims, pb.len() as int);
    }
}

/// The pairwise multiply keeps the destination's buffer length.
pub proof fn lemma_mult_fold_len(
    a: Seq<i64>,
    pa: Seq<usize>,
    sa: Seq<usize>,
    b: Seq<i64>,
    pb: Seq<usize>,
    sb: Seq<usize>,
    c: Seq<i64>,
    pc: Seq<usize>,
    sc: Seq<usize>,
    dims: Seq<usize>,
    alpha: i64,
    n: int,
)
    requires
        axes_wf(pc, sc, dims),
        all_pos(dims),
        kern_wf(pc, sc, dims, c.len() as int),
    ensures
        mult_fold(a, pa, sa, b, pb, sb, c, pc, sc, dims, alpha, n).len() == c.len(),
    decreases n,
{
    if n > 0 {
        lemma_mult_fold_len(a, pa, sa, b, pb, sb, c, pc, sc, dims, alpha, n - 1);
        lemma_offset_le_maxoff(n - 1, pc, sc, dims, pc.len() as int);
    }
}

/// Affine pass `x <- addc + mulc * x` over the addressed elements.
fn kernel_affine(
    data: &mut Vec<i64>,
    pos: &Vec<usize>,
    stride: &Vec<usize>,
    dims: &Vec<usize>,
    wts: &Vec<usize>,
    total: usize,
    addc: i64,
    mulc: i64,
)
    requires
        all_pos(dims@),
        weights_ok(wts@, dims@),
        kern_wf(pos@, stride@, dims@, old(data)@.len() as int),
        total as int == prod_from(dims@, 0),
    ensures
        final(data)@ == affine_fold(old(data)@, pos@, stride@, dims@, addc, mulc, total as int),
{
    let dl = data.len();
    let mut k: usize = 0;
    while k < total
        invariant
            0 <= k <= total,
            all_pos(dims@),
            weights_ok(wts@, dims@),
            kern_wf(pos@, stride@, dims@, old(data)@.len() as int),
            old(data)@.len() <= usize::MAX,
            total as int == prod_from(dims@, 0),
            data@.len() == old(data)@.len(),
            data@ == affine_fold(old(data)@, pos@, stride@, dims@, addc, mulc, k as int),
        decreases total - k,
    {
        proof {
            lemma_offset_le_maxoff(k as int, pos@, stride@, dims@, pos@.len() as int);
        }
        let o = offset_of(k, pos, stride, dims, wts);
        let v = data[o];
        data.set(o, addc.wrapping_add(mulc.wrapping_mul(v)));
        k += 1;
    }
}

/// Accumulation pass `b[ob] <- b[ob] + alpha * a[oa]` of the unary add.
fn kernel_add(
    a: &Vec<i64>,
    pa: &Vec<usize>,
    sa: &Vec<usize>,
    b: &mut Vec<i64>,
    pb: &Vec<usize>,
    sb: &Vec<usize>,
    dims: &Vec<usize>,
    wts: &Vec<usize>,
    total: usize,
    alpha: i64,
)
    requires
        all_pos(dims@),
        weights_ok(wts@, dims@),
        kern_wf(pa@, sa@, dims@, a@.len() as int),
        kern_wf(pb@, sb@, dims@, old(b)@.len() as int),
        total as int == prod_from(dims@, 0),
    ensures
        final(b)@ == add_fold(a@, pa@, sa@, old(b)@, pb@, sb@, dims@, alpha, total as int),
{
    let al = a.len();
    let bl = b.len();
    let mut k: usize = 0;
    while k < total
        invariant
            0 <= k <= total,
            all_pos(dims@),
            weights_ok(wts@, dims@),
            kern_wf(pa@, sa@, dims@, a@.len() as int),
            kern_wf(pb@, sb@, dims@, old(b)@.len() as int),
            a@.len() <= usize::MAX,
            old(b)@.len() <= usize::MAX,
            total as int == prod_from(dims@, 0),
            b@.len() == old(b)@.len(),
            b@ == add_fold(a@, pa@, sa@, old(b)@, pb@, sb@, dims@, alpha, k as int),
        decreases total - k,
    {
        proof {
            lemma_offset_le_maxoff(k as int, pa@, sa@, dims@, pa@.len() as int);
            lemma_offset_le_maxoff(k as int, pb@, sb@, dims@, pb@.len() as int);
        }
        let oa = offset_of(k, pa, sa, dims, wts);
        let ob = offset_of(k, pb, sb, dims, wts);
        let va = a[oa];
        let vb = b[ob];
        b.set(ob, vb.wrapping_add(alpha.wrapping_mul(va)));
        k += 1;
    }
}

/// Accumulation pass `c[oc] <- c[oc] + alpha * a[oa] * b[ob]` of the
/// pairwise multiply.
fn kernel_mult(
    a: &Vec<i64>,
    pa: &Vec<usize>,
    sa: &Vec<usize>,
    b: &Vec<i64>,
    pb: &Vec<usize>,
    sb: &Vec<usize>,
    c: &mut Vec<i64>,
    pc: &Vec<usize>,
    sc: &Vec<usize>,
    dims: &Vec<usize>,
    wts: &Vec<usize>,
    total: usize,
    alpha: i64,
)
    requires
        all_pos(dims@),
        weights_ok(wts@, dims@),
        kern_wf(pa@, sa@, dims@, a@.len() as int),
        kern_wf(pb@, sb@, dims@, b@.len() as int),
        kern_wf(pc@, sc@, dims@, old(c)@.len() as int),
        total as int == prod_from(dims@, 0),
    ensures
        final(c)@ == mult_fold(a@, pa@, sa@, b@, pb@, sb@, old(c)@, pc@, sc@, dims@, alpha, total as int),
{
    let al = a.len();
    let bl = b.len();
    let cl = c.len();
    let mut k: usize = 0;
    while k < total
        invariant
            0 <= k <= total,
            all_pos(dims@),
            weights_ok(wts@, dims@),
            kern_wf(pa@, sa@, dims@, a@.len() as int),
            kern_wf(pb@, sb@, dims@, b@.len() as int),
            kern_wf(pc@, sc@, dims@, old(c)@.len() as int),
            a@.len() <= usize::MAX,
            b@.len() <= usize::MAX,
            old(c)@.len() <= usize::MAX,
            total as int == prod_from(dims@, 0),
            c@.len() == old(c)@.len(),
            c@ == mult_fold(a@, pa@, sa@, b@, pb@, sb@, old(c)@, pc@, sc@, dims@, alpha, k as int),
        decreases total - k,
    {
        proof {
            lemma_offset_le_maxoff(k as int, pa@, sa@, dims@, pa@.len() as int);
            lemma_offset_le_maxoff(k as int, pb@, sb@, dims@, pb@.len() as int);
            lemma_offset_le_maxoff(k as int, pc@, sc@, dims@, pc@.len() as int);
        }
        let oa = offset_of(k, pa, sa, dims, wts);
        let ob = offset_of(k, pb, sb, dims, wts);
        let oc = offset_of(k, pc, sc, dims, wts);
        let va = a[oa];
        let vb = b[ob];
        let vc = c[oc];
        c.set(oc, vc.wrapping_add(alpha.wrapping_mul(va.wrapping_mul(vb))));
        k += 1;
    }
}


/// Copy of a label vector.
pub(crate) fn clone_chars(v: &Vec<char>) -> (r: Vec<char>)
    ensures
        r@ == v@,
{
    let n = v.len();
    let mut r: Vec<char> = Vec::new();
    let mut i: usize = 0;
    while i < n
        invariant
            0 <= i <= n,
            n == v@.len(),
            r@ == v@.take(i as int),
        decreases n - i,
    {
        let c = v[i];
        r.push(c);
        proof {
            assert(r@ =~= v@.take(i as int + 1));
        }
        i += 1;
    }
    proof {
        assert(v@.take(n as int) =~= v@);
    }
    r
}

/// The label list of an association list, as a vector.
fn labels_of_dict(m: &Vec<(char, isize)>) -> (labels: Vec<char>)
    ensures
        labels@ == keys_of(m@),
{
    let n = m.len();
    let mut labels: Vec<char> = Vec::new();
    let mut i: usize = 0;
    while i < n
        invariant
            0 <= i <= n,
            n == m@.len(),
            labels@.len() == i,
            forall|q: int| 0 <= q < i ==> #[trigger] labels@[q] == m@[q].0,
        decreases n - i,
    {
        let e = m[i];
        labels.push(e.0);
        i += 1;
    }
    proof {
        assert(labels@ =~= keys_of(m@));
    }
    labels
}

/// The recorded sizes of an association list, as unsigned dimensions.
fn dims_of_dict(m: &Vec<(char, isize)>) -> (dims: Vec<usize>)
    requires
        forall|i: int| 0 <= i < m@.len() ==> (#[trigger] m@[i]).1 >= 0,
    ensures
        dims@.len() == m@.len(),
        forall|i: int| 0 <= i < dims@.len() ==> (#[trigger] dims@[i]) as int == m@[i].1 as int,
{
    let n = m.len();
    let mut dims: Vec<usize> = Vec::new();
    let mut i: usize = 0;
    while i < n
        invariant
            0 <= i <= n,
            n == m@.len(),
            forall|q: int| 0 <= q < m@.len() ==> (#[trigger] m@[q]).1 >= 0,
            dims@.len() == i,
            forall|q: int| 0 <= q < i ==> (#[trigger] dims@[q]) as int == m@[q].1 as int,
        decreases n - i,
    {
        let e = m[i];
        dims.push(e.1 as usize);
        i += 1;
    }
    dims
}

/// Strides reinterpreted as unsigned element offsets.
fn stride_to_usize(stride: &Vec<isize>) -> (r: Vec<usize>)
    requires
        forall|i: int| 0 <= i < stride@.len() ==> #[trigger] stride@[i] >= 0,
    ensures
        r@ == spec_stride_u(stride@),
{
    let n = stride.len();
    let mut r: Vec<usize> = Vec::new();
    let mut i: usize = 0;
    while i < n
        invariant
            0 <= i <= n,
            n == stride@.len(),
            forall|q: int| 0 <= q < stride@.len() ==> #[trigger] stride@[q] >= 0,
            r@.len() == i,
            forall|q: int| 0 <= q < i ==> #[trigger] r@[q] == stride@[q] as usize,
        decreases n - i,
    {
        r.push(stride[i] as usize);
        i += 1;
    }
    proof {
        assert(r@ =~= spec_stride_u(stride@));
    }
    r
}

/// Axis map of a subscript into a label list that covers it.
fn pos_in_labels(sub: &Vec<char>, labels: &Vec<char>) -> (pos: Vec<usize>)
    requires
        forall|j: int| 0 <= j < sub@.len() ==> contains_char(labels@, #[trigger] sub@[j]),
    ensures
        pos@ == spec_pos(sub@, labels@),
        forall|j: int|
            0 <= j < pos@.len() ==> (#[trigger] pos@[j]) < labels@.len() && labels@[pos@[j] as int]
                == sub@[j],
{
    let n = sub.len();
    let mut pos: Vec<usize> = Vec::new();
    let mut j: usize = 0;
    while j < n
        invariant
            0 <= j <= n,
            n == sub@.len(),
            forall|q: int| 0 <= q < sub@.len() ==> contains_char(labels@, #[trigger] sub@[q]),
            pos@.len() == j,
            forall|q: int|
                0 <= q < j ==> (#[trigger] pos@[q]) as int == first_pos(labels@, sub@[q]),
            forall|q: int|
                0 <= q < j ==> (#[trigger] pos@[q]) < labels@.len() && labels@[pos@[q] as int]
                    == sub@[q],
        decreases n - j,
    {
        proof {
            lemma_first_pos(labels@, sub@[j as int]);
        }
        match vec_first_pos(labels, sub[j]) {
            Option::Some(p) => {
                pos.push(p);
            },
            Option::None => {
                proof {
                    assert(false);
                }
            },
        }
        j += 1;
    }
    proof {
        assert(pos@ =~= spec_pos(sub@, labels@));
    }
    pos
}

/// The distinct labels of one subscript.
pub(crate) fn own_labels_of(sub: &Vec<char>) -> (labels: Vec<char>)
    ensures
        labels@ == dedup_all(seq![sub@]),
{
    let mut labels: Vec<char> = Vec::new();
    dedup_extend(&mut labels, sub);
    proof {
        assert(seq![sub@].drop_last() =~= Seq::<Seq<char>>::empty());
        assert(dedup_all(seq![sub@]) == dedup_append(dedup_all(Seq::<Seq<char>>::empty()), sub@));
    }
    labels
}

/// Sizes of one subscript's own labels, read at their first occurrence.
fn own_dims_of(sub: &Vec<char>, shape: &Vec<isize>, own_labels: &Vec<char>) -> (dims: Vec<usize>)
    requires
        own_labels@ == dedup_all(seq![sub@]),
        sub@.len() == shape@.len(),
        forall|i: int| 0 <= i < shape@.len() ==> #[trigger] shape@[i] >= 0,
    ensures
        dims@ == spec_dims(seq![sub@], seq![shape@]),
{
    proof {
        lemma_dedup_all_contains(seq![sub@]);
    }
    let n = own_labels.len();
    let mut dims: Vec<usize> = Vec::new();
    let mut p: usize = 0;
    while p < n
        invariant
            0 <= p <= n,
            n == own_labels@.len(),
            own_labels@ == dedup_all(seq![sub@]),
            sub@.len() == shape@.len(),
            forall|i: int| 0 <= i < shape@.len() ==> #[trigger] shape@[i] >= 0,
            forall|c: char|
                contains_char(dedup_all(seq![sub@]), c) <==> exists|u: int|
                    0 <= u < seq![sub@].len() && contains_char(#[trigger] seq![sub@][u], c),
            dims@.len() == p,
            forall|q: int|
                0 <= q < p ==> (#[trigger] dims@[q]) as int == label_size(
                    seq![sub@],
                    seq![shape@],
                    own_labels@[q],
                ),
        decreases n - p,
    {
        let c = own_labels[p];
        proof {
            assert(contains_char(dedup_all(seq![sub@]), c));
            assert(contains_char(seq![sub@][0], c));
            lemma_first_pos(sub@, c);
        }
        match vec_first_pos(sub, c) {
            Option::Some(fp) => {
                let d = shape[fp];
                dims.push(d as usize);
            },
            Option::None => {
                proof {
                    assert(false);
                }
            },
        }
        p += 1;
    }
    proof {
        assert(dims@ =~= spec_dims(seq![sub@], seq![shape@]));
    }
    dims
}

/// The label list and dimension sizes record the size of every occurrence.
proof fn lemma_dims_at_pos(subs: Seq<Seq<char>>, shapes: Seq<Seq<isize>>, t: int, j: int)
    requires
        sd_ok(subs, shapes),
        0 <= t < subs.len(),
        0 <= j < subs[t].len(),
    ensures
        0 <= first_pos(dedup_all(subs), subs[t][j]) < spec_dims(subs, shapes).len(),
        spec_dims(subs, shapes)[first_pos(dedup_all(subs), subs[t][j])] as int == shapes[t][j] as int,
{
    let c = subs[t][j];
    let labels = dedup_all(subs);
    lemma_dedup_all_contains(subs);
    assert(contains_char(subs[t], c));
    assert(contains_char(labels, c));
    lemma_first_pos(labels, c);
    let p = first_pos(labels, c);
    assert(labels[p] == c);
    assert(spec_dims(subs, shapes)[p] as int == (label_size(subs, shapes, c) as usize) as int);
    assert(shapes[t][j] as int == label_size(subs, shapes, c));
}

/// Kernel geometry of one tensor inside an operation's label space: the
/// axis map is sound, every axis carries its label's size, and when the
/// space is non-empty the tensor's reachable offsets stay inside its buffer.
proof fn lemma_tensor_geom(
    subs: Seq<Seq<char>>,
    shapes: Seq<Seq<isize>>,
    t: int,
    labels: Seq<char>,
    dims: Seq<usize>,
    pos: Seq<usize>,
    stride: Seq<isize>,
    stride_u: Seq<usize>,
    data_len: int,
)
    requires
        sd_ok(subs, shapes),
        0 <= t < subs.len(),
        labels == dedup_all(subs),
        labels.len() <= usize::MAX,
        dims == spec_dims(subs, shapes),
        pos == spec_pos(subs[t], labels),
        stride.len() == subs[t].len(),
        forall|i: int| 0 <= i < stride.len() ==> #[trigger] stride[i] >= 0,
        stride_u == spec_stride_u(stride),
        shape_pos(shapes[t]) ==> own_maxoff(shapes[t], stride) < data_len,
    ensures
        axes_wf(pos, stride_u, dims),
        forall|j: int|
            0 <= j < pos.len() ==> (#[trigger] dims[pos[j] as int]) as int == shapes[t][j] as int,
        all_pos(dims) ==> kern_wf(pos, stride_u, dims, data_len),
{
    assert forall|j: int|
        0 <= j < pos.len() implies (#[trigger] pos[j]) < dims.len() && dims[pos[j] as int] as int
        == shapes[t][j] as int by {
        lemma_dims_at_pos(subs, shapes, t, j);
        assert(pos[j] == first_pos(labels, subs[t][j]) as usize);
        assert(0 <= first_pos(labels, subs[t][j]) <= usize::MAX);
        assert(pos[j] as int == first_pos(labels, subs[t][j]));
    }
    assert(axes_wf(pos, stride_u, dims));
    if all_pos(dims) {
        assert forall|j: int| 0 <= j < shapes[t].len() implies #[trigger] shapes[t][j] >= 1 by {
            assert(dims[pos[j] as int] >= 1);
        }
        assert(shape_pos(shapes[t]));
        lemma_maxoff_bridge(pos, stride_u, dims, shapes[t], stride, pos.len() as int);
    }
}

/// When the whole product of positive sizes is positive, every size is.
proof fn lemma_all_pos_of_prod(dims: Seq<usize>)
    requires
        prod_from(dims, 0) > 0,
    ensures
        all_pos(dims),
{
    assert forall|i: int| 0 <= i < dims.len() implies #[trigger] dims[i] >= 1 by {
        if dims[i] == 0 {
            crate::indexing::lemma_prod_zero(dims, i, 0);
        }
    }
}

/// Restriction of a consistent size dictionary to one of its operands.
proof fn lemma_sd_ok_single(subs: Seq<Seq<char>>, shapes: Seq<Seq<isize>>, t: int)
    requires
        sd_ok(subs, shapes),
        0 <= t < subs.len(),
    ensures
        sd_ok(seq![subs[t]], seq![shapes[t]]),
{
    let s1 = seq![subs[t]];
    let h1 = seq![shapes[t]];
    assert forall|u: int, j: int|
        0 <= u < s1.len() && 0 <= j < s1[u].len() implies #[trigger] h1[u][j] as int == label_size(
        s1,
        h1,
        s1[u][j],
    ) by {
        let c = subs[t][j];
        lemma_first_pos(subs[t], c);
        let fp = first_pos(subs[t], c);
        assert(contains_char(subs[t], c));
        assert(fp >= 0);
        assert(subs[t][fp] == c);
        assert(shapes[t][j] as int == label_size(subs, shapes, c));
        assert(shapes[t][fp] as int == label_size(subs, shapes, subs[t][fp]));
        assert(label_size(s1, h1, c) == shapes[t][fp] as int);
    }
}

/// `alpha` of a three-tensor configuration, with its default.
pub open spec fn tri_alpha(cfg: Option<TblisTriCfg>) -> i64 {
    match cfg {
        Option::Some(k) => k.alpha,
        Option::None => 1,
    }
}

pub open spec fn tri_beta(cfg: Option<TblisTriCfg>) -> i64 {
    match cfg {
        Option::Some(k) => k.beta,
        Option::None => 0,
    }
}

/// Configuration of the three-tensor multiply: coefficients `alpha` and
/// `beta` and conjugation requests, which have no effect over integer
/// elements.  Defaults: `alpha = 1`, `beta = 0`.
#[derive(Debug, Clone, Copy)]
pub struct TblisTriCfg {
    pub alpha: i64,
    pub beta: i64,
    pub conja: bool,
    pub conjb: bool,
}

impl Default for TblisTriCfg {
    fn default() -> (r: Self)
        ensures
            r.alpha == 1 && r.beta == 0 && !r.conja && !r.conjb,
    {
        TblisTriCfg { alpha: 1, beta: 0, conja: false, conjb: false }
    }
}

/// Configuration of the two-tensor operations.  Defaults: `alpha = 1`,
/// `beta = 1`.
#[derive(Debug, Clone, Copy)]
pub struct TblisBiCfg {
    pub alpha: i64,
    pub beta: i64,
    pub conja: bool,
    pub conjb: bool,
}

impl Default for TblisBiCfg {
    fn default() -> (r: Self)
        ensures
            r.alpha == 1 && r.beta == 1 && !r.conja && !r.conjb,
    {
        TblisBiCfg { alpha: 1, beta: 1, conja: false, conjb: false }
    }
}

/// Configuration of the single-tensor operations.  Defaults: `alpha = 1`.
#[derive(Debug, Clone, Copy)]
pub struct TblisUniCfg {
    pub alpha: i64,
    pub conj: bool,
}

impl Default for TblisUniCfg {
    fn default() -> (r: Self)
        ensures
            r.alpha == 1 && !r.conj,
    {
        TblisUniCfg { alpha: 1, conj: false }
    }
}

/// Configuration without parameters, kept for interface compatibility with
/// the operations that take no coefficients.
#[derive(Debug, Clone, Copy)]
pub struct TblisZeroCfg {}

impl Default for TblisZeroCfg {
    fn default() -> (r: Self)
        ensures
            r == (TblisZeroCfg {  }),
    {
        TblisZeroCfg {  }
    }
}

/// Accumulation of the dot product over the shared index space.
fn kernel_dot(
    a: &Vec<i64>,
    pa: &Vec<usize>,
    sa: &Vec<usize>,
    b: &Vec<i64>,
    pb: &Vec<usize>,
    sb: &Vec<usize>,
    dims: &Vec<usize>,
    wts: &Vec<usize>,
    total: usize,
    alpha: i64,
    beta: i64,
) -> (acc: i64)
    requires
        all_pos(dims@),
        weights_ok(wts@, dims@),
        kern_wf(pa@, sa@, dims@, a@.len() as int),
        kern_wf(pb@, sb@, dims@, b@.len() as int),
        total as int == prod_from(dims@, 0),
    ensures
        acc == dot_fold(a@, pa@, sa@, b@, pb@, sb@, dims@, alpha, beta, total as int),
{
    let al = a.len();
    let bl = b.len();
    let mut acc: i64 = 0;
    let mut k: usize = 0;
    while k < total
        invariant
            0 <= k <= total,
            all_pos(dims@),
            weights_ok(wts@, dims@),
            kern_wf(pa@, sa@, dims@, a@.len() as int),
            kern_wf(pb@, sb@, dims@, b@.len() as int),
            a@.len() <= usize::MAX,
            b@.len() <= usize::MAX,
            total as int == prod_from(dims@, 0),
            acc == dot_fold(a@, pa@, sa@, b@, pb@, sb@, dims@, alpha, beta, k as int),
        decreases total - k,
    {
        proof {
            lemma_offset_le_maxoff(k as int, pa@, sa@, dims@, pa@.len() as int);
            lemma_offset_le_maxoff(k as int, pb@, sb@, dims@, pb@.len() as int);
        }
        let oa = offset_of(k, pa, sa, dims, wts);
        let ob = offset_of(k, pb, sb, dims, wts);
        let va = a[oa];
        let vb = b[ob];
        acc = acc.wrapping_add((alpha.wrapping_mul(va)).wrapping_mul(beta.wrapping_mul(vb)));
        k += 1;
    }
    acc
}

/// Success conditions of the pairwise multiply `C <- alpha*A*B + beta*C`.
pub open spec fn mult_ok(
    ia: Seq<char>,
    ib: Seq<char>,
    ic: Seq<char>,
    ash: Seq<isize>,
    bsh: Seq<isize>,
    csh: Seq<isize>,
) -> bool {
    let subs = seq![ia, ib, ic];
    let shapes = seq![ash, bsh, csh];
    &&& sd_ok(subs, shapes)
    &&& covered_by2(ia, ib, ic)
    &&& covered_by2(ib, ia, ic)
    &&& covered_by2(ic, ia, ib)
    &&& cp_ok(subs)
    &&& fits(seq![ic], seq![csh])
    &&& fits(subs, shapes)
}

/// Destination data of the pairwise multiply: the `beta` pass over `C`'s own
/// index space, then the accumulation of `alpha * A * B` over the joint one.
pub open spec fn mult_spec(
    a: TensorModel,
    ia: Seq<char>,
    b: TensorModel,
    ib: Seq<char>,
    c: TensorModel,
    ic: Seq<char>,
    alpha: i64,
    beta: i64,
) -> Seq<i64> {
    let subs = seq![ia, ib, ic];
    let shapes = seq![a.shape, b.shape, c.shape];
    let labels = dedup_all(subs);
    let dims = spec_dims(subs, shapes);
    let own_labels = dedup_all(seq![ic]);
    let own_dims = spec_dims(seq![ic], seq![c.shape]);
    let c1 = affine_fold(
        c.data,
        spec_pos(ic, own_labels),
        spec_stride_u(c.stride),
        own_dims,
        0,
        beta,
        prod_from(own_dims, 0),
    );
    mult_fold(
        a.data,
        spec_pos(ia, labels),
        spec_stride_u(a.stride),
        b.data,
        spec_pos(ib, labels),
        spec_stride_u(b.stride),
        c1,
        spec_pos(ic, labels),
        spec_stride_u(c.stride),
        dims,
        alpha,
        prod_from(dims, 0),
    )
}

/// Pairwise tensor multiplication `C = alpha * A * B + beta * C` over
/// shared index labels.  Every label must occur in at least two of the
/// three subscripts; the coefficients come from the configuration, and the
/// handles' own `scalar` and `conj` fields are neither consulted nor
/// changed.
pub fn tblis_tensor_mult_f(
    a: &TblisTensor,
    idx_a: &str,
    b: &TblisTensor,
    idx_b: &str,
    c: &mut TblisTensor,
    idx_c: &str,
    cfg: Option<TblisTriCfg>,
) -> (r: Result<(), TblisError>)
    requires
        a.wf(),
        b.wf(),
        old(c).wf(),
    ensures
        final(c).shape@ == old(c).shape@,
        final(c).stride@ == old(c).stride@,
        final(c).conj == old(c).conj,
        final(c).scalar == old(c).scalar,
        final(c).data@.len() == old(c).data@.len(),
        final(c).wf(),
        r is Ok <==> mult_ok(idx_a@, idx_b@, idx_c@, a.shape@, b.shape@, old(c).shape@),
        r is Ok ==> final(c).data@ == mult_spec(
            a.model(),
            idx_a@,
            b.model(),
            idx_b@,
            old(c).model(),
            idx_c@,
            tri_alpha(cfg),
            tri_beta(cfg),
        ),
        r is Err ==> final(c).data@ == old(c).data@,
        r == Err::<(), TblisError>(TblisError::UniqueIndex) ==> !(covered_by2(
            idx_a@,
            idx_b@,
            idx_c@,
        ) && covered_by2(idx_b@, idx_a@, idx_c@) && covered_by2(idx_c@, idx_a@, idx_b@)),
        r == Err::<(), TblisError>(TblisError::TooManyLabels) ==> !cp_ok(
            seq![idx_a@, idx_b@, idx_c@],
        ),
{
    let ca = str_chars(idx_a);
    let cb = str_chars(idx_b);
    let cc = str_chars(idx_c);
    let (alpha, beta) = match cfg {
        Option::Some(k) => (k.alpha, k.beta),
        Option::None => (1i64, 0i64),
    };
    mult_chars_f(a, &ca, b, &cb, c, &cc, alpha, beta)
}

/// Pairwise tensor multiplication over label vectors; the chars-level core
/// of the operation, shared with the einsum executor.
pub fn mult_chars_f(
    a: &TblisTensor,
    ia: &Vec<char>,
    b: &TblisTensor,
    ib: &Vec<char>,
    c: &mut TblisTensor,
    ic: &Vec<char>,
    alpha: i64,
    beta: i64,
) -> (r: Result<(), TblisError>)
    requires
        a.wf(),
        b.wf(),
        old(c).wf(),
    ensures
        final(c).shape@ == old(c).shape@,
        final(c).stride@ == old(c).stride@,
        final(c).conj == old(c).conj,
        final(c).scalar == old(c).scalar,
        final(c).data@.len() == old(c).data@.len(),
        final(c).wf(),
        r is Ok <==> mult_ok(ia@, ib@, ic@, a.shape@, b.shape@, old(c).shape@),
        r is Ok ==> final(c).data@ == mult_spec(
            a.model(),
            ia@,
            b.model(),
            ib@,
            old(c).model(),
            ic@,
            alpha,
            beta,
        ),
        r is Err ==> final(c).data@ == old(c).data@,
        r == Err::<(), TblisError>(TblisError::UniqueIndex) ==> !(covered_by2(
            ia@,
            ib@,
            ic@,
        ) && covered_by2(ib@, ia@, ic@) && covered_by2(ic@, ia@, ib@)),
        r == Err::<(), TblisError>(TblisError::TooManyLabels) ==> !cp_ok(
            seq![ia@, ib@, ic@],
        ),
        r matches Err(e) ==> (e == TblisError::CountMismatch || e == TblisError::RankMismatch
            || e == TblisError::NegativeDim || e == TblisError::SizeConflict || e
            == TblisError::UniqueIndex || e == TblisError::TooManyLabels || e
            == TblisError::TooLarge),
{
    let ghost gok = mult_ok(ia@, ib@, ic@, a.shape@, b.shape@, old(c).shape@);
    let ca = clone_chars(ia);
    let cb = clone_chars(ib);
    let cc = clone_chars(ic);
    let mut subs: Vec<Vec<char>> = Vec::new();
    subs.push(ca);
    subs.push(cb);
    subs.push(cc);
    let mut shapes: Vec<Vec<isize>> = Vec::new();
    shapes.push(a.shape.clone());
    shapes.push(b.shape.clone());
    shapes.push(c.shape.clone());
    let ghost gsubs = seq![ia@, ib@, ic@];
    let ghost gshapes = seq![a.shape@, b.shape@, old(c).shape@];
    proof {
        assert(char_views(subs@) =~= gsubs);
        assert(shape_views(shapes@) =~= gshapes);
    }
    let m = match size_dict_chars(&subs, &shapes) {
        Result::Ok(m) => m,
        Result::Err(e) => {
            return Err(e);
        },
    };
    if !(all_covered2(&subs[0], &subs[1], &subs[2]) && all_covered2(&subs[1], &subs[0], &subs[2])
        && all_covered2(&subs[2], &subs[0], &subs[1])) {
        return Err(TblisError::UniqueIndex);
    }
    if !cp_check(&subs) {
        return Err(TblisError::TooManyLabels);
    }

    // geometry of C's own label space, for the beta pass
    let own_labels = own_labels_of(&subs[2]);
    let own_dims = own_dims_of(&subs[2], &shapes[2], &own_labels);
    let own_total = match checked_total(&own_dims) {
        Option::Some(t) => t,
        Option::None => {
            return Err(TblisError::TooLarge);
        },
    };

    // geometry of the joint label space
    let labels = labels_of_dict(&m);
    let dims = dims_of_dict(&m);
    proof {
        assert(dims@ =~= spec_dims(gsubs, gshapes));
    }
    let total = match checked_total(&dims) {
        Option::Some(t) => t,
        Option::None => {
            return Err(TblisError::TooLarge);
        },
    };
    proof {
        assert(gok);
    }

    let sc_u = stride_to_usize(&c.stride);
    let onl = own_labels.len();
    let nl = labels.len();
    proof {
        lemma_dedup_all_contains(seq![ic@]);
        assert forall|j: int| 0 <= j < subs@[2]@.len() implies contains_char(
            own_labels@,
            #[trigger] subs@[2]@[j],
        ) by {
            assert(contains_char(seq![ic@][0], ic@[j]));
        }
        lemma_dedup_all_contains(gsubs);
        assert forall|j: int| 0 <= j < subs@[2]@.len() implies contains_char(
            labels@,
            #[trigger] subs@[2]@[j],
        ) by {
            assert(contains_char(gsubs[2], ic@[j]));
        }
        assert forall|j: int| 0 <= j < subs@[0]@.len() implies contains_char(
            labels@,
            #[trigger] subs@[0]@[j],
        ) by {
            assert(contains_char(gsubs[0], ia@[j]));
        }
        assert forall|j: int| 0 <= j < subs@[1]@.len() implies contains_char(
            labels@,
            #[trigger] subs@[1]@[j],
        ) by {
            assert(contains_char(gsubs[1], ib@[j]));
        }
    }
    let pos_c_own = pos_in_labels(&subs[2], &own_labels);
    proof {
        lemma_sd_ok_single(gsubs, gshapes, 2);
        lemma_tensor_geom(
            seq![ic@],
            seq![old(c).shape@],
            0,
            own_labels@,
            own_dims@,
            pos_c_own@,
            old(c).stride@,
            sc_u@,
            old(c).data@.len() as int,
        );
    }
    if own_total > 0 {
        proof {
            lemma_all_pos_of_prod(own_dims@);
        }
        let wts_own = build_weights(&own_dims);
        kernel_affine(&mut c.data, &pos_c_own, &sc_u, &own_dims, &wts_own, own_total, 0, beta);
    }
    let ghost c1 = affine_fold(
        old(c).data@,
        spec_pos(ic@, dedup_all(seq![ic@])),
        spec_stride_u(old(c).stride@),
        spec_dims(seq![ic@], seq![old(c).shape@]),
        0,
        beta,
        prod_from(spec_dims(seq![ic@], seq![old(c).shape@]), 0),
    );
    proof {
        if own_total == 0 {
            assert(c.data@ == c1);
        } else {
            assert(c.data@ == c1);
        }
        if all_pos(own_dims@) {
            lemma_affine_fold_len(
                old(c).data@,
                pos_c_own@,
                sc_u@,
                own_dims@,
                0,
                beta,
                own_total as int,
            );
        }
        assert(c.data@.len() == old(c).data@.len());
    }

    // accumulate alpha * A * B over the joint space
    let sa_u = stride_to_usize(&a.stride);
    let sb_u = stride_to_usize(&b.stride);
    let pa = pos_in_labels(&subs[0], &labels);
    let pb = pos_in_labels(&subs[1], &labels);
    let pc = pos_in_labels(&subs[2], &labels);
    proof {
        lemma_tensor_geom(
            gsubs,
            gshapes,
            0,
            labels@,
            dims@,
            pa@,
            a.stride@,
            sa_u@,
            a.data@.len() as int,
        );
        lemma_tensor_geom(
            gsubs,
            gshapes,
            1,
            labels@,
            dims@,
            pb@,
            b.stride@,
            sb_u@,
            b.data@.len() as int,
        );
        lemma_tensor_geom(
            gsubs,
            gshapes,
            2,
            labels@,
            dims@,
            pc@,
            old(c).stride@,
            sc_u@,
            old(c).data@.len() as int,
        );
    }
    if total > 0 {
        proof {
            lemma_all_pos_of_prod(dims@);
        }
        let wts = build_weights(&dims);
        kernel_mult(
            &a.data,
            &pa,
            &sa_u,
            &b.data,
            &pb,
            &sb_u,
            &mut c.data,
            &pc,
            &sc_u,
            &dims,
            &wts,
            total,
            alpha,
        );
        proof {
            lemma_mult_fold_len(
                a.data@,
                pa@,
                sa_u@,
                b.data@,
                pb@,
                sb_u@,
                c1,
                pc@,
                sc_u@,
                dims@,
                alpha,
                total as int,
            );
        }
    }
    proof {
        assert(final(c).data@ == mult_spec(
            a.model(),
            ia@,
            b.model(),
            ib@,
            old(c).model(),
            ic@,
            alpha,
            beta,
        ));
    }
    Ok(())
}

/// Pairwise tensor multiplication `C = alpha * A * B + beta * C`; callers
/// must meet the success conditions that the fallible form checks.
pub fn tblis_tensor_mult(
    a: &TblisTensor,
    idx_a: &str,
    b: &TblisTensor,
    idx_b: &str,
    c: &mut TblisTensor,
    idx_c: &str,
    cfg: Option<TblisTriCfg>,
)
    requires
        a.wf(),
        b.wf(),
        old(c).wf(),
        mult_ok(idx_a@, idx_b@, idx_c@, a.shape@, b.shape@, old(c).shape@),
    ensures
        final(c).shape@ == old(c).shape@,
        final(c).stride@ == old(c).stride@,
        final(c).conj == old(c).conj,
        final(c).scalar == old(c).scalar,
        final(c).wf(),
        final(c).data@ == mult_spec(
            a.model(),
            idx_a@,
            b.model(),
            idx_b@,
            old(c).model(),
            idx_c@,
            tri_alpha(cfg),
            tri_beta(cfg),
        ),
{
    let r = tblis_tensor_mult_f(a, idx_a, b, idx_b, c, idx_c, cfg);
    match r {
        Result::Ok(()) => (),
        Result::Err(_) => {
            proof {
                assert(false);
            }
        },
    }
}


/// `alpha` of a two-tensor configuration, with its default.
pub open spec fn bi_alpha(cfg: Option<TblisBiCfg>) -> i64 {
    match cfg {
        Option::Some(k) => k.alpha,
        Option::None => 1,
    }
}

/// `beta` of a two-tensor configuration, with its default.
pub open spec fn bi_beta(cfg: Option<TblisBiCfg>) -> i64 {
    match cfg {
        Option::Some(k) => k.beta,
        Option::None => 1,
    }
}

/// Success conditions of the unary add `B <- alpha*A + beta*B`: only one of
/// the two subscripts may own labels the other lacks.
pub open spec fn add_ok(ia: Seq<char>, ib: Seq<char>, ash: Seq<isize>, bsh: Seq<isize>) -> bool {
    let subs = seq![ia, ib];
    let shapes = seq![ash, bsh];
    &&& sd_ok(subs, shapes)
    &&& (covered_by(ia, ib) || covered_by(ib, ia))
    &&& cp_ok(subs)
    &&& fits(seq![ib], seq![bsh])
    &&& fits(subs, shapes)
}

/// Destination data of the unary add: the `beta` pass over `B`'s own index
/// space, then the accumulation of `alpha * A` over the joint one.  A label
/// of `A` absent from `B` is summed over; a label of `B` absent from `A`
/// replicates.
pub open spec fn add_spec(
    a: TensorModel,
    ia: Seq<char>,
    b: TensorModel,
    ib: Seq<char>,
    alpha: i64,
    beta: i64,
) -> Seq<i64> {
    let subs = seq![ia, ib];
    let shapes = seq![a.shape, b.shape];
    let labels = dedup_all(subs);
    let dims = spec_dims(subs, shapes);
    let own_labels = dedup_all(seq![ib]);
    let own_dims = spec_dims(seq![ib], seq![b.shape]);
    let b1 = affine_fold(
        b.data,
        spec_pos(ib, own_labels),
        spec_stride_u(b.stride),
        own_dims,
        0,
        beta,
        prod_from(own_dims, 0),
    );
    add_fold(
        a.data,
        spec_pos(ia, labels),
        spec_stride_u(a.stride),
        b1,
        spec_pos(ib, labels),
        spec_stride_u(b.stride),
        dims,
        alpha,
        prod_from(dims, 0),
    )
}

/// Unary tensor addition `B = alpha * A + beta * B`: transpose, trace over
/// the labels of `A` missing from `B`, or replication over the labels of
/// `B` missing from `A`.  The handles' own `scalar` and `conj` fields are
/// neither consulted nor changed.
pub fn tblis_tensor_add_f(
    a: &TblisTensor,
    idx_a: &str,
    b: &mut TblisTensor,
    idx_b: &str,
    cfg: Option<TblisBiCfg>,
) -> (r: Result<(), TblisError>)
    requires
        a.wf(),
        old(b).wf(),
    ensures
        final(b).shape@ == old(b).shape@,
        final(b).stride@ == old(b).stride@,
        final(b).conj == old(b).conj,
        final(b).scalar == old(b).scalar,
        final(b).data@.len() == old(b).data@.len(),
        final(b).wf(),
        r is Ok <==> add_ok(idx_a@, idx_b@, a.shape@, old(b).shape@),
        r is Ok ==> final(b).data@ == add_spec(
            a.model(),
            idx_a@,
            old(b).model(),
            idx_b@,
            bi_alpha(cfg),
            bi_beta(cfg),
        ),
        r is Err ==> final(b).data@ == old(b).data@,
        r == Err::<(), TblisError>(TblisError::UniqueIndex) ==> !(covered_by(idx_a@, idx_b@)
            || covered_by(idx_b@, idx_a@)),
        r == Err::<(), TblisError>(TblisError::TooManyLabels) ==> !cp_ok(seq![idx_a@, idx_b@]),
{
    let ca = str_chars(idx_a);
    let cb = str_chars(idx_b);
    let (alpha, beta) = match cfg {
        Option::Some(k) => (k.alpha, k.beta),
        Option::None => (1i64, 1i64),
    };
    add_chars_f(a, &ca, b, &cb, alpha, beta)
}

/// Unary tensor addition over label vectors; the chars-level core of the
/// operation, shared with the einsum executor and the trace step.
pub fn add_chars_f(
    a: &TblisTensor,
    ia: &Vec<char>,
    b: &mut TblisTensor,
    ib: &Vec<char>,
    alpha: i64,
    beta: i64,
) -> (r: Result<(), TblisError>)
    requires
        a.wf(),
        old(b).wf(),
    ensures
        final(b).shape@ == old(b).shape@,
        final(b).stride@ == old(b).stride@,
        final(b).conj == old(b).conj,
        final(b).scalar == old(b).scalar,
        final(b).data@.len() == old(b).data@.len(),
        final(b).wf(),
        r is Ok <==> add_ok(ia@, ib@, a.shape@, old(b).shape@),
        r is Ok ==> final(b).data@ == add_spec(
            a.model(),
            ia@,
            old(b).model(),
            ib@,
            alpha,
            beta,
        ),
        r is Err ==> final(b).data@ == old(b).data@,
        r == Err::<(), TblisError>(TblisError::UniqueIndex) ==> !(covered_by(ia@, ib@)
            || covered_by(ib@, ia@)),
        r == Err::<(), TblisError>(TblisError::TooManyLabels) ==> !cp_ok(seq![ia@, ib@]),
        r matches Err(e) ==> (e == TblisError::CountMismatch || e == TblisError::RankMismatch
            || e == TblisError::NegativeDim || e == TblisError::SizeConflict || e
            == TblisError::UniqueIndex || e == TblisError::TooManyLabels || e
            == TblisError::TooLarge),
{
    let ghost gok = add_ok(ia@, ib@, a.shape@, old(b).shape@);
    let ca = clone_chars(ia);
    let cb = clone_chars(ib);
    let mut subs: Vec<Vec<char>> = Vec::new();
    subs.push(ca);
    subs.push(cb);
    let mut shapes: Vec<Vec<isize>> = Vec::new();
    shapes.push(a.shape.clone());
    shapes.push(b.shape.clone());
    let ghost gsubs = seq![ia@, ib@];
    let ghost gshapes = seq![a.shape@, old(b).shape@];
    proof {
        assert(char_views(subs@) =~= gsubs);
        assert(shape_views(shapes@) =~= gshapes);
    }
    let m = match size_dict_chars(&subs, &shapes) {
        Result::Ok(m) => m,
        Result::Err(e) => {
            return Err(e);
        },
    };
    if !(all_covered(&subs[0], &subs[1]) || all_covered(&subs[1], &subs[0])) {
        return Err(TblisError::UniqueIndex);
    }
    if !cp_check(&subs) {
        return Err(TblisError::TooManyLabels);
    }

    // geometry of B's own label space, for the beta pass
    let own_labels = own_labels_of(&subs[1]);
    let own_dims = own_dims_of(&subs[1], &shapes[1], &own_labels);
    let own_total = match checked_total(&own_dims) {
        Option::Some(t) => t,
        Option::None => {
            return Err(TblisError::TooLarge);
        },
    };

    // geometry of the joint label space
    let labels = labels_of_dict(&m);
    let dims = dims_of_dict(&m);
    proof {
        assert(dims@ =~= spec_dims(gsubs, gshapes));
    }
    let total = match checked_total(&dims) {
        Option::Some(t) => t,
        Option::None => {
            return Err(TblisError::TooLarge);
        },
    };
    proof {
        assert(gok);
    }

    let sb_u = stride_to_usize(&b.stride);
    let onl = own_labels.len();
    let nl = labels.len();
    proof {
        lemma_dedup_all_contains(seq![ib@]);
        assert forall|j: int| 0 <= j < subs@[1]@.len() implies contains_char(
            own_labels@,
            #[trigger] subs@[1]@[j],
        ) by {
            assert(contains_char(seq![ib@][0], ib@[j]));
        }
        lemma_dedup_all_contains(gsubs);
        assert forall|j: int| 0 <= j < subs@[1]@.len() implies contains_char(
            labels@,
            #[trigger] subs@[1]@[j],
        ) by {
            assert(contains_char(gsubs[1], ib@[j]));
        }
        assert forall|j: int| 0 <= j < subs@[0]@.len() implies contains_char(
            labels@,
            #[trigger] subs@[0]@[j],
        ) by {
            assert(contains_char(gsubs[0], ia@[j]));
        }
    }
    let pos_b_own = pos_in_labels(&subs[1], &own_labels);
    proof {
        lemma_sd_ok_single(gsubs, gshapes, 1);
        lemma_tensor_geom(
            seq![ib@],
            seq![old(b).shape@],
            0,
            own_labels@,
            own_dims@,
            pos_b_own@,
            old(b).stride@,
            sb_u@,
            old(b).data@.len() as int,
        );
    }
    if own_total > 0 {
        proof {
            lemma_all_pos_of_prod(own_dims@);
        }
        let wts_own = build_weights(&own_dims);
        kernel_affine(&mut b.data, &pos_b_own, &sb_u, &own_dims, &wts_own, own_total, 0, beta);
    }
    let ghost b1 = affine_fold(
        old(b).data@,
        spec_pos(ib@, dedup_all(seq![ib@])),
        spec_stride_u(old(b).stride@),
        spec_dims(seq![ib@], seq![old(b).shape@]),
        0,
        beta,
        prod_from(spec_dims(seq![ib@], seq![old(b).shape@]), 0),
    );
    proof {
        assert(b.data@ == b1);
        if all_pos(own_dims@) {
            lemma_affine_fold_len(
                old(b).data@,
                pos_b_own@,
                sb_u@,
                own_dims@,
                0,
                beta,
                own_total as int,
            );
        }
        assert(b.data@.len() == old(b).data@.len());
    }

    // accumulate alpha * A over the joint space
    let sa_u = stride_to_usize(&a.stride);
    let pa = pos_in_labels(&subs[0], &labels);
    let pb = pos_in_labels(&subs[1], &labels);
    proof {
        lemma_tensor_geom(
            gsubs,
            gshapes,
            0,
            labels@,
            dims@,
            pa@,
            a.stride@,
            sa_u@,
            a.data@.len() as int,
        );
        lemma_tensor_geom(
            gsubs,
            gshapes,
            1,
            labels@,
            dims@,
            pb@,
            old(b).stride@,
            sb_u@,
            old(b).data@.len() as int,
        );
    }
    if total > 0 {
        proof {
            lemma_all_pos_of_prod(dims@);
        }
        let wts = build_weights(&dims);
        kernel_add(&a.data, &pa, &sa_u, &mut b.data, &pb, &sb_u, &dims, &wts, total, alpha);
        proof {
            lemma_add_fold_len(
                a.data@,
                pa@,
                sa_u@,
                b1,
                pb@,
                sb_u@,
                dims@,
                alpha,
                total as int,
            );
        }
    }
    proof {
        assert(final(b).data@ == add_spec(a.model(), ia@, old(b).model(), ib@, alpha, beta));
    }
    Ok(())
}

/// Unary tensor addition `B = alpha * A + beta * B`; callers must meet the
/// success conditions that the fallible form checks.
pub fn tblis_tensor_add(
    a: &TblisTensor,
    idx_a: &str,
    b: &mut TblisTensor,
    idx_b: &str,
    cfg: Option<TblisBiCfg>,
)
    requires
        a.wf(),
        old(b).wf(),
        add_ok(idx_a@, idx_b@, a.shape@, old(b).shape@),
    ensures
        final(b).shape@ == old(b).shape@,
        final(b).stride@ == old(b).stride@,
        final(b).conj == old(b).conj,
        final(b).scalar == old(b).scalar,
        final(b).wf(),
        final(b).data@ == add_spec(a.model(), idx_a@, old(b).model(), idx_b@, bi_alpha(cfg), bi_beta(cfg)),
{
    let r = tblis_tensor_add_f(a, idx_a, b, idx_b, cfg);
    match r {
        Result::Ok(()) => (),
        Result::Err(_) => {
            proof {
                assert(false);
            }
        },
    }
}

/// Success conditions of the dot product: both subscripts cover each other.
pub open spec fn dot_ok(ia: Seq<char>, ib: Seq<char>, ash: Seq<isize>, bsh: Seq<isize>) -> bool {
    let subs = seq![ia, ib];
    let shapes = seq![ash, bsh];
    &&& sd_ok(subs, shapes)
    &&& covered_by(ia, ib)
    &&& covered_by(ib, ia)
    &&& cp_ok(subs)
    &&& fits(subs, shapes)
}

/// Value of the dot product `gamma = (alpha * A) . (beta * B)`.
pub open spec fn dot_spec(
    a: TensorModel,
    ia: Seq<char>,
    b: TensorModel,
    ib: Seq<char>,
    alpha: i64,
    beta: i64,
) -> i64 {
    let subs = seq![ia, ib];
    let shapes = seq![a.shape, b.shape];
    let labels = dedup_all(subs);
    let dims = spec_dims(subs, shapes);
    dot_fold(
        a.data,
        spec_pos(ia, labels),
        spec_stride_u(a.stride),
        b.data,
        spec_pos(ib, labels),
        spec_stride_u(b.stride),
        dims,
        alpha,
        beta,
        prod_from(dims, 0),
    )
}

/// Dot product `gamma = (alpha * A) . (beta * B)` over fully shared labels.
/// The handles' own `scalar` and `conj` fields are not consulted.
pub fn tblis_tensor_dot_f(
    a: &TblisTensor,
    idx_a: &str,
    b: &TblisTensor,
    idx_b: &str,
    cfg: Option<TblisBiCfg>,
) -> (r: Result<i64, TblisError>)
    requires
        a.wf(),
        b.wf(),
    ensures
        r is Ok <==> dot_ok(idx_a@, idx_b@, a.shape@, b.shape@),
        r matches Ok(v) ==> v == dot_spec(a.model(), idx_a@, b.model(), idx_b@, bi_alpha(cfg), bi_beta(cfg)),
        r == Err::<i64, TblisError>(TblisError::UniqueIndex) ==> !(covered_by(idx_a@, idx_b@)
            && covered_by(idx_b@, idx_a@)),
        r == Err::<i64, TblisError>(TblisError::TooManyLabels) ==> !cp_ok(seq![idx_a@, idx_b@]),
{
    let ghost gok = dot_ok(idx_a@, idx_b@, a.shape@, b.shape@);
    let (alpha, beta) = match cfg {
        Option::Some(k) => (k.alpha, k.beta),
        Option::None => (1i64, 1i64),
    };
    let ca = str_chars(idx_a);
    let cb = str_chars(idx_b);
    let mut subs: Vec<Vec<char>> = Vec::new();
    subs.push(ca);
    subs.push(cb);
    let mut shapes: Vec<Vec<isize>> = Vec::new();
    shapes.push(a.shape.clone());
    shapes.push(b.shape.clone());
    let ghost gsubs = seq![idx_a@, idx_b@];
    let ghost gshapes = seq![a.shape@, b.shape@];
    proof {
        assert(char_views(subs@) =~= gsubs);
        assert(shape_views(shapes@) =~= gshapes);
    }
    let m = match size_dict_chars(&subs, &shapes) {
        Result::Ok(m) => m,
        Result::Err(e) => {
            return Err(e);
        },
    };
    if !(all_covered(&subs[0], &subs[1]) && all_covered(&subs[1], &subs[0])) {
        return Err(TblisError::UniqueIndex);
    }
    if !cp_check(&subs) {
        return Err(TblisError::TooManyLabels);
    }
    let labels = labels_of_dict(&m);
    let dims = dims_of_dict(&m);
    proof {
        assert(dims@ =~= spec_dims(gsubs, gshapes));
    }
    let total = match checked_total(&dims) {
        Option::Some(t) => t,
        Option::None => {
            return Err(TblisError::TooLarge);
        },
    };
    proof {
        assert(gok);
    }
    if total == 0 {
        return Ok(0);
    }
    let nl = labels.len();
    proof {
        lemma_dedup_all_contains(gsubs);
        assert forall|j: int| 0 <= j < subs@[0]@.len() implies contains_char(
            labels@,
            #[trigger] subs@[0]@[j],
        ) by {
            assert(contains_char(gsubs[0], idx_a@[j]));
        }
        assert forall|j: int| 0 <= j < subs@[1]@.len() implies contains_char(
            labels@,
            #[trigger] subs@[1]@[j],
        ) by {
            assert(contains_char(gsubs[1], idx_b@[j]));
        }
    }
    let sa_u = stride_to_usize(&a.stride);
    let sb_u = stride_to_usize(&b.stride);
    let pa = pos_in_labels(&subs[0], &labels);
    let pb = pos_in_labels(&subs[1], &labels);
    proof {
        lemma_tensor_geom(
            gsubs,
            gshapes,
            0,
            labels@,
            dims@,
            pa@,
            a.stride@,
            sa_u@,
            a.data@.len() as int,
        );
        lemma_tensor_geom(
            gsubs,
            gshapes,
            1,
            labels@,
            dims@,
            pb@,
            b.stride@,
            sb_u@,
            b.data@.len() as int,
        );
        lemma_all_pos_of_prod(dims@);
    }
    let wts = build_weights(&dims);
    let acc = kernel_dot(&a.data, &pa, &sa_u, &b.data, &pb, &sb_u, &dims, &wts, total, alpha, beta);
    Ok(acc)
}

/// Dot product `gamma = (alpha * A) . (beta * B)`; callers must meet the
/// success conditions that the fallible form checks.
pub fn tblis_tensor_dot(
    a: &TblisTensor,
    idx_a: &str,
    b: &TblisTensor,
    idx_b: &str,
    cfg: Option<TblisBiCfg>,
) -> (v: i64)
    requires
        a.wf(),
        b.wf(),
        dot_ok(idx_a@, idx_b@, a.shape@, b.shape@),
    ensures
        v == dot_spec(a.model(), idx_a@, b.model(), idx_b@, bi_alpha(cfg), bi_beta(cfg)),
{
    let r = tblis_tensor_dot_f(a, idx_a, b, idx_b, cfg);
    match r {
        Result::Ok(v) => v,
        Result::Err(_) => {
            proof {
                assert(false);
            }
            0
        },
    }
}


/// `alpha` of a single-tensor configuration, with its default.
pub open spec fn uni_alpha(cfg: Option<TblisUniCfg>) -> i64 {
    match cfg {
        Option::Some(k) => k.alpha,
        Option::None => 1,
    }
}

/// Success conditions of the in-place single-tensor passes.
pub open spec fn uni_ok(ia: Seq<char>, ash: Seq<isize>) -> bool {
    &&& cp_ok(seq![ia])
    &&& fits(seq![ia], seq![ash])
}

/// Data of a tensor after the affine pass `x <- addc + mulc * x` over its
/// own label space.
pub open spec fn affine_own_spec(t: TensorModel, ia: Seq<char>, addc: i64, mulc: i64) -> Seq<i64> {
    let own_labels = dedup_all(seq![ia]);
    let own_dims = spec_dims(seq![ia], seq![t.shape]);
    affine_fold(
        t.data,
        spec_pos(ia, own_labels),
        spec_stride_u(t.stride),
        own_dims,
        addc,
        mulc,
        prod_from(own_dims, 0),
    )
}

/// Affine pass `x <- addc + mulc * x` over a tensor's own label space.
fn affine_own_f(t: &mut TblisTensor, sub: &Vec<char>, addc: i64, mulc: i64) -> (r: Result<
    (),
    TblisError,
>)
    requires
        old(t).wf(),
        sd_ok(seq![sub@], seq![old(t).shape@]),
    ensures
        final(t).shape@ == old(t).shape@,
        final(t).stride@ == old(t).stride@,
        final(t).conj == old(t).conj,
        final(t).scalar == old(t).scalar,
        final(t).data@.len() == old(t).data@.len(),
        final(t).wf(),
        r is Ok <==> uni_ok(sub@, old(t).shape@),
        r is Ok ==> final(t).data@ == affine_own_spec(old(t).model(), sub@, addc, mulc),
        r is Err ==> final(t).data@ == old(t).data@,
        r == Err::<(), TblisError>(TblisError::TooManyLabels) ==> !cp_ok(seq![sub@]),
        r == Err::<(), TblisError>(TblisError::TooLarge) ==> !fits(seq![sub@], seq![old(t).shape@]),
{
    let mut subs: Vec<Vec<char>> = Vec::new();
    subs.push(sub.clone());
    proof {
        assert(subs@[0]@ =~= sub@);
        assert(char_views(subs@) =~= seq![sub@]);
    }
    if !cp_check(&subs) {
        return Err(TblisError::TooManyLabels);
    }
    let own_labels = own_labels_of(&subs[0]);
    let own_dims = own_dims_of(&subs[0], &t.shape, &own_labels);
    let own_total = match checked_total(&own_dims) {
        Option::Some(v) => v,
        Option::None => {
            return Err(TblisError::TooLarge);
        },
    };
    let st_u = stride_to_usize(&t.stride);
    let onl = own_labels.len();
    proof {
        lemma_dedup_all_contains(seq![sub@]);
        assert forall|j: int| 0 <= j < subs@[0]@.len() implies contains_char(
            own_labels@,
            #[trigger] subs@[0]@[j],
        ) by {
            assert(contains_char(seq![sub@][0], sub@[j]));
        }
    }
    let pos_own = pos_in_labels(&subs[0], &own_labels);
    proof {
        lemma_tensor_geom(
            seq![sub@],
            seq![old(t).shape@],
            0,
            own_labels@,
            own_dims@,
            pos_own@,
            old(t).stride@,
            st_u@,
            old(t).data@.len() as int,
        );
    }
    if own_total > 0 {
        proof {
            lemma_all_pos_of_prod(own_dims@);
        }
        let wts = build_weights(&own_dims);
        kernel_affine(&mut t.data, &pos_own, &st_u, &own_dims, &wts, own_total, addc, mulc);
        proof {
            lemma_affine_fold_len(
                old(t).data@,
                pos_own@,
                st_u@,
                own_dims@,
                addc,
                mulc,
                own_total as int,
            );
        }
    }
    Ok(())
}

/// In-place scaling `A = alpha * A`.  The subscripts and the shape must
/// already agree (the infallible original asserts this); label-alphabet
/// and size failures are reported.
pub fn tblis_tensor_scale_f(a: &mut TblisTensor, idx_a: &str, cfg: Option<TblisUniCfg>) -> (r:
    Result<(), TblisError>)
    requires
        old(a).wf(),
        sd_ok(seq![idx_a@], seq![old(a).shape@]),
    ensures
        final(a).shape@ == old(a).shape@,
        final(a).stride@ == old(a).stride@,
        final(a).conj == old(a).conj,
        final(a).scalar == old(a).scalar,
        final(a).wf(),
        r is Ok <==> uni_ok(idx_a@, old(a).shape@),
        r is Ok ==> final(a).data@ == affine_own_spec(old(a).model(), idx_a@, 0, uni_alpha(cfg)),
        r is Err ==> final(a).data@ == old(a).data@,
{
    let alpha = match cfg {
        Option::Some(k) => k.alpha,
        Option::None => 1i64,
    };
    let ca = str_chars(idx_a);
    affine_own_f(a, &ca, 0, alpha)
}

/// In-place scaling `A = alpha * A`; callers must meet the success
/// conditions that the fallible form checks.
pub fn tblis_tensor_scale(a: &mut TblisTensor, idx_a: &str, cfg: Option<TblisUniCfg>)
    requires
        old(a).wf(),
        sd_ok(seq![idx_a@], seq![old(a).shape@]),
        uni_ok(idx_a@, old(a).shape@),
    ensures
        final(a).shape@ == old(a).shape@,
        final(a).stride@ == old(a).stride@,
        final(a).conj == old(a).conj,
        final(a).scalar == old(a).scalar,
        final(a).wf(),
        final(a).data@ == affine_own_spec(old(a).model(), idx_a@, 0, uni_alpha(cfg)),
{
    let r = tblis_tensor_scale_f(a, idx_a, cfg);
    match r {
        Result::Ok(()) => (),
        Result::Err(_) => {
            proof {
                assert(false);
            }
        },
    }
}

/// In-place fill `A = alpha`.
pub fn tblis_tensor_set_f(
    a: &mut TblisTensor,
    idx_a: &str,
    alpha: i64,
    cfg: Option<TblisZeroCfg>,
) -> (r: Result<(), TblisError>)
    requires
        old(a).wf(),
        sd_ok(seq![idx_a@], seq![old(a).shape@]),
    ensures
        final(a).shape@ == old(a).shape@,
        final(a).stride@ == old(a).stride@,
        final(a).conj == old(a).conj,
        final(a).scalar == old(a).scalar,
        final(a).wf(),
        r is Ok <==> uni_ok(idx_a@, old(a).shape@),
        r is Ok ==> final(a).data@ == affine_own_spec(old(a).model(), idx_a@, alpha, 0),
        r is Err ==> final(a).data@ == old(a).data@,
{
    let _ = cfg;
    let ca = str_chars(idx_a);
    affine_own_f(a, &ca, alpha, 0)
}

/// In-place fill `A = alpha`; callers must meet the success conditions
/// that the fallible form checks.
pub fn tblis_tensor_set(a: &mut TblisTensor, idx_a: &str, alpha: i64, cfg: Option<TblisZeroCfg>)
    requires
        old(a).wf(),
        sd_ok(seq![idx_a@], seq![old(a).shape@]),
        uni_ok(idx_a@, old(a).shape@),
    ensures
        final(a).shape@ == old(a).shape@,
        final(a).stride@ == old(a).stride@,
        final(a).conj == old(a).conj,
        final(a).scalar == old(a).scalar,
        final(a).wf(),
        final(a).data@ == affine_own_spec(old(a).model(), idx_a@, alpha, 0),
{
    let r = tblis_tensor_set_f(a, idx_a, alpha, cfg);
    match r {
        Result::Ok(()) => (),
        Result::Err(_) => {
            proof {
                assert(false);
            }
        },
    }
}

/// In-place shift `A = alpha + beta * A`, where `beta` is the
/// configuration's coefficient.
pub fn tblis_tensor_shift_f(
    a: &mut TblisTensor,
    idx_a: &str,
    alpha: i64,
    cfg: Option<TblisUniCfg>,
) -> (r: Result<(), TblisError>)
    requires
        old(a).wf(),
        sd_ok(seq![idx_a@], seq![old(a).shape@]),
    ensures
        final(a).shape@ == old(a).shape@,
        final(a).stride@ == old(a).stride@,
        final(a).conj == old(a).conj,
        final(a).scalar == old(a).scalar,
        final(a).wf(),
        r is Ok <==> uni_ok(idx_a@, old(a).shape@),
        r is Ok ==> final(a).data@ == affine_own_spec(old(a).model(), idx_a@, alpha, uni_alpha(cfg)),
        r is Err ==> final(a).data@ == old(a).data@,
{
    let beta = match cfg {
        Option::Some(k) => k.alpha,
        Option::None => 1i64,
    };
    let ca = str_chars(idx_a);
    affine_own_f(a, &ca, alpha, beta)
}

/// In-place shift `A = alpha + beta * A`; callers must meet the success
/// conditions that the fallible form checks.
pub fn tblis_tensor_shift(a: &mut TblisTensor, idx_a: &str, alpha: i64, cfg: Option<TblisUniCfg>)
    requires
        old(a).wf(),
        sd_ok(seq![idx_a@], seq![old(a).shape@]),
        uni_ok(idx_a@, old(a).shape@),
    ensures
        final(a).shape@ == old(a).shape@,
        final(a).stride@ == old(a).stride@,
        final(a).conj == old(a).conj,
        final(a).scalar == old(a).scalar,
        final(a).wf(),
        final(a).data@ == affine_own_spec(old(a).model(), idx_a@, alpha, uni_alpha(cfg)),
{
    let r = tblis_tensor_shift_f(a, idx_a, alpha, cfg);
    match r {
        Result::Ok(()) => (),
        Result::Err(_) => {
            proof {
                assert(false);
            }
        },
    }
}


/// Reduction operations over a tensor's elements.
///
/// `Norm2` is listed for interface compatibility; it is not computable over
/// integer elements and the reduction reports it as unsupported.  `Norm1`
/// is `SumAbs` and `NormInf` is `MaxAbs`, written out as their synonyms.
#[derive(Debug, Clone, Copy, PartialEq, Eq, Structural)]
pub enum TblisReduceOp {
    Sum,
    SumAbs,
    Max,
    MaxAbs,
    Min,
    MinAbs,
    Norm2,
}

/// Absolute value under wrapping arithmetic (the minimum maps to itself).
pub open spec fn wabs(x: i64) -> i64 {
    if x >= 0 {
        x
    } else {
        i64_specs::wrapping_sub(0, x)
    }
}

/// Neutral start value of a reduction.
pub open spec fn reduce_init(op: TblisReduceOp) -> i64 {
    match op {
        TblisReduceOp::Sum => 0,
        TblisReduceOp::SumAbs => 0,
        TblisReduceOp::Max => i64::MIN,
        TblisReduceOp::MaxAbs => 0,
        TblisReduceOp::Min => i64::MAX,
        TblisReduceOp::MinAbs => i64::MAX,
        TblisReduceOp::Norm2 => 0,
    }
}

/// One step of a reduction.
pub open spec fn reduce_step(op: TblisReduceOp, acc: i64, v: i64) -> i64 {
    match op {
        TblisReduceOp::Sum => i64_specs::wrapping_add(acc, v),
        TblisReduceOp::SumAbs => i64_specs::wrapping_add(acc, wabs(v)),
        TblisReduceOp::Max => if v > acc {
            v
        } else {
            acc
        },
        TblisReduceOp::MaxAbs => if wabs(v) > acc {
            wabs(v)
        } else {
            acc
        },
        TblisReduceOp::Min => if v < acc {
            v
        } else {
            acc
        },
        TblisReduceOp::MinAbs => if wabs(v) < acc {
            wabs(v)
        } else {
            acc
        },
        TblisReduceOp::Norm2 => acc,
    }
}

/// Accumulator after the first `n` points of a reduction over `alpha * x`.
pub open spec fn reduce_fold(
    data: Seq<i64>,
    pos: Seq<usize>,
    stride: Seq<usize>,
    dims: Seq<usize>,
    op: TblisReduceOp,
    alpha: i64,
    n: int,
) -> i64
    decreases n,
{
    if n <= 0 {
        reduce_init(op)
    } else {
        let prev = reduce_fold(data, pos, stride, dims, op, alpha, n - 1);
        let o = toff(n - 1, pos, stride, dims);
        reduce_step(op, prev, i64_specs::wrapping_mul(alpha, data[o]))
    }
}

/// Reduction pass over the addressed elements.
fn kernel_reduce(
    data: &Vec<i64>,
    pos: &Vec<usize>,
    stride: &Vec<usize>,
    dims: &Vec<usize>,
    wts: &Vec<usize>,
    total: usize,
    op: TblisReduceOp,
    alpha: i64,
) -> (acc: i64)
    requires
        all_pos(dims@),
        weights_ok(wts@, dims@),
        kern_wf(pos@, stride@, dims@, data@.len() as int),
        total as int == prod_from(dims@, 0),
    ensures
        acc == reduce_fold(data@, pos@, stride@, dims@, op, alpha, total as int),
{
    let dl = data.len();
    let mut acc: i64 = match op {
        TblisReduceOp::Sum => 0,
        TblisReduceOp::SumAbs => 0,
        TblisReduceOp::Max => i64::MIN,
        TblisReduceOp::MaxAbs => 0,
        TblisReduceOp::Min => i64::MAX,
        TblisReduceOp::MinAbs => i64::MAX,
        TblisReduceOp::Norm2 => 0,
    };
    let mut k: usize = 0;
    while k < total
        invariant
            0 <= k <= total,
            all_pos(dims@),
            weights_ok(wts@, dims@),
            kern_wf(pos@, stride@, dims@, data@.len() as int),
            data@.len() <= usize::MAX,
            total as int == prod_from(dims@, 0),
            acc == reduce_fold(data@, pos@, stride@, dims@, op, alpha, k as int),
        decreases total - k,
    {
        proof {
            lemma_offset_le_maxoff(k as int, pos@, stride@, dims@, pos@.len() as int);
        }
        let o = offset_of(k, pos, stride, dims, wts);
        let v = alpha.wrapping_mul(data[o]);
        let va = if v >= 0 {
            v
        } else {
            0i64.wrapping_sub(v)
        };
        acc = match op {
            TblisReduceOp::Sum => acc.wrapping_add(v),
            TblisReduceOp::SumAbs => acc.wrapping_add(va),
            TblisReduceOp::Max => if v > acc {
                v
            } else {
                acc
            },
            TblisReduceOp::MaxAbs => if va > acc {
                va
            } else {
                acc
            },
            TblisReduceOp::Min => if v < acc {
                v
            } else {
                acc
            },
            TblisReduceOp::MinAbs => if va < acc {
                va
            } else {
                acc
            },
            TblisReduceOp::Norm2 => acc,
        };
        k += 1;
    }
    acc
}

/// Value of the reduction `gamma = op(alpha * A)` over the tensor's own
/// label space.
pub open spec fn reduce_spec(t: TensorModel, ia: Seq<char>, op: TblisReduceOp, alpha: i64) -> i64 {
    let own_labels = dedup_all(seq![ia]);
    let own_dims = spec_dims(seq![ia], seq![t.shape]);
    reduce_fold(
        t.data,
        spec_pos(ia, own_labels),
        spec_stride_u(t.stride),
        own_dims,
        op,
        alpha,
        prod_from(own_dims, 0),
    )
}

/// Reduction `gamma = op(alpha * A)`.  Repeated labels address the
/// corresponding diagonal.  `Norm2` is unsupported over integer elements.
pub fn tblis_tensor_reduce_f(
    a: &TblisTensor,
    idx_a: &str,
    op: TblisReduceOp,
    cfg: Option<TblisUniCfg>,
) -> (r: Result<i64, TblisError>)
    requires
        a.wf(),
        sd_ok(seq![idx_a@], seq![a.shape@]),
    ensures
        r is Ok <==> (op != TblisReduceOp::Norm2 && uni_ok(idx_a@, a.shape@)),
        r matches Ok(v) ==> v == reduce_spec(a.model(), idx_a@, op, uni_alpha(cfg)),
        op == TblisReduceOp::Norm2 ==> r == Err::<i64, TblisError>(TblisError::UnsupportedReduceOp),
{
    let alpha = match cfg {
        Option::Some(k) => k.alpha,
        Option::None => 1i64,
    };
    if op == TblisReduceOp::Norm2 {
        return Err(TblisError::UnsupportedReduceOp);
    }
    let ca = str_chars(idx_a);
    let mut subs: Vec<Vec<char>> = Vec::new();
    subs.push(ca);
    proof {
        assert(subs@[0]@ =~= idx_a@);
        assert(char_views(subs@) =~= seq![idx_a@]);
    }
    if !cp_check(&subs) {
        return Err(TblisError::TooManyLabels);
    }
    let own_labels = own_labels_of(&subs[0]);
    let own_dims = own_dims_of(&subs[0], &a.shape, &own_labels);
    let own_total = match checked_total(&own_dims) {
        Option::Some(v) => v,
        Option::None => {
            return Err(TblisError::TooLarge);
        },
    };
    if own_total == 0 {
        return Ok(
            match op {
                TblisReduceOp::Sum => 0,
                TblisReduceOp::SumAbs => 0,
                TblisReduceOp::Max => i64::MIN,
                TblisReduceOp::MaxAbs => 0,
                TblisReduceOp::Min => i64::MAX,
                TblisReduceOp::MinAbs => i64::MAX,
                TblisReduceOp::Norm2 => 0,
            },
        );
    }
    let sa_u = stride_to_usize(&a.stride);
    let onl = own_labels.len();
    proof {
        lemma_dedup_all_contains(seq![idx_a@]);
        assert forall|j: int| 0 <= j < subs@[0]@.len() implies contains_char(
            own_labels@,
            #[trigger] subs@[0]@[j],
        ) by {
            assert(contains_char(seq![idx_a@][0], idx_a@[j]));
        }
    }
    let pos_own = pos_in_labels(&subs[0], &own_labels);
    proof {
        lemma_tensor_geom(
            seq![idx_a@],
            seq![a.shape@],
            0,
            own_labels@,
            own_dims@,
            pos_own@,
            a.stride@,
            sa_u@,
            a.data@.len() as int,
        );
        lemma_all_pos_of_prod(own_dims@);
    }
    let wts = build_weights(&own_dims);
    let acc = kernel_reduce(&a.data, &pos_own, &sa_u, &own_dims, &wts, own_total, op, alpha);
    Ok(acc)
}

/// Reduction `gamma = op(alpha * A)`; callers must meet the success
/// conditions that the fallible form checks.
pub fn tblis_tensor_reduce(
    a: &TblisTensor,
    idx_a: &str,
    op: TblisReduceOp,
    cfg: Option<TblisUniCfg>,
) -> (v: i64)
    requires
        a.wf(),
        sd_ok(seq![idx_a@], seq![a.shape@]),
        op != TblisReduceOp::Norm2,
        uni_ok(idx_a@, a.shape@),
    ensures
        v == reduce_spec(a.model(), idx_a@, op, uni_alpha(cfg)),
{
    let r = tblis_tensor_reduce_f(a, idx_a, op, cfg);
    match r {
        Result::Ok(v) => v,
        Result::Err(_) => {
            proof {
                assert(false);
            }
            0
        },
    }
}


/// Separator characters ignored when reading an operation name.
pub open spec fn is_sep(c: char) -> bool {
    c == '-' || c == ' ' || c == '_'
}

/// ASCII-lowercased code of a character.
pub open spec fn norm_code(c: char) -> u32 {
    if 'A' <= c && c <= 'Z' {
        (c as u32 + 32) as u32
    } else {
        c as u32
    }
}

/// Name normalization: separators dropped, ASCII letters lowercased.
pub open spec fn norm_name(s: Seq<char>) -> Seq<u32>
    decreases s.len(),
{
    if s.len() == 0 {
        Seq::empty()
    } else {
        let rest = norm_name(s.drop_last());
        if is_sep(s.last()) {
            rest
        } else {
            rest.push(norm_code(s.last()))
        }
    }
}

/// The string names one of the reduction operations.
pub open spec fn valid_reduce_name(s: Seq<char>) -> bool {
    ||| norm_name(s) == norm_name("sum"@)
    ||| norm_name(s) == norm_name("sumabs"@)
    ||| norm_name(s) == norm_name("max"@)
    ||| norm_name(s) == norm_name("maxabs"@)
    ||| norm_name(s) == norm_name("min"@)
    ||| norm_name(s) == norm_name("minabs"@)
    ||| norm_name(s) == norm_name("norm2"@)
    ||| norm_name(s) == norm_name("norm1"@)
    ||| norm_name(s) == norm_name("norminf"@)
}

/// The reduction operation a valid name denotes.
pub open spec fn reduce_op_of(s: Seq<char>) -> TblisReduceOp {
    if norm_name(s) == norm_name("sum"@) {
        TblisReduceOp::Sum
    } else if norm_name(s) == norm_name("sumabs"@) {
        TblisReduceOp::SumAbs
    } else if norm_name(s) == norm_name("max"@) {
        TblisReduceOp::Max
    } else if norm_name(s) == norm_name("maxabs"@) {
        TblisReduceOp::MaxAbs
    } else if norm_name(s) == norm_name("min"@) {
        TblisReduceOp::Min
    } else if norm_name(s) == norm_name("minabs"@) {
        TblisReduceOp::MinAbs
    } else if norm_name(s) == norm_name("norm2"@) {
        TblisReduceOp::Norm2
    } else if norm_name(s) == norm_name("norm1"@) {
        TblisReduceOp::SumAbs
    } else {
        TblisReduceOp::MaxAbs
    }
}

/// Normalized codes of an operation name.
fn norm_codes(s: &str) -> (v: Vec<u32>)
    ensures
        v@ == norm_name(s@),
{
    let n = s.unicode_len();
    let mut v: Vec<u32> = Vec::new();
    let mut i: usize = 0;
    while i < n
        invariant
            0 <= i <= n,
            n == s@.len(),
            v@ == norm_name(s@.take(i as int)),
        decreases n - i,
    {
        let c = s.get_char(i);
        proof {
            assert(s@.take(i as int + 1).drop_last() =~= s@.take(i as int));
            assert(s@.take(i as int + 1).last() == s@[i as int]);
        }
        if !(c == '-' || c == ' ' || c == '_') {
            if c >= 'A' && c <= 'Z' {
                v.push(c as u32 + 32);
            } else {
                v.push(c as u32);
            }
        }
        i += 1;
    }
    proof {
        assert(s@.take(n as int) =~= s@);
    }
    v
}

/// Whether two code sequences are equal.
pub(crate) fn codes_eq(a: &Vec<u32>, b: &Vec<u32>) -> (r: bool)
    ensures
        r == (a@ == b@),
{
    if a.len() != b.len() {
        return false;
    }
    let n = a.len();
    let mut i: usize = 0;
    while i < n
        invariant
            0 <= i <= n,
            n == a@.len(),
            a@.len() == b@.len(),
            forall|j: int| 0 <= j < i ==> a@[j] == b@[j],
        decreases n - i,
    {
        if a[i] != b[i] {
            return false;
        }
        i += 1;
    }
    proof {
        assert(a@ =~= b@);
    }
    true
}

impl TblisReduceOp {
    /// Read an operation from its name, case-insensitively and ignoring
    /// `-`, `_` and spaces: `"sum"`, `"SumAbs"`, `"NORM-1"`, and so on.
    /// `"norm1"` denotes `SumAbs` and `"norminf"` denotes `MaxAbs`.
    pub fn from(s: &str) -> (r: TblisReduceOp)
        requires
            valid_reduce_name(s@),
        ensures
            r == reduce_op_of(s@),
    {
        let n = norm_codes(s);
        if codes_eq(&n, &norm_codes("sum")) {
            TblisReduceOp::Sum
        } else if codes_eq(&n, &norm_codes("sumabs")) {
            TblisReduceOp::SumAbs
        } else if codes_eq(&n, &norm_codes("max")) {
            TblisReduceOp::Max
        } else if codes_eq(&n, &norm_codes("maxabs")) {
            TblisReduceOp::MaxAbs
        } else if codes_eq(&n, &norm_codes("min")) {
            TblisReduceOp::Min
        } else if codes_eq(&n, &norm_codes("minabs")) {
            TblisReduceOp::MinAbs
        } else if codes_eq(&n, &norm_codes("norm2")) {
            TblisReduceOp::Norm2
        } else if codes_eq(&n, &norm_codes("norm1")) {
            TblisReduceOp::SumAbs
        } else if codes_eq(&n, &norm_codes("norminf")) {
            TblisReduceOp::MaxAbs
        } else {
            proof {
                assert(false);
            }
            TblisReduceOp::Sum
        }
    }
}

/// Check the validity of subscripts and shapes, and return the size
/// dictionary as `(label, size)` pairs in first-occurrence order.
pub fn check_size_dict(subscripts: &Vec<&str>, shapes: &Vec<Vec<isize>>) -> (r: Result<
    Vec<(char, isize)>,
    TblisError,
>)
    ensures
        r is Ok <==> sd_ok(strs_views(subscripts@), shape_views(shapes@)),
        r matches Ok(m) ==> keys_of(m@) == dedup_all(strs_views(subscripts@)),
        r matches Ok(m) ==> forall|i: int|
            0 <= i < m@.len() ==> #[trigger] m@[i].1 as int == label_size(
                strs_views(subscripts@),
                shape_views(shapes@),
                m@[i].0,
            ),
        r matches Err(e) ==> (e == TblisError::CountMismatch || e == TblisError::RankMismatch || e
            == TblisError::NegativeDim || e == TblisError::SizeConflict),
        r == Err::<Vec<(char, isize)>, TblisError>(TblisError::CountMismatch) <==> subscripts@.len()
            != shapes@.len(),
{
    let nt = subscripts.len();
    let mut subs: Vec<Vec<char>> = Vec::new();
    let mut t: usize = 0;
    while t < nt
        invariant
            0 <= t <= nt,
            nt == subscripts@.len(),
            subs@.len() == t,
            forall|u: int| 0 <= u < t ==> (#[trigger] subs@[u])@ == subscripts@[u]@,
        decreases nt - t,
    {
        let cs = str_chars(subscripts[t]);
        subs.push(cs);
        t += 1;
    }
    proof {
        assert(char_views(subs@) =~= strs_views(subscripts@));
    }
    size_dict_chars(&subs, shapes)
}


} // verus!

pub use TblisBiCfg as TblisAddCfg;
pub use TblisBiCfg as TblisDotCfg;
pub use TblisTriCfg as TblisMultCfg;
pub use TblisUniCfg as TblisReduceCfg;
pub use TblisUniCfg as TblisScaleCfg;
pub use TblisUniCfg as TblisShiftCfg;
pub use TblisZeroCfg as TblisSetCfg;
