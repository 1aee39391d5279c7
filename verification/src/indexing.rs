//! Multi-index arithmetic for strided tensors.
//!
//! An operation's index space is the cartesian product of the sizes of its
//! distinct labels (`dims`).  A linear counter `k` walks that space in
//! row-major order; `coord_at` decodes one coordinate out of `k` with the
//! suffix-product weights, and `toff` turns the coordinates that belong to
//! one tensor's axes into that tensor's element offset.

use vstd::prelude::*;

verus! {

/// Product of `dims[j..]`.
pub open spec fn prod_from(dims: Seq<usize>, j: int) -> int
    decreases dims.len() - j,
{
    if j < 0 || j >= dims.len() {
        1
    } else {
        dims[j] * prod_from(dims, j + 1)
    }
}

/// Every dimension is at least one.
pub open spec fn all_pos(dims: Seq<usize>) -> bool {
    forall|i: int| 0 <= i < dims.len() ==> #[trigger] dims[i] >= 1
}

/// Coordinate of the linear counter `k` on the axis with weight `w` and size `d`.
pub open spec fn coord_at(k: int, w: int, d: int) -> int {
    (k / w) % d
}

/// Partial element offset of a tensor over its first `j` axes: axis `i` of the
/// tensor is the label `pos[i]` of the operation, so its coordinate is decoded
/// with that label's suffix-product weight and size, and scaled by the
/// tensor's stride.
pub open spec fn offset_upto(k: int, pos: Seq<usize>, stride: Seq<usize>, dims: Seq<usize>, j: int) -> int
    decreases j,
{
    if j <= 0 {
        0
    } else {
        offset_upto(k, pos, stride, dims, j - 1) + coord_at(
            k,
            prod_from(dims, pos[j - 1] as int + 1),
            dims[pos[j - 1] as int] as int,
        ) * stride[j - 1]
    }
}

/// Element offset of a tensor for the linear counter `k`.
pub open spec fn toff(k: int, pos: Seq<usize>, stride: Seq<usize>, dims: Seq<usize>) -> int {
    offset_upto(k, pos, stride, dims, pos.len() as int)
}

/// Largest partial offset over the first `j` axes.
pub open spec fn maxoff_upto(pos: Seq<usize>, stride: Seq<usize>, dims: Seq<usize>, j: int) -> int
    decreases j,
{
    if j <= 0 {
        0
    } else {
        maxoff_upto(pos, stride, dims, j - 1) + (dims[pos[j - 1] as int] - 1) * stride[j - 1]
    }
}

/// Largest element offset a tensor can reach within the index space.
pub open spec fn maxoff(pos: Seq<usize>, stride: Seq<usize>, dims: Seq<usize>) -> int {
    maxoff_upto(pos, stride, dims, pos.len() as int)
}

/// The axis map of one tensor is well-formed for the label space `dims`.
pub open spec fn axes_wf(pos: Seq<usize>, stride: Seq<usize>, dims: Seq<usize>) -> bool {
    &&& pos.len() == stride.len()
    &&& forall|i: int| 0 <= i < pos.len() ==> #[trigger] pos[i] < dims.len()
}

/// The weights are the suffix products of `dims`.
pub open spec fn weights_ok(wts: Seq<usize>, dims: Seq<usize>) -> bool {
    &&& wts.len() == dims.len()
    &&& forall|j: int| 0 <= j < dims.len() ==> #[trigger] wts[j] as int == prod_from(dims, j + 1)
}

pub proof fn lemma_prod_from_pos(dims: Seq<usize>, j: int)
    requires
        all_pos(dims),
    ensures
        prod_from(dims, j) >= 1,
    decreases dims.len() - j,
{
    if 0 <= j < dims.len() {
        lemma_prod_from_pos(dims, j + 1);
        assert(dims[j] as int * prod_from(dims, j + 1) >= 1) by (nonlinear_arith)
            requires
                dims[j] >= 1,
                prod_from(dims, j + 1) >= 1,
        ;
    }
}

pub proof fn lemma_prod_from_mono(dims: Seq<usize>, i: int, j: int)
    requires
        all_pos(dims),
        0 <= i <= j,
    ensures
        prod_from(dims, i) >= prod_from(dims, j),
    decreases j - i,
{
    if i < j {
        lemma_prod_from_mono(dims, i + 1, j);
        if i < dims.len() {
            lemma_prod_from_pos(dims, i + 1);
            assert(dims[i] as int * prod_from(dims, i + 1) >= prod_from(dims, i + 1)) by (nonlinear_arith)
                requires
                    dims[i] >= 1,
                    prod_from(dims, i + 1) >= 1,
            ;
        }
    }
}

pub proof fn lemma_prod_zero(dims: Seq<usize>, i: int, j: int)
    requires
        0 <= j <= i < dims.len(),
        dims[i] == 0,
    ensures
        prod_from(dims, j) == 0,
    decreases i - j,
{
    if j < i {
        lemma_prod_zero(dims, i, j + 1);
        assert(dims[j] as int * prod_from(dims, j + 1) == 0) by (nonlinear_arith)
            requires
                prod_from(dims, j + 1) == 0,
        ;
    } else {
        assert(dims[j] as int * prod_from(dims, j + 1) == 0) by (nonlinear_arith)
            requires
                dims[j] as int == 0,
        ;
    }
}

pub proof fn lemma_coord_at_bounds(k: int, w: int, d: int)
    requires
        0 <= k,
        1 <= w,
        1 <= d,
    ensures
        0 <= coord_at(k, w, d) < d,
{
    assert(0 <= k / w) by (nonlinear_arith)
        requires
            0 <= k,
            1 <= w,
    ;
    assert(0 <= (k / w) % d < d) by (nonlinear_arith)
        requires
            1 <= d,
    ;
}

/// Partial offsets stay between zero and the partial maximum.
pub proof fn lemma_offset_le_maxoff(k: int, pos: Seq<usize>, stride: Seq<usize>, dims: Seq<usize>, j: int)
    requires
        0 <= k,
        axes_wf(pos, stride, dims),
        all_pos(dims),
        j <= pos.len(),
    ensures
        0 <= offset_upto(k, pos, stride, dims, j) <= maxoff_upto(pos, stride, dims, j),
    decreases j,
{
    if j > 0 {
        lemma_offset_le_maxoff(k, pos, stride, dims, j - 1);
        let p = pos[j - 1] as int;
        let d = dims[p] as int;
        let w = prod_from(dims, p + 1);
        let s = stride[j - 1] as int;
        lemma_prod_from_pos(dims, p + 1);
        lemma_coord_at_bounds(k, w, d);
        assert(0 <= coord_at(k, w, d) * s <= (d - 1) * s) by (nonlinear_arith)
            requires
                0 <= coord_at(k, w, d) <= d - 1,
                0 <= s,
        ;
    }
}

/// The partial maxima grow with `j`.
pub proof fn lemma_maxoff_mono(pos: Seq<usize>, stride: Seq<usize>, dims: Seq<usize>, i: int, j: int)
    requires
        axes_wf(pos, stride, dims),
        all_pos(dims),
        i <= j <= pos.len(),
    ensures
        maxoff_upto(pos, stride, dims, i) <= maxoff_upto(pos, stride, dims, j),
    decreases j - i,
{
    if i < j {
        lemma_maxoff_mono(pos, stride, dims, i, j - 1);
        if 0 < j {
            let p = pos[j - 1] as int;
            assert((dims[p] - 1) * stride[j - 1] >= 0) by (nonlinear_arith)
                requires
                    dims[p] >= 1,
                    stride[j - 1] >= 0,
            ;
        }
    }
}

/// Bridges an operation-level maximum offset to the tensor's own one, when
/// each axis of the tensor carries exactly the size of its label.
pub proof fn lemma_maxoff_bridge(
    pos: Seq<usize>,
    stride_u: Seq<usize>,
    dims: Seq<usize>,
    shape: Seq<isize>,
    stride: Seq<isize>,
    j: int,
)
    requires
        pos.len() == stride_u.len() == shape.len() == stride.len(),
        forall|i: int| 0 <= i < pos.len() ==> #[trigger] pos[i] < dims.len(),
        forall|i: int| 0 <= i < pos.len() ==> #[trigger] dims[pos[i] as int] as int == shape[i] as int,
        forall|i: int| 0 <= i < pos.len() ==> #[trigger] stride_u[i] as int == stride[i] as int,
        j <= pos.len(),
    ensures
        maxoff_upto(pos, stride_u, dims, j) == own_maxoff_upto(shape, stride, j),
    decreases j,
{
    if j > 0 {
        lemma_maxoff_bridge(pos, stride_u, dims, shape, stride, j - 1);
    }
}

/// Largest element offset of a tensor over its own first `j` axes.
pub open spec fn own_maxoff_upto(shape: Seq<isize>, stride: Seq<isize>, j: int) -> int
    decreases j,
{
    if j <= 0 {
        0
    } else {
        own_maxoff_upto(shape, stride, j - 1) + (shape[j - 1] - 1) * stride[j - 1]
    }
}

/// Largest element offset a tensor can address.
pub open spec fn own_maxoff(shape: Seq<isize>, stride: Seq<isize>) -> int {
    own_maxoff_upto(shape, stride, shape.len() as int)
}

/// Product of `shape[j..]` for a signed shape.
pub open spec fn prod_isize_from(shape: Seq<isize>, j: int) -> int
    decreases shape.len() - j,
{
    if j < 0 || j >= shape.len() {
        1
    } else {
        shape[j] * prod_isize_from(shape, j + 1)
    }
}

/// Number of elements a shape describes.
pub open spec fn tensor_size(shape: Seq<isize>) -> int {
    prod_isize_from(shape, 0)
}

/// Every dimension of a signed shape is non-negative.
pub open spec fn shape_nonneg(shape: Seq<isize>) -> bool {
    forall|i: int| 0 <= i < shape.len() ==> #[trigger] shape[i] >= 0
}

/// Every dimension of a signed shape is at least one.
pub open spec fn shape_pos(shape: Seq<isize>) -> bool {
    forall|i: int| 0 <= i < shape.len() ==> #[trigger] shape[i] >= 1
}

pub proof fn lemma_prod_isize_nonneg(shape: Seq<isize>, j: int)
    requires
        shape_nonneg(shape),
    ensures
        prod_isize_from(shape, j) >= 0,
    decreases shape.len() - j,
{
    if 0 <= j < shape.len() {
        lemma_prod_isize_nonneg(shape, j + 1);
        assert(shape[j] as int * prod_isize_from(shape, j + 1) >= 0) by (nonlinear_arith)
            requires
                shape[j] >= 0,
                prod_isize_from(shape, j + 1) >= 0,
        ;
    }
}

pub proof fn lemma_prod_isize_pos(shape: Seq<isize>, j: int)
    requires
        shape_pos(shape),
    ensures
        prod_isize_from(shape, j) >= 1,
    decreases shape.len() - j,
{
    if 0 <= j < shape.len() {
        lemma_prod_isize_pos(shape, j + 1);
        assert(shape[j] as int * prod_isize_from(shape, j + 1) >= 1) by (nonlinear_arith)
            requires
                shape[j] >= 1,
                prod_isize_from(shape, j + 1) >= 1,
        ;
    }
}

/// A non-negative shape describes exactly one element iff every dimension is one.
pub proof fn lemma_prod_isize_one_iff(shape: Seq<isize>, j: int)
    requires
        shape_nonneg(shape),
        0 <= j <= shape.len(),
    ensures
        (prod_isize_from(shape, j) == 1) <==> (forall|i: int| j <= i < shape.len() ==> #[trigger] shape[i] == 1),
    decreases shape.len() - j,
{
    if j < shape.len() {
        lemma_prod_isize_one_iff(shape, j + 1);
        lemma_prod_isize_nonneg(shape, j + 1);
        assert((shape[j] as int * prod_isize_from(shape, j + 1) == 1) <==> (shape[j] == 1
            && prod_isize_from(shape, j + 1) == 1)) by (nonlinear_arith)
            requires
                shape[j] >= 0,
                prod_isize_from(shape, j + 1) >= 0,
        ;
    }
}

/// Suffix products of positive dimensions are positive.
pub proof fn lemma_weights_pos(wts: Seq<usize>, dims: Seq<usize>)
    requires
        weights_ok(wts, dims),
        all_pos(dims),
    ensures
        forall|i: int| 0 <= i < wts.len() ==> #[trigger] wts[i] >= 1,
{
    assert forall|i: int| 0 <= i < wts.len() implies #[trigger] wts[i] >= 1 by {
        lemma_prod_from_pos(dims, i + 1);
    }
}

/// Compute the number of points in the label space, or report that it
/// exceeds the machine's addressable range.
pub fn checked_total(dims: &Vec<usize>) -> (r: Option<usize>)
    ensures
        r matches Some(t) ==> t as int == prod_from(dims@, 0),
        r is None ==> all_pos(dims@) && prod_from(dims@, 0) > usize::MAX,
{
    let n = dims.len();
    let mut i: usize = 0;
    while i < n
        invariant
            0 <= i <= n,
            n == dims@.len(),
            forall|m: int| 0 <= m < i ==> #[trigger] dims@[m] >= 1,
        decreases n - i,
    {
        if dims[i] == 0 {
            proof {
                lemma_prod_zero(dims@, i as int, 0);
            }
            return Some(0);
        }
        i += 1;
    }
    let mut total: usize = 1;
    let mut j: usize = n;
    while j > 0
        invariant
            0 <= j <= n,
            n == dims@.len(),
            all_pos(dims@),
            total as int == prod_from(dims@, j as int),
        decreases j,
    {
        j -= 1;
        match dims[j].checked_mul(total) {
            Some(t) => {
                total = t;
            },
            None => {
                proof {
                    lemma_prod_from_mono(dims@, 0, j as int);
                }
                return None;
            },
        }
    }
    Some(total)
}

/// Suffix-product weights of a label space that fits the machine.
pub fn build_weights(dims: &Vec<usize>) -> (w: Vec<usize>)
    requires
        all_pos(dims@),
        prod_from(dims@, 0) <= usize::MAX,
    ensures
        weights_ok(w@, dims@),
{
    let n = dims.len();
    let mut w: Vec<usize> = Vec::new();
    let mut i: usize = 0;
    while i < n
        invariant
            0 <= i <= n,
            w@.len() == i,
            forall|m: int| 0 <= m < i ==> #[trigger] w@[m] == 1,
        decreases n - i,
    {
        w.push(1);
        i += 1;
    }
    if n == 0 {
        return w;
    }
    let mut j: usize = n - 1;
    while j > 0
        invariant
            0 <= j <= n - 1,
            n == dims@.len(),
            w@.len() == n,
            all_pos(dims@),
            prod_from(dims@, 0) <= usize::MAX,
            forall|m: int| j <= m < n ==> #[trigger] w@[m] as int == prod_from(dims@, m + 1),
        decreases j,
    {
        j -= 1;
        proof {
            lemma_prod_from_mono(dims@, 0, j as int + 1);
        }
        let v = dims[j + 1] * w[j + 1];
        w.set(j, v);
    }
    w
}

/// Element offset of one tensor for the linear counter `k`.
pub fn offset_of(k: usize, pos: &Vec<usize>, stride: &Vec<usize>, dims: &Vec<usize>, wts: &Vec<usize>) -> (o:
    usize)
    requires
        axes_wf(pos@, stride@, dims@),
        all_pos(dims@),
        weights_ok(wts@, dims@),
        maxoff(pos@, stride@, dims@) <= usize::MAX,
    ensures
        o as int == toff(k as int, pos@, stride@, dims@),
{
    proof {
        lemma_weights_pos(wts@, dims@);
    }
    let n = pos.len();
    let mut o: usize = 0;
    let mut j: usize = 0;
    while j < n
        invariant
            0 <= j <= n,
            n == pos@.len(),
            axes_wf(pos@, stride@, dims@),
            all_pos(dims@),
            weights_ok(wts@, dims@),
            forall|i: int| 0 <= i < wts@.len() ==> #[trigger] wts@[i] >= 1,
            maxoff(pos@, stride@, dims@) <= usize::MAX,
            o as int == offset_upto(k as int, pos@, stride@, dims@, j as int),
        decreases n - j,
    {
        proof {
            lemma_offset_le_maxoff(k as int, pos@, stride@, dims@, j as int + 1);
            lemma_maxoff_mono(pos@, stride@, dims@, j as int + 1, pos@.len() as int);
        }
        let p = pos[j];
        let c = (k / wts[p]) % dims[p];
        o = o + c * stride[j];
        j += 1;
    }
    o
}

/// Product of `shape[..j]` for a signed shape.
pub open spec fn prod_isize_to(shape: Seq<isize>, j: int) -> int
    decreases j,
{
    if j <= 0 {
        1
    } else {
        prod_isize_to(shape, j - 1) * shape[j - 1]
    }
}

/// The prefix product over the whole shape equals the suffix product.
pub proof fn lemma_prod_isize_split(shape: Seq<isize>, j: int)
    requires
        0 <= j <= shape.len(),
    ensures
        prod_isize_to(shape, j) * prod_isize_from(shape, j) == prod_isize_from(shape, 0),
    decreases j,
{
    if j == 0 {
        assert(prod_isize_to(shape, 0) * prod_isize_from(shape, 0) == prod_isize_from(shape, 0))
            by (nonlinear_arith)
            requires
                prod_isize_to(shape, 0) == 1,
        ;
    } else {
        lemma_prod_isize_split(shape, j - 1);
        assert((prod_isize_to(shape, j - 1) * shape[j - 1]) * prod_isize_from(shape, j)
            == prod_isize_to(shape, j - 1) * (shape[j - 1] * prod_isize_from(shape, j)))
            by (nonlinear_arith);
    }
}

/// With row-major contiguous strides, the largest offset is the element
/// count minus one.
pub proof fn lemma_contig_rm(shape: Seq<isize>, stride: Seq<isize>, j: int)
    requires
        shape.len() == stride.len(),
        0 <= j <= shape.len(),
        forall|i: int| 0 <= i < shape.len() ==> #[trigger] stride[i] as int == prod_isize_from(
            shape,
            i + 1,
        ),
    ensures
        own_maxoff_upto(shape, stride, j) == prod_isize_from(shape, 0) - prod_isize_from(shape, j),
    decreases j,
{
    if j > 0 {
        lemma_contig_rm(shape, stride, j - 1);
        assert((shape[j - 1] - 1) * stride[j - 1] == shape[j - 1] * prod_isize_from(shape, j)
            - prod_isize_from(shape, j)) by (nonlinear_arith)
            requires
                stride[j - 1] as int == prod_isize_from(shape, j),
        ;
        assert(prod_isize_from(shape, j - 1) == shape[j - 1] * prod_isize_from(shape, j));
    }
}

/// With col-major contiguous strides, the largest offset is the element
/// count minus one.
pub proof fn lemma_contig_cm(shape: Seq<isize>, stride: Seq<isize>, j: int)
    requires
        shape.len() == stride.len(),
        0 <= j <= shape.len(),
        forall|i: int| 0 <= i < shape.len() ==> #[trigger] stride[i] as int == prod_isize_to(
            shape,
            i,
        ),
    ensures
        own_maxoff_upto(shape, stride, j) == prod_isize_to(shape, j) - 1,
    decreases j,
{
    if j > 0 {
        lemma_contig_cm(shape, stride, j - 1);
        assert((shape[j - 1] - 1) * stride[j - 1] == shape[j - 1] * prod_isize_to(shape, j - 1)
            - prod_isize_to(shape, j - 1)) by (nonlinear_arith)
            requires
                stride[j - 1] as int == prod_isize_to(shape, j - 1),
        ;
        assert(prod_isize_to(shape, j) == prod_isize_to(shape, j - 1) * shape[j - 1]);
        assert(prod_isize_to(shape, j - 1) * shape[j - 1] == shape[j - 1] * prod_isize_to(
            shape,
            j - 1,
        )) by (nonlinear_arith);
    }
}

/// Equal dimension values give equal products.
pub proof fn lemma_prod_eq_isize(us: Seq<usize>, sh: Seq<isize>, j: int)
    requires
        us.len() == sh.len(),
        forall|i: int| 0 <= i < us.len() ==> #[trigger] us[i] as int == sh[i] as int,
    ensures
        prod_from(us, j) == prod_isize_from(sh, j),
    decreases us.len() - j,
{
    if 0 <= j < us.len() {
        lemma_prod_eq_isize(us, sh, j + 1);
    }
}

/// Over an all-one shape no element offset leaves position zero.
pub proof fn lemma_own_maxoff_all_one(shape: Seq<isize>, stride: Seq<isize>, j: int)
    requires
        forall|i: int| 0 <= i < shape.len() ==> #[trigger] shape[i] == 1,
        j <= shape.len(),
    ensures
        own_maxoff_upto(shape, stride, j) == 0,
    decreases j,
{
    if j > 0 {
        lemma_own_maxoff_all_one(shape, stride, j - 1);
        assert((shape[j - 1] - 1) * stride[j - 1] == 0) by (nonlinear_arith)
            requires
                shape[j - 1] == 1,
        ;
    }
}

} // verus!
