//! Einstein-summation scheduling and execution over strided integer tensors.
//!
//! The crate turns a symbolic einsum expression plus a contraction order
//! (chosen by the external path optimizer `opt_einsum_path`) into a sequence
//! of verified pairwise / unary tensor operations, manages the working set of
//! live tensors, and resolves the cases the pairwise primitive cannot express
//! directly (traces, scalar operands, pre-allocated output buffers).
//!
//! Elements are `i64` values combined with wrapping arithmetic, which keeps
//! the ring laws (associativity, commutativity, distributivity) exact.

use vstd::prelude::*;

pub mod char_parse;
pub mod containers;
pub mod einsum_impl;
pub mod indexing;
pub mod labels;
pub mod tensor_ops;

pub use containers::TblisTensor;
pub use einsum_impl::TblisContractStep;
pub use einsum_impl::TblisMemLimit;
pub use einsum_impl::tblis_einsum_f;
pub use einsum_impl::tblis_einsum_prep_f;
pub use einsum_impl::tblis_einsum_run;
pub use einsum_impl::validate_plan;
pub use tensor_ops::TblisBiCfg;
pub use tensor_ops::TblisReduceOp;
pub use tensor_ops::TblisTriCfg;
pub use tensor_ops::TblisUniCfg;
pub use tensor_ops::TblisZeroCfg;
pub use tensor_ops::check_size_dict;
pub use tensor_ops::tblis_tensor_add;
pub use tensor_ops::tblis_tensor_add_f;
pub use tensor_ops::tblis_tensor_dot;
pub use tensor_ops::tblis_tensor_dot_f;
pub use tensor_ops::tblis_tensor_mult;
pub use tensor_ops::tblis_tensor_mult_f;
pub use tensor_ops::tblis_tensor_reduce;
pub use tensor_ops::tblis_tensor_reduce_f;
pub use tensor_ops::tblis_tensor_scale;
pub use tensor_ops::tblis_tensor_scale_f;
pub use tensor_ops::tblis_tensor_set;
pub use tensor_ops::tblis_tensor_set_f;
pub use tensor_ops::tblis_tensor_shift;
pub use tensor_ops::tblis_tensor_shift_f;
pub use char_parse::char_parse;

verus! {

/// Errors surfaced by the tensor operations and the einsum executor.
#[derive(Debug, Clone, PartialEq, Eq)]
pub enum TblisError {
    /// The number of subscripts does not match the number of shapes.
    CountMismatch,
    /// A subscript's length does not match its tensor's dimensionality.
    RankMismatch,
    /// A dimension size is negative.
    NegativeDim,
    /// A repeated index label carries inconsistent dimension sizes.
    SizeConflict,
    /// An operand owns index labels that the operation cannot eliminate.
    UniqueIndex,
    /// More distinct labels than the primitive-layer alphabet supports.
    TooManyLabels,
    /// The combined index space exceeds what this machine can address.
    TooLarge,
    /// The tensor does not hold exactly one element.
    NotScalar,
    /// The reduction operation is not available over integer elements.
    UnsupportedReduceOp,
    /// The path optimizer rejected the expression; carries its message.
    PathOptimizer(String),
    /// A contraction step involves more than two tensors.
    UnsupportedStep,
    /// A contraction step's label term could not be understood.
    MalformedStep,
    /// The plan references working-set positions that are not present, or
    /// does not collapse the working set to exactly one tensor.
    InvalidPlan,
    /// The caller-supplied output buffer does not match the result shape.
    OutputShapeMismatch,
    /// The plan finished without producing a tensor this crate owns.
    NoOwnedResult,
    /// Einsum subscripts this crate does not accept: ellipses, or a comma
    /// after the `->` separator.
    UnsupportedSubscript,
    /// The optimization strategy token is not recognized.
    UnknownStrategy,
}

} // verus!
