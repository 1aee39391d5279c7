//! Tensor container: shape, stride, scalar multiplier and conjugation flag
//! over an owned buffer of `i64` elements.

use vstd::prelude::*;

use crate::TblisError;
use crate::indexing::lemma_own_maxoff_all_one;
use crate::indexing::lemma_prod_isize_one_iff;
use crate::indexing::own_maxoff;
use crate::indexing::shape_nonneg;
use crate::indexing::shape_pos;
use crate::indexing::tensor_size;
use vstd::wrapping::i64_specs;

verus! {

/// Tensor container for the contraction operations.
///
/// - `data` is the owned element buffer, addressed through `shape` and
///   `stride`.
/// - `shape` is the list of dimension sizes, one per axis.  Dimensions are
///   non-negative; the type stays signed for interface compatibility.
/// - `stride` is the list of element-unit strides, one per axis.  This crate
///   only addresses buffers forward, so well-formed strides are non-negative.
/// - `conj` asks for conjugation during an operation; over real (integer)
///   elements it has no arithmetic effect.
/// - `scalar` is a multiplier consulted when the tensor is read as a scalar
///   value; the pairwise and unary operations take their coefficients from
///   their configuration argument instead.
pub struct TblisTensor {
    pub data: Vec<i64>,
    pub shape: Vec<isize>,
    pub stride: Vec<isize>,
    pub conj: bool,
    pub scalar: i64,
}

/// Ghost model of a tensor: its contents, geometry and flags as
/// mathematical values.  The contracts of the operations and of the einsum
/// executor are stated over these models.
pub struct TensorModel {
    pub data: Seq<i64>,
    pub shape: Seq<isize>,
    pub stride: Seq<isize>,
    pub conj: bool,
    pub scalar: i64,
}

impl TblisTensor {
    /// The handle addresses only positions inside its buffer: ranks agree,
    /// dimensions and strides are non-negative, and when every dimension is
    /// positive the largest reachable offset stays below the buffer length.
    pub open spec fn wf(&self) -> bool {
        &&& self.shape@.len() == self.stride@.len()
        &&& shape_nonneg(self.shape@)
        &&& forall|i: int| 0 <= i < self.stride@.len() ==> #[trigger] self.stride@[i] >= 0
        &&& (shape_pos(self.shape@) ==> own_maxoff(self.shape@, self.stride@) < self.data@.len())
    }

    /// Number of elements the shape describes.
    pub open spec fn size(&self) -> int {
        tensor_size(self.shape@)
    }

    /// The tensor's ghost model.
    pub open spec fn model(&self) -> TensorModel {
        TensorModel {
            data: self.data@,
            shape: self.shape@,
            stride: self.stride@,
            conj: self.conj,
            scalar: self.scalar,
        }
    }

    /// Create a new tensor from its parts, with `conj = false` and `scalar = 1`.
    pub fn new(data: Vec<i64>, shape: &Vec<isize>, stride: &Vec<isize>) -> (t: TblisTensor)
        requires
            shape@.len() == stride@.len(),
        ensures
            t.data@ == data@,
            t.shape@ == shape@,
            t.stride@ == stride@,
            t.conj == false,
            t.scalar == 1,
    {
        TblisTensor {
            data,
            shape: shape.clone(),
            stride: stride.clone(),
            conj: false,
            scalar: 1,
        }
    }

    /// Set the scalar multiplier consulted when the tensor is read as a scalar.
    pub fn set_scalar(&mut self, scalar: i64)
        ensures
            *final(self) == (TblisTensor { scalar, ..*old(self) }),
    {
        self.scalar = scalar;
    }

    /// Set whether the tensor asks for conjugation.
    pub fn set_conj(&mut self, conj: bool)
        ensures
            *final(self) == (TblisTensor { conj, ..*old(self) }),
    {
        self.conj = conj;
    }

    /// Read the tensor as a scalar value, applying the scalar multiplier.
    /// Conjugation is the identity over integer elements.  Fails unless the
    /// tensor holds exactly one element.
    pub fn to_scalar(&self) -> (r: Result<i64, TblisError>)
        requires
            self.wf(),
        ensures
            r is Ok <==> self.size() == 1,
            r matches Ok(v) ==> v == i64_specs::wrapping_mul(self.data@[0], self.scalar),
            r is Err ==> r == Err::<i64, TblisError>(TblisError::NotScalar),
    {
        proof {
            lemma_prod_isize_one_iff(self.shape@, 0);
        }
        let n = self.shape.len();
        let mut i: usize = 0;
        while i < n
            invariant
                0 <= i <= n,
                n == self.shape@.len(),
                self.wf(),
                forall|j: int| 0 <= j < i ==> #[trigger] self.shape@[j] == 1,
            decreases n - i,
        {
            if self.shape[i] != 1 {
                proof {
                    lemma_prod_isize_one_iff(self.shape@, 0);
                }
                return Err(TblisError::NotScalar);
            }
            i += 1;
        }
        proof {
            lemma_own_maxoff_all_one(self.shape@, self.stride@, self.shape@.len() as int);
            lemma_prod_isize_one_iff(self.shape@, 0);
        }
        Ok(self.data[0].wrapping_mul(self.scalar))
    }
}

impl Clone for TblisTensor {
    /// A clone carries the same contents, geometry and flags.
    fn clone(&self) -> (r: Self)
        ensures
            r.data@ == self.data@,
            r.shape@ == self.shape@,
            r.stride@ == self.stride@,
            r.conj == self.conj,
            r.scalar == self.scalar,
    {
        let data = self.data.clone();
        let shape = self.shape.clone();
        let stride = self.stride.clone();
        proof {
            assert(data@ =~= self.data@);
            assert(shape@ =~= self.shape@);
            assert(stride@ =~= self.stride@);
        }
        TblisTensor { data, shape, stride, conj: self.conj, scalar: self.scalar }
    }
}

} // verus!
