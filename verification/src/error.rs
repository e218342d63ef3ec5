//! The error kinds that tensor operations report.

use vstd::prelude::*;

verus! {

/// Why a tensor operation was refused.
#[derive(Debug, Clone, PartialEq)]
pub enum TensorError {
    /// A rank or an element count does not agree with the tensor.
    ShapeMismatch,
    /// A coordinate tuple has the wrong length or leaves the buffer.
    IndexOutOfBounds,
    /// The operation is not available for the element type.
    NotImplemented,
    /// Two lengths that must agree differ.
    DimensionalMismatch,
    /// An axis order does not name every axis exactly once.
    InvalidPermutation,
    /// Two shapes cannot be broadcast together.
    BroadcastError,
    /// The operands live in different kinds of storage.
    MixedStorage,
    /// The operands have element types that cannot be combined.
    IncompatibleTypes(&'static str),
    /// A tensor could not be written out.
    SerializationError,
    /// A tensor could not be read back.
    DeserializationError,
    /// A reduction axis is not an axis of the tensor.
    InvalidAxis,
}

impl TensorError {
    /// The text that describes each error kind.
    pub open spec fn message_text(self) -> Seq<char> {
        match self {
            TensorError::ShapeMismatch => "Tensor shapes do not match"@,
            TensorError::IndexOutOfBounds => "Index is out of bounds"@,
            TensorError::NotImplemented => "T not implemented"@,
            TensorError::InvalidPermutation => "Invalid permutation"@,
            TensorError::DimensionalMismatch => "Dimensions do not match"@,
            TensorError::MixedStorage => ""@,
            TensorError::IncompatibleTypes(_) => ""@,
            TensorError::BroadcastError => ""@,
            TensorError::DeserializationError => "Deserialization error"@,
            TensorError::SerializationError => "Serialization error"@,
            TensorError::InvalidAxis => "Invalid axis"@,
        }
    }

    /// A human-readable description of the error.
    pub fn message(&self) -> (text: String)
        ensures
            text@ == self.message_text(),
    {
        match self {
            TensorError::ShapeMismatch => "Tensor shapes do not match".to_owned(),
            TensorError::IndexOutOfBounds => "Index is out of bounds".to_owned(),
            TensorError::NotImplemented => "T not implemented".to_owned(),
            TensorError::InvalidPermutation => "Invalid permutation".to_owned(),
            TensorError::DimensionalMismatch => "Dimensions do not match".to_owned(),
            TensorError::MixedStorage => "".to_owned(),
            TensorError::IncompatibleTypes(_) => "".to_owned(),
            TensorError::BroadcastError => "".to_owned(),
            TensorError::DeserializationError => "Deserialization error".to_owned(),
            TensorError::SerializationError => "Serialization error".to_owned(),
            TensorError::InvalidAxis => "Invalid axis".to_owned(),
        }
    }
}

} // verus!
