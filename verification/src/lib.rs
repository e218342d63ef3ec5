//! Strided multidimensional arrays with verified shape bookkeeping, host
//! matrix multiplication, and launch planning for a device backend.

pub mod device;
pub mod error;
pub mod layout;
pub mod ops;
pub mod reduce;
pub mod tensor;
