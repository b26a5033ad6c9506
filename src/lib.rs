pub mod device;
pub mod error;
pub mod input;
pub mod number;
pub mod range;
pub mod slight;
