//! Finding, installing and running compilers.
pub mod solc;
pub mod zksolc;
