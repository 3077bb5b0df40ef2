//! What compilers are given.
pub mod zksolc;
