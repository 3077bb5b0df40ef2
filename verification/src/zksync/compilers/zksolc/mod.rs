//! What `zksolc` is given.
pub mod input;
pub mod laws;
pub mod settings;
