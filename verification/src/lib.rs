//! Compiling Solidity and Yul projects with `zksolc`.
pub mod compilers;
pub mod config;
pub mod error;
pub mod key_laws;
pub mod map_laws;
pub mod maps;
pub mod path;
pub mod path_laws;
pub mod process;
pub mod text;
pub mod text_laws;
pub mod version;
pub mod version_laws;
pub mod view_laws;
pub mod zksync;
