//! What can go wrong.
use crate::process::Output;
use vstd::prelude::*;

verus! {

/// Why something could not be done.
#[derive(Debug)]
pub enum SolcError {
    /// A compiler failed with this output
    SolcOutput(Output),
    /// The output of a compiler is no UTF-8
    InvalidUtf8,
    /// A text is no version, for this reason
    Semver(String),
    /// A file could not be used
    Io { message: String, path: String },
    /// A JSON text could not be read or written
    Serde(String),
    /// Anything else
    Message(String),
}

/// What a [`SolcError`] holds.
#[verifier::ext_equal]
pub enum SolcErrorView {
    SolcOutput { success: bool, stdout: Seq<u8>, stderr: Seq<u8> },
    InvalidUtf8,
    Semver(Seq<char>),
    Io { message: Seq<char>, path: Seq<char> },
    Serde(Seq<char>),
    Message(Seq<char>),
}

impl View for SolcError {
    type V = SolcErrorView;

    open spec fn view(&self) -> SolcErrorView {
        match self {
            SolcError::SolcOutput(output) => SolcErrorView::SolcOutput {
                success: output.success,
                stdout: output.stdout@,
                stderr: output.stderr@,
            },
            SolcError::InvalidUtf8 => SolcErrorView::InvalidUtf8,
            SolcError::Semver(message) => SolcErrorView::Semver(message@),
            SolcError::Io { message, path } => SolcErrorView::Io {
                message: message@,
                path: path@,
            },
            SolcError::Serde(message) => SolcErrorView::Serde(message@),
            SolcError::Message(message) => SolcErrorView::Message(message@),
        }
    }
}

impl SolcError {
    /// An error with a message
    pub fn msg(message: &str) -> (res: Self)
        ensures
            res@ == SolcErrorView::Message(message@),
    {
        SolcError::Message(message.to_string())
    }

    /// The error of a file operation
    pub fn io(message: &str, path: &str) -> (res: Self)
        ensures
            res@ == (SolcErrorView::Io { message: message@, path: path@ }),
    {
        SolcError::Io { message: message.to_string(), path: path.to_string() }
    }
}

} // verus!
