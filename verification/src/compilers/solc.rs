//! The `solc` compiler.
use crate::maps::PathSet;
use crate::text;
use crate::version::{Version, VersionView};
use vstd::prelude::*;

verus! {

/// Abstraction over `solc` command line utility
pub struct Solc {
    /// Path to the `solc` executable
    pub solc: String,
    pub version: Version,
    /// Value for --base path
    pub base_path: Option<String>,
    /// Value for --allow-paths arg
    pub allow_paths: PathSet,
    /// Value for --include-paths arg
    pub include_paths: PathSet,
    /// Additional arguments passed to the `solc` executable
    pub args: Vec<String>,
}

/// What a [`Solc`] holds.
#[verifier::ext_equal]
pub struct SolcView {
    pub solc: Seq<char>,
    pub version: VersionView,
    pub base_path: Option<Seq<char>>,
    pub allow_paths: Seq<(Seq<char>, ())>,
    pub include_paths: Seq<(Seq<char>, ())>,
    pub args: Seq<Seq<char>>,
}

impl View for Solc {
    type V = SolcView;

    open spec fn view(&self) -> SolcView {
        SolcView {
            solc: self.solc@,
            version: self.version@,
            base_path: text::opt_text(self.base_path),
            allow_paths: self.allow_paths@,
            include_paths: self.include_paths@,
            args: text::texts(self.args@),
        }
    }
}

/// Copies a set of paths.
pub fn copy_paths(paths: &PathSet) -> (res: PathSet)
    ensures
        res@ == paths@,
{
    let res = paths.clone();
    assert(res@ =~= paths@);
    res
}

impl Clone for Solc {
    fn clone(&self) -> (res: Self)
        ensures
            res@ == self@,
    {
        let args = text::copy_from(&self.args, 0);
        assert(text::texts(self.args@).skip(0) =~= text::texts(self.args@));
        Solc {
            solc: self.solc.clone(),
            version: self.version.clone(),
            base_path: text::copy_option(&self.base_path),
            allow_paths: copy_paths(&self.allow_paths),
            include_paths: copy_paths(&self.include_paths),
            args,
        }
    }
}

impl Solc {
    /// Sets solc's base path
    pub fn with_base_path(self, base_path: String) -> (res: Self)
        ensures
            res == (Solc { base_path: Some(base_path), ..self }),
    {
        let mut res = self;
        res.base_path = Some(base_path);
        res
    }

    /// Sets the paths that solc may read files from
    pub fn with_allowed_paths(self, allow_paths: PathSet) -> (res: Self)
        ensures
            res == (Solc { allow_paths, ..self }),
    {
        let mut res = self;
        res.allow_paths = allow_paths;
        res
    }

    /// Sets the paths that solc looks for imports in
    pub fn with_include_paths(self, include_paths: PathSet) -> (res: Self)
        ensures
            res == (Solc { include_paths, ..self }),
    {
        let mut res = self;
        res.include_paths = include_paths;
        res
    }
}

/// Which `solc` to use.
pub enum SolcCompiler {
    /// One for all files
    Specific(Solc),
    /// For each file one that its version requirement allows
    AutoDetect,
}

} // verus!
