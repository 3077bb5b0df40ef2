//! Values that are told to hold the same do.
use crate::compilers::solc::Solc;
use crate::compilers::zksolc::Install;
use crate::config::Remapping;
use crate::error::SolcError;
use crate::process::Command;
use crate::text;
use vstd::prelude::*;

verus! {

/// Whether two lists have the same texts.
pub open spec fn same_texts(a: Seq<String>, b: Seq<String>) -> bool {
    &&& a.len() == b.len()
    &&& forall|i: int| 0 <= i < a.len() ==> (#[trigger] a[i])@ == b[i]@
}

proof fn lemma_same_texts(a: Seq<String>, b: Seq<String>)
    requires
        text::texts(a) == text::texts(b),
    ensures
        same_texts(a, b),
{
    let (x, y) = (text::texts(a), text::texts(b));
    assert(x.len() == a.len() && y.len() == b.len());
    assert forall|i: int| 0 <= i < a.len() implies (#[trigger] a[i])@ == b[i]@ by {
        assert(x[i] == a[i]@ && y[i] == b[i]@);
    }
}

/// Commands that are told to hold the same have the same program, arguments and directory.
pub proof fn law_views_tell_commands_apart(a: Command, b: Command)
    requires
        a@ == b@,
    ensures
        a.program@ == b.program@,
        same_texts(a.args@, b.args@),
        a.current_dir is Some <==> b.current_dir is Some,
        a.current_dir is Some ==> a.current_dir->0@ == b.current_dir->0@,
{
    lemma_same_texts(a.args@, b.args@);
}

/// Errors that are told to hold the same are of the same kind and say the same.
pub proof fn law_views_tell_errors_apart(a: SolcError, b: SolcError)
    requires
        a@ == b@,
    ensures
        match (a, b) {
            (SolcError::SolcOutput(x), SolcError::SolcOutput(y)) => x.success == y.success
                && x.stdout@ == y.stdout@ && x.stderr@ == y.stderr@,
            (SolcError::InvalidUtf8, SolcError::InvalidUtf8) => true,
            (SolcError::Semver(x), SolcError::Semver(y)) => x@ == y@,
            (
                SolcError::Io { message: m, path: p },
                SolcError::Io { message: n, path: q },
            ) => m@ == n@ && p@ == q@,
            (SolcError::Serde(x), SolcError::Serde(y)) => x@ == y@,
            (SolcError::Message(x), SolcError::Message(y)) => x@ == y@,
            _ => false,
        },
{
}

/// Compilers that are told to hold the same do.
pub proof fn law_views_tell_solcs_apart(a: Solc, b: Solc)
    requires
        a@ == b@,
    ensures
        a.solc@ == b.solc@,
        a.version@ == b.version@,
        a.base_path is Some <==> b.base_path is Some,
        a.base_path is Some ==> a.base_path->0@ == b.base_path->0@,
        a.allow_paths@ == b.allow_paths@,
        a.include_paths@ == b.include_paths@,
        same_texts(a.args@, b.args@),
{
    lemma_same_texts(a.args@, b.args@);
}

/// Installations that are told to hold the same do.
pub proof fn law_views_tell_installs_apart(a: Install, b: Install)
    requires
        a@ == b@,
    ensures
        a.compilers_dir@ == b.compilers_dir@,
        a.compiler_path@ == b.compiler_path@,
        a.lock_path@ == b.lock_path@,
        a.download_url@ == b.download_url@,
        a.label@ == b.label@,
{
}

/// Remappings that are told to hold the same do.
pub proof fn law_views_tell_remappings_apart(a: Remapping, b: Remapping)
    requires
        a@ == b@,
    ensures
        a.context is Some <==> b.context is Some,
        a.context is Some ==> a.context->0@ == b.context->0@,
        a.name@ == b.name@,
        a.path@ == b.path@,
{
}

} // verus!
