//! What holds of the inputs of `zksolc` and of its settings.
use crate::config::RemappingView;
use crate::key_laws;
use crate::maps::ByPath;
use crate::path;
use crate::zksync::compilers::zksolc::input;
use crate::zksync::compilers::zksolc::input::{Source, ZkSolcInput, ZkSolcInputView};
use crate::zksync::compilers::zksolc::settings;
use crate::zksync::compilers::zksolc::settings::{ZkSolcSettings, ZkSolcSettingsView};
use vstd::prelude::*;
use vstd::string::*;

verus! {

/// Whether settings are the same but for the remappings and the EVM version.
pub open spec fn same_modes(a: ZkSolcSettingsView, b: ZkSolcSettingsView) -> bool {
    &&& a.libraries == b.libraries
    &&& a.system_mode == b.system_mode
    &&& a.force_evmla == b.force_evmla
    &&& a.detect_missing_libraries == b.detect_missing_libraries
    &&& a.solc == b.solc
    &&& a.other == b.other
}

/// Every input has all settings that were given: the libraries, the modes, the path of `solc` and
/// all others. The EVM version is the one that the version of `solc` supports, just where one is
/// set. Only the remappings are missing, in the input for Yul.
pub proof fn law_inputs_keep_settings(
    sources: Seq<(Seq<char>, Source)>,
    given: ZkSolcSettingsView,
    normalized: Option<Seq<char>>,
    k: int,
)
    requires
        0 <= k < input::inputs_for(sources, input::with_evm_version(given, normalized)).len(),
    ensures
        ({
            let made = input::inputs_for(sources, input::with_evm_version(given, normalized))[k];
            &&& made.settings.libraries == given.libraries
            &&& made.settings.system_mode == given.system_mode
            &&& made.settings.force_evmla == given.force_evmla
            &&& made.settings.detect_missing_libraries == given.detect_missing_libraries
            &&& made.settings.solc == given.solc
            &&& made.settings.other == given.other
            &&& given.evm_version is None ==> made.settings.evm_version is None
            &&& given.evm_version is Some ==> made.settings.evm_version == normalized
            &&& made.language == "Solidity"@ ==> made.settings.remappings == given.remappings
            &&& made.language == "Yul"@ ==> made.settings.remappings.len() == 0
        }),
{
    reveal_strlit("Yul");
    reveal_strlit("Solidity");
    assert("Yul"@.len() != "Solidity"@.len());
}

/// An input is one for Solidity or for Yul, the one for Solidity comes first, and it holds only
/// source files that were given, in their order and with their contents.
pub proof fn law_inputs_hold_only_sources(
    sources: Seq<(Seq<char>, Source)>,
    given: ZkSolcSettingsView,
    k: int,
    i: int,
)
    requires
        0 <= k < input::inputs_for(sources, given).len(),
    ensures
        ({
            let made = input::inputs_for(sources, given);
            &&& made[k].language == "Solidity"@ || made[k].language == "Yul"@
            &&& k > 0 ==> made[0].language == "Solidity"@ && made[k].language == "Yul"@
            &&& made[k].sources.len() > 0
            &&& 0 <= i < made[k].sources.len() ==> sources.contains(made[k].sources[i])
            &&& 0 <= i < made[k].sources.len() ==> (path::extension(made[k].sources[i].0) == Some(
                "yul"@,
            ) <==> made[k].language == "Yul"@)
        }),
{
    reveal_strlit("Yul");
    reveal_strlit("Solidity");
    assert("Yul"@.len() != "Solidity"@.len());
    let made = input::inputs_for(sources, given);
    let is_other = |entry: (Seq<char>, Source)| input::is_yul_path(entry.0) == false;
    let is_yul = |entry: (Seq<char>, Source)| input::is_yul_path(entry.0) == true;
    if 0 <= i < made[k].sources.len() {
        let entry = made[k].sources[i];
        assert(made[k].sources.contains(entry));
        if made[k].language == "Yul"@ {
            sources.lemma_filter_pred(is_yul, i);
            sources.lemma_filter_contains_rev(is_yul, entry);
        } else {
            sources.lemma_filter_pred(is_other, i);
            sources.lemma_filter_contains_rev(is_other, entry);
        }
    }
}

/// Just the files whose names end with `.yul`, with something in front, are Yul files.
pub proof fn law_yul_files(path: Seq<char>, stem: Seq<char>)
    requires
        stem.len() > 0,
    ensures
        path::file_name(path) == Some(stem + ".yul"@) ==> input::is_yul_path(path),
        path::file_name(path) is None ==> !input::is_yul_path(path),
        input::is_yul_path(path) ==> exists|front: Seq<char>|
            front.len() > 0 && path::file_name(path) == Some(#[trigger] (front + ".yul"@)),
{
    reveal_strlit(".yul");
    reveal_strlit("yul");
    if path::file_name(path) == Some(stem + ".yul"@) {
        lemma_last_dot(stem, "yul"@);
        assert(stem + ".yul"@ =~= stem.push('.') + "yul"@);
        assert((stem.push('.') + "yul"@).skip(stem.len() as int + 1) =~= "yul"@);
    }
    if input::is_yul_path(path) {
        let name = path::file_name(path)->0;
        let at = path::last_dot(name);
        lemma_dot_at(name);
        let front = name.take(at);
        assert(name =~= front + ".yul"@) by {
            assert(name.skip(at + 1) == "yul"@);
            assert(name.skip(at + 1).len() == 3);
            assert forall|i: int| 0 <= i < name.len() implies name[i] == (front + ".yul"@)[i] by {
                if i > at {
                    assert(name.skip(at + 1)[i - at - 1] == name[i]);
                }
            }
        }
    }
}

proof fn lemma_last_dot(stem: Seq<char>, extension: Seq<char>)
    requires
        forall|i: int| 0 <= i < extension.len() ==> #[trigger] extension[i] != '.',
    ensures
        path::last_dot(stem.push('.') + extension) == stem.len(),
    decreases extension.len(),
{
    let whole = stem.push('.') + extension;
    if extension.len() > 0 {
        let rest = extension.drop_last();
        assert forall|i: int| 0 <= i < rest.len() implies #[trigger] rest[i] != '.' by {
            assert(rest[i] == extension[i]);
        }
        lemma_last_dot(stem, rest);
        assert(whole.drop_last() =~= stem.push('.') + rest);
        assert(extension[extension.len() - 1] != '.');
    } else {
        assert(whole =~= stem.push('.'));
    }
}

proof fn lemma_dot_at(name: Seq<char>)
    ensures
        -1 <= path::last_dot(name) < name.len(),
        path::last_dot(name) >= 0 ==> name[path::last_dot(name)] == '.',
    decreases name.len(),
{
    if name.len() > 0 && name.last() != '.' {
        lemma_dot_at(name.drop_last());
    }
}

/// A path that is taken off the front of an input is taken off its source files, its remappings
/// and its libraries; all else stays, and so do the contents of source files and the addresses of
/// libraries.
pub proof fn law_stripped_input(given: ZkSolcInputView, base: Seq<char>, i: int)
    ensures
        ({
            let made = input::stripped_input(given, base);
            let change = |key: Seq<char>|
                if path::stripped(key, base) is Some {
                    path::stripped(key, base)->0
                } else {
                    key
                };
            &&& made.language == given.language
            &&& key_laws::is_rekeyed::<ByPath, Source>(made.sources, given.sources, change)
            &&& key_laws::is_rekeyed::<ByPath, Seq<(Seq<char>, Seq<char>)>>(
                made.settings.libraries,
                given.settings.libraries,
                change,
            )
            &&& made.settings.remappings.len() == given.settings.remappings.len()
            &&& 0 <= i < given.settings.remappings.len() ==> {
                let (a, b) = (made.settings.remappings[i], given.settings.remappings[i]);
                &&& a.context == b.context && a.name == b.name
                &&& a.path == change(b.path)
            }
            &&& made.settings.evm_version == given.settings.evm_version
            &&& made.settings.system_mode == given.settings.system_mode
            &&& made.settings.force_evmla == given.settings.force_evmla
            &&& made.settings.detect_missing_libraries == given.settings.detect_missing_libraries
            &&& made.settings.solc == given.settings.solc
            &&& made.settings.other == given.settings.other
        }),
{
    key_laws::law_stripped_keys(given.sources, base);
    key_laws::law_stripped_keys(given.settings.libraries, base);
}

/// An input is given the remappings, and nothing else changes; one for Yul stays as it is.
pub proof fn law_remapped_input(given: ZkSolcInputView, remappings: Seq<RemappingView>)
    ensures
        ({
            let made = input::remapped_input(given, remappings);
            &&& made.language == given.language
            &&& made.sources == given.sources
            &&& same_modes(made.settings, given.settings)
            &&& made.settings.evm_version == given.settings.evm_version
            &&& given.language == "Yul"@ ==> made.settings.remappings == given.settings.remappings
            &&& given.language != "Yul"@ ==> made.settings.remappings == remappings
        }),
{
}

/// Settings that hold the same are the same, but for the representation of texts.
pub proof fn law_views_tell_settings_apart(a: ZkSolcSettings, b: ZkSolcSettings)
    requires
        a@ == b@,
    ensures
        a.remappings@.len() == b.remappings@.len(),
        forall|i: int|
            0 <= i < a.remappings@.len() ==> {
                let (x, y) = (#[trigger] a.remappings@[i], b.remappings@[i]);
                &&& x.name@ == y.name@ && x.path@ == y.path@
                &&& (x.context is Some <==> y.context is Some)
                &&& x.context is Some ==> x.context->0@ == y.context->0@
            },
        a.libraries@.len() == b.libraries@.len(),
        forall|i: int|
            0 <= i < a.libraries@.len() ==> (#[trigger] a.libraries@[i]).0 == b.libraries@[i].0
                && a.libraries@[i].1@.len() == b.libraries@[i].1@.len(),
        forall|i: int, j: int|
            0 <= i < a.libraries@.len() && 0 <= j < a.libraries@[i].1@.len() ==> (
            #[trigger] a.libraries@[i].1@[j]).0 == b.libraries@[i].1@[j].0
                && a.libraries@[i].1@[j].1@ == b.libraries@[i].1@[j].1@,
        a.evm_version is Some <==> b.evm_version is Some,
        a.evm_version is Some ==> a.evm_version->0@ == b.evm_version->0@,
        a.system_mode == b.system_mode,
        a.force_evmla == b.force_evmla,
        a.detect_missing_libraries == b.detect_missing_libraries,
        a.solc is Some <==> b.solc is Some,
        a.solc is Some ==> a.solc->0@ == b.solc->0@,
        a.other == b.other,
{
    let (x, y) = (a@.remappings, b@.remappings);
    assert(x.len() == a.remappings@.len() && y.len() == b.remappings@.len());
    assert forall|i: int| 0 <= i < a.remappings@.len() implies {
        let (x, y) = (#[trigger] a.remappings@[i], b.remappings@[i]);
        &&& x.name@ == y.name@ && x.path@ == y.path@
        &&& (x.context is Some <==> y.context is Some)
        &&& x.context is Some ==> x.context->0@ == y.context->0@
    } by {
        assert(x[i] == a.remappings@[i]@ && y[i] == b.remappings@[i]@);
    }
    let (v, w) = (a@.libraries, b@.libraries);
    assert(v.len() == a.libraries@.len() && w.len() == b.libraries@.len());
    assert forall|i: int| 0 <= i < a.libraries@.len() implies (#[trigger] a.libraries@[i]).0
        == b.libraries@[i].0 && a.libraries@[i].1@.len() == b.libraries@[i].1@.len() by {
        assert(v[i] == w[i]);
        assert(v[i].1.len() == a.libraries@[i].1@.len());
        assert(w[i].1.len() == b.libraries@[i].1@.len());
    }
    assert forall|i: int, j: int|
        0 <= i < a.libraries@.len() && 0 <= j < a.libraries@[i].1@.len() implies (
    #[trigger] a.libraries@[i].1@[j]).0 == b.libraries@[i].1@[j].0 && a.libraries@[i].1@[j].1@
        == b.libraries@[i].1@[j].1@ by {
        assert(v[i] == w[i]);
        assert(w[i].1.len() == b.libraries@[i].1@.len());
        assert(v[i].1[j] == w[i].1[j]);
    }
}

/// Inputs that hold the same are for the same language and have the same source files and
/// settings.
pub proof fn law_views_tell_inputs_apart(a: ZkSolcInput, b: ZkSolcInput)
    requires
        a@ == b@,
    ensures
        a.language@ == b.language@,
        a.sources@ == b.sources@,
        a.settings@ == b.settings@,
{
}

/// Every source file is in an input: a Yul file in the one for Yul, any other in the one for
/// Solidity. There is one input for each of the two at most, and none without files.
pub proof fn law_every_source_is_in_an_input(
    sources: Seq<(Seq<char>, Source)>,
    given: ZkSolcSettingsView,
    i: int,
)
    ensures
        input::inputs_for(sources, given).len() <= 2,
        sources.len() == 0 ==> input::inputs_for(sources, given).len() == 0,
        0 <= i < sources.len() ==> exists|k: int|
            0 <= k < input::inputs_for(sources, given).len() && (
            #[trigger] input::inputs_for(sources, given)[k]).sources.contains(sources[i])
                && input::inputs_for(sources, given)[k].language == (if path::extension(
                sources[i].0,
            ) == Some("yul"@) {
                "Yul"@
            } else {
                "Solidity"@
            }),
{
    let made = input::inputs_for(sources, given);
    let others = input::files_of(sources, false);
    let yuls = input::files_of(sources, true);
    if sources.len() == 0 {
        reveal(Seq::filter);
        assert(others.len() == 0 && yuls.len() == 0);
    }
    if 0 <= i < sources.len() {
        let yul = input::is_yul_path(sources[i].0);
        let keep = |entry: (Seq<char>, Source)| input::is_yul_path(entry.0) == yul;
        lemma_kept(sources, keep, i);
        let files = input::files_of(sources, yul);
        assert(files == sources.filter(keep));
        assert(files.contains(sources[i]));
        assert(files.len() > 0);
        if yul {
            let k = made.len() - 1;
            assert(made[k].sources == yuls);
            assert(made[k].language == "Yul"@);
        } else {
            assert(made[0].sources == others);
            assert(made[0].language == "Solidity"@);
        }
    }
}

proof fn lemma_kept<A>(s: Seq<A>, keep: spec_fn(A) -> bool, i: int)
    requires
        0 <= i < s.len(),
        keep(s[i]),
    ensures
        s.filter(keep).contains(s[i]),
    decreases s.len(),
{
    reveal(Seq::filter);
    let rest = s.drop_last();
    if i < rest.len() {
        lemma_kept(rest, keep, i);
        assert(rest[i] == s[i]);
        let n = choose|n: int| 0 <= n < rest.filter(keep).len() && rest.filter(keep)[n] == s[i];
        assert(s.filter(keep)[n] == s[i]);
    } else {
        let all = s.filter(keep);
        assert(all[all.len() - 1] == s[i]);
    }
}

} // verus!
