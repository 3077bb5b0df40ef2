//! What holds of the plan by which a project is compiled.
use crate::config::{ProjectPathsConfig, RemappingView};
use crate::key_laws;
use crate::maps;
use crate::maps::ByPath;
use crate::path;
use crate::zksync::compile::project;
use crate::zksync::compile::project::{
    CompilerRunView, FilteredSource, FilteredSources, GraphEdges, PathsView, Project, Resolved,
    VersionRunsView, VersionedFilteredSourcesView, VersionedSourcesView,
};
use crate::zksync::compile::stages;
use crate::zksync::compilers::zksolc::input;
use crate::zksync::compilers::zksolc::input::{Source, ZkSolcInputView};
use crate::zksync::compilers::zksolc::laws;
use crate::zksync::compilers::zksolc::settings::ZkSolcSettingsView;
use vstd::prelude::*;
use vstd::string::*;

verus! {

/// A path as it is handed to the compiler: without the root in front of it.
pub open spec fn from_root(root: Seq<char>) -> spec_fn(Seq<char>) -> Seq<char> {
    |path: Seq<char>|
        if path::stripped(path, root) is Some {
            path::stripped(path, root)->0
        } else {
            path
        }
}

/// Just the files that are marked so have to be compiled.
pub proof fn law_dirty_paths(files: Seq<(Seq<char>, FilteredSource)>, file: Seq<char>)
    ensures
        project::dirty_paths(files).contains(file) <==> exists|i: int|
            0 <= i < files.len() && (#[trigger] files[i]).0 == file && files[i].1 is Dirty,
    decreases files.len(),
{
    let all = project::dirty_paths(files);
    if files.len() > 0 {
        let rest = files.drop_last();
        let n = files.len() - 1;
        let before = project::dirty_paths(rest);
        law_dirty_paths(rest, file);
        if all.contains(file) {
            let k = all.index_of(file);
            if k < before.len() {
                assert(before[k] == file);
                let i = choose|i: int|
                    0 <= i < rest.len() && (#[trigger] rest[i]).0 == file && rest[i].1 is Dirty;
                assert(files[i] == rest[i]);
            } else {
                assert(files[n].0 == file);
            }
        }
        if exists|i: int|
            0 <= i < files.len() && (#[trigger] files[i]).0 == file && files[i].1 is Dirty {
            let i = choose|i: int|
                0 <= i < files.len() && (#[trigger] files[i]).0 == file && files[i].1 is Dirty;
            if i < n {
                assert(rest[i] == files[i]);
                let k = before.index_of(file);
                assert(all[k] == file);
            } else {
                assert(all[all.len() - 1] == file);
            }
        }
    }
}

/// All files are handed to the compiler with their contents, whether or not they have to be
/// compiled.
pub proof fn law_plain_sources(files: Seq<(Seq<char>, FilteredSource)>, i: int)
    ensures
        project::plain_sources(files).len() == files.len(),
        0 <= i < files.len() ==> project::plain_sources(files)[i].0 == files[i].0,
        0 <= i < files.len() && files[i].1 is Dirty ==> project::plain_sources(files)[i].1
            == files[i].1->Dirty_0,
        0 <= i < files.len() && files[i].1 is Clean ==> project::plain_sources(files)[i].1
            == files[i].1->Clean_0,
{
}

/// The files of an input that have to be compiled are those of its files that are the same as one
/// of the given paths.
pub proof fn law_dirty_of(
    sources: Seq<(Seq<char>, Source)>,
    dirty: Seq<Seq<char>>,
    file: Seq<char>,
)
    ensures
        project::dirty_of(sources, dirty).contains(file) <==> (exists|i: int|
            0 <= i < sources.len() && (#[trigger] sources[i]).0 == file) && (exists|d: int|
            0 <= d < dirty.len() && path::components(#[trigger] dirty[d]) == path::components(
                file,
            )),
    decreases sources.len(),
{
    let all = project::dirty_of(sources, dirty);
    let among = exists|d: int|
        0 <= d < dirty.len() && path::components(#[trigger] dirty[d]) == path::components(file);
    assert(project::is_among(dirty, file) == among) by {
        if project::is_among(dirty, file) {
            let d = choose|d: int| 0 <= d < dirty.len() && path::same_path(#[trigger] dirty[d], file);
            assert(path::components(dirty[d]) == path::components(file));
        }
        if among {
            let d = choose|d: int|
                0 <= d < dirty.len() && path::components(#[trigger] dirty[d]) == path::components(
                    file,
                );
            assert(path::same_path(dirty[d], file));
        }
    }
    if sources.len() > 0 {
        let rest = sources.drop_last();
        let n = sources.len() - 1;
        let before = project::dirty_of(rest, dirty);
        law_dirty_of(rest, dirty, file);
        if all.contains(file) {
            let k = all.index_of(file);
            if k < before.len() {
                assert(before[k] == file);
                let i = choose|i: int| 0 <= i < rest.len() && (#[trigger] rest[i]).0 == file;
                assert(sources[i] == rest[i]);
            } else {
                assert(sources[n].0 == file);
            }
        }
        if among && exists|i: int| 0 <= i < sources.len() && (#[trigger] sources[i]).0 == file {
            let i = choose|i: int| 0 <= i < sources.len() && (#[trigger] sources[i]).0 == file;
            if i < n {
                assert(rest[i] == sources[i]);
                let k = before.index_of(file);
                assert(all[k] == file);
            } else {
                assert(all[all.len() - 1] == file);
            }
        }
    }
}

/// Inputs are run one after the other, each by itself: once where a file of it has to be compiled,
/// and not at all otherwise.
pub proof fn law_runs_for_inputs(
    some: Seq<ZkSolcInputView>,
    more: Seq<ZkSolcInputView>,
    one: ZkSolcInputView,
    dirty: Seq<Seq<char>>,
    remappings: Seq<RemappingView>,
    root: Seq<char>,
)
    ensures
        project::runs_for(some + more, dirty, remappings, root) == project::runs_for(
            some,
            dirty,
            remappings,
            root,
        ) + project::runs_for(more, dirty, remappings, root),
        project::runs_for(seq![one], dirty, remappings, root).len() == (if exists|i: int, d: int|
            0 <= i < one.sources.len() && 0 <= d < dirty.len() && path::components(
                #[trigger] dirty[d],
            ) == path::components((#[trigger] one.sources[i]).0) {
            1int
        } else {
            0
        }),
    decreases more.len(),
{
    reveal_with_fuel(project::runs_for, 2);
    assert(seq![one].drop_last() =~= Seq::<ZkSolcInputView>::empty());
    let files = project::dirty_of(one.sources, dirty);
    if files.len() > 0 {
        law_dirty_of(one.sources, dirty, files[0]);
        assert(files.contains(files[0]));
        let i = choose|i: int| 0 <= i < one.sources.len() && (#[trigger] one.sources[i]).0
            == files[0];
        let d = choose|d: int|
            0 <= d < dirty.len() && path::components(#[trigger] dirty[d]) == path::components(
                files[0],
            );
        assert(path::components(dirty[d]) == path::components(one.sources[i].0));
    }
    if exists|i: int, d: int|
        0 <= i < one.sources.len() && 0 <= d < dirty.len() && path::components(
            #[trigger] dirty[d],
        ) == path::components((#[trigger] one.sources[i]).0) {
        let (i, d) = choose|i: int, d: int|
            0 <= i < one.sources.len() && 0 <= d < dirty.len() && path::components(
                #[trigger] dirty[d],
            ) == path::components((#[trigger] one.sources[i]).0);
        law_dirty_of(one.sources, dirty, one.sources[i].0);
        assert(files.contains(one.sources[i].0));
    }
    if more.len() == 0 {
        assert(some + more =~= some);
        assert(project::runs_for(some, dirty, remappings, root) + project::runs_for(
            more,
            dirty,
            remappings,
            root,
        ) =~= project::runs_for(some, dirty, remappings, root));
    } else {
        law_runs_for_inputs(some, more.drop_last(), one, dirty, remappings, root);
        assert((some + more).drop_last() =~= some + more.drop_last());
        assert(project::runs_for(some + more, dirty, remappings, root) =~= project::runs_for(
            some,
            dirty,
            remappings,
            root,
        ) + project::runs_for(more, dirty, remappings, root));
    }
}

/// The input that a run is for.
proof fn lemma_run_origin(
    inputs: Seq<ZkSolcInputView>,
    dirty: Seq<Seq<char>>,
    remappings: Seq<RemappingView>,
    root: Seq<char>,
    k: int,
) -> (m: int)
    requires
        0 <= k < project::runs_for(inputs, dirty, remappings, root).len(),
    ensures
        0 <= m < inputs.len(),
        project::runs_for(inputs, dirty, remappings, root)[k].input == input::stripped_input(
            input::remapped_input(inputs[m], remappings),
            root,
        ),
        project::runs_for(inputs, dirty, remappings, root)[k].dirty == project::dirty_of(
            inputs[m].sources,
            dirty,
        ),
    decreases inputs.len(),
{
    let rest = inputs.drop_last();
    let before = project::runs_for(rest, dirty, remappings, root);
    if k < before.len() {
        let m = lemma_run_origin(rest, dirty, remappings, root, k);
        assert(rest[m] == inputs[m]);
        m
    } else {
        inputs.len() - 1
    }
}

/// Whether a run of the compiler is one for source files of a version: with all settings that
/// were given, with all source files of its language, whether or not they have to be compiled, and
/// without the root in front of all paths.
pub open spec fn is_run_for(
    run: CompilerRunView,
    sources: VersionedFilteredSourcesView,
    settings: ZkSolcSettingsView,
    paths: PathsView,
) -> bool {
    let yul = run.input.language == "Yul"@;
    let files = project::plain_sources(sources.sources).filter(
        |entry: (Seq<char>, Source)| (path::extension(entry.0) == Some("yul"@)) == yul,
    );
    &&& yul || run.input.language == "Solidity"@
    &&& key_laws::is_rekeyed::<ByPath, Source>(run.input.sources, files, from_root(paths.root))
    &&& key_laws::is_rekeyed::<ByPath, Seq<(Seq<char>, Seq<char>)>>(
        run.input.settings.libraries,
        settings.libraries,
        from_root(paths.root),
    )
    &&& run.input.settings.system_mode == settings.system_mode
    &&& run.input.settings.force_evmla == settings.force_evmla
    &&& run.input.settings.detect_missing_libraries == settings.detect_missing_libraries
    &&& run.input.settings.solc == settings.solc
    &&& run.input.settings.other == settings.other
    &&& run.input.settings.evm_version == (if settings.evm_version is Some {
        sources.evm_version
    } else {
        None
    })
    &&& yul ==> run.input.settings.remappings.len() == 0
    &&& !yul ==> run.input.settings.remappings.len() == paths.remappings.len()
    &&& forall|i: int|
        0 <= i < run.input.settings.remappings.len() ==> {
            let made = #[trigger] run.input.settings.remappings[i];
            &&& made.context == paths.remappings[i].context
            &&& made.name == paths.remappings[i].name
            &&& made.path == from_root(paths.root)(paths.remappings[i].path)
        }
    &&& forall|file: Seq<char>|
        #[trigger] run.dirty.contains(file) ==> exists|i: int|
            0 <= i < files.len() && (#[trigger] files[i]).0 == file
}

/// Every run of the compiler has all settings that were given and all source files of its
/// language.
pub proof fn law_runs_of_versions(
    sources: VersionedFilteredSourcesView,
    settings: ZkSolcSettingsView,
    paths: PathsView,
    k: int,
)
    requires
        0 <= k < project::version_runs(sources, settings, paths).runs.len(),
    ensures
        is_run_for(
            project::version_runs(sources, settings, paths).runs[k],
            sources,
            settings,
            paths,
        ),
{
    reveal_strlit("Yul");
    reveal_strlit("Solidity");
    assert("Yul"@.len() != "Solidity"@.len());
    let run = project::version_runs(sources, settings, paths).runs[k];
    let plain = project::plain_sources(sources.sources);
    let set = input::with_evm_version(settings, sources.evm_version);
    let inputs = input::inputs_for(plain, set);
    let dirty = project::dirty_paths(sources.sources);
    let m = lemma_run_origin(inputs, dirty, paths.remappings, paths.root, k);
    let given = inputs[m];
    let mapped = input::remapped_input(given, paths.remappings);
    laws::law_inputs_keep_settings(plain, settings, sources.evm_version, m);
    laws::law_inputs_hold_only_sources(plain, set, m, 0);
    laws::law_remapped_input(given, paths.remappings);
    laws::law_stripped_input(mapped, paths.root, 0);
    let yul = run.input.language == "Yul"@;
    let files = plain.filter(
        |entry: (Seq<char>, Source)| (path::extension(entry.0) == Some("yul"@)) == yul,
    );
    assert(given.sources == files) by {
        let keep = |entry: (Seq<char>, Source)| (path::extension(entry.0) == Some("yul"@)) == yul;
        let kept = |entry: (Seq<char>, Source)| input::is_yul_path(entry.0) == yul;
        assert(keep =~= kept);
        assert(given.sources == input::files_of(plain, yul));
    }
    let change = |key: Seq<char>|
        if path::stripped(key, paths.root) is Some {
            path::stripped(key, paths.root)->0
        } else {
            key
        };
    assert(change =~= from_root(paths.root));
    assert forall|i: int| 0 <= i < run.input.settings.remappings.len() implies {
        let made = #[trigger] run.input.settings.remappings[i];
        &&& made.context == paths.remappings[i].context
        &&& made.name == paths.remappings[i].name
        &&& made.path == from_root(paths.root)(paths.remappings[i].path)
    } by {
        laws::law_stripped_input(mapped, paths.root, i);
    }
    assert forall|file: Seq<char>| #[trigger] run.dirty.contains(file) implies exists|i: int|
        0 <= i < files.len() && (#[trigger] files[i]).0 == file by {
        law_dirty_of(given.sources, dirty, file);
    }
}

/// A run names as to be compiled just those of its files that are marked so.
pub proof fn law_runs_name_dirty_files(
    sources: VersionedFilteredSourcesView,
    settings: ZkSolcSettingsView,
    paths: PathsView,
    k: int,
    i: int,
)
    requires
        maps::ordered::<ByPath, FilteredSource>(sources.sources),
        0 <= k < project::version_runs(sources, settings, paths).runs.len(),
        0 <= i < sources.sources.len(),
    ensures
        project::version_runs(sources, settings, paths).runs[k].dirty.contains(
            sources.sources[i].0,
        ) <==> sources.sources[i].1 is Dirty && ((path::extension(sources.sources[i].0) == Some(
            "yul"@,
        )) == (project::version_runs(sources, settings, paths).runs[k].input.language == "Yul"@)),
{
    reveal_strlit("Yul");
    reveal_strlit("Solidity");
    assert("Yul"@.len() != "Solidity"@.len());
    let files = sources.sources;
    let file = files[i].0;
    let plain = project::plain_sources(files);
    let set = input::with_evm_version(settings, sources.evm_version);
    let inputs = input::inputs_for(plain, set);
    let dirty = project::dirty_paths(files);
    let m = lemma_run_origin(inputs, dirty, paths.remappings, paths.root, k);
    laws::law_remapped_input(inputs[m], paths.remappings);
    laws::law_stripped_input(
        input::remapped_input(inputs[m], paths.remappings),
        paths.root,
        0,
    );
    let yul = inputs[m].language == "Yul"@;
    laws::law_inputs_hold_only_sources(plain, set, m, 0);
    assert(inputs[m].sources == input::files_of(plain, yul));
    let kept = |entry: (Seq<char>, Source)| input::is_yul_path(entry.0) == yul;
    law_dirty_of(inputs[m].sources, dirty, file);
    law_dirty_paths(files, file);
    assert(plain[i].0 == file);
    if input::is_yul_path(file) == yul {
        plain.lemma_filter_contains(kept, i);
        let at = inputs[m].sources.index_of(plain[i]);
        assert(inputs[m].sources[at].0 == file);
    }
    if exists|a: int| 0 <= a < inputs[m].sources.len() && (#[trigger] inputs[m].sources[a]).0
        == file {
        let a = choose|a: int|
            0 <= a < inputs[m].sources.len() && (#[trigger] inputs[m].sources[a]).0 == file;
        plain.lemma_filter_pred(kept, a);
    }
    if files[i].1 is Dirty {
        let d = dirty.index_of(file);
        assert(path::components(dirty[d]) == path::components(file));
    }
    if exists|d: int|
        0 <= d < dirty.len() && path::components(#[trigger] dirty[d]) == path::components(file) {
        let d = choose|d: int|
            0 <= d < dirty.len() && path::components(#[trigger] dirty[d]) == path::components(
                file,
            );
        law_dirty_paths(files, dirty[d]);
        assert(dirty.contains(dirty[d]));
        let j = choose|j: int|
            0 <= j < files.len() && (#[trigger] files[j]).0 == dirty[d] && files[j].1 is Dirty;
        maps::lemma_found::<ByPath, FilteredSource>(files, file, i);
        maps::lemma_found::<ByPath, FilteredSource>(files, file, j);
    }
}

/// Versions are planned one after the other, each by itself: not at all without source files, and
/// otherwise with its `solc`, which starts at the root of the project, may read files from the
/// allowed paths, and looks for imports in all paths for that.
pub proof fn law_plan_for_versions(
    some: Seq<VersionedFilteredSourcesView>,
    more: Seq<VersionedFilteredSourcesView>,
    one: VersionedFilteredSourcesView,
    settings: ZkSolcSettingsView,
    paths: PathsView,
)
    ensures
        project::all_runs(some + more, settings, paths) == project::all_runs(some, settings, paths)
            + project::all_runs(more, settings, paths),
        one.sources.len() == 0 ==> project::all_runs(seq![one], settings, paths).len() == 0,
        one.sources.len() > 0 ==> {
            let jobs = project::all_runs(seq![one], settings, paths);
            &&& jobs.len() == 1
            &&& jobs[0].version == one.version
            &&& jobs[0].runs == project::version_runs(one, settings, paths).runs
            &&& jobs[0].solc.solc == one.solc.solc
            &&& jobs[0].solc.version == one.solc.version
            &&& jobs[0].solc.args == one.solc.args
            &&& jobs[0].solc.base_path == Some(paths.root)
            &&& jobs[0].solc.allow_paths == paths.allowed_paths
            &&& jobs[0].solc.include_paths == paths.include_paths
        },
    decreases more.len(),
{
    reveal_with_fuel(project::all_runs, 2);
    assert(seq![one].drop_last() =~= Seq::<VersionedFilteredSourcesView>::empty());
    if more.len() == 0 {
        assert(some + more =~= some);
        assert(project::all_runs(some, settings, paths) + project::all_runs(more, settings, paths)
            =~= project::all_runs(some, settings, paths));
    } else {
        law_plan_for_versions(some, more.drop_last(), one, settings, paths);
        assert((some + more).drop_last() =~= some + more.drop_last());
        assert(project::all_runs(some + more, settings, paths) =~= project::all_runs(
            some,
            settings,
            paths,
        ) + project::all_runs(more, settings, paths));
    }
}

/// The version that a job is for.
proof fn lemma_job_origin(
    sources: Seq<VersionedFilteredSourcesView>,
    settings: ZkSolcSettingsView,
    paths: PathsView,
    k: int,
) -> (i: int)
    requires
        0 <= k < project::all_runs(sources, settings, paths).len(),
    ensures
        0 <= i < sources.len(),
        sources[i].sources.len() > 0,
        project::all_runs(sources, settings, paths)[k] == project::version_runs(
            sources[i],
            settings,
            paths,
        ),
    decreases sources.len(),
{
    let rest = sources.drop_last();
    if k < project::all_runs(rest, settings, paths).len() {
        let i = lemma_job_origin(rest, settings, paths, k);
        assert(rest[i] == sources[i]);
        i
    } else {
        sources.len() - 1
    }
}

proof fn lemma_job_of(
    sources: Seq<VersionedFilteredSourcesView>,
    settings: ZkSolcSettingsView,
    paths: PathsView,
    i: int,
) -> (k: int)
    requires
        0 <= i < sources.len(),
        sources[i].sources.len() > 0,
    ensures
        0 <= k < project::all_runs(sources, settings, paths).len(),
        project::all_runs(sources, settings, paths)[k] == project::version_runs(
            sources[i],
            settings,
            paths,
        ),
    decreases sources.len(),
{
    let rest = sources.drop_last();
    if i < rest.len() {
        assert(rest[i] == sources[i]);
        lemma_job_of(rest, settings, paths, i)
    } else {
        project::all_runs(rest, settings, paths).len() as int
    }
}

/// The paths to look for imports in are those of the project and those where imports were found;
/// the root, the allowed paths and the remappings are those of the project.
pub proof fn law_paths(
    paths: ProjectPathsConfig,
    graph: GraphEdges,
    path: Seq<char>,
    i: int,
)
    requires
        maps::ordered::<ByPath, ()>(paths.include_paths@),
        maps::ordered::<ByPath, ()>(graph.include_paths@),
    ensures
        ({
            let view = project::paths_view(paths, graph);
            &&& view.root == paths.root@
            &&& view.allowed_paths == paths.allowed_paths@
            &&& view.remappings.len() == paths.remappings@.len()
            &&& 0 <= i < paths.remappings@.len() ==> {
                let (a, b) = (view.remappings[i], paths.remappings@[i]);
                &&& a.name == b.name@ && a.path == b.path@
                &&& (a.context is Some <==> b.context is Some)
                &&& a.context is Some ==> a.context->0 == b.context->0@
            }
            &&& maps::has::<ByPath, ()>(view.include_paths, path) <==> maps::has::<ByPath, ()>(
                paths.include_paths@,
                path,
            ) || maps::has::<ByPath, ()>(graph.include_paths@, path)
        }),
{
    key_laws::law_extended::<ByPath, ()>(paths.include_paths@, graph.include_paths@, path);
    maps::lemma_has::<ByPath, ()>(paths.include_paths@, path);
    maps::lemma_has::<ByPath, ()>(graph.include_paths@, path);
    maps::lemma_has::<ByPath, ()>(project::paths_view(paths, graph).include_paths, path);
}

/// What is left of the source files of each version belongs to that version.
pub proof fn law_filtered_pairs(
    pairs: Seq<VersionedSourcesView>,
    filtered: Seq<FilteredSources>,
    i: int,
)
    ensures
        project::filtered_pairs(pairs, filtered).len() == pairs.len(),
        0 <= i < pairs.len() ==> {
            let made = project::filtered_pairs(pairs, filtered)[i];
            &&& made.solc == pairs[i].solc
            &&& made.version == pairs[i].version
            &&& made.evm_version == pairs[i].evm_version
            &&& made.sources == filtered[i].0@
        },
{
}

/// Where a `solc` is pinned, all source files are compiled with it; otherwise each version is
/// compiled with its own source files.
pub proof fn law_resolved_pairs(project: Project, resolved: Resolved, i: int)
    requires
        (resolved is Together) == (project.compiler_config is Specific),
    ensures
        ({
            let pairs = project::resolved_pairs(project, resolved);
            &&& resolved is Together ==> {
                let solc = project.compiler_config->Specific_0;
                &&& pairs.len() == 1
                &&& pairs[0].solc == solc@
                &&& pairs[0].version == solc.version@
                &&& pairs[0].sources == resolved->Together_0@
                &&& (pairs[0].evm_version is Some <==> resolved->Together_1 is Some)
                &&& pairs[0].evm_version is Some ==> pairs[0].evm_version->0
                    == resolved->Together_1->0@
            }
            &&& resolved is ByVersion ==> {
                let given = resolved->ByVersion_0@;
                &&& pairs.len() == given.len()
                &&& 0 <= i < given.len() ==> {
                    &&& pairs[i].solc == given[i].solc@
                    &&& pairs[i].version == given[i].version@
                    &&& pairs[i].sources == given[i].sources@
                    &&& (pairs[i].evm_version is Some <==> given[i].evm_version is Some)
                    &&& pairs[i].evm_version is Some ==> pairs[i].evm_version->0
                        == given[i].evm_version->0@
                }
            }
        }),
{
}

/// Slashing changes nothing of the source files of a version but their paths.
pub proof fn law_slashed_pairs(pairs: Seq<VersionedSourcesView>, windows: bool, i: int)
    requires
        0 <= i < pairs.len(),
    ensures
        ({
            let made = project::slashed_pairs(pairs, windows);
            &&& made.len() == pairs.len()
            &&& made[i].solc == pairs[i].solc
            &&& made[i].version == pairs[i].version
            &&& made[i].evm_version == pairs[i].evm_version
            &&& !windows ==> made[i].sources == pairs[i].sources
            &&& windows ==> key_laws::is_rekeyed::<ByPath, Source>(
                made[i].sources,
                pairs[i].sources,
                |key: Seq<char>| path::slashed(key),
            )
        }),
{
    key_laws::law_slashed_entries::<ByPath, Source>(pairs[i].sources);
}

/// Whether a job is one for a version of `solc` and what is left of its source files.
pub open spec fn is_job_for(
    job: VersionRunsView,
    project: Project,
    pair: VersionedSourcesView,
    edges: GraphEdges,
    left: FilteredSources,
) -> bool {
    let sources = VersionedFilteredSourcesView {
        solc: pair.solc,
        version: pair.version,
        sources: left.0@,
        evm_version: pair.evm_version,
    };
    &&& left.0@.len() > 0
    &&& job.version == pair.version
    &&& job.solc.solc == pair.solc.solc
    &&& job.solc.version == pair.solc.version
    &&& job.solc.args == pair.solc.args
    &&& job.solc.base_path == Some(project.paths.root@)
    &&& job.solc.allow_paths == project.paths.allowed_paths@
    &&& job.solc.include_paths == maps::extended::<ByPath, ()>(
        project.paths.include_paths@,
        edges.include_paths@,
    )
    &&& forall|r: int|
        0 <= r < job.runs.len() ==> is_run_for(
            #[trigger] job.runs[r],
            sources,
            project.zksync_zksolc_config.settings@,
            project::paths_view(project.paths, edges),
        )
    &&& forall|f: int|
        0 <= f < left.0@.len() && (#[trigger] left.0@[f]).1 is Dirty ==> exists|r: int|
            0 <= r < job.runs.len() && (#[trigger] job.runs[r]).dirty.contains(left.0@[f].0)
}

/// A project is compiled by one job for each version that has source files left, with its
/// settings; every file that has to be compiled is in a run of the job of its version.
pub proof fn law_plan_of_project(
    project: Project,
    pairs: Seq<VersionedSourcesView>,
    edges: GraphEdges,
    filtered: Seq<FilteredSources>,
    k: int,
    i: int,
)
    requires
        pairs.len() == filtered.len(),
    ensures
        ({
            let plan = stages::plan_for(project, pairs, edges, filtered);
            &&& 0 <= k < plan.len() ==> exists|p: int|
                0 <= p < pairs.len() && is_job_for(
                    plan[k],
                    project,
                    #[trigger] pairs[p],
                    edges,
                    filtered[p],
                )
            &&& 0 <= i < pairs.len() && filtered[i].0@.len() > 0 ==> exists|j: int|
                0 <= j < plan.len() && is_job_for(
                    #[trigger] plan[j],
                    project,
                    pairs[i],
                    edges,
                    filtered[i],
                )
        }),
{
    let plan = stages::plan_for(project, pairs, edges, filtered);
    let all = project::filtered_pairs(pairs, filtered);
    let set = project.zksync_zksolc_config.settings@;
    let paths = project::paths_view(project.paths, edges);
    assert(plan == project::all_runs(all, set, paths));
    if 0 <= k < plan.len() {
        let p = lemma_job_origin(all, set, paths, k);
        lemma_is_job(project, pairs, edges, filtered, plan[k], p);
        assert(is_job_for(plan[k], project, pairs[p], edges, filtered[p]));
    }
    if 0 <= i < pairs.len() && filtered[i].0@.len() > 0 {
        assert(all[i].sources.len() > 0);
        let j = lemma_job_of(all, set, paths, i);
        lemma_is_job(project, pairs, edges, filtered, plan[j], i);
        assert(is_job_for(plan[j], project, pairs[i], edges, filtered[i]));
    }
}

proof fn lemma_is_job(
    project: Project,
    pairs: Seq<VersionedSourcesView>,
    edges: GraphEdges,
    filtered: Seq<FilteredSources>,
    job: VersionRunsView,
    i: int,
)
    requires
        0 <= i < pairs.len(),
        filtered[i].0@.len() > 0,
        job == project::version_runs(
            project::filtered_pairs(pairs, filtered)[i],
            project.zksync_zksolc_config.settings@,
            project::paths_view(project.paths, edges),
        ),
    ensures
        is_job_for(job, project, pairs[i], edges, filtered[i]),
{
    let one = project::filtered_pairs(pairs, filtered)[i];
    let set = project.zksync_zksolc_config.settings@;
    let paths = project::paths_view(project.paths, edges);
    let left = filtered[i];
    assert forall|r: int| 0 <= r < job.runs.len() implies is_run_for(
        #[trigger] job.runs[r],
        one,
        set,
        paths,
    ) by {
        law_runs_of_versions(one, set, paths, r);
    }
    assert forall|f: int| 0 <= f < left.0@.len() && (
    #[trigger] left.0@[f]).1 is Dirty implies exists|r: int|
        0 <= r < job.runs.len() && (#[trigger] job.runs[r]).dirty.contains(left.0@[f].0) by {
        crate::zksync::compile::laws::law_dirty_files_are_compiled(one, set, paths, f);
        let r = choose|r: int|
            0 <= r < job.runs.len() && (#[trigger] job.runs[r]).dirty.contains(left.0@[f].0);
        assert(job.runs[r].dirty.contains(left.0@[f].0));
    }
}

/// The files that have to be compiled are named in their order, each once.
pub proof fn law_dirty_paths_in_order(
    some: Seq<(Seq<char>, FilteredSource)>,
    last: (Seq<char>, FilteredSource),
)
    ensures
        project::dirty_paths(Seq::empty()).len() == 0,
        last.1 is Dirty ==> project::dirty_paths(some.push(last)) == project::dirty_paths(
            some,
        ).push(last.0),
        last.1 is Clean ==> project::dirty_paths(some.push(last)) == project::dirty_paths(some),
{
    assert(some.push(last).drop_last() =~= some);
}

/// The files of an input that have to be compiled are named in their order, each once.
pub proof fn law_dirty_files_in_order(
    some: Seq<(Seq<char>, Source)>,
    last: (Seq<char>, Source),
    dirty: Seq<Seq<char>>,
)
    ensures
        project::dirty_of(Seq::empty(), dirty).len() == 0,
        (exists|d: int|
            0 <= d < dirty.len() && path::components(#[trigger] dirty[d]) == path::components(
                last.0,
            )) ==> project::dirty_of(some.push(last), dirty) == project::dirty_of(
            some,
            dirty,
        ).push(last.0),
        (forall|d: int|
            0 <= d < dirty.len() ==> path::components(#[trigger] dirty[d]) != path::components(
                last.0,
            )) ==> project::dirty_of(some.push(last), dirty) == project::dirty_of(some, dirty),
{
    assert(some.push(last).drop_last() =~= some);
    if exists|d: int|
        0 <= d < dirty.len() && path::components(#[trigger] dirty[d]) == path::components(last.0) {
        let d = choose|d: int|
            0 <= d < dirty.len() && path::components(#[trigger] dirty[d]) == path::components(
                last.0,
            );
        assert(path::same_path(dirty[d], last.0));
        assert(project::is_among(dirty, last.0));
    }
    if project::is_among(dirty, last.0) {
        let d = choose|d: int| 0 <= d < dirty.len() && path::same_path(#[trigger] dirty[d], last.0);
        assert(path::components(dirty[d]) == path::components(last.0));
    }
}

} // verus!
