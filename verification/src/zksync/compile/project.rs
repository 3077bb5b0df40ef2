//! Compiling all source files of a project.
use crate::compilers::solc::{copy_paths, Solc, SolcView};
use crate::config;
use crate::config::{copy_remappings, ProjectPathsConfig, RemappingView};
use crate::maps;
use crate::maps::{ByPath, PathMap, PathSet};
use crate::path;
use crate::text;
use crate::version::{Version, VersionView};
use crate::zksync::artifact_output::zk;
use crate::zksync::artifact_output::zk::{Artifacts, ZkArtifactOutput};
use crate::zksync::artifact_output::OutputContext;
use crate::zksync::artifacts::{CompilerOutput, Severity};
use crate::zksync::compile::output;
use crate::zksync::compile::output::{AggregatedCompilerOutput, AggregatedCompilerOutputView};
use crate::zksync::compile::ZkSolc;
use crate::zksync::compilers::zksolc::input;
use crate::zksync::compilers::zksolc::input::{Source, Sources, ZkSolcInput, ZkSolcInputView};
use crate::zksync::compilers::zksolc::settings::{ZkSolcSettings, ZkSolcSettingsView};
use crate::zksync::config::ZkSolcConfig;
use vstd::prelude::*;
use vstd::string::*;

verus! {

/// A source file, and whether it has to be compiled or is only imported by one that has.
pub enum FilteredSource {
    /// The source file has to be compiled
    Dirty(Source),
    /// The source file is unchanged
    Clean(Source),
}

impl FilteredSource {
    pub open spec fn source(self) -> Source {
        match self {
            FilteredSource::Dirty(source) => source,
            FilteredSource::Clean(source) => source,
        }
    }
}

/// The source files by their paths.
pub struct FilteredSources(pub PathMap<FilteredSource>);

/// The paths of the source files that have to be compiled.
pub open spec fn dirty_paths(files: Seq<(Seq<char>, FilteredSource)>) -> Seq<Seq<char>>
    decreases files.len(),
{
    if files.len() == 0 {
        Seq::empty()
    } else if files.last().1 is Dirty {
        dirty_paths(files.drop_last()).push(files.last().0)
    } else {
        dirty_paths(files.drop_last())
    }
}

/// The source files, whether or not they have to be compiled.
pub open spec fn plain_sources(files: Seq<(Seq<char>, FilteredSource)>) -> Seq<
    (Seq<char>, Source),
> {
    maps::map_entries(files, |file: FilteredSource| file.source())
}

impl FilteredSources {
    /// Returns `true` if no sources are to be compiled
    pub fn is_empty(&self) -> (res: bool)
        ensures
            res == (self.0@.len() == 0),
    {
        self.0.len() == 0
    }

    /// Returns the paths of all dirty files
    pub fn dirty_files(&self) -> (res: Vec<String>)
        ensures
            text::texts(res@) == dirty_paths(self.0@),
    {
        let ghost all = self.0@;
        let mut res: Vec<String> = Vec::new();
        let mut i: usize = 0;
        assert(all.take(0) =~= Seq::<(Seq<char>, FilteredSource)>::empty());
        assert(text::texts(res@) =~= dirty_paths(all.take(0)));
        while i < self.0.len()
            invariant
                all == self.0@,
                i <= all.len(),
                text::texts(res@) == dirty_paths(all.take(i as int)),
            decreases all.len() - i,
        {
            assert(all.take(i + 1).drop_last() =~= all.take(i as int));
            if let FilteredSource::Dirty(_) = self.0.value_at(i) {
                let ghost before = text::texts(res@);
                let file: String = self.0.key_at(i).clone();
                res.push(file);
                assert(text::texts(res@) =~= before.push(file@));
            }
            i = i + 1;
        }
        assert(all.take(i as int) =~= all);
        res
    }

    /// The source files, whether or not they are dirty
    pub fn into_sources(self) -> (res: Sources)
        ensures
            res@ == plain_sources(self.0@),
    {
        proof {
            use_type_invariant(&self.0);
        }
        let ghost all = self.0@;
        let ghost wanted = plain_sources(all);
        let list = self.0.into_entries();
        assert(all.len() == list.len());
        let mut res: Vec<(String, Source)> = Vec::new();
        for entry in it: list
            invariant
                maps::entry_views(it.seq()) == all,
                all.len() == it.seq().len(),
                wanted == plain_sources(all),
                maps::entry_views(res@) =~= wanted.take(it.index() as int),
        {
            let ghost i = it.index() as int;
            let ghost before = res@;
            assert(all[i] == (entry.0@, entry.1));
            let source = match entry.1 {
                FilteredSource::Dirty(source) => source,
                FilteredSource::Clean(source) => source,
            };
            res.push((entry.0, source));
            assert(maps::entry_views(res@) =~= maps::entry_views(before).push(
                (entry.0@, source),
            ));
        }
        assert(wanted.take(all.len() as int) =~= wanted);
        proof {
            maps::lemma_same_keys::<ByPath, FilteredSource, Source>(all, wanted);
        }
        PathMap::from_entries(res)
    }
}

/// Source files that are compiled with a version of `solc`.
pub struct VersionedSources {
    pub solc: Solc,
    pub version: Version,
    pub sources: Sources,
    /// What the version makes of the EVM version that is set
    pub evm_version: Option<String>,
}

/// What [`VersionedSources`] hold.
#[verifier::ext_equal]
pub struct VersionedSourcesView {
    pub solc: SolcView,
    pub version: VersionView,
    pub sources: Seq<(Seq<char>, Source)>,
    pub evm_version: Option<Seq<char>>,
}

impl View for VersionedSources {
    type V = VersionedSourcesView;

    open spec fn view(&self) -> VersionedSourcesView {
        VersionedSourcesView {
            solc: self.solc@,
            version: self.version@,
            sources: self.sources@,
            evm_version: text::opt_text(self.evm_version),
        }
    }
}

impl VersionedSourcesView {
    /// The source files with `/` in place of each `\\` of their paths.
    pub open spec fn slashed(self) -> VersionedSourcesView {
        VersionedSourcesView {
            sources: maps::slashed_keys::<ByPath, Source>(self.sources),
            ..self
        }
    }
}

/// The source files of all versions as they are compiled: with `/` in place of each `\\` of their
/// paths on Windows, to be consistent with what `solc` emits.
pub open spec fn slashed_pairs(pairs: Seq<VersionedSourcesView>, windows: bool) -> Seq<
    VersionedSourcesView,
> {
    if windows {
        pairs.map_values(|pair: VersionedSourcesView| pair.slashed())
    } else {
        pairs
    }
}

/// What the source files of all versions hold.
pub open spec fn pair_views(list: Seq<VersionedSources>) -> Seq<VersionedSourcesView> {
    list.map_values(|item: VersionedSources| item@)
}

/// What is left of the source files of all versions.
pub open spec fn filtered_pairs(
    pairs: Seq<VersionedSourcesView>,
    filtered: Seq<FilteredSources>,
) -> Seq<VersionedFilteredSourcesView> {
    Seq::new(
        pairs.len(),
        |i: int|
            VersionedFilteredSourcesView {
                solc: pairs[i].solc,
                version: pairs[i].version,
                sources: filtered[i].0@,
                evm_version: pairs[i].evm_version,
            },
    )
}

/// Source files that are compiled with a version of `solc`, as far as they have to be.
pub struct VersionedFilteredSources {
    pub solc: Solc,
    pub version: Version,
    pub sources: FilteredSources,
    /// What the version makes of the EVM version that is set
    pub evm_version: Option<String>,
}

/// What [`VersionedFilteredSources`] hold.
#[verifier::ext_equal]
pub struct VersionedFilteredSourcesView {
    pub solc: SolcView,
    pub version: VersionView,
    pub sources: Seq<(Seq<char>, FilteredSource)>,
    pub evm_version: Option<Seq<char>>,
}

impl View for VersionedFilteredSources {
    type V = VersionedFilteredSourcesView;

    open spec fn view(&self) -> VersionedFilteredSourcesView {
        VersionedFilteredSourcesView {
            solc: self.solc@,
            version: self.version@,
            sources: self.sources.0@,
            evm_version: text::opt_text(self.evm_version),
        }
    }
}

/// What resolving the imports of source files leaves to be known.
pub struct GraphEdges {
    /// Where imports were found
    pub include_paths: PathSet,
}

/// A run of the compiler.
pub struct CompilerRun {
    pub input: ZkSolcInput,
    /// The source files of the input that have to be compiled
    pub dirty: Vec<String>,
}

/// What a [`CompilerRun`] holds.
#[verifier::ext_equal]
pub struct CompilerRunView {
    pub input: ZkSolcInputView,
    pub dirty: Seq<Seq<char>>,
}

impl View for CompilerRun {
    type V = CompilerRunView;

    open spec fn view(&self) -> CompilerRunView {
        CompilerRunView { input: self.input@, dirty: text::texts(self.dirty@) }
    }
}

/// The runs of the compiler with a version of `solc`.
pub struct VersionRuns {
    pub solc: Solc,
    pub version: Version,
    pub runs: Vec<CompilerRun>,
}

/// What [`VersionRuns`] hold.
#[verifier::ext_equal]
pub struct VersionRunsView {
    pub solc: SolcView,
    pub version: VersionView,
    pub runs: Seq<CompilerRunView>,
}

/// What runs hold.
pub open spec fn run_views(runs: Seq<CompilerRun>) -> Seq<CompilerRunView> {
    runs.map_values(|run: CompilerRun| run@)
}

impl View for VersionRuns {
    type V = VersionRunsView;

    open spec fn view(&self) -> VersionRunsView {
        VersionRunsView {
            solc: self.solc@,
            version: self.version@,
            runs: run_views(self.runs@),
        }
    }
}

/// Whether a path is the same as one of a list.
pub open spec fn is_among(paths: Seq<Seq<char>>, path: Seq<char>) -> bool {
    exists|i: int| 0 <= i < paths.len() && path::same_path(#[trigger] paths[i], path)
}

/// The source files of an input that have to be compiled.
pub open spec fn dirty_of(sources: Seq<(Seq<char>, Source)>, dirty: Seq<Seq<char>>) -> Seq<
    Seq<char>,
>
    decreases sources.len(),
{
    if sources.len() == 0 {
        Seq::empty()
    } else if is_among(dirty, sources.last().0) {
        dirty_of(sources.drop_last(), dirty).push(sources.last().0)
    } else {
        dirty_of(sources.drop_last(), dirty)
    }
}

/// The runs for inputs: one for each that has a source file that has to be compiled, with the
/// project's remappings and without its root in the paths.
pub open spec fn runs_for(
    inputs: Seq<ZkSolcInputView>,
    dirty: Seq<Seq<char>>,
    remappings: Seq<RemappingView>,
    root: Seq<char>,
) -> Seq<CompilerRunView>
    decreases inputs.len(),
{
    if inputs.len() == 0 {
        Seq::empty()
    } else {
        let before = runs_for(inputs.drop_last(), dirty, remappings, root);
        let last = inputs.last();
        let files = dirty_of(last.sources, dirty);
        if files.len() == 0 {
            before
        } else {
            before.push(
                CompilerRunView {
                    input: input::stripped_input(input::remapped_input(last, remappings), root),
                    dirty: files,
                },
            )
        }
    }
}

/// What has to be known of a project to compile it.
#[verifier::ext_equal]
pub struct PathsView {
    pub root: Seq<char>,
    pub allowed_paths: Seq<(Seq<char>, ())>,
    pub include_paths: Seq<(Seq<char>, ())>,
    pub remappings: Seq<RemappingView>,
}

/// The runs with one version of `solc`.
pub open spec fn version_runs(
    sources: VersionedFilteredSourcesView,
    settings: ZkSolcSettingsView,
    paths: PathsView,
) -> VersionRunsView {
    VersionRunsView {
        solc: SolcView {
            base_path: Some(paths.root),
            allow_paths: paths.allowed_paths,
            include_paths: paths.include_paths,
            ..sources.solc
        },
        version: sources.version,
        runs: runs_for(
            input::inputs_for(
                plain_sources(sources.sources),
                input::with_evm_version(settings, sources.evm_version),
            ),
            dirty_paths(sources.sources),
            paths.remappings,
            paths.root,
        ),
    }
}

/// The runs with all versions of `solc` that there are source files for.
pub open spec fn all_runs(
    sources: Seq<VersionedFilteredSourcesView>,
    settings: ZkSolcSettingsView,
    paths: PathsView,
) -> Seq<VersionRunsView>
    decreases sources.len(),
{
    if sources.len() == 0 {
        Seq::empty()
    } else {
        let before = all_runs(sources.drop_last(), settings, paths);
        if sources.last().sources.len() == 0 {
            before
        } else {
            before.push(version_runs(sources.last(), settings, paths))
        }
    }
}

/// The paths of a project, with those where imports were found.
pub open spec fn paths_view(paths: ProjectPathsConfig, graph: GraphEdges) -> PathsView {
    PathsView {
        root: paths.root@,
        allowed_paths: paths.allowed_paths@,
        include_paths: maps::extended::<ByPath, ()>(paths.include_paths@, graph.include_paths@),
        remappings: config::remapping_views(paths.remappings@),
    }
}

/// Whether a path is the same as one of a list
fn find_path(paths: &Vec<String>, path: &str) -> (res: bool)
    ensures
        res == is_among(text::texts(paths@), path@),
{
    let ghost all = text::texts(paths@);
    let mut i: usize = 0;
    assert(all.len() == paths.len());
    while i < paths.len()
        invariant
            all == text::texts(paths@),
            all.len() == paths.len(),
            i <= paths.len(),
            forall|j: int| 0 <= j < i ==> !path::same_path(#[trigger] all[j], path@),
        decreases paths.len() - i,
    {
        assert(all[i as int] == paths@[i as int]@);
        if path::same(paths[i].as_str(), path) {
            return true;
        }
        i = i + 1;
    }
    false
}

/// The source files of an input that have to be compiled
fn find_dirty(sources: &Sources, dirty: &Vec<String>) -> (res: Vec<String>)
    ensures
        text::texts(res@) == dirty_of(sources@, text::texts(dirty@)),
{
    let ghost all = sources@;
    let ghost list = text::texts(dirty@);
    let mut res: Vec<String> = Vec::new();
    let mut i: usize = 0;
    assert(all.take(0) =~= Seq::<(Seq<char>, Source)>::empty());
    assert(text::texts(res@) =~= dirty_of(all.take(0), list));
    while i < sources.len()
        invariant
            all == sources@,
            list == text::texts(dirty@),
            i <= all.len(),
            text::texts(res@) == dirty_of(all.take(i as int), list),
        decreases all.len() - i,
    {
        assert(all.take(i + 1).drop_last() =~= all.take(i as int));
        let file = sources.key_at(i);
        if find_path(dirty, file.as_str()) {
            let ghost before = text::texts(res@);
            let copy: String = file.clone();
            res.push(copy);
            assert(text::texts(res@) =~= before.push(copy@));
        }
        i = i + 1;
    }
    assert(all.take(i as int) =~= all);
    res
}

/// The runs for inputs
fn plan_runs(
    inputs: Vec<ZkSolcInput>,
    dirty: &Vec<String>,
    paths: &ProjectPathsConfig,
) -> (res: Vec<CompilerRun>)
    ensures
        run_views(res@) == runs_for(
            input::input_views(inputs@),
            text::texts(dirty@),
            config::remapping_views(paths.remappings@),
            paths.root@,
        ),
{
    let ghost all = input::input_views(inputs@);
    let ghost list = text::texts(dirty@);
    let ghost remappings = config::remapping_views(paths.remappings@);
    let ghost root = paths.root@;
    let mut res: Vec<CompilerRun> = Vec::new();
    assert(all.len() == inputs.len());
    assert(all.take(0) =~= Seq::<ZkSolcInputView>::empty());
    assert(run_views(res@) =~= runs_for(all.take(0), list, remappings, root));
    for given in it: inputs
        invariant
            input::input_views(it.seq()) == all,
            all.len() == it.seq().len(),
            list == text::texts(dirty@),
            remappings == config::remapping_views(paths.remappings@),
            root == paths.root@,
            run_views(res@) == runs_for(all.take(it.index() as int), list, remappings, root),
    {
        let ghost i = it.index() as int;
        assert(all[i] == given@);
        assert(all.take(i + 1).drop_last() =~= all.take(i));
        let files = find_dirty(&given.sources, dirty);
        assert(text::texts(files@).len() == files.len());
        if files.len() > 0 {
            let ghost before = run_views(res@);
            let mut input = given.with_remappings(copy_remappings(&paths.remappings));
            input.strip_prefix(paths.root.as_str());
            let run = CompilerRun { input, dirty: files };
            res.push(run);
            assert(run_views(res@) =~= before.push(run@));
        }
    }
    assert(all.take(all.len() as int) =~= all);
    res
}

/// What the source files of all versions hold.
pub open spec fn filtered_views(list: Seq<VersionedFilteredSources>) -> Seq<
    VersionedFilteredSourcesView,
> {
    list.map_values(|item: VersionedFilteredSources| item@)
}

/// What the runs of all versions hold.
pub open spec fn version_run_views(list: Seq<VersionRuns>) -> Seq<VersionRunsView> {
    list.map_values(|item: VersionRuns| item@)
}

/// The runs that compile the input set sequentially
///
/// Nothing is run for a version without source files, and none of the inputs whose source files
/// are all clean.
pub fn compile_sequential(
    input: Vec<VersionedFilteredSources>,
    settings: &ZkSolcSettings,
    paths: &ProjectPathsConfig,
    graph: &GraphEdges,
) -> (res: Vec<VersionRuns>)
    ensures
        version_run_views(res@) == all_runs(
            filtered_views(input@),
            settings@,
            paths_view(*paths, *graph),
        ),
{
    let ghost all = filtered_views(input@);
    let ghost known = paths_view(*paths, *graph);
    let mut include_paths = copy_paths(&paths.include_paths);
    maps::extend(&mut include_paths, copy_paths(&graph.include_paths));
    let mut res: Vec<VersionRuns> = Vec::new();
    assert(all.len() == input.len());
    assert(all.take(0) =~= Seq::<VersionedFilteredSourcesView>::empty());
    assert(version_run_views(res@) =~= all_runs(all.take(0), settings@, known));
    for given in it: input
        invariant
            filtered_views(it.seq()) == all,
            all.len() == it.seq().len(),
            known == paths_view(*paths, *graph),
            include_paths@ == known.include_paths,
            version_run_views(res@) == all_runs(
                all.take(it.index() as int),
                settings@,
                known,
            ),
    {
        let ghost i = it.index() as int;
        assert(all[i] == given@);
        assert(all.take(i + 1).drop_last() =~= all.take(i));
        if !given.sources.is_empty() {
            let ghost before = version_run_views(res@);
            let solc = given.solc.with_base_path(paths.root.clone()).with_allowed_paths(
                copy_paths(&paths.allowed_paths),
            ).with_include_paths(copy_paths(&include_paths));
            let dirty_files = given.sources.dirty_files();
            let opt_settings = settings.clone();
            let sources = given.sources.into_sources();
            let inputs = ZkSolcInput::build(sources, opt_settings, given.evm_version);
            let runs = plan_runs(inputs, &dirty_files, paths);
            let job = VersionRuns { solc, version: given.version, runs };
            assert(job@ == version_runs(all[i], settings@, known));
            res.push(job);
            assert(version_run_views(res@) =~= before.push(job@));
        }
    }
    assert(all.take(all.len() as int) =~= all);
    res
}

impl AggregatedCompilerOutput {
    /// Adds what came of a run with a version
    ///
    /// `recompiled` tells whether the run was repeated with missing libraries detection. The
    /// paths of all files are joined to the root of the project.
    pub fn add_run(&mut self, version: Version, output: CompilerOutput, recompiled: bool, root: &str)
        ensures
            final(self).errors@ == old(self).errors@ + output.errors@,
            final(self).sources@ == output::with_sources(
                old(self).sources@,
                maps::joined_keys(output.sources@, root@),
                version@,
            ),
            final(self).contracts@ == output::with_contracts(
                old(self).contracts@,
                maps::joined_keys(output.contracts@, root@),
                version@,
            ),
            final(self).recompiled_with_detect_missing_libraries == (old(
                self,
            ).recompiled_with_detect_missing_libraries || recompiled),
    {
        if recompiled {
            self.recompiled_with_detect_missing_libraries = true;
        }
        self.extend(version, output.join_all(root));
    }
}

/// Which `solc` a project is compiled with.
pub enum CompilerConfig {
    /// One for all files
    Specific(Solc),
    /// For each file one that its version requirement allows
    AutoDetect,
}

/// A project, and how it is compiled.
pub struct Project {
    pub paths: ProjectPathsConfig,
    pub zksync_zksolc: ZkSolc,
    pub zksync_zksolc_config: ZkSolcConfig,
    pub compiler_config: CompilerConfig,
    /// Whether no artifacts are written
    pub no_artifacts: bool,
    /// Whether the project is compiled on Windows, where `\\` parts paths
    pub windows: bool,
    /// Whether the separators in all paths of what comes of a compilation are to be `/`
    pub slash_paths: bool,
    /// The codes of warnings that do not count
    pub ignored_error_codes: Vec<u64>,
    /// The files whose warnings do not count
    pub ignored_file_paths: Vec<String>,
    /// From which severity on a message is an error
    pub compiler_severity_filter: Severity,
}

/// Determines how the `solc <-> sources` pairs are executed
pub enum CompilerSources {
    /// Compile all these sequentially
    Sequential(Vec<VersionedSources>),
}

/// Determines how the `solc <-> sources` pairs are executed
pub enum FilteredCompilerSources {
    /// Compile all these sequentially
    Sequential(Vec<VersionedFilteredSources>),
}

impl CompilerSources {
    /// The pairs.
    pub open spec fn pairs(self) -> Seq<VersionedSources> {
        match self {
            CompilerSources::Sequential(pairs) => pairs@,
        }
    }

    /// Converts all `\\` separators to `/`
    ///
    /// This effectively ensures that `solc` can find imported files like `/src/Cheats.sol` in the
    /// VFS (the input as json) under `src/Cheats.sol`.
    ///
    /// `windows` tells whether the paths are those of Windows. Elsewhere a `\\` is no separator,
    /// and the paths stay as they are.
    pub fn slash_paths(self, windows: bool) -> (res: Self)
        ensures
            pair_views(res.pairs()) == slashed_pairs(pair_views(self.pairs()), windows),
    {
        if !windows {
            return self;
        }
        match self {
            CompilerSources::Sequential(given) => {
                let ghost all = given@;
                let mut res: Vec<VersionedSources> = Vec::new();
                for pair in it: given
                    invariant
                        it.seq() == all,
                        res.len() == it.index(),
                        forall|i: int|
                            #![trigger res@[i]]
                            0 <= i < res.len() ==> res@[i]@ == all[i]@.slashed(),
                {
                    res.push(
                        VersionedSources {
                            solc: pair.solc,
                            version: pair.version,
                            sources: maps::slash_keys(pair.sources),
                            evm_version: pair.evm_version,
                        },
                    );
                }
                assert(pair_views(res@) =~= slashed_pairs(pair_views(all), true));
                CompilerSources::Sequential(res)
            },
        }
    }

    /// Filters out all sources that don't need to be compiled
    ///
    /// `filtered` is, for each pair, what is left of its source files.
    pub fn filtered(self, filtered: Vec<FilteredSources>) -> (res: FilteredCompilerSources)
        requires
            filtered@.len() == self.pairs().len(),
        ensures
            res.pairs().len() == self.pairs().len(),
            forall|i: int|
                #![trigger res.pairs()[i]]
                0 <= i < res.pairs().len() ==> {
                    &&& res.pairs()[i].sources == filtered@[i]
                    &&& res.pairs()[i].solc == self.pairs()[i].solc
                    &&& res.pairs()[i].version == self.pairs()[i].version
                    &&& res.pairs()[i].evm_version == self.pairs()[i].evm_version
                },
    {
        match self {
            CompilerSources::Sequential(given) => {
                let ghost all = given@;
                let ghost parts = filtered@;
                let mut filtered = filtered;
                let mut given = given;
                let mut back: Vec<VersionedFilteredSources> = Vec::new();
                while given.len() > 0
                    invariant
                        all.len() == parts.len(),
                        given@ == all.take(given@.len() as int),
                        filtered@ == parts.take(given@.len() as int),
                        given@.len() <= all.len(),
                        back.len() == all.len() - given.len(),
                        forall|i: int|
                            #![trigger back@[i]]
                            0 <= i < back.len() ==> {
                                let k = all.len() - 1 - i;
                                &&& back@[i].sources == parts[k]
                                &&& back@[i].solc == all[k].solc
                                &&& back@[i].version == all[k].version
                                &&& back@[i].evm_version == all[k].evm_version
                            },
                    decreases given.len(),
                {
                    let ghost n = given@.len() as int;
                    if let (Some(pair), Some(sources)) = (given.pop(), filtered.pop()) {
                        assert(given@ =~= all.take(n - 1));
                        assert(filtered@ =~= parts.take(n - 1));
                        back.push(
                            VersionedFilteredSources {
                                solc: pair.solc,
                                version: pair.version,
                                sources,
                                evm_version: pair.evm_version,
                            },
                        );
                    }
                }
                let ghost turned = back@;
                let mut res: Vec<VersionedFilteredSources> = Vec::new();
                while back.len() > 0
                    invariant
                        back@ == turned.take(back@.len() as int),
                        back@.len() <= turned.len(),
                        res.len() == turned.len() - back.len(),
                        forall|i: int|
                            #![trigger res@[i]]
                            0 <= i < res.len() ==> res@[i] == turned[turned.len() - 1 - i],
                    decreases back.len(),
                {
                    let ghost n = back@.len() as int;
                    if let Some(pair) = back.pop() {
                        assert(back@ =~= turned.take(n - 1));
                        res.push(pair);
                    }
                }
                FilteredCompilerSources::Sequential(res)
            },
        }
    }
}

impl FilteredCompilerSources {
    /// The pairs.
    pub open spec fn pairs(self) -> Seq<VersionedFilteredSources> {
        match self {
            FilteredCompilerSources::Sequential(pairs) => pairs@,
        }
    }

    /// The runs that compile all the files
    pub fn compile(
        self,
        settings: &ZkSolcSettings,
        paths: &ProjectPathsConfig,
        graph: &GraphEdges,
    ) -> (res: Vec<VersionRuns>)
        ensures
            version_run_views(res@) == all_runs(
                filtered_views(self.pairs()),
                settings@,
                paths_view(*paths, *graph),
            ),
    {
        match self {
            FilteredCompilerSources::Sequential(input) => compile_sequential(
                input,
                settings,
                paths,
                graph,
            ),
        }
    }
}

/// Compiles the source files of a project.
pub struct ProjectCompiler<'a> {
    /// Contains the relationship of the source files and their imports
    pub edges: GraphEdges,
    pub project: &'a Project,
    /// how to compile all the sources
    pub sources: CompilerSources,
}

/// The source files of a project, with their imports.
pub enum Resolved {
    /// All of them, and what the pinned version makes of the EVM version that is set
    Together(Sources, Option<String>),
    /// By the version of `solc` that their requirements allow
    ByVersion(Vec<VersionedSources>),
}

/// Whether none of the patterns matches.
pub open spec fn is_free(matches: Seq<bool>) -> bool {
    forall|i: int| 0 <= i < matches.len() ==> !(#[trigger] matches[i])
}

/// The files that no pattern matches.
pub open spec fn not_avoided(files: Seq<Seq<char>>, matches: Seq<Vec<bool>>) -> Seq<Seq<char>>
    decreases files.len(),
{
    if files.len() == 0 {
        Seq::empty()
    } else {
        let before = not_avoided(files.drop_last(), matches);
        if is_free(matches[files.len() - 1]@) {
            before.push(files.last())
        } else {
            before
        }
    }
}

/// The files of a project that are to be compiled: those that no pattern matches.
pub open spec fn chosen_files(files: Seq<Seq<char>>, avoid: Option<Vec<Vec<bool>>>) -> Seq<
    Seq<char>,
> {
    match avoid {
        Some(matches) => not_avoided(files, matches@),
        None => files,
    }
}

fn find_match(matches: &Vec<bool>) -> (res: bool)
    ensures
        res == !is_free(matches@),
{
    let mut i: usize = 0;
    while i < matches.len()
        invariant
            i <= matches.len(),
            forall|j: int| 0 <= j < i ==> !(#[trigger] matches@[j]),
        decreases matches.len() - i,
    {
        if matches[i] {
            return true;
        }
        i = i + 1;
    }
    false
}

/// The files of a project that are to be compiled
///
/// `avoid` tells, where contracts are to be avoided, for each file which of the patterns
/// match it.
pub fn choose_files(files: Vec<String>, avoid: Option<Vec<Vec<bool>>>) -> (res: Vec<String>)
    requires
        avoid matches Some(matches) ==> matches@.len() == files@.len(),
    ensures
        text::texts(res@) == chosen_files(text::texts(files@), avoid),
{
    match avoid {
        Some(matches) => {
            let ghost all = text::texts(files@);
            let mut res: Vec<String> = Vec::new();
            let mut i: usize = 0;
            assert(all.len() == files.len());
            assert(all.take(0) =~= Seq::<Seq<char>>::empty());
            assert(text::texts(res@) =~= not_avoided(all.take(0), matches@));
            while i < files.len()
                invariant
                    all == text::texts(files@),
                    all.len() == files.len(),
                    matches@.len() == files@.len(),
                    i <= files.len(),
                    text::texts(res@) == not_avoided(all.take(i as int), matches@),
                decreases files.len() - i,
            {
                assert(all.take(i + 1).drop_last() =~= all.take(i as int));
                assert(all.take(i + 1).last() == files@[i as int]@);
                if !find_match(&matches[i]) {
                    let ghost before = text::texts(res@);
                    let file: String = files[i].clone();
                    res.push(file);
                    assert(text::texts(res@) =~= before.push(file@));
                }
                i = i + 1;
            }
            assert(all.take(i as int) =~= all);
            res
        },
        None => files,
    }
}

/// The source files by version: all with the pinned `solc`, or by what their requirements allow.
pub open spec fn resolved_pairs(project: Project, sources: Resolved) -> Seq<VersionedSourcesView> {
    match (project.compiler_config, sources) {
        (CompilerConfig::Specific(solc), Resolved::Together(all, evm_version)) => seq![
            VersionedSourcesView {
                solc: solc@,
                version: solc.version@,
                sources: all@,
                evm_version: text::opt_text(evm_version),
            },
        ],
        (_, Resolved::ByVersion(versions)) => pair_views(versions@),
        _ => Seq::empty(),
    }
}

impl<'a> ProjectCompiler<'a> {
    /// Bootstraps the compilation process with the source files of the project and their imports
    ///
    /// Where the project has a pinned `solc`, the source files are all compiled with it.
    pub fn with_sources(project: &'a Project, sources: Resolved, edges: GraphEdges) -> (res: Self)
        requires
            (sources is Together) == (project.compiler_config is Specific),
        ensures
            res.project == project,
            res.edges == edges,
            pair_views(res.sources.pairs()) == resolved_pairs(*project, sources),
    {
        match sources {
            Resolved::Together(all, evm_version) => match &project.compiler_config {
                CompilerConfig::Specific(solc) => {
                    let res = ProjectCompiler::with_sources_and_solc(
                        project,
                        all,
                        evm_version,
                        edges,
                        solc.clone(),
                        solc.version.clone(),
                    );
                    assert(pair_views(res.sources.pairs()) =~= resolved_pairs(*project, sources));
                    res
                },
                CompilerConfig::AutoDetect => ProjectCompiler::with_sources_and_version_manager(
                    project,
                    Vec::new(),
                    edges,
                ),
            },
            Resolved::ByVersion(versions) => ProjectCompiler::with_sources_and_version_manager(
                project,
                versions,
                edges,
            ),
        }
    }

    /// Compiles the sources with a pinned `solc` instance
    pub fn with_sources_and_solc(
        project: &'a Project,
        sources: Sources,
        evm_version: Option<String>,
        edges: GraphEdges,
        solc: Solc,
        solc_version: Version,
    ) -> (res: Self)
        ensures
            res.project == project,
            res.edges == edges,
            res.sources.pairs().len() == 1,
            res.sources.pairs()[0] == (VersionedSources {
                solc,
                version: solc_version,
                sources,
                evm_version,
            }),
    {
        let mut sources_by_version: Vec<VersionedSources> = Vec::new();
        sources_by_version.push(
            VersionedSources { solc, version: solc_version, sources, evm_version },
        );
        let sources = CompilerSources::Sequential(sources_by_version);
        ProjectCompiler { edges, project, sources }
    }

    /// Compiles the sources with the versions of `solc` that their requirements allow
    pub fn with_sources_and_version_manager(
        project: &'a Project,
        sources_by_version: Vec<VersionedSources>,
        edges: GraphEdges,
    ) -> (res: Self)
        ensures
            res.project == project,
            res.edges == edges,
            res.sources.pairs() == sources_by_version@,
    {
        let sources = CompilerSources::Sequential(sources_by_version);
        ProjectCompiler { edges, project, sources }
    }

    /// Does basic preprocessing: keeps only the dirty sources and all their imports
    ///
    /// `filtered` is, for each version, what is left of its source files.
    pub fn preprocess(self, filtered: Vec<FilteredSources>) -> (res: PreprocessedState<'a>)
        requires
            filtered@.len() == self.sources.pairs().len(),
        ensures
            res.project == self.project,
            res.edges == self.edges,
            filtered_views(res.sources.pairs()) == filtered_pairs(
                pair_views(self.sources.pairs()),
                filtered@,
            ),
    {
        let ghost pairs = self.sources.pairs();
        let sources = self.sources.filtered(filtered);
        assert(filtered_views(sources.pairs()) =~= filtered_pairs(pair_views(pairs), filtered@)) by {
            let after = filtered_views(sources.pairs());
            let wanted = filtered_pairs(pair_views(pairs), filtered@);
            assert forall|i: int| 0 <= i < after.len() implies after[i] == wanted[i] by {
                assert(after[i] == sources.pairs()[i]@);
                assert(pair_views(pairs)[i] == pairs[i]@);
            }
        }
        PreprocessedState { sources, edges: self.edges, project: self.project }
    }
}

/// The state before the compiler is run.
pub struct PreprocessedState<'a> {
    /// Contains all the sources to compile.
    pub sources: FilteredCompilerSources,
    pub edges: GraphEdges,
    pub project: &'a Project,
}

impl<'a> PreprocessedState<'a> {
    /// The runs that compile all sources
    pub fn compile(self) -> (res: Vec<VersionRuns>)
        ensures
            version_run_views(res@) == all_runs(
                filtered_views(self.sources.pairs()),
                self.project.zksync_zksolc_config.settings@,
                paths_view(self.project.paths, self.edges),
            ),
    {
        self.sources.compile(
            &self.project.zksync_zksolc_config.settings,
            &self.project.paths,
            &self.edges,
        )
    }
}

/// Represents the state after `zksolc` was successfully invoked
pub struct CompiledState<'a> {
    pub output: AggregatedCompilerOutput,
    pub project: &'a Project,
}

/// What is made of the output of a project whose paths are joined to its root.
pub open spec fn converted_output(
    output: AggregatedCompilerOutputView,
    project: Project,
    ctx: OutputContext,
) -> Option<zk::Progress> {
    zk::converted(output.contracts, output.sources, ctx, project.paths.zksync_artifacts@)
}

/// The artifacts of a project: with their paths joined to the artifacts folder if they are
/// written.
pub open spec fn project_artifacts(
    progress: zk::Progress,
    project: Project,
    write: bool,
) -> Seq<(Seq<char>, Seq<(Seq<char>, Seq<zk::ArtifactFileView>)>)> {
    if write {
        zk::joined_files(progress.artifacts, project.paths.zksync_artifacts@)
    } else {
        progress.artifacts
    }
}

impl<'a> CompiledState<'a> {
    /// Source paths get stripped before handing them over to solc, so solc never uses absolute
    /// paths, instead `--base-path <root dir>` is set. this way any metadata that's derived from
    /// data (paths) is relative to the project dir and should be independent of the current OS
    /// disk. However internally we still want to keep absolute paths, so we join the contracts
    /// again
    pub fn new(project: &'a Project, output: AggregatedCompilerOutput) -> (res: Self)
        ensures
            res.project == project,
            res.output@ == output::joined_output(output@, project.paths.root@),
    {
        CompiledState { output: output.join_all(project.paths.root.as_str()), project }
    }

    /// advance to the next state by making all artifacts
    ///
    /// All output contracts are to be written to disk if enabled in the `Project` and if the build
    /// was successful: `has_error` tells whether it was not.
    pub fn write_artifacts(self, ctx: OutputContext<'_>, has_error: bool) -> (res: ArtifactsState<
        'a,
    >)
        requires
            converted_output(self.output@, *self.project, ctx) is Some,
        ensures
            res.output == self.output,
            res.project == self.project,
            res.write == (!self.project.no_artifacts && !has_error),
            converted_output(self.output@, *self.project, ctx) matches Some(progress)
                && res.compiled_artifacts@ == project_artifacts(
                progress,
                *self.project,
                res.write,
            ),
    {
        let handler = ZkArtifactOutput();
        let paths = &self.project.paths;
        let write = !self.project.no_artifacts && !has_error;
        let compiled_artifacts = if self.project.no_artifacts {
            handler.output_to_artifacts(&self.output.contracts, &self.output.sources, ctx, paths)
        } else if has_error {
            handler.output_to_artifacts(&self.output.contracts, &self.output.sources, ctx, paths)
        } else {
            handler.on_output(&self.output.contracts, &self.output.sources, paths, ctx)
        };
        ArtifactsState { output: self.output, project: self.project, compiled_artifacts, write }
    }
}

/// Represents the state after all artifacts were made
pub struct ArtifactsState<'a> {
    pub output: AggregatedCompilerOutput,
    pub project: &'a Project,
    pub compiled_artifacts: Artifacts,
    /// Whether the artifacts are to be written to disk
    pub write: bool,
}

/// Whether the cache file is left as it is.
pub open spec fn skips_cache(
    project: Project,
    output: AggregatedCompilerOutput,
    has_error: bool,
) -> bool {
    project.no_artifacts || has_error || output.recompiled_with_detect_missing_libraries
}

impl<'a> ArtifactsState<'a> {
    /// Whether the cache file is not to be written
    ///
    /// A cache that was recompiled with missing libraries detection is not written, as its settings
    /// don't match those of the project.
    pub fn skip_write_to_disk(&self, has_error: bool) -> (res: bool)
        ensures
            res == skips_cache(*self.project, self.output, has_error),
    {
        self.project.no_artifacts || has_error
            || self.output.recompiled_with_detect_missing_libraries
    }

    /// Concludes the compilation with the artifacts that were found in the cache
    pub fn write_cache(self, cached_artifacts: Artifacts) -> (res: ProjectCompileOutput)
        ensures
            res@ == compile_output(
                *self.project,
                self.output@,
                self.compiled_artifacts@,
                cached_artifacts@,
            ),
    {
        let codes = self.project.ignored_error_codes.clone();
        assert(codes@ =~= self.project.ignored_error_codes@);
        let files = text::copy_from(&self.project.ignored_file_paths, 0);
        assert(text::texts(self.project.ignored_file_paths@).skip(0) =~= text::texts(
            self.project.ignored_file_paths@,
        ));
        ProjectCompileOutput {
            compiler_output: self.output,
            compiled_artifacts: self.compiled_artifacts,
            cached_artifacts,
            ignored_error_codes: codes,
            ignored_file_paths: files,
            compiler_severity_filter: self.project.compiler_severity_filter,
        }
    }
}

/// What comes of compiling a project.
pub struct ProjectCompileOutput {
    pub compiler_output: AggregatedCompilerOutput,
    /// The artifacts of what was compiled
    pub compiled_artifacts: Artifacts,
    /// The artifacts of what was not compiled again
    pub cached_artifacts: Artifacts,
    pub ignored_error_codes: Vec<u64>,
    pub ignored_file_paths: Vec<String>,
    pub compiler_severity_filter: Severity,
}

/// What a [`ProjectCompileOutput`] holds.
#[verifier::ext_equal]
pub struct ProjectCompileOutputView {
    pub compiler_output: AggregatedCompilerOutputView,
    pub compiled_artifacts: Seq<(Seq<char>, Seq<(Seq<char>, Seq<zk::ArtifactFileView>)>)>,
    pub cached_artifacts: Seq<(Seq<char>, Seq<(Seq<char>, Seq<zk::ArtifactFileView>)>)>,
    pub ignored_error_codes: Seq<u64>,
    pub ignored_file_paths: Seq<Seq<char>>,
    pub compiler_severity_filter: Severity,
}

impl View for ProjectCompileOutput {
    type V = ProjectCompileOutputView;

    open spec fn view(&self) -> ProjectCompileOutputView {
        ProjectCompileOutputView {
            compiler_output: self.compiler_output@,
            compiled_artifacts: self.compiled_artifacts@,
            cached_artifacts: self.cached_artifacts@,
            ignored_error_codes: self.ignored_error_codes@,
            ignored_file_paths: text::texts(self.ignored_file_paths@),
            compiler_severity_filter: self.compiler_severity_filter,
        }
    }
}

/// What comes of compiling a project, given what the compiler emitted and all artifacts.
pub open spec fn compile_output(
    project: Project,
    output: AggregatedCompilerOutputView,
    compiled: Seq<(Seq<char>, Seq<(Seq<char>, Seq<zk::ArtifactFileView>)>)>,
    cached: Seq<(Seq<char>, Seq<(Seq<char>, Seq<zk::ArtifactFileView>)>)>,
) -> ProjectCompileOutputView {
    ProjectCompileOutputView {
        compiler_output: output,
        compiled_artifacts: compiled,
        cached_artifacts: cached,
        ignored_error_codes: project.ignored_error_codes@,
        ignored_file_paths: text::texts(project.ignored_file_paths@),
        compiler_severity_filter: project.compiler_severity_filter,
    }
}

impl ProjectCompileOutputView {
    /// What comes of a compilation with `/` in place of each `\\` of its paths.
    pub open spec fn slashed(self) -> ProjectCompileOutputView {
        ProjectCompileOutputView {
            compiler_output: output::slashed_output(self.compiler_output),
            compiled_artifacts: zk::slashed_files(self.compiled_artifacts),
            cached_artifacts: zk::slashed_files(self.cached_artifacts),
            ..self
        }
    }

    /// What comes of a compilation with `/` as the only separator of its paths: on Windows in
    /// place of each `\\`.
    pub open spec fn slashed_on(self, windows: bool) -> ProjectCompileOutputView {
        if windows {
            self.slashed()
        } else {
            self
        }
    }
}

impl ProjectCompileOutput {
    /// Converts all `\\` separators in the paths of files and artifacts to `/`
    ///
    /// `windows` tells whether the paths are those of Windows. Elsewhere a `\\` is no separator,
    /// and the paths stay as they are.
    pub fn slash_paths(self, windows: bool) -> (res: Self)
        ensures
            res@ == self@.slashed_on(windows),
    {
        ProjectCompileOutput {
            compiler_output: self.compiler_output.slash_paths(windows),
            compiled_artifacts: self.compiled_artifacts.slash_paths(windows),
            cached_artifacts: self.cached_artifacts.slash_paths(windows),
            ignored_error_codes: self.ignored_error_codes,
            ignored_file_paths: self.ignored_file_paths,
            compiler_severity_filter: self.compiler_severity_filter,
        }
    }
}

} // verus!
