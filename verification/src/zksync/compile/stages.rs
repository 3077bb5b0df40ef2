//! The stages of compiling a project.
use crate::error::SolcError;
use crate::maps;
use crate::maps::{ByPath, ByText, PathMap};
use crate::path;
use crate::text;
use crate::zksync::artifact_output::zk;
use crate::zksync::artifact_output::zk::{ArtifactFileView, Artifacts};
use crate::zksync::artifact_output::OutputContext;
use crate::zksync::compile::output;
use crate::zksync::compile::output::{
    AggregatedCompilerOutputView, VersionedContractView, VersionedSourceFileView,
};
use crate::zksync::compile::project;
use crate::zksync::compile::project::{
    choose_files, ArtifactsState, CompiledState, FilteredSources, GraphEdges, Project,
    ProjectCompileOutput, ProjectCompileOutputView, ProjectCompiler, Resolved, VersionRuns,
    VersionRunsView, VersionedSourcesView,
};
use crate::zksync::compile::runs;
use crate::zksync::compile::runs::{gather_runs, RunEvent};
use crate::zksync::compilers::zksolc::input::{Source, Sources};
use vstd::prelude::*;
use vstd::string::*;

verus! {

/// What is to be done next to compile a project.
pub enum Stage<'a> {
    /// Read these files, one after the other, up to the first that cannot be read
    Read(&'a Project, Vec<String>),
    /// Add all imports of the source files, and sort them by version if no `solc` is pinned
    Resolve(&'a Project, Sources),
    /// Read the cache, and tell for each version what is left of its source files to compile
    Filter(ProjectCompiler<'a>),
    /// Carry out the plan
    Run(&'a Project, Vec<VersionRuns>),
    /// Tell what the cache knows of artifacts, and whether the messages make the build fail
    Judge(CompiledState<'a>),
    /// Write the artifacts to disk; it is kept whether the messages make the build fail
    Write(ArtifactsState<'a>, bool),
    /// Update the cache and write it if that is wanted
    Consume(ArtifactsState<'a>, bool),
    /// Nothing: this is what comes of it
    Finished(ProjectCompileOutput),
    /// Nothing: the compilation failed
    Failed(SolcError),
}

/// What came of a stage.
pub enum StageEvent<'c> {
    /// The contents of the files, up to the first that cannot be read
    Read(Vec<Result<String, SolcError>>),
    /// The source files with their imports
    Resolved(Result<(Resolved, GraphEdges), SolcError>),
    /// What is left of the source files of each version
    Filtered(Result<Vec<FilteredSources>, SolcError>),
    /// What came of the steps of the plan
    Ran(Vec<RunEvent>),
    /// What the cache knows of artifacts, and whether the messages make the build fail
    Judged(OutputContext<'c>, bool),
    /// Whether the artifacts could be written
    Written(Result<(), SolcError>),
    /// The artifacts that were found in the cache
    Consumed(Result<Artifacts, SolcError>),
}

/// The first error among contents of files.
pub open spec fn first_unread(contents: Seq<Result<String, SolcError>>) -> Option<SolcError>
    decreases contents.len(),
{
    if contents.len() == 0 {
        None
    } else {
        match first_unread(contents.drop_last()) {
            Some(error) => Some(error),
            None => match contents.last() {
                Ok(_) => None,
                Err(error) => Some(error),
            },
        }
    }
}

/// Whether contents are those of files, read one after the other up to the first that cannot be
/// read.
pub open spec fn is_read(count: nat, contents: Seq<Result<String, SolcError>>) -> bool {
    &&& contents.len() <= count
    &&& forall|i: int| 0 <= i < contents.len() - 1 ==> (#[trigger] contents[i]) is Ok
    &&& first_unread(contents) is None ==> contents.len() == count
}

/// The first of the source files with their contents. Where two files have the same path, the
/// later one stays.
pub open spec fn read_sources(
    files: Seq<Seq<char>>,
    contents: Seq<Result<String, SolcError>>,
) -> Seq<(Seq<char>, Source)>
    decreases files.len(),
{
    if files.len() == 0 {
        Seq::empty()
    } else {
        maps::inserted::<ByPath, Source>(
            read_sources(files.drop_last(), contents),
            files.last(),
            Source { content: contents[files.len() - 1]->Ok_0 },
        )
    }
}

proof fn lemma_first_unread_stays(contents: Seq<Result<String, SolcError>>, count: nat)
    requires
        count <= contents.len(),
        first_unread(contents.take(count as int)) is Some,
    ensures
        first_unread(contents) == first_unread(contents.take(count as int)),
    decreases contents.len() - count,
{
    if count < contents.len() {
        assert(contents.take(count as int + 1).drop_last() =~= contents.take(count as int));
        lemma_first_unread_stays(contents, count + 1);
    } else {
        assert(contents.take(count as int) =~= contents);
    }
}

/// Puts together source files and their contents: the first error, or all source files
pub fn read_all(files: Vec<String>, contents: Vec<Result<String, SolcError>>) -> (res: Result<
    Sources,
    SolcError,
>)
    requires
        is_read(files@.len(), contents@),
    ensures
        match first_unread(contents@) {
            Some(error) => res == Err::<Sources, SolcError>(error),
            None => res matches Ok(sources) && sources@ == read_sources(
                text::texts(files@),
                contents@,
            ),
        },
{
    let ghost all = contents@;
    let ghost names = text::texts(files@);
    let mut res: Sources = PathMap::new();
    let mut at: usize = 0;
    assert(names.len() == files.len());
    assert(all.take(0) =~= Seq::<Result<String, SolcError>>::empty());
    assert(names.take(0) =~= Seq::<Seq<char>>::empty());
    for content in it: contents
        invariant
            it.seq() == all,
            at == it.index(),
            names == text::texts(files@),
            names.len() == files.len(),
            all.len() <= files.len(),
            first_unread(all.take(it.index() as int)) is None,
            res@ == read_sources(names.take(it.index() as int), all),
    {
        let ghost i = it.index() as int;
        assert(all.take(i + 1).drop_last() =~= all.take(i));
        assert(all.take(i + 1).last() == content);
        assert(names.take(i + 1).drop_last() =~= names.take(i));
        assert(names.take(i + 1).last() == files@[i]@);
        match content {
            Ok(content) => {
                res.insert(files[at].clone(), Source { content });
            },
            Err(error) => {
                proof {
                    lemma_first_unread_stays(all, (i + 1) as nat);
                }
                return Err(error);
            },
        }
        at = at + 1;
    }
    assert(all.take(all.len() as int) =~= all);
    assert(names.take(names.len() as int) =~= names);
    Ok(res)
}

/// The plan for the source files of a project.
pub open spec fn plan_for(
    project: Project,
    pairs: Seq<VersionedSourcesView>,
    edges: GraphEdges,
    filtered: Seq<FilteredSources>,
) -> Seq<VersionRunsView> {
    project::all_runs(
        project::filtered_pairs(pairs, filtered),
        project.zksync_zksolc_config.settings@,
        project::paths_view(project.paths, edges),
    )
}

/// What all runs of a plan emit, as the project has it: with the paths of all files joined to
/// its root.
pub open spec fn project_output(
    project: Project,
    plan: Seq<VersionRunsView>,
    events: Seq<RunEvent>,
) -> AggregatedCompilerOutputView {
    output::joined_output(
        runs::gathered(plan, events, project.paths.root@),
        project.paths.root@,
    )
}

/// What comes of a compilation, with `/` as the only separator of all paths if the project asks
/// for it.
pub open spec fn concluded(
    project: Project,
    output: ProjectCompileOutputView,
) -> ProjectCompileOutputView {
    if project.slash_paths {
        output.slashed_on(project.windows)
    } else {
        output
    }
}

impl<'a> Stage<'a> {
    /// Whether something can come of this stage.
    pub open spec fn allows(self, event: StageEvent) -> bool {
        match (self, event) {
            (Stage::Read(_, files), StageEvent::Read(contents)) => is_read(
                files@.len(),
                contents@,
            ),
            (Stage::Resolve(project, _), StageEvent::Resolved(resolved)) => resolved matches Ok(
                found,
            ) ==> (found.0 is Together) == (project.compiler_config is Specific),
            (Stage::Filter(compiler), StageEvent::Filtered(filtered)) => filtered matches Ok(
                left,
            ) ==> left@.len() == compiler.sources.pairs().len(),
            (Stage::Run(_, plan), StageEvent::Ran(events)) => runs::is_whole_run(
                project::version_run_views(plan@),
                events@,
            ),
            (Stage::Judge(state), StageEvent::Judged(ctx, _)) => project::converted_output(
                state.output@,
                *state.project,
                ctx,
            ) is Some,
            (Stage::Write(_, _), StageEvent::Written(_)) => true,
            (Stage::Consume(_, _), StageEvent::Consumed(_)) => true,
            _ => false,
        }
    }

    /// Whether a stage is the one after this one, given what came of it. The first error ends the
    /// compilation.
    pub open spec fn is_followed(self, event: StageEvent, next: Stage<'a>) -> bool {
        match (self, event) {
            (Stage::Read(project, files), StageEvent::Read(contents)) => match first_unread(
                contents@,
            ) {
                Some(error) => next == Stage::<'a>::Failed(error),
                None => next matches Stage::Resolve(same, sources) && same == project && sources@
                    == read_sources(text::texts(files@), contents@),
            },
            (Stage::Resolve(project, _), StageEvent::Resolved(resolved)) => match resolved {
                Err(error) => next == Stage::<'a>::Failed(error),
                Ok((sources, edges)) => next matches Stage::Filter(compiler) && {
                    &&& compiler.project == project
                    &&& compiler.edges == edges
                    &&& project::pair_views(compiler.sources.pairs()) == project::slashed_pairs(
                        project::resolved_pairs(*project, sources),
                        project.windows,
                    )
                },
            },
            (Stage::Filter(compiler), StageEvent::Filtered(filtered)) => match filtered {
                Err(error) => next == Stage::<'a>::Failed(error),
                Ok(left) => next matches Stage::Run(project, plan) && {
                    &&& project == compiler.project
                    &&& project::version_run_views(plan@) == plan_for(
                        *project,
                        project::pair_views(compiler.sources.pairs()),
                        compiler.edges,
                        left@,
                    )
                },
            },
            (Stage::Run(project, plan), StageEvent::Ran(events)) => match runs::first_failure(
                events@,
            ) {
                Some(error) => next == Stage::<'a>::Failed(error),
                None => next matches Stage::Judge(state) && {
                    &&& state.project == project
                    &&& state.output@ == project_output(
                        *project,
                        project::version_run_views(plan@),
                        events@,
                    )
                },
            },
            (Stage::Judge(state), StageEvent::Judged(ctx, has_error)) => {
                let write = !state.project.no_artifacts && !has_error;
                let done = if write {
                    next matches Stage::Write(made, kept) && kept == has_error
                } else {
                    next matches Stage::Consume(made, wanted) && wanted == !project::skips_cache(
                        *state.project,
                        state.output,
                        has_error,
                    )
                };
                let made = if write {
                    next->Write_0
                } else {
                    next->Consume_0
                };
                &&& done
                &&& made.output == state.output
                &&& made.project == state.project
                &&& made.write == write
                &&& project::converted_output(state.output@, *state.project, ctx) matches Some(
                    progress,
                ) && made.compiled_artifacts@ == project::project_artifacts(
                    progress,
                    *state.project,
                    write,
                )
            },
            (Stage::Write(state, has_error), StageEvent::Written(written)) => match written {
                Err(error) => next == Stage::<'a>::Failed(error),
                Ok(_) => next == Stage::Consume(
                    state,
                    !project::skips_cache(*state.project, state.output, has_error),
                ),
            },
            (Stage::Consume(state, _), StageEvent::Consumed(cached)) => match cached {
                Err(error) => next == Stage::<'a>::Failed(error),
                Ok(found) => next matches Stage::Finished(output) && output@ == concluded(
                    *state.project,
                    project::compile_output(
                        *state.project,
                        state.output@,
                        state.compiled_artifacts@,
                        found@,
                    ),
                ),
            },
            _ => false,
        }
    }

    /// The stage after this one, given what came of it
    pub fn next(self, event: StageEvent<'_>) -> (res: Stage<'a>)
        requires
            self.allows(event),
        ensures
            self.is_followed(event, res),
    {
        match (self, event) {
            (Stage::Read(project, files), StageEvent::Read(contents)) => match read_all(
                files,
                contents,
            ) {
                Ok(sources) => Stage::Resolve(project, sources),
                Err(error) => Stage::Failed(error),
            },
            (Stage::Resolve(project, _), StageEvent::Resolved(resolved)) => match resolved {
                Ok((sources, edges)) => Stage::Filter(
                    ProjectCompiler::with_sources(project, sources, edges).slashed(),
                ),
                Err(error) => Stage::Failed(error),
            },
            (Stage::Filter(compiler), StageEvent::Filtered(filtered)) => match filtered {
                Ok(left) => {
                    let project = compiler.project;
                    Stage::Run(project, compiler.preprocess(left).compile())
                },
                Err(error) => Stage::Failed(error),
            },
            (Stage::Run(project, plan), StageEvent::Ran(events)) => match gather_runs(
                &plan,
                events,
                project.paths.root.as_str(),
            ) {
                Ok(output) => Stage::Judge(CompiledState::new(project, output)),
                Err(error) => Stage::Failed(error),
            },
            (Stage::Judge(state), StageEvent::Judged(ctx, has_error)) => {
                let state = state.write_artifacts(ctx, has_error);
                if state.write {
                    Stage::Write(state, has_error)
                } else {
                    let wanted = !state.skip_write_to_disk(has_error);
                    Stage::Consume(state, wanted)
                }
            },
            (Stage::Write(state, has_error), StageEvent::Written(written)) => match written {
                Ok(_) => {
                    let wanted = !state.skip_write_to_disk(has_error);
                    Stage::Consume(state, wanted)
                },
                Err(error) => Stage::Failed(error),
            },
            (Stage::Consume(state, _), StageEvent::Consumed(cached)) => match cached {
                Ok(found) => {
                    let project = state.project;
                    let output = state.write_cache(found);
                    if project.slash_paths {
                        // ensures we always use `/` paths
                        Stage::Finished(output.slash_paths(project.windows))
                    } else {
                        Stage::Finished(output)
                    }
                },
                Err(error) => Stage::Failed(error),
            },
            (stage, _) => stage,
        }
    }

    /// The stage, or the error if the compilation failed
    fn go_on(self) -> (res: Result<Stage<'a>, SolcError>)
        ensures
            match self {
                Stage::Failed(error) => res == Err::<Stage<'a>, SolcError>(error),
                _ => res == Ok::<Stage<'a>, SolcError>(self),
            },
    {
        match self {
            Stage::Failed(error) => Err(error),
            stage => Ok(stage),
        }
    }
}

/// What came of the stages up to the source files with their imports.
pub struct Opening {
    /// The contents of the files, up to the first that cannot be read
    pub contents: Vec<Result<String, SolcError>>,
    /// The source files with their imports
    pub resolved: Result<(Resolved, GraphEdges), SolcError>,
}

/// What came of the stages that follow.
pub struct Outcome<'c> {
    /// What is left of the source files of each version
    pub filtered: Result<Vec<FilteredSources>, SolcError>,
    /// What came of the steps of the plan
    pub events: Vec<RunEvent>,
    /// What the cache knows of artifacts
    pub ctx: OutputContext<'c>,
    /// Whether the messages of the compiler make the build fail
    pub has_error: bool,
    /// Whether the artifacts could be written, if they were to be
    pub written: Result<(), SolcError>,
    /// The artifacts that were found in the cache
    pub cached: Result<Artifacts, SolcError>,
}

/// Whether this can come of the stages from the source files of a project on.
pub open spec fn can_come(
    project: Project,
    pairs: Seq<VersionedSourcesView>,
    edges: GraphEdges,
    outcome: Outcome,
) -> bool {
    outcome.filtered matches Ok(left) ==> {
        let plan = plan_for(project, pairs, edges, left@);
        &&& left@.len() == pairs.len()
        &&& runs::is_whole_run(plan, outcome.events@)
        &&& runs::first_failure(outcome.events@) is None ==> project::converted_output(
            project_output(project, plan, outcome.events@),
            project,
            outcome.ctx,
        ) is Some
    }
}

/// Whether a result is what comes of the stages from the source files of a project on: the error
/// of the first stage that fails, or what the last one gives.
pub open spec fn is_outcome(
    res: Result<ProjectCompileOutput, SolcError>,
    project: Project,
    pairs: Seq<VersionedSourcesView>,
    edges: GraphEdges,
    outcome: Outcome,
) -> bool {
    match outcome.filtered {
        Err(error) => res == Err::<ProjectCompileOutput, SolcError>(error),
        Ok(left) => {
            let output = project_output(
                project,
                plan_for(project, pairs, edges, left@),
                outcome.events@,
            );
            let write = !project.no_artifacts && !outcome.has_error;
            match (runs::first_failure(outcome.events@), outcome.written, outcome.cached) {
                (Some(error), _, _) => res == Err::<ProjectCompileOutput, SolcError>(error),
                (None, Err(error), cached) => if write {
                    res == Err::<ProjectCompileOutput, SolcError>(error)
                } else {
                    is_last(res, project, output, outcome.ctx, write, cached)
                },
                (None, Ok(_), cached) => is_last(
                    res,
                    project,
                    output,
                    outcome.ctx,
                    write,
                    cached,
                ),
            }
        },
    }
}

/// Whether a result is what the last stage gives.
pub open spec fn is_last(
    res: Result<ProjectCompileOutput, SolcError>,
    project: Project,
    output: AggregatedCompilerOutputView,
    ctx: OutputContext,
    write: bool,
    cached: Result<Artifacts, SolcError>,
) -> bool {
    match cached {
        Err(error) => res == Err::<ProjectCompileOutput, SolcError>(error),
        Ok(found) => {
            &&& res matches Ok(done)
            &&& project::converted_output(output, project, ctx) matches Some(progress)
            &&& done@ == concluded(
                project,
                project::compile_output(
                    project,
                    output,
                    project::project_artifacts(progress, project, write),
                    found@,
                ),
            )
        },
    }
}

/// Whether this can come of all stages from the files of a project on.
pub open spec fn can_all_come(
    project: Project,
    files: Seq<Seq<char>>,
    opening: Opening,
    outcome: Outcome,
) -> bool {
    &&& is_read(files.len(), opening.contents@)
    &&& first_unread(opening.contents@) is None ==> (opening.resolved matches Ok(found) ==> {
        &&& (found.0 is Together) == (project.compiler_config is Specific)
        &&& can_come(
            project,
            project::slashed_pairs(project::resolved_pairs(project, found.0), project.windows),
            found.1,
            outcome,
        )
    })
}

/// Whether a result is what comes of all stages from the files of a project on: the error of the
/// first stage that fails, or what comes of the source files with their imports.
pub open spec fn is_compiled(
    res: Result<ProjectCompileOutput, SolcError>,
    project: Project,
    opening: Opening,
    outcome: Outcome,
) -> bool {
    match (first_unread(opening.contents@), opening.resolved) {
        (Some(error), _) => res == Err::<ProjectCompileOutput, SolcError>(error),
        (None, Err(error)) => res == Err::<ProjectCompileOutput, SolcError>(error),
        (None, Ok((sources, edges))) => is_outcome(
            res,
            project,
            project::slashed_pairs(project::resolved_pairs(project, sources), project.windows),
            edges,
            outcome,
        ),
    }
}

impl<'a> ProjectCompiler<'a> {
    /// The first stage of compiling a project: to read those of its files that no pattern of
    /// contracts to avoid matches
    ///
    /// `avoid` tells, where contracts are to be avoided, for each file which of the patterns
    /// match it.
    pub fn new(project: &'a Project, files: Vec<String>, avoid: Option<Vec<Vec<bool>>>) -> (res:
        Stage<'a>)
        requires
            avoid matches Some(matches) ==> matches@.len() == files@.len(),
        ensures
            res matches Stage::Read(same, chosen) && same == project && text::texts(chosen@)
                == project::chosen_files(text::texts(files@), avoid),
    {
        Stage::Read(project, choose_files(files, avoid))
    }

    /// Converts the paths of the source files on Windows to ensure consistency with the output
    /// that `solc` emits, which is unix style `/`
    fn slashed(self) -> (res: Self)
        ensures
            res.project == self.project,
            res.edges == self.edges,
            project::pair_views(res.sources.pairs()) == project::slashed_pairs(
                project::pair_views(self.sources.pairs()),
                self.project.windows,
            ),
    {
        ProjectCompiler {
            edges: self.edges,
            project: self.project,
            sources: self.sources.slash_paths(self.project.windows),
        }
    }

    /// Drives the compiler statemachine to completion, given what comes of its stages
    pub fn compile(self, outcome: Outcome<'_>) -> (res: Result<ProjectCompileOutput, SolcError>)
        requires
            can_come(
                *self.project,
                project::slashed_pairs(
                    project::pair_views(self.sources.pairs()),
                    self.project.windows,
                ),
                self.edges,
                outcome,
            ),
        ensures
            is_outcome(
                res,
                *self.project,
                project::slashed_pairs(
                    project::pair_views(self.sources.pairs()),
                    self.project.windows,
                ),
                self.edges,
                outcome,
            ),
    {
        self.slashed().go_through(outcome)
    }

    /// Drives the stages from filtering the source files on, given what comes of them
    fn go_through(self, outcome: Outcome<'_>) -> (res: Result<ProjectCompileOutput, SolcError>)
        requires
            can_come(
                *self.project,
                project::pair_views(self.sources.pairs()),
                self.edges,
                outcome,
            ),
        ensures
            is_outcome(
                res,
                *self.project,
                project::pair_views(self.sources.pairs()),
                self.edges,
                outcome,
            ),
    {
        assert(project::pair_views(self.sources.pairs()).len() == self.sources.pairs().len());
        let stage = match Stage::Filter(self).next(StageEvent::Filtered(outcome.filtered)).go_on() {
            Ok(stage) => stage,
            Err(error) => {
                return Err(error);
            },
        };
        let stage = match stage.next(StageEvent::Ran(outcome.events)).go_on() {
            Ok(stage) => stage,
            Err(error) => {
                return Err(error);
            },
        };
        let stage = stage.next(StageEvent::Judged(outcome.ctx, outcome.has_error));
        let stage = match stage {
            Stage::Write(state, has_error) => {
                let stage = Stage::Write(state, has_error);
                match stage.next(StageEvent::Written(outcome.written)).go_on() {
                    Ok(stage) => stage,
                    Err(error) => {
                        return Err(error);
                    },
                }
            },
            stage => stage,
        };
        match stage.next(StageEvent::Consumed(outcome.cached)).go_on() {
            Ok(Stage::Finished(output)) => Ok(output),
            Ok(_) => vstd::pervasive::unreached(),
            Err(error) => Err(error),
        }
    }
}

/// Drives the stages from reading files on, given what comes of them
pub fn compile_files(
    project: &Project,
    files: Vec<String>,
    opening: Opening,
    outcome: Outcome<'_>,
) -> (res: Result<ProjectCompileOutput, SolcError>)
    requires
        can_all_come(*project, text::texts(files@), opening, outcome),
    ensures
        is_compiled(res, *project, opening, outcome),
{
    assert(text::texts(files@).len() == files@.len());
    let stage = match Stage::Read(project, files).next(
        StageEvent::Read(opening.contents),
    ).go_on() {
        Ok(stage) => stage,
        Err(error) => {
            return Err(error);
        },
    };
    match stage.next(StageEvent::Resolved(opening.resolved)).go_on() {
        Ok(Stage::Filter(compiler)) => compiler.go_through(outcome),
        Ok(_) => vstd::pervasive::unreached(),
        Err(error) => Err(error),
    }
}

/// Whether a file of a project is to be compiled: no pattern matches it.
pub open spec fn is_chosen(avoid: Option<Vec<Vec<bool>>>, i: int) -> bool {
    avoid matches Some(matches) ==> project::is_free(matches@[i]@)
}

proof fn lemma_chosen(files: Seq<Seq<char>>, matches: Seq<Vec<bool>>, file: Seq<char>)
    requires
        files.len() <= matches.len(),
    ensures
        project::not_avoided(files, matches).contains(file) <==> exists|i: int|
            0 <= i < files.len() && #[trigger] files[i] == file && project::is_free(matches[i]@),
    decreases files.len(),
{
    let all = project::not_avoided(files, matches);
    if files.len() > 0 {
        let rest = files.drop_last();
        let before = project::not_avoided(rest, matches);
        let n = files.len() - 1;
        lemma_chosen(rest, matches, file);
        if all.contains(file) {
            let k = all.index_of(file);
            if k < before.len() {
                assert(before[k] == file);
                let i = choose|i: int|
                    0 <= i < rest.len() && #[trigger] rest[i] == file && project::is_free(
                        matches[i]@,
                    );
                assert(files[i] == file);
            } else {
                assert(files[n] == file);
            }
        }
        if exists|i: int|
            0 <= i < files.len() && #[trigger] files[i] == file && project::is_free(matches[i]@) {
            let i = choose|i: int|
                0 <= i < files.len() && #[trigger] files[i] == file && project::is_free(
                    matches[i]@,
                );
            if i < n {
                assert(rest[i] == file);
                let k = before.index_of(file);
                assert(all[k] == file);
            } else {
                assert(all[all.len() - 1] == file);
            }
        }
    }
}

/// Just those files of a project are to be compiled that no pattern matches.
pub proof fn law_chosen_files(
    files: Seq<Seq<char>>,
    avoid: Option<Vec<Vec<bool>>>,
    file: Seq<char>,
)
    requires
        avoid matches Some(matches) ==> matches@.len() == files.len(),
    ensures
        project::chosen_files(files, avoid).contains(file) <==> exists|i: int|
            0 <= i < files.len() && #[trigger] files[i] == file && is_chosen(avoid, i),
{
    if let Some(matches) = avoid {
        lemma_chosen(files, matches@, file);
    } else if files.contains(file) {
        let i = files.index_of(file);
        assert(files[i] == file && is_chosen(avoid, i));
    }
}

/// The source files are just the files that were read.
pub proof fn law_read_files(
    files: Seq<Seq<char>>,
    contents: Seq<Result<String, SolcError>>,
    file: Seq<char>,
)
    ensures
        maps::ordered::<ByPath, Source>(read_sources(files, contents)),
        maps::has::<ByPath, Source>(read_sources(files, contents), file) <==> exists|i: int|
            0 <= i < files.len() && path::same_path(#[trigger] files[i], file),
    decreases files.len(),
{
    let all = read_sources(files, contents);
    if files.len() > 0 {
        let rest = files.drop_last();
        let n = files.len() - 1;
        let before = read_sources(rest, contents);
        let source = Source { content: contents[n]->Ok_0 };
        law_read_files(rest, contents, file);
        maps::law_inserted::<ByPath, Source>(before, files[n], source, file);
        maps::lemma_has::<ByPath, Source>(before, file);
        maps::lemma_has::<ByPath, Source>(all, file);
        maps::lemma_has::<ByPath, Source>(all, files[n]);
        if path::same_path(files[n], file) {
            let k = choose|k: int|
                0 <= k < all.len() && path::components(#[trigger] all[k].0) == path::components(
                    files[n],
                );
            assert(path::components(all[k].0) == path::components(file));
        } else if exists|i: int| 0 <= i < files.len() && path::same_path(#[trigger] files[i], file) {
            let i = choose|i: int|
                0 <= i < files.len() && path::same_path(#[trigger] files[i], file);
            assert(rest[i] == files[i]);
        }
        if exists|i: int| 0 <= i < rest.len() && path::same_path(#[trigger] rest[i], file) {
            let i = choose|i: int| 0 <= i < rest.len() && path::same_path(#[trigger] rest[i], file);
            assert(rest[i] == files[i]);
        }
    } else {
        assert(!maps::has::<ByPath, Source>(all, file));
    }
}

/// A source file holds what was read from the last file with its path.
pub proof fn law_read_contents(
    files: Seq<Seq<char>>,
    contents: Seq<Result<String, SolcError>>,
    i: int,
)
    requires
        0 <= i < files.len(),
        forall|j: int| i < j < files.len() ==> !path::same_path(#[trigger] files[j], files[i]),
    ensures
        maps::found::<ByPath, Source>(read_sources(files, contents), files[i]) == Some(
            Source { content: contents[i]->Ok_0 },
        ),
    decreases files.len(),
{
    let rest = files.drop_last();
    let n = files.len() - 1;
    let before = read_sources(rest, contents);
    let source = Source { content: contents[n]->Ok_0 };
    law_read_files(rest, contents, files[i]);
    maps::law_inserted::<ByPath, Source>(before, files[n], source, files[i]);
    if i < n {
        assert(rest[i] == files[i]);
        assert forall|j: int| i < j < rest.len() implies !path::same_path(
            #[trigger] rest[j],
            rest[i],
        ) by {
            assert(rest[j] == files[j]);
        }
        assert(!path::same_path(files[n], files[i]));
        law_read_contents(rest, contents, i);
    }
}

/// A new compilation starts from the source files that no pattern matches, and from no others.
pub proof fn law_new_starts_from_chosen_files(
    project: &Project,
    start: Stage<'_>,
    files: Seq<Seq<char>>,
    avoid: Option<Vec<Vec<bool>>>,
    contents: Vec<Result<String, SolcError>>,
    next: Stage<'_>,
    file: Seq<char>,
)
    requires
        avoid matches Some(matches) ==> matches@.len() == files.len(),
        start matches Stage::Read(same, chosen) && same == project && text::texts(chosen@)
            == project::chosen_files(files, avoid),
        start.is_followed(StageEvent::Read(contents), next),
        first_unread(contents@) is None,
    ensures
        next matches Stage::Resolve(same, sources) && same == project && (maps::has::<
            ByPath,
            Source,
        >(sources@, file) <==> exists|i: int|
            0 <= i < files.len() && path::same_path(#[trigger] files[i], file) && is_chosen(
                avoid,
                i,
            )),
{
    let chosen = project::chosen_files(files, avoid);
    law_read_files(chosen, contents@, file);
    if exists|k: int| 0 <= k < chosen.len() && path::same_path(#[trigger] chosen[k], file) {
        let k = choose|k: int|
            0 <= k < chosen.len() && path::same_path(#[trigger] chosen[k], file);
        law_chosen_files(files, avoid, chosen[k]);
        assert(chosen.contains(chosen[k]));
        let i = choose|i: int|
            0 <= i < files.len() && #[trigger] files[i] == chosen[k] && is_chosen(avoid, i);
        assert(path::same_path(files[i], file));
    }
    if exists|i: int|
        0 <= i < files.len() && path::same_path(#[trigger] files[i], file) && is_chosen(avoid, i) {
        let i = choose|i: int|
            0 <= i < files.len() && path::same_path(#[trigger] files[i], file) && is_chosen(
                avoid,
                i,
            );
        law_chosen_files(files, avoid, files[i]);
        let k = chosen.index_of(files[i]);
        assert(path::same_path(chosen[k], file));
    }
}

/// Where a project on Windows asks for it, no path of what comes of its compilation holds a `\\`.
pub proof fn law_concluded_paths(project: Project, output: ProjectCompileOutputView)
    requires
        project.slash_paths,
        project.windows,
    ensures
        forall|i: int|
            0 <= i < concluded(project, output).compiler_output.sources.len() ==> !(
            #[trigger] concluded(project, output).compiler_output.sources[i]).0.contains('\\'),
        forall|i: int|
            0 <= i < concluded(project, output).compiler_output.contracts.len() ==> !(
            #[trigger] concluded(project, output).compiler_output.contracts[i]).0.contains('\\'),
        has_slashed_paths(concluded(project, output).compiled_artifacts),
        has_slashed_paths(concluded(project, output).cached_artifacts),
{
    let done = concluded(project, output);
    let made = output.compiler_output;
    assert forall|i: int| 0 <= i < done.compiler_output.sources.len() implies !(
    #[trigger] done.compiler_output.sources[i]).0.contains('\\') by {
        maps::law_slashed_keys::<ByText, Seq<VersionedSourceFileView>>(made.sources, i);
    }
    assert forall|i: int| 0 <= i < done.compiler_output.contracts.len() implies !(
    #[trigger] done.compiler_output.contracts[i]).0.contains('\\') by {
        maps::law_slashed_keys::<ByText, Seq<(Seq<char>, Seq<VersionedContractView>)>>(
            made.contracts,
            i,
        );
    }
    lemma_slashed_files(output.compiled_artifacts);
    lemma_slashed_files(output.cached_artifacts);
}

/// Elsewhere than on Windows the paths of source files, and those of what comes of a compilation,
/// stay as they are.
pub proof fn law_paths_stay(
    project: Project,
    pairs: Seq<VersionedSourcesView>,
    output: ProjectCompileOutputView,
)
    requires
        !project.windows,
    ensures
        project::slashed_pairs(pairs, project.windows) == pairs,
        concluded(project, output) == output,
{
}

/// Whether no path of an artifact's file or of its contract's file holds a `\\`.
pub open spec fn has_slashed_paths(
    all: Seq<(Seq<char>, Seq<(Seq<char>, Seq<ArtifactFileView>)>)>,
) -> bool {
    forall|i: int|
        #![trigger all[i]]
        0 <= i < all.len() ==> {
            &&& !all[i].0.contains('\\')
            &&& forall|k: int, l: int|
                0 <= k < all[i].1.len() && 0 <= l < all[i].1[k].1.len() ==> !(
                #[trigger] all[i].1[k].1[l]).file.contains('\\')
        }
}

proof fn lemma_slashed_files(all: Seq<(Seq<char>, Seq<(Seq<char>, Seq<ArtifactFileView>)>)>)
    ensures
        has_slashed_paths(zk::slashed_files(all)),
{
    let files = zk::slashed_files(all);
    assert forall|i: int| #![trigger files[i]] 0 <= i < files.len() implies {
        &&& !files[i].0.contains('\\')
        &&& forall|k: int, l: int|
            0 <= k < files[i].1.len() && 0 <= l < files[i].1[k].1.len() ==> !(
            #[trigger] files[i].1[k].1[l]).file.contains('\\')
    } by {
        zk::law_slashed_files(all, i);
    }
}

/// How far a compilation is.
pub open spec fn rank(stage: Stage) -> int {
    match stage {
        Stage::Read(_, _) => 0,
        Stage::Resolve(_, _) => 1,
        Stage::Filter(_) => 2,
        Stage::Run(_, _) => 3,
        Stage::Judge(_) => 4,
        Stage::Write(_, _) => 5,
        Stage::Consume(_, _) => 6,
        Stage::Finished(_) => 7,
        Stage::Failed(_) => 8,
    }
}

/// The stages follow on each other in one order, and nothing follows on the last one or on a
/// failure. Artifacts are written only after all runs succeeded, and the cache is updated only
/// after the artifacts that were to be written are written.
pub proof fn law_stage_order(stage: Stage<'_>, event: StageEvent<'_>, next: Stage<'_>)
    requires
        stage.is_followed(event, next),
    ensures
        rank(stage) < rank(next),
        !(stage is Finished) && !(stage is Failed),
        next is Judge ==> stage is Run && (event matches StageEvent::Ran(events)
            && runs::first_failure(events@) is None),
        next is Write ==> stage is Judge,
        next is Consume ==> {
            ||| stage matches Stage::Judge(state) && (event matches StageEvent::Judged(
                _,
                has_error,
            ) && (state.project.no_artifacts || has_error))
            ||| stage is Write && (event matches StageEvent::Written(written) && written is Ok)
        },
        next is Finished ==> stage is Consume,
{
}

} // verus!
