//! What follows on each stage of a compilation, and what comes of all of them.
use crate::error::SolcError;
use crate::path;
use crate::text;
use crate::zksync::artifact_output::zk;
use crate::zksync::artifact_output::OutputContext;
use crate::zksync::compile::gather_laws;
use crate::zksync::compile::outcome_laws;
use crate::zksync::compile::output::AggregatedCompilerOutputView;
use crate::zksync::compile::plan_laws;
use crate::zksync::compile::project;
use crate::zksync::compile::project::{
    GraphEdges, Project, ProjectCompileOutput, VersionedSourcesView,
};
use crate::zksync::compile::runs;
use crate::zksync::compile::stages;
use crate::zksync::compile::stages::{Opening, Outcome, Stage, StageEvent};
use vstd::prelude::*;

verus! {

/// Each stage that fails ends the compilation with its own error.
pub proof fn law_failed_stages(stage: Stage<'_>, event: StageEvent<'_>, next: Stage<'_>, i: int)
    requires
        stage.is_followed(event, next),
    ensures
        event matches StageEvent::Read(contents) ==> {
            0 <= i < contents@.len() && contents@[i] is Err && (forall|j: int|
                0 <= j < i ==> (#[trigger] contents@[j]) is Ok) ==> next == Stage::Failed(
                contents@[i]->Err_0,
            )
        },
        event matches StageEvent::Resolved(Err(error)) ==> next == Stage::Failed(error),
        event matches StageEvent::Filtered(Err(error)) ==> next == Stage::Failed(error),
        event matches StageEvent::Ran(events) ==> {
            0 <= i < events@.len() && events@[i] is Failed && (forall|j: int|
                0 <= j < i ==> !((#[trigger] events@[j]) is Failed)) ==> next == Stage::Failed(
                events@[i]->Failed_0,
            )
        },
        event matches StageEvent::Written(Err(error)) ==> next == Stage::Failed(error),
        event matches StageEvent::Consumed(Err(error)) ==> next == Stage::Failed(error),
{
    if let StageEvent::Read(contents) = event {
        outcome_laws::law_first_unread(contents@, i);
    }
    if let StageEvent::Ran(events) = event {
        gather_laws::law_first_failure(events@, i);
    }
}

/// Where all files could be read, their imports are added next, and each file has what was read
/// for it.
pub proof fn law_stage_after_reading(
    project: &Project,
    files: Vec<String>,
    contents: Vec<Result<String, SolcError>>,
    next: Stage<'_>,
)
    requires
        Stage::Read(project, files).is_followed(StageEvent::Read(contents), next),
        forall|j: int| 0 <= j < contents@.len() ==> (#[trigger] contents@[j]) is Ok,
    ensures
        next matches Stage::Resolve(same, sources) && same == project && sources@
            == stages::read_sources(text::texts(files@), contents@),
{
    outcome_laws::law_first_unread(contents@, 0);
}

/// Where the imports could be added, the files are filtered next, for the same project and with
/// the same imports. The pinned `solc` gets all of them, or each version its own.
pub proof fn law_stage_after_resolving<'a>(
    stage: Stage<'a>,
    event: StageEvent<'_>,
    next: Stage<'a>,
    i: int,
)
    requires
        stage.allows(event),
        stage.is_followed(event, next),
        event matches StageEvent::Resolved(Ok(_)),
    ensures
        stage matches Stage::Resolve(project, _) && event matches StageEvent::Resolved(Ok(found))
            && next matches Stage::Filter(compiler) && {
            let pairs = project::pair_views(compiler.sources.pairs());
            let given = project::resolved_pairs(*project, found.0);
            &&& compiler.project == project
            &&& compiler.edges == found.1
            &&& pairs.len() == given.len()
            &&& found.0 is Together ==> pairs.len() == 1
            &&& found.0 is ByVersion ==> pairs.len() == found.0->ByVersion_0@.len()
            &&& 0 <= i < given.len() ==> {
                &&& pairs[i].solc == given[i].solc
                &&& pairs[i].version == given[i].version
                &&& pairs[i].evm_version == given[i].evm_version
                &&& !project.windows ==> pairs[i].sources == given[i].sources
            }
        },
{
    if let (Stage::Resolve(project, _), StageEvent::Resolved(Ok(found))) = (stage, event) {
        let given = project::resolved_pairs(*project, found.0);
        plan_laws::law_resolved_pairs(*project, found.0, i);
        if given.len() > 0 {
            plan_laws::law_slashed_pairs(given, project.windows, 0);
        }
        if 0 <= i < given.len() {
            plan_laws::law_slashed_pairs(given, project.windows, i);
        }
    }
}

/// Where the files could be filtered, the plan for what is left of them is carried out next: each
/// version with files left has a job, and there are no other jobs.
pub proof fn law_stage_after_filtering<'a>(
    stage: Stage<'a>,
    event: StageEvent<'_>,
    next: Stage<'a>,
    k: int,
    i: int,
)
    requires
        stage.allows(event),
        stage.is_followed(event, next),
        event matches StageEvent::Filtered(Ok(_)),
    ensures
        stage matches Stage::Filter(compiler) && event matches StageEvent::Filtered(Ok(left))
            && next matches Stage::Run(project, plan) && {
            let pairs = project::pair_views(compiler.sources.pairs());
            let jobs = project::version_run_views(plan@);
            &&& project == compiler.project
            &&& 0 <= k < jobs.len() ==> exists|p: int|
                0 <= p < pairs.len() && plan_laws::is_job_for(
                    jobs[k],
                    *project,
                    #[trigger] pairs[p],
                    compiler.edges,
                    left@[p],
                )
            &&& 0 <= i < pairs.len() && left@[i].0@.len() > 0 ==> exists|j: int|
                0 <= j < jobs.len() && plan_laws::is_job_for(
                    #[trigger] jobs[j],
                    *project,
                    pairs[i],
                    compiler.edges,
                    left@[i],
                )
        },
{
    if let (Stage::Filter(compiler), StageEvent::Filtered(Ok(left))) = (stage, event) {
        let pairs = project::pair_views(compiler.sources.pairs());
        assert(pairs.len() == compiler.sources.pairs().len());
        plan_laws::law_plan_of_project(*compiler.project, pairs, compiler.edges, left@, k, i);
    }
}

/// Where all runs succeeded, their output is judged next: it has every message of every run, and
/// tells whether one of them was repeated to detect missing libraries.
pub proof fn law_stage_after_running<'a>(
    stage: Stage<'a>,
    event: StageEvent<'_>,
    next: Stage<'a>,
    at: int,
    k: int,
)
    requires
        stage.allows(event),
        stage.is_followed(event, next),
        event matches StageEvent::Ran(events) && forall|j: int|
            0 <= j < events@.len() ==> !((#[trigger] events@[j]) is Failed),
    ensures
        stage matches Stage::Run(project, plan) && event matches StageEvent::Ran(events)
            && next matches Stage::Judge(state) && {
            &&& state.project == project
            &&& state.output.errors@ == runs::gathered(
                project::version_run_views(plan@),
                events@,
                project.paths.root@,
            ).errors
            &&& 0 <= at < events@.len() && events@[at] is Emitted && 0 <= k
                < events@[at]->Emitted_0.errors@.len() ==> state.output.errors@.contains(
                events@[at]->Emitted_0.errors@[k],
            )
        },
{
    if let (Stage::Run(project, plan), StageEvent::Ran(events)) = (stage, event) {
        let jobs = project::version_run_views(plan@);
        gather_laws::law_first_failure(events@, 0);
        gather_laws::law_output_of_project(*project, jobs, events@);
        if let Stage::Judge(state) = next {
            assert(state.output.errors@ == state.output@.errors);
        }
        if 0 <= at < events@.len() && events@[at] is Emitted && 0 <= k
            < events@[at]->Emitted_0.errors@.len() {
            gather_laws::law_gathered_messages(jobs, events@, project.paths.root@, at, k);
        }
    }
}

/// Artifacts are written next just if the project has them written and the build did not fail.
/// The artifacts are those that are made of the output, and it is kept what was judged.
pub proof fn law_stage_after_judging<'a>(
    stage: Stage<'a>,
    event: StageEvent<'_>,
    next: Stage<'a>,
)
    requires
        stage.is_followed(event, next),
        stage is Judge,
    ensures
        stage matches Stage::Judge(state) && event matches StageEvent::Judged(ctx, has_error) && {
            &&& next is Write <==> !state.project.no_artifacts && !has_error
            &&& next is Consume <==> state.project.no_artifacts || has_error
            &&& next matches Stage::Write(made, kept) ==> {
                &&& !kept
                &&& made.write
                &&& made.project == state.project
                &&& made.output == state.output
                &&& project::converted_output(state.output@, *state.project, ctx) matches Some(
                    progress,
                )
                &&& outcome_laws::has_changed_files(
                    made.compiled_artifacts@,
                    progress.artifacts,
                    |file: Seq<char>|
                        path::join_path(state.project.paths.zksync_artifacts@, file),
                )
            }
            &&& next matches Stage::Consume(made, wanted) ==> {
                &&& !wanted
                &&& !made.write
                &&& made.project == state.project
                &&& made.output == state.output
                &&& project::converted_output(state.output@, *state.project, ctx) matches Some(
                    progress,
                )
                &&& made.compiled_artifacts@ == progress.artifacts
            }
        },
{
    if let (Stage::Judge(state), StageEvent::Judged(ctx, _)) = (stage, event) {
        if let Some(progress) = project::converted_output(state.output@, *state.project, ctx) {
            outcome_laws::law_project_artifacts(progress, *state.project);
        }
    }
}

/// Where the artifacts could be written, the cache is updated next, with all that was made so far.
/// It is written just if no run was repeated to detect missing libraries.
pub proof fn law_stage_after_writing<'a>(stage: Stage<'a>, event: StageEvent<'_>, next: Stage<'a>)
    requires
        stage.is_followed(event, next),
        event matches StageEvent::Written(Ok(_)),
    ensures
        stage matches Stage::Write(state, has_error) && next matches Stage::Consume(made, wanted)
            && {
            &&& made == state
            &&& wanted <==> !state.project.no_artifacts && !has_error
                && !state.output.recompiled_with_detect_missing_libraries
        },
{
}

/// Where the cache could be updated, the compilation is finished: with all that the compiler
/// emitted, the artifacts that were made of it, and those that the cache gave.
pub proof fn law_last_stage<'a>(stage: Stage<'a>, event: StageEvent<'_>, next: Stage<'a>)
    requires
        stage.is_followed(event, next),
        event matches StageEvent::Consumed(Ok(_)),
    ensures
        stage matches Stage::Consume(state, _) && event matches StageEvent::Consumed(Ok(found))
            && next matches Stage::Finished(res) && {
            &&& outcome_laws::has_filters_of(res, *state.project)
            &&& !state.project.slash_paths || !state.project.windows ==> {
                &&& res.compiler_output.errors@ == state.output.errors@
                &&& res.compiler_output.sources@ == state.output.sources@
                &&& res.compiler_output.contracts@ == state.output.contracts@
                &&& res.compiled_artifacts@ == state.compiled_artifacts@
                &&& res.cached_artifacts@ == found@
            }
            &&& state.project.slash_paths && state.project.windows
                ==> outcome_laws::holds_all_slashed(
                res,
                state.output@,
                state.compiled_artifacts@,
                found@,
            )
        },
{
    if let (Stage::Consume(state, _), StageEvent::Consumed(Ok(found)), Stage::Finished(res)) = (
        stage,
        event,
        next,
    ) {
        outcome_laws::law_concluded(
            *state.project,
            state.output@,
            state.compiled_artifacts@,
            found@,
            res,
        );
    }
}

/// What can come of a stage is not ruled out: any content of files, any error, and any success
/// that fits what was asked for.
pub proof fn law_allowed_events(stage: Stage<'_>, event: StageEvent<'_>)
    ensures
        stage matches Stage::Read(_, files) ==> event matches StageEvent::Read(contents) ==> {
            contents@.len() == files@.len() && (forall|j: int|
                0 <= j < contents@.len() ==> (#[trigger] contents@[j]) is Ok)
        } ==> stage.allows(event),
        stage matches Stage::Read(_, files) ==> event matches StageEvent::Read(contents) ==> {
            0 < contents@.len() <= files@.len() && contents@.last() is Err && (forall|j: int|
                0 <= j < contents@.len() - 1 ==> (#[trigger] contents@[j]) is Ok)
        } ==> stage.allows(event),
        event matches StageEvent::Resolved(Err(_)) ==> stage is Resolve ==> stage.allows(event),
        stage matches Stage::Resolve(project, _) ==> event matches StageEvent::Resolved(Ok(found))
            ==> ((project.compiler_config is Specific) == (found.0 is Together)) ==> stage.allows(
            event,
        ),
        event matches StageEvent::Filtered(Err(_)) ==> stage is Filter ==> stage.allows(event),
        stage matches Stage::Filter(compiler) ==> event matches StageEvent::Filtered(Ok(left))
            ==> left@.len() == compiler.sources.pairs().len() ==> stage.allows(event),
        stage matches Stage::Run(_, plan) ==> event matches StageEvent::Ran(events)
            ==> runs::is_whole_run(project::version_run_views(plan@), events@) ==> stage.allows(
            event,
        ),
        stage matches Stage::Judge(state) ==> event matches StageEvent::Judged(ctx, _)
            ==> project::converted_output(state.output@, *state.project, ctx) is Some
            ==> stage.allows(event),
        stage is Write ==> event is Written ==> stage.allows(event),
        stage is Consume ==> event is Consumed ==> stage.allows(event),
{
    if let (Stage::Read(_, files), StageEvent::Read(contents)) = (stage, event) {
        outcome_laws::law_files_are_read(files@.len(), contents@);
    }
}

/// The error of the first stage that fails is what comes of a compilation, whatever the later
/// stages would give.
pub proof fn law_first_failed_stage(
    res: Result<ProjectCompileOutput, SolcError>,
    project: Project,
    pairs: Seq<VersionedSourcesView>,
    edges: GraphEdges,
    outcome: Outcome<'_>,
    i: int,
)
    requires
        stages::is_outcome(res, project, pairs, edges, outcome),
    ensures
        outcome.filtered matches Err(error) ==> res matches Err(e) && e == error,
        outcome.filtered is Ok && 0 <= i < outcome.events@.len() && outcome.events@[i] is Failed
            && (forall|j: int| 0 <= j < i ==> !((#[trigger] outcome.events@[j]) is Failed)) ==> res
            == Err::<ProjectCompileOutput, SolcError>(outcome.events@[i]->Failed_0),
        outcome.filtered is Ok && (forall|j: int|
            0 <= j < outcome.events@.len() ==> !((#[trigger] outcome.events@[j]) is Failed)) ==> {
            let write = !project.no_artifacts && !outcome.has_error;
            &&& outcome.written is Err && write ==> res == Err::<ProjectCompileOutput, SolcError>(
                outcome.written->Err_0,
            )
            &&& (outcome.written is Ok || !write) && outcome.cached is Err ==> res == Err::<
                ProjectCompileOutput,
                SolcError,
            >(outcome.cached->Err_0)
            &&& (outcome.written is Ok || !write) && outcome.cached is Ok ==> res is Ok
        },
{
    gather_laws::law_first_failure(outcome.events@, i);
}

/// Whether a compilation succeeds, and what with: all stages have to, but nothing is written where
/// no artifacts are to be written.
pub open spec fn succeeds(project: Project, outcome: Outcome) -> bool {
    &&& outcome.filtered is Ok
    &&& forall|j: int|
        0 <= j < outcome.events@.len() ==> !((#[trigger] outcome.events@[j]) is Failed)
    &&& outcome.written is Ok || project.no_artifacts || outcome.has_error
    &&& outcome.cached is Ok
}

/// A compilation all of whose stages succeed gives every message of every run, the artifacts that
/// are made of the output, and those that the cache gave.
pub proof fn law_successful_compilation(
    res: Result<ProjectCompileOutput, SolcError>,
    project: Project,
    pairs: Seq<VersionedSourcesView>,
    edges: GraphEdges,
    outcome: Outcome<'_>,
    at: int,
    k: int,
)
    requires
        stages::can_come(project, pairs, edges, outcome),
        stages::is_outcome(res, project, pairs, edges, outcome),
    ensures
        res is Ok <==> succeeds(project, outcome),
        res matches Ok(done) ==> {
            &&& outcome_laws::has_filters_of(done, project)
            &&& 0 <= at < outcome.events@.len() && outcome.events@[at] is Emitted && 0 <= k
                < outcome.events@[at]->Emitted_0.errors@.len()
                ==> done.compiler_output.errors@.contains(
                outcome.events@[at]->Emitted_0.errors@[k],
            )
            &&& !project.slash_paths || !project.windows ==> done.cached_artifacts@
                == outcome.cached->Ok_0@
            &&& project.slash_paths && project.windows ==> outcome_laws::are_slashed(
                done.cached_artifacts@,
                outcome.cached->Ok_0@,
            )
        },
{
    let events = outcome.events@;
    if exists|j: int| 0 <= j < events.len() && (#[trigger] events[j]) is Failed {
        lemma_first_failed(events);
        let i = choose|i: int|
            0 <= i < events.len() && events[i] is Failed && (forall|j: int|
                0 <= j < i ==> !((#[trigger] events[j]) is Failed));
        law_first_failed_stage(res, project, pairs, edges, outcome, i);
    } else {
        law_first_failed_stage(res, project, pairs, edges, outcome, 0);
    }
    if let Ok(done) = res {
        let left = outcome.filtered->Ok_0;
        let plan = stages::plan_for(project, pairs, edges, left@);
        let output = stages::project_output(project, plan, events);
        let write = !project.no_artifacts && !outcome.has_error;
        gather_laws::law_first_failure(events, 0);
        let progress = project::converted_output(output, project, outcome.ctx)->0;
        let compiled = project::project_artifacts(progress, project, write);
        outcome_laws::law_concluded(project, output, compiled, outcome.cached->Ok_0@, done);
        gather_laws::law_output_of_project(project, plan, events);
        if 0 <= at < events.len() && events[at] is Emitted && 0 <= k
            < events[at]->Emitted_0.errors@.len() {
            gather_laws::law_gathered_messages(plan, events, project.paths.root@, at, k);
        }
    }
}

proof fn lemma_first_failed(events: Seq<runs::RunEvent>)
    requires
        exists|j: int| 0 <= j < events.len() && (#[trigger] events[j]) is Failed,
    ensures
        exists|i: int|
            0 <= i < events.len() && (#[trigger] events[i]) is Failed && (forall|j: int|
                0 <= j < i ==> !((#[trigger] events[j]) is Failed)),
    decreases events.len(),
{
    let n = events.len() - 1;
    let rest = events.drop_last();
    if exists|j: int| 0 <= j < rest.len() && (#[trigger] rest[j]) is Failed {
        lemma_first_failed(rest);
        let i = choose|i: int|
            0 <= i < rest.len() && (#[trigger] rest[i]) is Failed && (forall|j: int|
                0 <= j < i ==> !((#[trigger] rest[j]) is Failed));
        assert(events[i] == rest[i]);
        assert forall|j: int| 0 <= j < i implies !((#[trigger] events[j]) is Failed) by {
            assert(events[j] == rest[j]);
        }
    } else {
        assert forall|j: int| 0 <= j < n implies !((#[trigger] events[j]) is Failed) by {
            assert(events[j] == rest[j]);
        }
        assert(events[n] is Failed);
    }
}

/// What the last stage gives, given what the compiler emitted and what the cache gave.
pub proof fn law_last_result(
    res: Result<ProjectCompileOutput, SolcError>,
    project: Project,
    output: AggregatedCompilerOutputView,
    ctx: OutputContext<'_>,
    write: bool,
    cached: Result<zk::Artifacts, SolcError>,
)
    requires
        stages::is_last(res, project, output, ctx, write, cached),
    ensures
        cached matches Err(error) ==> res == Err::<ProjectCompileOutput, SolcError>(error),
        cached matches Ok(found) ==> res matches Ok(done) && {
            &&& outcome_laws::has_filters_of(done, project)
            &&& !project.slash_paths || !project.windows ==> {
                &&& done.compiler_output.errors@ == output.errors
                &&& done.compiler_output.sources@ == output.sources
                &&& done.compiler_output.contracts@ == output.contracts
                &&& done.cached_artifacts@ == found@
                &&& project::converted_output(output, project, ctx) matches Some(progress)
                &&& !write ==> done.compiled_artifacts@ == progress.artifacts
                &&& write ==> outcome_laws::has_changed_files(
                    done.compiled_artifacts@,
                    progress.artifacts,
                    |file: Seq<char>| path::join_path(project.paths.zksync_artifacts@, file),
                )
            }
        },
{
    if let (Ok(found), Ok(done)) = (cached, res) {
        let progress = project::converted_output(output, project, ctx)->0;
        let compiled = project::project_artifacts(progress, project, write);
        outcome_laws::law_concluded(project, output, compiled, found@, done);
        outcome_laws::law_project_artifacts(progress, project);
    }
}

/// The error of the first file that cannot be read, or else the error of adding imports, is what
/// comes of a compilation. Otherwise it is what comes of the stages that follow, for the files as
/// they were sorted.
pub proof fn law_opening(
    res: Result<ProjectCompileOutput, SolcError>,
    project: Project,
    opening: Opening,
    outcome: Outcome<'_>,
    i: int,
)
    requires
        stages::is_compiled(res, project, opening, outcome),
    ensures
        0 <= i < opening.contents@.len() && opening.contents@[i] is Err && (forall|j: int|
            0 <= j < i ==> (#[trigger] opening.contents@[j]) is Ok) ==> res == Err::<
            ProjectCompileOutput,
            SolcError,
        >(opening.contents@[i]->Err_0),
        (forall|j: int|
            0 <= j < opening.contents@.len() ==> (#[trigger] opening.contents@[j]) is Ok) ==> {
            &&& opening.resolved matches Err(error) ==> res == Err::<
                ProjectCompileOutput,
                SolcError,
            >(error)
            &&& opening.resolved matches Ok(found) ==> stages::is_outcome(
                res,
                project,
                project::slashed_pairs(
                    project::resolved_pairs(project, found.0),
                    project.windows,
                ),
                found.1,
                outcome,
            )
        },
{
    outcome_laws::law_first_unread(opening.contents@, i);
}

/// What can come of a compilation is not ruled out: any error of reading, of adding imports or of
/// filtering, and any course of the plan whose output can be converted.
pub proof fn law_possible_outcomes(
    project: Project,
    files: Seq<Seq<char>>,
    opening: Opening,
    pairs: Seq<VersionedSourcesView>,
    edges: GraphEdges,
    outcome: Outcome<'_>,
)
    ensures
        outcome.filtered is Err ==> stages::can_come(project, pairs, edges, outcome),
        outcome.filtered matches Ok(left) ==> {
            let plan = stages::plan_for(project, pairs, edges, left@);
            &&& left@.len() == pairs.len() && runs::is_whole_run(plan, outcome.events@)
                && project::converted_output(
                stages::project_output(project, plan, outcome.events@),
                project,
                outcome.ctx,
            ) is Some ==> stages::can_come(project, pairs, edges, outcome)
            &&& left@.len() == pairs.len() && runs::is_whole_run(plan, outcome.events@)
                && runs::first_failure(outcome.events@) is Some ==> stages::can_come(
                project,
                pairs,
                edges,
                outcome,
            )
        },
        0 < opening.contents@.len() <= files.len() && opening.contents@.last() is Err && (forall|
            j: int,
        |
            0 <= j < opening.contents@.len() - 1 ==> (#[trigger] opening.contents@[j]) is Ok)
            ==> stages::can_all_come(project, files, opening, outcome),
        opening.contents@.len() == files.len() && (forall|j: int|
            0 <= j < opening.contents@.len() ==> (#[trigger] opening.contents@[j]) is Ok)
            && opening.resolved is Err ==> stages::can_all_come(project, files, opening, outcome),
        opening.contents@.len() == files.len() && (forall|j: int|
            0 <= j < opening.contents@.len() ==> (#[trigger] opening.contents@[j]) is Ok)
            && opening.resolved is Ok && (opening.resolved->Ok_0.0 is Together) == (
        project.compiler_config is Specific) && stages::can_come(
            project,
            project::slashed_pairs(
                project::resolved_pairs(project, opening.resolved->Ok_0.0),
                project.windows,
            ),
            opening.resolved->Ok_0.1,
            outcome,
        ) ==> stages::can_all_come(project, files, opening, outcome),
{
    let contents = opening.contents@;
    outcome_laws::law_files_are_read(files.len(), contents);
    outcome_laws::law_first_unread(contents, contents.len() - 1);
}

} // verus!
