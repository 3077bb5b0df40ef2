//! Running the compiler once for each input of a plan.
use crate::error::SolcError;
use crate::maps;
use crate::zksync::artifacts::CompilerOutput;
use crate::zksync::compile::output;
use crate::zksync::compile::output::{AggregatedCompilerOutput, AggregatedCompilerOutputView};
use crate::zksync::compile::project;
use crate::zksync::compile::project::{VersionRuns, VersionRunsView};
use vstd::prelude::*;

verus! {

/// A step of carrying out a plan. Jobs and their runs are counted from zero.
#[derive(Debug, Clone, Copy, PartialEq, Eq, Structural)]
pub enum RunStep {
    /// Get the compiler that works with the `solc` of a job
    Prepare(usize),
    /// Ask the compiler for its version before a run of a job
    AskVersion(usize, usize),
    /// Compile the input of a run of a job
    Compile(usize, usize),
}

/// What a [`RunStep`] holds.
pub enum RunStepView {
    Prepare(int),
    AskVersion(int, int),
    Compile(int, int),
}

impl View for RunStep {
    type V = RunStepView;

    open spec fn view(&self) -> RunStepView {
        match *self {
            RunStep::Prepare(job) => RunStepView::Prepare(job as int),
            RunStep::AskVersion(job, run) => RunStepView::AskVersion(job as int, run as int),
            RunStep::Compile(job, run) => RunStepView::Compile(job as int, run as int),
        }
    }
}

/// What came of a step.
pub enum RunEvent {
    /// The compiler is there, or told its version
    Done,
    /// The compiler emitted this, and whether it was repeated with missing libraries detection
    Emitted(CompilerOutput, bool),
    /// The step failed
    Failed(SolcError),
}

impl RunStepView {
    /// Whether something can come of this step.
    pub open spec fn allows(self, event: RunEvent) -> bool {
        match self {
            RunStepView::Compile(_, _) => event is Emitted || event is Failed,
            _ => event is Done || event is Failed,
        }
    }
}

/// The steps of the first runs of a job.
pub open spec fn job_steps(job: int, runs: nat) -> Seq<RunStepView>
    decreases runs,
{
    if runs == 0 {
        seq![RunStepView::Prepare(job)]
    } else {
        job_steps(job, (runs - 1) as nat).push(RunStepView::AskVersion(job, runs - 1)).push(
            RunStepView::Compile(job, runs - 1),
        )
    }
}

/// The steps of a plan, job by job.
pub open spec fn all_steps(plan: Seq<VersionRunsView>) -> Seq<RunStepView>
    decreases plan.len(),
{
    if plan.len() == 0 {
        Seq::empty()
    } else {
        all_steps(plan.drop_last()) + job_steps(plan.len() - 1, plan.last().runs.len())
    }
}

/// The first error among events.
pub open spec fn first_failure(events: Seq<RunEvent>) -> Option<SolcError>
    decreases events.len(),
{
    if events.len() == 0 {
        None
    } else {
        match first_failure(events.drop_last()) {
            Some(error) => Some(error),
            None => match events.last() {
                RunEvent::Failed(error) => Some(error),
                _ => None,
            },
        }
    }
}

/// The step that follows on events: none after a failure, and none when all steps are done.
pub open spec fn step_after(plan: Seq<VersionRunsView>, events: Seq<RunEvent>) -> Option<
    RunStepView,
> {
    if first_failure(events) is Some || events.len() >= all_steps(plan).len() {
        None
    } else {
        Some(all_steps(plan)[events.len() as int])
    }
}

/// Whether events came of carrying out a plan: each of the step that followed on those before.
pub open spec fn is_run(plan: Seq<VersionRunsView>, events: Seq<RunEvent>) -> bool {
    forall|i: int|
        #![trigger events[i]]
        0 <= i < events.len() ==> (step_after(plan, events.take(i)) matches Some(step)
            && step.allows(events[i]))
}

/// Whether events came of carrying out a plan to its end.
pub open spec fn is_whole_run(plan: Seq<VersionRunsView>, events: Seq<RunEvent>) -> bool {
    is_run(plan, events) && step_after(plan, events) is None
}

/// What all runs emit, one after the other, each with the version of its job and with the paths
/// of all files joined to the root of the project.
pub open spec fn gathered(
    plan: Seq<VersionRunsView>,
    events: Seq<RunEvent>,
    root: Seq<char>,
) -> AggregatedCompilerOutputView
    decreases events.len(),
{
    if events.len() == 0 {
        AggregatedCompilerOutputView {
            errors: Seq::empty(),
            sources: Seq::empty(),
            contracts: Seq::empty(),
            recompiled_with_detect_missing_libraries: false,
        }
    } else {
        let before = gathered(plan, events.drop_last(), root);
        match (all_steps(plan)[events.len() - 1], events.last()) {
            (RunStepView::Compile(job, _), RunEvent::Emitted(output, again)) => {
                AggregatedCompilerOutputView {
                    errors: before.errors + output.errors@,
                    sources: output::with_sources(
                        before.sources,
                        maps::joined_keys(output.sources@, root),
                        plan[job].version,
                    ),
                    contracts: output::with_contracts(
                        before.contracts,
                        maps::joined_keys(output.contracts@, root),
                        plan[job].version,
                    ),
                    recompiled_with_detect_missing_libraries:
                        before.recompiled_with_detect_missing_libraries || again,
                }
            },
            _ => before,
        }
    }
}

/// What steps hold.
pub open spec fn step_views(steps: Seq<RunStep>) -> Seq<RunStepView> {
    steps.map_values(|step: RunStep| step@)
}

/// The steps of a plan, job by job
pub fn list_steps(plan: &Vec<VersionRuns>) -> (res: Vec<RunStep>)
    ensures
        step_views(res@) == all_steps(project::version_run_views(plan@)),
{
    let ghost all = project::version_run_views(plan@);
    let mut res: Vec<RunStep> = Vec::new();
    let mut job: usize = 0;
    assert(all.len() == plan.len());
    assert(all.take(0) =~= Seq::<VersionRunsView>::empty());
    assert(step_views(res@) =~= all_steps(all.take(0)));
    while job < plan.len()
        invariant
            all == project::version_run_views(plan@),
            all.len() == plan.len(),
            job <= plan.len(),
            step_views(res@) == all_steps(all.take(job as int)),
        decreases plan.len() - job,
    {
        let ghost before = all_steps(all.take(job as int));
        let runs = &plan[job].runs;
        assert(all.take(job + 1).drop_last() =~= all.take(job as int));
        assert(all.take(job + 1).last() == plan@[job as int]@);
        res.push(RunStep::Prepare(job));
        let mut run: usize = 0;
        assert(step_views(res@) =~= before + job_steps(job as int, 0));
        while run < runs.len()
            invariant
                run <= runs.len(),
                step_views(res@) == before + job_steps(job as int, run as nat),
            decreases runs.len() - run,
        {
            let ghost was = step_views(res@);
            res.push(RunStep::AskVersion(job, run));
            res.push(RunStep::Compile(job, run));
            run = run + 1;
            assert(step_views(res@) =~= was.push(
                RunStepView::AskVersion(job as int, run - 1),
            ).push(RunStepView::Compile(job as int, run - 1)));
            assert(step_views(res@) =~= before + job_steps(job as int, run as nat));
        }
        assert(all.take(job + 1).last().runs.len() == runs.len());
        job = job + 1;
    }
    assert(all.take(job as int) =~= all);
    res
}

/// Whether a step failed
fn has_failure(events: &Vec<RunEvent>) -> (res: bool)
    ensures
        res == (first_failure(events@) is Some),
{
    let ghost all = events@;
    let mut i: usize = 0;
    assert(all.take(0) =~= Seq::<RunEvent>::empty());
    while i < events.len()
        invariant
            all == events@,
            i <= events.len(),
            first_failure(all.take(i as int)) is None,
        decreases events.len() - i,
    {
        assert(all.take(i + 1).drop_last() =~= all.take(i as int));
        if let RunEvent::Failed(_) = &events[i] {
            proof {
                lemma_first_failure_stays(all, (i + 1) as nat);
            }
            return true;
        }
        i = i + 1;
    }
    assert(all.take(i as int) =~= all);
    false
}

/// The step to take next, given what came of those before
///
/// There is none after a step that failed, and none when the plan is carried out.
pub fn next_run(plan: &Vec<VersionRuns>, events: &Vec<RunEvent>) -> (res: Option<RunStep>)
    ensures
        match res {
            Some(step) => step_after(project::version_run_views(plan@), events@) == Some(step@),
            None => step_after(project::version_run_views(plan@), events@) is None,
        },
{
    if has_failure(events) {
        return None;
    }
    let steps = list_steps(plan);
    let ghost all = all_steps(project::version_run_views(plan@));
    assert(all.len() == steps.len());
    if events.len() < steps.len() {
        assert(all[events.len() as int] == steps@[events.len() as int]@);
        Some(steps[events.len()])
    } else {
        None
    }
}

proof fn lemma_first_failure_stays(events: Seq<RunEvent>, count: nat)
    requires
        count <= events.len(),
        first_failure(events.take(count as int)) is Some,
    ensures
        first_failure(events) == first_failure(events.take(count as int)),
    decreases events.len() - count,
{
    if count < events.len() {
        assert(events.take(count as int + 1).drop_last() =~= events.take(count as int));
        lemma_first_failure_stays(events, count + 1);
    } else {
        assert(events.take(count as int) =~= events);
    }
}

/// The steps of a job are its own.
proof fn lemma_job_steps(job: int, runs: nat, i: int)
    requires
        0 <= i < job_steps(job, runs).len(),
    ensures
        job_steps(job, runs).len() == 2 * runs + 1,
        match job_steps(job, runs)[i] {
            RunStepView::Prepare(j) => j == job,
            RunStepView::AskVersion(j, run) => j == job && 0 <= run < runs,
            RunStepView::Compile(j, run) => j == job && 0 <= run < runs,
        },
    decreases runs,
{
    if runs > 0 {
        let before = job_steps(job, (runs - 1) as nat);
        lemma_job_steps(job, (runs - 1) as nat, if i < before.len() { i } else { 0 });
    }
}

/// Every step of a plan is one of a run, or of a job, that the plan has.
pub proof fn lemma_steps_are_planned(plan: Seq<VersionRunsView>, i: int)
    requires
        0 <= i < all_steps(plan).len(),
    ensures
        match all_steps(plan)[i] {
            RunStepView::Prepare(job) => 0 <= job < plan.len(),
            RunStepView::AskVersion(job, run) => 0 <= job < plan.len() && 0 <= run
                < plan[job].runs.len(),
            RunStepView::Compile(job, run) => 0 <= job < plan.len() && 0 <= run
                < plan[job].runs.len(),
        },
    decreases plan.len(),
{
    let before = all_steps(plan.drop_last());
    if i < before.len() {
        lemma_steps_are_planned(plan.drop_last(), i);
    } else {
        lemma_job_steps(plan.len() - 1, plan.last().runs.len(), i - before.len());
    }
}

/// Gathers what came of carrying out a plan: the first error, or all that was emitted
pub fn gather_runs(plan: &Vec<VersionRuns>, events: Vec<RunEvent>, root: &str) -> (res: Result<
    AggregatedCompilerOutput,
    SolcError,
>)
    requires
        is_run(project::version_run_views(plan@), events@),
    ensures
        match first_failure(events@) {
            Some(error) => res == Err::<AggregatedCompilerOutput, SolcError>(error),
            None => res matches Ok(output) && output@ == gathered(
                project::version_run_views(plan@),
                events@,
                root@,
            ),
        },
{
    let ghost jobs = project::version_run_views(plan@);
    let ghost all = events@;
    let steps = list_steps(plan);
    let mut aggregated = AggregatedCompilerOutput::default();
    assert(jobs.len() == plan.len());
    assert(step_views(steps@).len() == steps.len());
    assert(all.take(0) =~= Seq::<RunEvent>::empty());
    assert(aggregated@ =~= gathered(jobs, all.take(0), root@));
    let mut at: usize = 0;
    for event in it: events
        invariant
            it.seq() == all,
            at == it.index(),
            jobs == project::version_run_views(plan@),
            jobs.len() == plan.len(),
            step_views(steps@) == all_steps(jobs),
            all_steps(jobs).len() == steps.len(),
            is_run(jobs, all),
            first_failure(all.take(it.index() as int)) is None,
            aggregated@ == gathered(jobs, all.take(it.index() as int), root@),
    {
        let ghost i = it.index() as int;
        assert(all[i] == event);
        assert(step_after(jobs, all.take(i)) is Some);
        assert(all.take(i + 1).drop_last() =~= all.take(i));
        assert(all.take(i + 1).last() == event);
        assert(all_steps(jobs)[i] == steps@[i]@);
        proof {
            lemma_steps_are_planned(jobs, i);
        }
        match event {
            RunEvent::Done => {},
            RunEvent::Emitted(output, again) => {
                if let RunStep::Compile(job, _) = steps[at] {
                    assert(jobs[job as int] == plan@[job as int]@);
                    aggregated.add_run(plan[job].version.clone(), output, again, root);
                }
            },
            RunEvent::Failed(error) => {
                proof {
                    lemma_first_failure_stays(all, (i + 1) as nat);
                }
                return Err(error);
            },
        }
        at = at + 1;
    }
    assert(all.take(all.len() as int) =~= all);
    Ok(aggregated)
}

/// No step is taken after one that failed: a failure is the last of the events that come of
/// carrying out a plan, and no step follows on it.
pub proof fn law_no_step_follows_a_failure(
    plan: Seq<VersionRunsView>,
    events: Seq<RunEvent>,
    i: int,
)
    requires
        is_run(plan, events),
        0 <= i < events.len(),
        events[i] is Failed,
    ensures
        i == events.len() - 1,
        first_failure(events) == Some(events[i]->Failed_0),
        step_after(plan, events) is None,
{
    let first = events.take(i + 1);
    assert(first.drop_last() =~= events.take(i));
    assert(first.last() == events[i]);
    assert(step_after(plan, events.take(i)) is Some);
    assert(first_failure(first) == Some(events[i]->Failed_0));
    lemma_first_failure_stays(events, (i + 1) as nat);
    if i + 1 < events.len() {
        assert(step_after(plan, events.take(i + 1)) is Some) by {
            let next = events[i + 1];
        }
    }
    assert(events.take(events.len() as int) =~= events);
}

/// A plan that was carried out without a failure was carried out in full.
pub proof fn law_whole_runs_take_all_steps(plan: Seq<VersionRunsView>, events: Seq<RunEvent>)
    requires
        is_whole_run(plan, events),
        first_failure(events) is None,
    ensures
        events.len() == all_steps(plan).len(),
{
    if events.len() > 0 {
        let last = events[events.len() - 1];
        assert(step_after(plan, events.take(events.len() - 1)) is Some);
    }
}

/// Every run of a plan has a step that compiles it.
pub proof fn law_every_run_is_compiled(plan: Seq<VersionRunsView>, job: int, run: int)
    requires
        0 <= job < plan.len(),
        0 <= run < plan[job].runs.len(),
    ensures
        all_steps(plan).contains(RunStepView::Compile(job, run)),
    decreases plan.len(),
{
    let before = all_steps(plan.drop_last());
    let all = all_steps(plan);
    if job < plan.len() - 1 {
        assert(plan.drop_last()[job] == plan[job]);
        law_every_run_is_compiled(plan.drop_last(), job, run);
        let k = before.index_of(RunStepView::Compile(job, run));
        assert(all[k] == before[k]);
    } else {
        let own = job_steps(job, plan[job].runs.len());
        lemma_run_is_compiled(job, plan[job].runs.len(), run);
        let k = own.index_of(RunStepView::Compile(job, run));
        assert(all[before.len() + k] == own[k]);
    }
}

proof fn lemma_run_is_compiled(job: int, runs: nat, run: int)
    requires
        0 <= run < runs,
    ensures
        job_steps(job, runs).contains(RunStepView::Compile(job, run)),
    decreases runs,
{
    let before = job_steps(job, (runs - 1) as nat);
    let all = job_steps(job, runs);
    if run < runs - 1 {
        lemma_run_is_compiled(job, (runs - 1) as nat, run);
        let k = before.index_of(RunStepView::Compile(job, run));
        assert(all[k] == before[k]);
    } else {
        assert(all[all.len() - 1] == RunStepView::Compile(job, run));
    }
}

} // verus!
