//! What holds of the steps that a plan is carried out by, and of what is gathered from them.
use crate::key_laws;
use crate::maps;
use crate::maps::{ByText, TextMap};
use crate::path;
use crate::version::VersionView;
use crate::zksync::artifacts::{Contract, SourceFile};
use crate::zksync::compile::laws;
use crate::zksync::compile::output;
use crate::zksync::compile::output::{
    AggregatedCompilerOutputView, VersionedContractView, VersionedSourceFileView,
};
use crate::zksync::compile::project::{Project, VersionRunsView};
use crate::zksync::compile::runs;
use crate::zksync::compile::runs::{RunEvent, RunStepView};
use crate::zksync::compile::stages;
use vstd::prelude::*;
use vstd::string::*;

verus! {

/// A job gets its compiler first, and then, run by run, asks it for its version and compiles.
pub proof fn law_job_steps(job: int, count: nat, run: int)
    ensures
        runs::job_steps(job, count).len() == 2 * count + 1,
        runs::job_steps(job, count)[0] == RunStepView::Prepare(job),
        0 <= run < count ==> runs::job_steps(job, count)[1 + 2 * run] == RunStepView::AskVersion(
            job,
            run,
        ),
        0 <= run < count ==> runs::job_steps(job, count)[2 + 2 * run] == RunStepView::Compile(
            job,
            run,
        ),
    decreases count,
{
    if count > 0 {
        let less = (count - 1) as nat;
        law_job_steps(job, less, run);
        let before = runs::job_steps(job, less);
        let all = runs::job_steps(job, count);
        assert(all[0] == before[0]);
        if 0 <= run < less {
            assert(all[1 + 2 * run] == before[1 + 2 * run]);
            assert(all[2 + 2 * run] == before[2 + 2 * run]);
        }
    }
}

/// The jobs of a plan are carried out one after the other.
pub proof fn law_all_steps(plan: Seq<VersionRunsView>, last: VersionRunsView)
    ensures
        runs::all_steps(plan.push(last)) == runs::all_steps(plan) + runs::job_steps(
            plan.len() as int,
            last.runs.len(),
        ),
        plan.len() == 0 ==> runs::all_steps(plan).len() == 0,
{
    assert(plan.push(last).drop_last() =~= plan);
}

/// A step that compiles emits something or fails, and every other step is done or fails.
pub proof fn law_events_of_steps(step: RunStepView, event: RunEvent)
    ensures
        step.allows(event) <==> {
            ||| event is Failed
            ||| step is Compile && event is Emitted
            ||| !(step is Compile) && event is Done
        },
{
}

/// The first error is that of the first step that failed; there is none where none failed.
pub proof fn law_first_failure(events: Seq<RunEvent>, i: int)
    ensures
        0 <= i < events.len() && events[i] is Failed && (forall|j: int|
            0 <= j < i ==> !((#[trigger] events[j]) is Failed)) ==> runs::first_failure(events)
            == Some(events[i]->Failed_0),
        (forall|j: int| 0 <= j < events.len() ==> !((#[trigger] events[j]) is Failed))
            ==> runs::first_failure(events) is None,
    decreases events.len(),
{
    if events.len() > 0 {
        let rest = events.drop_last();
        law_first_failure(rest, i);
        assert(forall|j: int| 0 <= j < rest.len() ==> rest[j] == events[j]);
        assert(events[events.len() - 1] == events.last());
        if forall|j: int| 0 <= j < events.len() ==> !((#[trigger] events[j]) is Failed) {
            assert forall|j: int| 0 <= j < rest.len() implies !((#[trigger] rest[j]) is Failed) by {
                assert(rest[j] == events[j]);
            }
        }
        if 0 <= i < events.len() && events[i] is Failed && (forall|j: int|
            0 <= j < i ==> !((#[trigger] events[j]) is Failed)) {
            if i < rest.len() {
                assert forall|j: int| 0 <= j < i implies !((#[trigger] rest[j]) is Failed) by {
                    assert(rest[j] == events[j]);
                }
            } else {
                assert forall|j: int| 0 <= j < rest.len() implies !(
                (#[trigger] rest[j]) is Failed) by {
                    assert(rest[j] == events[j]);
                }
            }
        }
    }
}

/// The steps are taken in their order; there is no next one just where one failed or all are
/// taken.
pub proof fn law_next_steps(plan: Seq<VersionRunsView>, events: Seq<RunEvent>, i: int)
    ensures
        0 <= i < events.len() && events[i] is Failed ==> runs::step_after(plan, events) is None,
        events.len() >= runs::all_steps(plan).len() ==> runs::step_after(plan, events) is None,
        events.len() < runs::all_steps(plan).len() && (forall|j: int|
            0 <= j < events.len() ==> !((#[trigger] events[j]) is Failed)) ==> runs::step_after(
            plan,
            events,
        ) == Some(runs::all_steps(plan)[events.len() as int]),
{
    law_first_failure(events, 0);
    if 0 <= i < events.len() && events[i] is Failed {
        let first = lemma_first_failed(events, i);
        law_first_failure(events, first);
    }
}

proof fn lemma_first_failed(events: Seq<RunEvent>, i: int) -> (first: int)
    requires
        0 <= i < events.len(),
        events[i] is Failed,
    ensures
        0 <= first <= i,
        events[first] is Failed,
        forall|j: int| 0 <= j < first ==> !((#[trigger] events[j]) is Failed),
    decreases i,
{
    if exists|j: int| 0 <= j < i && (#[trigger] events[j]) is Failed {
        let j = choose|j: int| 0 <= j < i && (#[trigger] events[j]) is Failed;
        lemma_first_failed(events, j)
    } else {
        i
    }
}

/// Events come of carrying out a plan just where each comes of the step that is next after those
/// before it; the plan is carried out to its end where no step is left, or where one failed.
pub proof fn law_events_of_plans(
    plan: Seq<VersionRunsView>,
    events: Seq<RunEvent>,
    last: RunEvent,
)
    ensures
        events.len() == 0 ==> runs::is_run(plan, events),
        runs::is_run(plan, events.push(last)) <==> runs::is_run(plan, events) && (runs::step_after(
            plan,
            events,
        ) is Some && runs::step_after(plan, events)->0.allows(last)),
        runs::is_whole_run(plan, events) <==> runs::is_run(plan, events) && runs::step_after(
            plan,
            events,
        ) is None,
{
    reveal(has_run);
    if runs::is_run(plan, events.push(last)) {
        lemma_shorter_run(plan, events, last);
    }
    if runs::is_run(plan, events) && runs::step_after(plan, events) is Some && runs::step_after(
        plan,
        events,
    )->0.allows(last) {
        lemma_longer_run(plan, events, last);
    }
}

/// Whether events came of carrying out a plan.
#[verifier::opaque]
spec fn has_run(plan: Seq<VersionRunsView>, events: Seq<RunEvent>) -> bool {
    runs::is_run(plan, events)
}

/// Whether an event came of the step that is next after those before it.
spec fn is_next(plan: Seq<VersionRunsView>, before: Seq<RunEvent>, event: RunEvent) -> bool {
    runs::step_after(plan, before) matches Some(step) && step.allows(event)
}

proof fn lemma_event_of_run(plan: Seq<VersionRunsView>, events: Seq<RunEvent>, i: int)
    requires
        has_run(plan, events),
        0 <= i < events.len(),
    ensures
        is_next(plan, events.take(i), events[i]),
{
    reveal(has_run);
    let event = events[i];
}

proof fn lemma_run_of_events(plan: Seq<VersionRunsView>, events: Seq<RunEvent>)
    requires
        forall|i: int|
            #![trigger events.take(i)]
            0 <= i < events.len() ==> is_next(plan, events.take(i), events[i]),
    ensures
        has_run(plan, events),
{
    reveal(has_run);
}

proof fn lemma_shorter_run(plan: Seq<VersionRunsView>, events: Seq<RunEvent>, last: RunEvent)
    requires
        has_run(plan, events.push(last)),
    ensures
        has_run(plan, events),
        is_next(plan, events, last),
{
    let more = events.push(last);
    let n = events.len() as int;
    assert(more.take(n) =~= events);
    lemma_event_of_run(plan, more, n);
    assert forall|i: int| #![trigger events.take(i)] 0 <= i < events.len() implies is_next(
        plan,
        events.take(i),
        events[i],
    ) by {
        assert(more.take(i) =~= events.take(i));
        lemma_event_of_run(plan, more, i);
    }
    lemma_run_of_events(plan, events);
}

proof fn lemma_longer_run(plan: Seq<VersionRunsView>, events: Seq<RunEvent>, last: RunEvent)
    requires
        has_run(plan, events),
        is_next(plan, events, last),
    ensures
        has_run(plan, events.push(last)),
{
    let more = events.push(last);
    let n = events.len() as int;
    assert(more.take(n) =~= events);
    assert forall|i: int| #![trigger more.take(i)] 0 <= i < more.len() implies is_next(
        plan,
        more.take(i),
        more[i],
    ) by {
        if i < n {
            assert(more.take(i) =~= events.take(i));
            lemma_event_of_run(plan, events, i);
        }
    }
    lemma_run_of_events(plan, more);
}

/// Every message that a run emits is among those that are gathered.
pub proof fn law_gathered_messages(
    plan: Seq<VersionRunsView>,
    events: Seq<RunEvent>,
    root: Seq<char>,
    at: int,
    k: int,
)
    requires
        runs::is_run(plan, events),
        0 <= at < events.len(),
        events[at] is Emitted,
        0 <= k < events[at]->Emitted_0.errors@.len(),
    ensures
        runs::gathered(plan, events, root).errors.contains(events[at]->Emitted_0.errors@[k]),
    decreases events.len(),
{
    let rest = events.drop_last();
    let message = events[at]->Emitted_0.errors@[k];
    assert(rest.push(events.last()) =~= events);
    law_events_of_plans(plan, rest, events.last());
    law_gathered_step_by_step(plan, rest, events.last(), root);
    let before = runs::gathered(plan, rest, root).errors;
    let all = runs::gathered(plan, events, root).errors;
    if at < rest.len() {
        assert(rest[at] == events[at]);
        law_gathered_messages(plan, rest, root, at, k);
        let i = before.index_of(message);
        assert(all[i] == message);
    } else {
        assert(all[before.len() + k] == message);
    }
}

/// The messages that are gathered are those of all runs, one run after the other, and nothing else;
/// it is gathered that a run was repeated where one was; and nothing is gathered from other steps.
pub proof fn law_gathered_step_by_step(
    plan: Seq<VersionRunsView>,
    events: Seq<RunEvent>,
    last: RunEvent,
    root: Seq<char>,
)
    requires
        runs::is_run(plan, events.push(last)),
    ensures
        ({
            let before = runs::gathered(plan, events, root);
            let after = runs::gathered(plan, events.push(last), root);
            &&& last is Emitted ==> after.errors == before.errors + last->Emitted_0.errors@
            &&& last is Emitted ==> after.recompiled_with_detect_missing_libraries == (
            before.recompiled_with_detect_missing_libraries || last->Emitted_1)
            &&& !(last is Emitted) ==> after == before
        }),
{
    let more = events.push(last);
    let n = events.len() as int;
    assert(more.drop_last() =~= events);
    assert(more.take(n) =~= events);
    assert(more[n] == last);
    assert(runs::step_after(plan, more.take(n)) is Some);
}

/// Nothing is gathered from nothing.
pub proof fn law_nothing_gathered(plan: Seq<VersionRunsView>, root: Seq<char>)
    ensures
        ({
            let none = runs::gathered(plan, Seq::empty(), root);
            &&& none.errors.len() == 0
            &&& none.sources.len() == 0
            &&& none.contracts.len() == 0
            &&& !none.recompiled_with_detect_missing_libraries
        }),
{
}

/// The source files of a run are added to those at the same paths, each at the end and with the
/// version of the run's job, and all others stay.
pub proof fn law_sources_of_a_run(
    sources: Seq<(Seq<char>, Seq<VersionedSourceFileView>)>,
    more: Seq<(Seq<char>, SourceFile)>,
    version: VersionView,
    file: Seq<char>,
)
    requires
        maps::ordered::<ByText, Seq<VersionedSourceFileView>>(sources),
        maps::ordered::<ByText, SourceFile>(more),
    ensures
        maps::list_of::<ByText, VersionedSourceFileView>(
            output::with_sources(sources, more, version),
            file,
        ) == (match maps::found::<ByText, SourceFile>(more, file) {
            Some(source) => maps::list_of::<ByText, VersionedSourceFileView>(sources, file).push(
                VersionedSourceFileView { source_file: source@, version },
            ),
            None => maps::list_of::<ByText, VersionedSourceFileView>(sources, file),
        }),
    decreases more.len(),
{
    if more.len() > 0 {
        let rest = more.drop_last();
        let last = more.last();
        let n = more.len() - 1;
        assert(rest.push((last.0, last.1)) =~= more);
        maps::lemma_inserted_last::<ByText, SourceFile>(rest, last.0, last.1);
        maps::law_inserted::<ByText, SourceFile>(rest, last.0, last.1, file);
        law_sources_of_a_run(sources, rest, version, file);
        laws::law_sources_are_kept(sources, rest, version, file);
        let before = output::with_sources(sources, rest, version);
        let item = VersionedSourceFileView { source_file: last.1@, version };
        key_laws::law_pushed::<ByText, VersionedSourceFileView>(before, last.0, item, file);
        if last.0 == file {
            lemma_not_before::<SourceFile>(more, n);
            assert(Seq::<VersionedSourceFileView>::empty().push(item) =~= seq![item]);
        }
    }
}

/// The last entry of a map has a key that no entry before it has.
proof fn lemma_not_before<V>(entries: Seq<(Seq<char>, V)>, n: int)
    requires
        maps::ordered::<ByText, V>(entries),
        n == entries.len() - 1,
        n >= 0,
    ensures
        maps::found::<ByText, V>(entries.drop_last(), entries[n].0) is None,
        maps::found::<ByText, V>(entries, entries[n].0) == Some(entries[n].1),
{
    let rest = entries.drop_last();
    let key = entries[n].0;
    maps::lemma_found::<ByText, V>(entries, key, n);
    assert(rest.push((key, entries[n].1)) =~= entries);
    maps::lemma_inserted_last::<ByText, V>(rest, key, entries[n].1);
    maps::lemma_has::<ByText, V>(rest, key);
    if maps::found::<ByText, V>(rest, key) is Some {
        let i = maps::slot::<ByText, V>(rest, key);
        maps::lemma_slot::<ByText, V>(rest, key);
        assert(entries[i] == rest[i]);
        maps::lemma_found::<ByText, V>(entries, key, i);
    }
}

/// The contracts of a file are added to those with the same names, each at the end and with the
/// version of the run's job, and all others stay.
pub proof fn law_names_of_a_run(
    names: Seq<(Seq<char>, Seq<VersionedContractView>)>,
    more: Seq<(Seq<char>, Contract)>,
    version: VersionView,
    name: Seq<char>,
)
    requires
        maps::ordered::<ByText, Seq<VersionedContractView>>(names),
        maps::ordered::<ByText, Contract>(more),
    ensures
        maps::ordered::<ByText, Seq<VersionedContractView>>(
            output::with_names(names, more, version),
        ),
        maps::list_of::<ByText, VersionedContractView>(
            output::with_names(names, more, version),
            name,
        ) == (match maps::found::<ByText, Contract>(more, name) {
            Some(contract) => maps::list_of::<ByText, VersionedContractView>(names, name).push(
                VersionedContractView { contract: contract@, version },
            ),
            None => maps::list_of::<ByText, VersionedContractView>(names, name),
        }),
    decreases more.len(),
{
    if more.len() > 0 {
        let rest = more.drop_last();
        let last = more.last();
        let n = more.len() - 1;
        assert(rest.push((last.0, last.1)) =~= more);
        maps::lemma_inserted_last::<ByText, Contract>(rest, last.0, last.1);
        maps::law_inserted::<ByText, Contract>(rest, last.0, last.1, name);
        law_names_of_a_run(names, rest, version, name);
        let before = output::with_names(names, rest, version);
        let item = VersionedContractView { contract: last.1@, version };
        key_laws::law_pushed::<ByText, VersionedContractView>(before, last.0, item, name);
        if last.0 == name {
            lemma_not_before::<Contract>(more, n);
            assert(Seq::<VersionedContractView>::empty().push(item) =~= seq![item]);
        }
    }
}

/// The contracts of a run are added to those of the same file and name, each at the end and with
/// the version of the run's job, and all others stay.
pub proof fn law_contracts_of_a_run(
    contracts: Seq<(Seq<char>, Seq<(Seq<char>, Seq<VersionedContractView>)>)>,
    more: Seq<(Seq<char>, TextMap<Contract>)>,
    version: VersionView,
    file: Seq<char>,
    name: Seq<char>,
)
    requires
        laws::all_ordered(contracts),
        maps::ordered::<ByText, TextMap<Contract>>(more),
        forall|i: int|
            0 <= i < more.len() ==> maps::ordered::<ByText, Contract>((#[trigger] more[i]).1@),
    ensures
        laws::contract_list(output::with_contracts(contracts, more, version), file, name) == (
        match maps::found::<ByText, TextMap<Contract>>(more, file) {
            Some(names) => match maps::found::<ByText, Contract>(names@, name) {
                Some(contract) => laws::contract_list(contracts, file, name).push(
                    VersionedContractView { contract: contract@, version },
                ),
                None => laws::contract_list(contracts, file, name),
            },
            None => laws::contract_list(contracts, file, name),
        }),
    decreases more.len(),
{
    if more.len() > 0 {
        let rest = more.drop_last();
        let last = more.last();
        let n = more.len() - 1;
        assert(more[n] == last);
        assert(rest.push((last.0, last.1)) =~= more);
        maps::lemma_inserted_last::<ByText, TextMap<Contract>>(rest, last.0, last.1);
        maps::law_inserted::<ByText, TextMap<Contract>>(rest, last.0, last.1, file);
        assert forall|i: int| 0 <= i < rest.len() implies maps::ordered::<ByText, Contract>(
            (#[trigger] rest[i]).1@,
        ) by {
            assert(rest[i] == more[i]);
        }
        law_contracts_of_a_run(contracts, rest, version, file, name);
        laws::law_contracts_are_kept(contracts, rest, version, file, name);
        let before = output::with_contracts(contracts, rest, version);
        let names = output::contracts_of_file(before, last.0);
        law_names_of_a_run(names, last.1@, version, name);
        let added = output::with_names(names, last.1@, version);
        maps::law_inserted::<ByText, Seq<(Seq<char>, Seq<VersionedContractView>)>>(
            before,
            last.0,
            added,
            file,
        );
        if last.0 == file {
            lemma_not_before::<TextMap<Contract>>(more, n);
        }
    }
}

/// What a run emits is gathered under the version of its job, with the paths joined to the root.
pub proof fn law_gathered_by_version(
    plan: Seq<VersionRunsView>,
    events: Seq<RunEvent>,
    last: RunEvent,
    root: Seq<char>,
    file: Seq<char>,
)
    requires
        runs::is_run(plan, events.push(last)),
        last is Emitted,
    ensures
        ({
            let before = runs::gathered(plan, events, root);
            let after = runs::gathered(plan, events.push(last), root);
            let step = runs::all_steps(plan)[events.len() as int];
            let emitted = last->Emitted_0;
            &&& step is Compile
            &&& 0 <= step->Compile_0 < plan.len()
            &&& maps::list_of::<ByText, VersionedSourceFileView>(after.sources, file) == (
            match maps::found::<ByText, SourceFile>(
                maps::joined_keys(emitted.sources@, root),
                file,
            ) {
                Some(source) => maps::list_of::<ByText, VersionedSourceFileView>(
                    before.sources,
                    file,
                ).push(
                    VersionedSourceFileView {
                        source_file: source@,
                        version: plan[step->Compile_0].version,
                    },
                ),
                None => maps::list_of::<ByText, VersionedSourceFileView>(before.sources, file),
            })
        }),
{
    let more = events.push(last);
    let n = events.len() as int;
    assert(more.drop_last() =~= events);
    assert(more.take(n) =~= events);
    assert(more[n] == last);
    assert(runs::step_after(plan, more.take(n)) is Some);
    runs::lemma_steps_are_planned(plan, n);
    laws::lemma_gathered_ordered(plan, events, root);
    let joined = maps::joined_keys(last->Emitted_0.sources@, root);
    key_laws::law_joined_keys(last->Emitted_0.sources@, root);
    law_sources_of_a_run(
        runs::gathered(plan, events, root).sources,
        joined,
        plan[runs::all_steps(plan)[n]->Compile_0].version,
        file,
    );
}

/// Joining the paths of an output to a path changes nothing but those paths.
pub proof fn law_joined_output(given: AggregatedCompilerOutputView, root: Seq<char>)
    ensures
        ({
            let made = output::joined_output(given, root);
            let change = |key: Seq<char>| path::join_path(root, key);
            &&& made.errors == given.errors
            &&& made.recompiled_with_detect_missing_libraries
                == given.recompiled_with_detect_missing_libraries
            &&& key_laws::is_rekeyed::<ByText, Seq<VersionedSourceFileView>>(
                made.sources,
                given.sources,
                change,
            )
            &&& key_laws::is_rekeyed::<ByText, Seq<(Seq<char>, Seq<VersionedContractView>)>>(
                made.contracts,
                given.contracts,
                change,
            )
        }),
{
    key_laws::law_joined_keys(given.sources, root);
    key_laws::law_joined_keys(given.contracts, root);
}

/// Slashing the paths of an output changes nothing but those paths.
pub proof fn law_slashed_output(given: AggregatedCompilerOutputView)
    ensures
        ({
            let made = output::slashed_output(given);
            let change = |key: Seq<char>| path::slashed(key);
            &&& made.errors == given.errors
            &&& made.recompiled_with_detect_missing_libraries
                == given.recompiled_with_detect_missing_libraries
            &&& key_laws::is_rekeyed::<ByText, Seq<VersionedSourceFileView>>(
                made.sources,
                given.sources,
                change,
            )
            &&& key_laws::is_rekeyed::<ByText, Seq<(Seq<char>, Seq<VersionedContractView>)>>(
                made.contracts,
                given.contracts,
                change,
            )
        }),
{
    key_laws::law_slashed_entries::<ByText, Seq<VersionedSourceFileView>>(given.sources);
    key_laws::law_slashed_entries::<ByText, Seq<(Seq<char>, Seq<VersionedContractView>)>>(
        given.contracts,
    );
}

/// What a project has of its runs is what is gathered from them, with the paths joined to its root
/// once more: all messages, and whether a run was repeated.
pub proof fn law_output_of_project(
    project: Project,
    plan: Seq<VersionRunsView>,
    events: Seq<RunEvent>,
)
    ensures
        ({
            let made = stages::project_output(project, plan, events);
            let given = runs::gathered(plan, events, project.paths.root@);
            let change = |key: Seq<char>| path::join_path(project.paths.root@, key);
            &&& made.errors == given.errors
            &&& made.recompiled_with_detect_missing_libraries
                == given.recompiled_with_detect_missing_libraries
            &&& key_laws::is_rekeyed::<ByText, Seq<VersionedSourceFileView>>(
                made.sources,
                given.sources,
                change,
            )
            &&& key_laws::is_rekeyed::<ByText, Seq<(Seq<char>, Seq<VersionedContractView>)>>(
                made.contracts,
                given.contracts,
                change,
            )
        }),
{
    law_joined_output(
        runs::gathered(plan, events, project.paths.root@),
        project.paths.root@,
    );
}

/// A source file is found at its path with the first entry for a version; nothing is found where
/// there is none.
pub proof fn law_found_source(
    sources: Seq<(Seq<char>, Seq<VersionedSourceFileView>)>,
    file: Seq<char>,
    version: VersionView,
    i: int,
)
    ensures
        ({
            let list = maps::list_of::<ByText, VersionedSourceFileView>(sources, file);
            &&& 0 <= i < list.len() && list[i].version == version && (forall|j: int|
                0 <= j < i ==> (#[trigger] list[j]).version != version) ==> output::find_source(
                sources,
                file,
                version,
            ) == Some(list[i].source_file)
            &&& (forall|j: int| 0 <= j < list.len() ==> (#[trigger] list[j]).version != version)
                ==> output::find_source(sources, file, version) is None
        }),
{
    lemma_found_source(
        maps::list_of::<ByText, VersionedSourceFileView>(sources, file),
        version,
        i,
    );
}

proof fn lemma_found_source(list: Seq<VersionedSourceFileView>, version: VersionView, i: int)
    ensures
        0 <= i < list.len() && list[i].version == version && (forall|j: int|
            0 <= j < i ==> (#[trigger] list[j]).version != version)
            ==> output::source_for_version(list, version) == Some(list[i].source_file),
        (forall|j: int| 0 <= j < list.len() ==> (#[trigger] list[j]).version != version)
            ==> output::source_for_version(list, version) is None,
    decreases list.len(),
{
    if list.len() > 0 {
        let rest = list.drop_first();
        lemma_found_source(rest, version, i - 1);
        assert(forall|j: int| 0 <= j < rest.len() ==> rest[j] == list[j + 1]);
        if forall|j: int| 0 <= j < list.len() ==> (#[trigger] list[j]).version != version {
            assert(list[0].version != version);
            assert forall|j: int| 0 <= j < rest.len() implies (#[trigger] rest[j]).version
                != version by {
                assert(rest[j] == list[j + 1]);
            }
        }
        if 0 < i < list.len() && list[i].version == version && (forall|j: int|
            0 <= j < i ==> (#[trigger] list[j]).version != version) {
            assert(list[0].version != version);
            assert(rest[i - 1] == list[i]);
            assert forall|j: int| 0 <= j < i - 1 implies (#[trigger] rest[j]).version
                != version by {
                assert(rest[j] == list[j + 1]);
            }
        }
    }
}

} // verus!
