//! What holds of the runs that compile a project.
use crate::config::RemappingView;
use crate::maps;
use crate::maps::{ByText, TextMap};
use crate::path;
use crate::version::VersionView;
use crate::zksync::artifacts::{Contract, SourceFile};
use crate::zksync::compile::output;
use crate::zksync::compile::output::{VersionedContractView, VersionedSourceFileView};
use crate::zksync::compile::project;
use crate::zksync::compile::project::{
    CompilerRunView, FilteredSource, PathsView, VersionRunsView, VersionedFilteredSourcesView,
};
use crate::zksync::compile::runs;
use crate::zksync::compile::runs::{RunEvent, RunStepView};
use crate::zksync::compilers::zksolc::input;
use crate::zksync::compilers::zksolc::input::{Source, ZkSolcInputView};
use crate::zksync::compilers::zksolc::settings::ZkSolcSettingsView;
use vstd::prelude::*;

verus! {

/// Whether a run is for a file.
pub open spec fn compiles(runs: Seq<CompilerRunView>, file: Seq<char>) -> bool {
    exists|k: int| 0 <= k < runs.len() && (#[trigger] runs[k]).dirty.contains(file)
}

proof fn lemma_dirty_path(files: Seq<(Seq<char>, FilteredSource)>, i: int)
    requires
        0 <= i < files.len(),
        files[i].1 is Dirty,
    ensures
        project::is_among(project::dirty_paths(files), files[i].0),
    decreases files.len(),
{
    let all = project::dirty_paths(files);
    let rest = files.drop_last();
    if i == files.len() - 1 {
        assert(all.last() == files[i].0);
        assert(path::same_path(all[all.len() - 1], files[i].0));
    } else {
        assert(rest[i] == files[i]);
        lemma_dirty_path(rest, i);
        let before = project::dirty_paths(rest);
        let k = choose|k: int|
            0 <= k < before.len() && path::same_path(#[trigger] before[k], files[i].0);
        assert(all[k] == before[k]);
    }
}

proof fn lemma_dirty_of(sources: Seq<(Seq<char>, Source)>, dirty: Seq<Seq<char>>, i: int)
    requires
        0 <= i < sources.len(),
        project::is_among(dirty, sources[i].0),
    ensures
        project::dirty_of(sources, dirty).contains(sources[i].0),
    decreases sources.len(),
{
    let all = project::dirty_of(sources, dirty);
    let rest = sources.drop_last();
    if i == sources.len() - 1 {
        assert(all[all.len() - 1] == sources[i].0);
    } else {
        assert(rest[i] == sources[i]);
        lemma_dirty_of(rest, dirty, i);
        let before = project::dirty_of(rest, dirty);
        let k = before.index_of(sources[i].0);
        assert(all[k] == before[k]);
    }
}

proof fn lemma_run_for_input(
    inputs: Seq<ZkSolcInputView>,
    dirty: Seq<Seq<char>>,
    remappings: Seq<RemappingView>,
    root: Seq<char>,
    k: int,
    file: Seq<char>,
)
    requires
        0 <= k < inputs.len(),
        project::dirty_of(inputs[k].sources, dirty).contains(file),
    ensures
        compiles(project::runs_for(inputs, dirty, remappings, root), file),
    decreases inputs.len(),
{
    let runs = project::runs_for(inputs, dirty, remappings, root);
    let rest = inputs.drop_last();
    if k == inputs.len() - 1 {
        assert(runs[runs.len() - 1].dirty == project::dirty_of(inputs[k].sources, dirty));
    } else {
        assert(rest[k] == inputs[k]);
        lemma_run_for_input(rest, dirty, remappings, root, k, file);
        let before = project::runs_for(rest, dirty, remappings, root);
        let j = choose|j: int| 0 <= j < before.len() && (#[trigger] before[j]).dirty.contains(file);
        assert(runs[j] == before[j]);
    }
}

/// Every source file that has to be compiled is in a run.
pub proof fn law_dirty_files_are_compiled(
    sources: VersionedFilteredSourcesView,
    settings: ZkSolcSettingsView,
    paths: PathsView,
    i: int,
)
    requires
        0 <= i < sources.sources.len(),
        sources.sources[i].1 is Dirty,
    ensures
        compiles(
            project::version_runs(sources, settings, paths).runs,
            sources.sources[i].0,
        ),
{
    let files = sources.sources;
    let file = files[i].0;
    let plain = project::plain_sources(files);
    let dirty = project::dirty_paths(files);
    let set = input::with_evm_version(settings, sources.evm_version);
    let inputs = input::inputs_for(plain, set);
    lemma_dirty_path(files, i);
    assert(plain[i].0 == file);
    input::law_inputs_hold_all_sources(plain, set, i);
    let k = choose|k: int|
        0 <= k < inputs.len() && (#[trigger] inputs[k]).sources.contains(plain[i])
            && inputs[k].language == (if input::is_yul_path(plain[i].0) {
            input::yul()
        } else {
            input::solidity()
        });
    let at = inputs[k].sources.index_of(plain[i]);
    lemma_dirty_of(inputs[k].sources, dirty, at);
    lemma_run_for_input(inputs, dirty, paths.remappings, paths.root, k, file);
}

/// Every run has a source file that has to be compiled.
pub proof fn law_runs_have_dirty_files(
    inputs: Seq<ZkSolcInputView>,
    dirty: Seq<Seq<char>>,
    remappings: Seq<RemappingView>,
    root: Seq<char>,
    k: int,
)
    requires
        0 <= k < project::runs_for(inputs, dirty, remappings, root).len(),
    ensures
        project::runs_for(inputs, dirty, remappings, root)[k].dirty.len() > 0,
    decreases inputs.len(),
{
    let before = project::runs_for(inputs.drop_last(), dirty, remappings, root);
    if k < before.len() {
        law_runs_have_dirty_files(inputs.drop_last(), dirty, remappings, root, k);
    }
}

/// What adding an item to a list does to each list.
proof fn lemma_pushed<T>(
    entries: Seq<(Seq<char>, Seq<T>)>,
    key: Seq<char>,
    item: T,
    other: Seq<char>,
)
    requires
        maps::ordered::<ByText, Seq<T>>(entries),
    ensures
        maps::ordered::<ByText, Seq<T>>(maps::pushed::<ByText, T>(entries, key, item)),
        maps::list_of::<ByText, T>(maps::pushed::<ByText, T>(entries, key, item), other) == (
        if other == key {
            maps::list_of::<ByText, T>(entries, key).push(item)
        } else {
            maps::list_of::<ByText, T>(entries, other)
        }),
{
    let list = maps::list_of::<ByText, T>(entries, key);
    maps::law_inserted::<ByText, Seq<T>>(entries, key, list.push(item), other);
}

/// Adding the source files of another run keeps all that were there, in their places.
pub proof fn law_sources_are_kept(
    sources: Seq<(Seq<char>, Seq<VersionedSourceFileView>)>,
    more: Seq<(Seq<char>, SourceFile)>,
    version: VersionView,
    file: Seq<char>,
)
    requires
        maps::ordered::<ByText, Seq<VersionedSourceFileView>>(sources),
    ensures
        maps::ordered::<ByText, Seq<VersionedSourceFileView>>(
            output::with_sources(sources, more, version),
        ),
        maps::list_of::<ByText, VersionedSourceFileView>(sources, file).is_prefix_of(
            maps::list_of::<ByText, VersionedSourceFileView>(
                output::with_sources(sources, more, version),
                file,
            ),
        ),
    decreases more.len(),
{
    if more.len() > 0 {
        let last = more.last();
        law_sources_are_kept(sources, more.drop_last(), version, file);
        lemma_pushed(
            output::with_sources(sources, more.drop_last(), version),
            last.0,
            VersionedSourceFileView { source_file: last.1@, version },
            file,
        );
    }
}

/// Every source file of another run is there when they were added, with its version.
pub proof fn law_sources_are_added(
    sources: Seq<(Seq<char>, Seq<VersionedSourceFileView>)>,
    more: Seq<(Seq<char>, SourceFile)>,
    version: VersionView,
    i: int,
)
    requires
        maps::ordered::<ByText, Seq<VersionedSourceFileView>>(sources),
        0 <= i < more.len(),
    ensures
        maps::list_of::<ByText, VersionedSourceFileView>(
            output::with_sources(sources, more, version),
            more[i].0,
        ).contains(VersionedSourceFileView { source_file: more[i].1@, version }),
    decreases more.len(),
{
    let rest = more.drop_last();
    let last = more.last();
    let item = VersionedSourceFileView { source_file: more[i].1@, version };
    let before = output::with_sources(sources, rest, version);
    law_sources_are_kept(sources, rest, version, more[i].0);
    lemma_pushed(
        before,
        last.0,
        VersionedSourceFileView { source_file: last.1@, version },
        more[i].0,
    );
    let after = maps::list_of::<ByText, VersionedSourceFileView>(
        output::with_sources(sources, more, version),
        more[i].0,
    );
    if i < rest.len() {
        assert(rest[i] == more[i]);
        law_sources_are_added(sources, rest, version, i);
        let list = maps::list_of::<ByText, VersionedSourceFileView>(before, more[i].0);
        let k = list.index_of(item);
        assert(after[k] == item);
    } else {
        assert(after[after.len() - 1] == item);
    }
}

/// The contracts of a file that have a name.
pub open spec fn contract_list(
    contracts: Seq<(Seq<char>, Seq<(Seq<char>, Seq<VersionedContractView>)>)>,
    file: Seq<char>,
    name: Seq<char>,
) -> Seq<VersionedContractView> {
    maps::list_of::<ByText, VersionedContractView>(
        output::contracts_of_file(contracts, file),
        name,
    )
}

/// Whether files and the names in each file are in their order.
pub open spec fn all_ordered(
    contracts: Seq<(Seq<char>, Seq<(Seq<char>, Seq<VersionedContractView>)>)>,
) -> bool {
    &&& maps::ordered::<ByText, Seq<(Seq<char>, Seq<VersionedContractView>)>>(contracts)
    &&& forall|file: Seq<char>|
        maps::ordered::<ByText, Seq<VersionedContractView>>(
            #[trigger] output::contracts_of_file(contracts, file),
        )
}

proof fn lemma_names_are_kept(
    names: Seq<(Seq<char>, Seq<VersionedContractView>)>,
    more: Seq<(Seq<char>, Contract)>,
    version: VersionView,
    name: Seq<char>,
)
    requires
        maps::ordered::<ByText, Seq<VersionedContractView>>(names),
    ensures
        maps::ordered::<ByText, Seq<VersionedContractView>>(
            output::with_names(names, more, version),
        ),
        maps::list_of::<ByText, VersionedContractView>(names, name).is_prefix_of(
            maps::list_of::<ByText, VersionedContractView>(
                output::with_names(names, more, version),
                name,
            ),
        ),
    decreases more.len(),
{
    if more.len() > 0 {
        let last = more.last();
        lemma_names_are_kept(names, more.drop_last(), version, name);
        lemma_pushed(
            output::with_names(names, more.drop_last(), version),
            last.0,
            VersionedContractView { contract: last.1@, version },
            name,
        );
    }
}

proof fn lemma_names_are_added(
    names: Seq<(Seq<char>, Seq<VersionedContractView>)>,
    more: Seq<(Seq<char>, Contract)>,
    version: VersionView,
    i: int,
)
    requires
        maps::ordered::<ByText, Seq<VersionedContractView>>(names),
        0 <= i < more.len(),
    ensures
        maps::list_of::<ByText, VersionedContractView>(
            output::with_names(names, more, version),
            more[i].0,
        ).contains(VersionedContractView { contract: more[i].1@, version }),
    decreases more.len(),
{
    let rest = more.drop_last();
    let last = more.last();
    let item = VersionedContractView { contract: more[i].1@, version };
    let before = output::with_names(names, rest, version);
    lemma_names_are_kept(names, rest, version, more[i].0);
    lemma_pushed(
        before,
        last.0,
        VersionedContractView { contract: last.1@, version },
        more[i].0,
    );
    let after = maps::list_of::<ByText, VersionedContractView>(
        output::with_names(names, more, version),
        more[i].0,
    );
    if i < rest.len() {
        assert(rest[i] == more[i]);
        lemma_names_are_added(names, rest, version, i);
        let list = maps::list_of::<ByText, VersionedContractView>(before, more[i].0);
        let k = list.index_of(item);
        assert(after[k] == item);
    } else {
        assert(after[after.len() - 1] == item);
    }
}

/// What the contracts of one more file do to those of each file.
proof fn lemma_one_more_file(
    contracts: Seq<(Seq<char>, Seq<(Seq<char>, Seq<VersionedContractView>)>)>,
    key: Seq<char>,
    names: Seq<(Seq<char>, Seq<VersionedContractView>)>,
)
    requires
        all_ordered(contracts),
        maps::ordered::<ByText, Seq<VersionedContractView>>(names),
    ensures
        ({
            let after = maps::inserted::<ByText, Seq<(Seq<char>, Seq<VersionedContractView>)>>(
                contracts,
                key,
                names,
            );
            &&& all_ordered(after)
            &&& forall|file: Seq<char>|
                #[trigger] output::contracts_of_file(after, file) == (if file == key {
                    names
                } else {
                    output::contracts_of_file(contracts, file)
                })
        }),
{
    let after = maps::inserted::<ByText, Seq<(Seq<char>, Seq<VersionedContractView>)>>(
        contracts,
        key,
        names,
    );
    maps::law_inserted::<ByText, Seq<(Seq<char>, Seq<VersionedContractView>)>>(
        contracts,
        key,
        names,
        key,
    );
    assert forall|file: Seq<char>| #[trigger] output::contracts_of_file(after, file) == (if file
        == key {
        names
    } else {
        output::contracts_of_file(contracts, file)
    }) by {
        maps::law_inserted::<ByText, Seq<(Seq<char>, Seq<VersionedContractView>)>>(
            contracts,
            key,
            names,
            file,
        );
    }
}

/// Adding the contracts of another run keeps all that were there, in their places.
pub proof fn law_contracts_are_kept(
    contracts: Seq<(Seq<char>, Seq<(Seq<char>, Seq<VersionedContractView>)>)>,
    more: Seq<(Seq<char>, TextMap<Contract>)>,
    version: VersionView,
    file: Seq<char>,
    name: Seq<char>,
)
    requires
        all_ordered(contracts),
    ensures
        all_ordered(output::with_contracts(contracts, more, version)),
        contract_list(contracts, file, name).is_prefix_of(
            contract_list(output::with_contracts(contracts, more, version), file, name),
        ),
    decreases more.len(),
{
    if more.len() > 0 {
        let last = more.last();
        let before = output::with_contracts(contracts, more.drop_last(), version);
        law_contracts_are_kept(contracts, more.drop_last(), version, file, name);
        let names = output::contracts_of_file(before, last.0);
        lemma_names_are_kept(names, last.1@, version, name);
        lemma_one_more_file(before, last.0, output::with_names(names, last.1@, version));
    }
}

/// Every contract of another run is there when they were added, with its version.
pub proof fn law_contracts_are_added(
    contracts: Seq<(Seq<char>, Seq<(Seq<char>, Seq<VersionedContractView>)>)>,
    more: Seq<(Seq<char>, TextMap<Contract>)>,
    version: VersionView,
    i: int,
    k: int,
)
    requires
        all_ordered(contracts),
        0 <= i < more.len(),
        0 <= k < more[i].1@.len(),
    ensures
        contract_list(
            output::with_contracts(contracts, more, version),
            more[i].0,
            more[i].1@[k].0,
        ).contains(VersionedContractView { contract: more[i].1@[k].1@, version }),
    decreases more.len(),
{
    let rest = more.drop_last();
    let last = more.last();
    let (file, name) = (more[i].0, more[i].1@[k].0);
    let item = VersionedContractView { contract: more[i].1@[k].1@, version };
    let before = output::with_contracts(contracts, rest, version);
    law_contracts_are_kept(contracts, rest, version, file, name);
    let names = output::contracts_of_file(before, last.0);
    lemma_names_are_kept(names, last.1@, version, name);
    lemma_one_more_file(before, last.0, output::with_names(names, last.1@, version));
    if i < rest.len() {
        assert(rest[i] == more[i]);
        law_contracts_are_added(contracts, rest, version, i, k);
        let list = contract_list(before, file, name);
        let at = list.index_of(item);
        assert(contract_list(output::with_contracts(contracts, more, version), file, name)[at]
            == item);
    } else {
        lemma_names_are_added(names, last.1@, version, k);
    }
}

pub proof fn lemma_gathered_ordered(
    plan: Seq<VersionRunsView>,
    events: Seq<RunEvent>,
    root: Seq<char>,
)
    ensures
        maps::ordered::<ByText, Seq<VersionedSourceFileView>>(
            runs::gathered(plan, events, root).sources,
        ),
        all_ordered(runs::gathered(plan, events, root).contracts),
    decreases events.len(),
{
    if events.len() > 0 {
        lemma_gathered_ordered(plan, events.drop_last(), root);
        let before = runs::gathered(plan, events.drop_last(), root);
        if let RunStepView::Compile(job, _) = runs::all_steps(plan)[events.len() - 1] {
            if let RunEvent::Emitted(output, _) = events.last() {
                law_sources_are_kept(
                    before.sources,
                    maps::joined_keys(output.sources@, root),
                    plan[job].version,
                    Seq::empty(),
                );
                law_contracts_are_kept(
                    before.contracts,
                    maps::joined_keys(output.contracts@, root),
                    plan[job].version,
                    Seq::empty(),
                    Seq::empty(),
                );
            }
        }
    }
}

/// What is gathered from the events up to one is kept when more are gathered.
proof fn lemma_gathered_keeps(
    plan: Seq<VersionRunsView>,
    events: Seq<RunEvent>,
    root: Seq<char>,
    count: nat,
    file: Seq<char>,
    name: Seq<char>,
)
    requires
        count <= events.len(),
    ensures
        ({
            let before = runs::gathered(plan, events.take(count as int), root);
            let after = runs::gathered(plan, events, root);
            &&& maps::list_of::<ByText, VersionedSourceFileView>(before.sources, file).is_prefix_of(
                maps::list_of::<ByText, VersionedSourceFileView>(after.sources, file),
            )
            &&& contract_list(before.contracts, file, name).is_prefix_of(
                contract_list(after.contracts, file, name),
            )
        }),
    decreases events.len(),
{
    assert(events.take(events.len() as int) =~= events);
    if count < events.len() {
        let rest = events.drop_last();
        assert(rest.take(count as int) =~= events.take(count as int));
        lemma_gathered_keeps(plan, rest, root, count, file, name);
        lemma_gathered_ordered(plan, rest, root);
        let middle = runs::gathered(plan, rest, root);
        if let RunStepView::Compile(job, _) = runs::all_steps(plan)[events.len() - 1] {
            if let RunEvent::Emitted(output, _) = events.last() {
                law_sources_are_kept(
                    middle.sources,
                    maps::joined_keys(output.sources@, root),
                    plan[job].version,
                    file,
                );
                law_contracts_are_kept(
                    middle.contracts,
                    maps::joined_keys(output.contracts@, root),
                    plan[job].version,
                    file,
                    name,
                );
            }
        }
    }
}

/// Every source file that a run emits is among those of all runs, with the version of the run's
/// job.
pub proof fn law_gathered_sources(
    plan: Seq<VersionRunsView>,
    events: Seq<RunEvent>,
    root: Seq<char>,
    at: int,
    i: int,
)
    requires
        runs::is_run(plan, events),
        0 <= at < events.len(),
        events[at] is Emitted,
        0 <= i < maps::joined_keys(events[at]->Emitted_0.sources@, root).len(),
    ensures
        runs::all_steps(plan)[at] matches RunStepView::Compile(job, _) && {
            let (file, source) = maps::joined_keys(events[at]->Emitted_0.sources@, root)[i];
            maps::list_of::<ByText, VersionedSourceFileView>(
                runs::gathered(plan, events, root).sources,
                file,
            ).contains(
                VersionedSourceFileView { source_file: source@, version: plan[job].version },
            )
        },
{
    assert(runs::step_after(plan, events.take(at)) is Some) by {
        let event = events[at];
    }
    let job = runs::all_steps(plan)[at]->Compile_0;
    let first = events.take(at + 1);
    let more = maps::joined_keys(events[at]->Emitted_0.sources@, root);
    let (file, source) = more[i];
    let item = VersionedSourceFileView { source_file: source@, version: plan[job].version };
    assert(first.drop_last() =~= events.take(at));
    assert(first.last() == events[at]);
    lemma_gathered_ordered(plan, events.take(at), root);
    law_sources_are_added(
        runs::gathered(plan, events.take(at), root).sources,
        more,
        plan[job].version,
        i,
    );
    lemma_gathered_keeps(plan, events, root, (at + 1) as nat, file, Seq::empty());
    let list = maps::list_of::<ByText, VersionedSourceFileView>(
        runs::gathered(plan, first, root).sources,
        file,
    );
    let k = list.index_of(item);
    assert(maps::list_of::<ByText, VersionedSourceFileView>(
        runs::gathered(plan, events, root).sources,
        file,
    )[k] == item);
}

/// Every contract that a run emits is among those of all runs, with the version of the run's job.
pub proof fn law_gathered_contracts(
    plan: Seq<VersionRunsView>,
    events: Seq<RunEvent>,
    root: Seq<char>,
    at: int,
    i: int,
    k: int,
)
    requires
        runs::is_run(plan, events),
        0 <= at < events.len(),
        events[at] is Emitted,
        0 <= i < maps::joined_keys(events[at]->Emitted_0.contracts@, root).len(),
        0 <= k < maps::joined_keys(events[at]->Emitted_0.contracts@, root)[i].1@.len(),
    ensures
        runs::all_steps(plan)[at] matches RunStepView::Compile(job, _) && {
            let (file, names) = maps::joined_keys(events[at]->Emitted_0.contracts@, root)[i];
            contract_list(
                runs::gathered(plan, events, root).contracts,
                file,
                names@[k].0,
            ).contains(
                VersionedContractView { contract: names@[k].1@, version: plan[job].version },
            )
        },
{
    assert(runs::step_after(plan, events.take(at)) is Some) by {
        let event = events[at];
    }
    let job = runs::all_steps(plan)[at]->Compile_0;
    let first = events.take(at + 1);
    let more = maps::joined_keys(events[at]->Emitted_0.contracts@, root);
    let (file, names) = more[i];
    let name = names@[k].0;
    let item = VersionedContractView { contract: names@[k].1@, version: plan[job].version };
    assert(first.drop_last() =~= events.take(at));
    assert(first.last() == events[at]);
    lemma_gathered_ordered(plan, events.take(at), root);
    law_contracts_are_added(
        runs::gathered(plan, events.take(at), root).contracts,
        more,
        plan[job].version,
        i,
        k,
    );
    lemma_gathered_keeps(plan, events, root, (at + 1) as nat, file, name);
    let list = contract_list(runs::gathered(plan, first, root).contracts, file, name);
    let place = list.index_of(item);
    assert(contract_list(runs::gathered(plan, events, root).contracts, file, name)[place] == item);
}

} // verus!
