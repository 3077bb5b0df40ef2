//! What holds of the paths of artifacts.
use crate::maps;
use crate::maps::ByPath;
use crate::path;
use crate::zksync::artifact_output;
use crate::zksync::artifact_output::files;
use crate::zksync::artifact_output::files::MappedContractView;
use crate::zksync::artifact_output::laws;
use crate::zksync::artifact_output::zk;
use crate::zksync::artifact_output::zk::Progress;
use crate::zksync::artifact_output::OutputContext;
use crate::zksync::compile::output::{VersionedContractView, VersionedSourceFileView};
use vstd::prelude::*;

verus! {

/// Whether the contracts in each group are meant for the same path, and those in different
/// groups for different paths.
pub open spec fn are_grouped(groups: Seq<Seq<MappedContractView>>) -> bool {
    forall|g: int, i: int, h: int, j: int|
        0 <= g < groups.len() && 0 <= i < groups[g].len() && 0 <= h < groups.len() && 0 <= j
            < groups[h].len() ==> (path::same_path(
            (#[trigger] groups[g][i]).artifact_path,
            (#[trigger] groups[h][j]).artifact_path,
        ) <==> g == h)
}

/// Whether each contract is listed for the path that it is meant for.
spec fn are_mapped(list: Seq<(Seq<char>, Seq<MappedContractView>)>) -> bool {
    &&& maps::ordered::<ByPath, Seq<MappedContractView>>(list)
    &&& forall|k: int, i: int|
        0 <= k < list.len() && 0 <= i < list[k].1.len() ==> path::same_path(
            (#[trigger] list[k].1[i]).artifact_path,
            list[k].0,
        )
}

proof fn lemma_one_more_mapped(
    list: Seq<(Seq<char>, Seq<MappedContractView>)>,
    mapped: MappedContractView,
)
    requires
        are_mapped(list),
    ensures
        are_mapped(
            maps::pushed::<ByPath, MappedContractView>(list, mapped.artifact_path, mapped),
        ),
{
    let key = mapped.artifact_path;
    let had = maps::list_of::<ByPath, MappedContractView>(list, key);
    let after = maps::pushed::<ByPath, MappedContractView>(list, key, mapped);
    let at = maps::slot::<ByPath, Seq<MappedContractView>>(list, key);
    maps::lemma_slot::<ByPath, Seq<MappedContractView>>(list, key);
    maps::law_inserted::<ByPath, Seq<MappedContractView>>(list, key, had.push(mapped), key);
    assert forall|k: int, i: int| 0 <= k < after.len() && 0 <= i < after[k].1.len() implies
        path::same_path((#[trigger] after[k].1[i]).artifact_path, after[k].0) by {
        if k == at {
            if i < had.len() {
                assert(after[k].1[i] == list[at].1[i]);
            } else {
                assert(after[k].1[i] == mapped);
            }
        } else if k < at || after.len() == list.len() {
            assert(after[k] == list[k]);
            assert(after[k].1[i] == list[k].1[i]);
        } else {
            assert(after[k] == list[k - 1]);
            assert(after[k].1[i] == list[k - 1].1[i]);
        }
    }
}

proof fn lemma_versions_mapped(
    list: Seq<(Seq<char>, Seq<MappedContractView>)>,
    ctx: OutputContext,
    file: Seq<char>,
    name: Seq<char>,
    versions: Seq<VersionedContractView>,
    count: nat,
)
    requires
        are_mapped(list),
    ensures
        are_mapped(files::with_versions(list, ctx, file, name, versions, count)),
    decreases count,
{
    if count > 0 {
        let last = (count - 1) as nat;
        let contract = versions[last as int];
        lemma_versions_mapped(list, ctx, file, name, versions, last);
        lemma_one_more_mapped(
            files::with_versions(list, ctx, file, name, versions, last),
            MappedContractView {
                file,
                name,
                contract: contract.contract,
                version: contract.version,
                artifact_path: files::mapped_path(
                    ctx,
                    file,
                    name,
                    versions.len(),
                    contract.version,
                ),
            },
        );
    }
}

proof fn lemma_names_mapped(
    list: Seq<(Seq<char>, Seq<MappedContractView>)>,
    ctx: OutputContext,
    file: Seq<char>,
    names: Seq<(Seq<char>, Seq<VersionedContractView>)>,
)
    requires
        are_mapped(list),
    ensures
        are_mapped(files::with_names(list, ctx, file, names)),
    decreases names.len(),
{
    if names.len() > 0 {
        let last = names.last();
        lemma_names_mapped(list, ctx, file, names.drop_last());
        lemma_versions_mapped(
            files::with_names(list, ctx, file, names.drop_last()),
            ctx,
            file,
            last.0,
            last.1,
            last.1.len(),
        );
    }
}

proof fn lemma_all_mapped(
    ctx: OutputContext,
    contracts: Seq<(Seq<char>, Seq<(Seq<char>, Seq<VersionedContractView>)>)>,
)
    ensures
        are_mapped(files::mapped_files(ctx, contracts)),
    decreases contracts.len(),
{
    if contracts.len() > 0 {
        let last = contracts.last();
        lemma_all_mapped(ctx, contracts.drop_last());
        lemma_names_mapped(
            files::mapped_files(ctx, contracts.drop_last()),
            ctx,
            last.0,
            last.1,
        );
    }
}

/// Contracts are in the same group just where they are meant for the same path.
pub proof fn law_contracts_are_grouped(
    ctx: OutputContext,
    contracts: Seq<(Seq<char>, Seq<(Seq<char>, Seq<VersionedContractView>)>)>,
)
    ensures
        are_grouped(zk::groups_of(files::mapped_files(ctx, contracts))),
{
    let list = files::mapped_files(ctx, contracts);
    let groups = zk::groups_of(list);
    lemma_all_mapped(ctx, contracts);
    assert forall|g: int, i: int, h: int, j: int|
        0 <= g < groups.len() && 0 <= i < groups[g].len() && 0 <= h < groups.len() && 0 <= j
            < groups[h].len() implies (path::same_path(
        (#[trigger] groups[g][i]).artifact_path,
        (#[trigger] groups[h][j]).artifact_path,
    ) <==> g == h) by {
        assert(groups[g][i] == list[g].1[i]);
        assert(groups[h][j] == list[h].1[j]);
        if path::same_path(groups[g][i].artifact_path, groups[h][j].artifact_path) {
            maps::lemma_found::<ByPath, Seq<MappedContractView>>(list, list[g].0, g);
            maps::lemma_found::<ByPath, Seq<MappedContractView>>(list, list[g].0, h);
        }
    }
}

/// Whether a contract keeps the path that it is meant for.
pub open spec fn keeps_path(group: Seq<MappedContractView>, at: int) -> bool {
    group.len() <= 1 || zk::is_top_most(group, at)
}

proof fn lemma_taken_stays(taken: Seq<(Seq<char>, ())>, more: Seq<char>, other: Seq<char>)
    requires
        maps::ordered::<ByPath, ()>(taken),
    ensures
        maps::ordered::<ByPath, ()>(maps::inserted::<ByPath, ()>(taken, more, ())),
        artifact_output::is_taken(maps::inserted::<ByPath, ()>(taken, more, ()), more),
        artifact_output::is_taken(taken, other) ==> artifact_output::is_taken(
            maps::inserted::<ByPath, ()>(taken, more, ()),
            other,
        ),
{
    let after = maps::inserted::<ByPath, ()>(taken, more, ());
    maps::law_inserted::<ByPath, ()>(taken, more, (), other);
    maps::lemma_has::<ByPath, ()>(taken, other);
    maps::lemma_has::<ByPath, ()>(after, other);
    maps::lemma_has::<ByPath, ()>(after, more);
    if path::components(other) == path::components(more) {
        let k = choose|k: int|
            0 <= k < after.len() && path::components(#[trigger] after[k].0) == path::components(
                more,
            );
        assert(path::components(after[k].0) == path::components(other));
    }
}

proof fn lemma_contracts_take(
    progress: Progress,
    group: Seq<MappedContractView>,
    from: nat,
    to: nat,
    sources: Seq<(Seq<char>, Seq<VersionedSourceFileView>)>,
    folder: Seq<char>,
    other: Seq<char>,
)
    requires
        maps::ordered::<ByPath, ()>(progress.taken),
        from <= to,
    ensures
        zk::with_contracts(progress, group, to, sources, folder) matches Some(after) ==> {
            &&& maps::ordered::<ByPath, ()>(after.taken)
            &&& zk::with_contracts(progress, group, from, sources, folder) matches Some(before)
            &&& maps::ordered::<ByPath, ()>(before.taken)
            &&& artifact_output::is_taken(before.taken, other) ==> artifact_output::is_taken(
                after.taken,
                other,
            )
        },
    decreases to,
{
    if to > 0 {
        let last = (to - 1) as nat;
        let first = if from < to {
            from
        } else {
            last
        };
        lemma_contracts_take(progress, group, first, last, sources, folder, other);
        if let Some(middle) = zk::with_contracts(progress, group, last, sources, folder) {
            if let Some(file) = zk::contract_path(middle.taken, group, last as int, folder) {
                lemma_taken_stays(middle.taken, file, other);
            }
        }
    }
}

proof fn lemma_groups_take(
    groups: Seq<Seq<MappedContractView>>,
    from: nat,
    sources: Seq<(Seq<char>, Seq<VersionedSourceFileView>)>,
    folder: Seq<char>,
    other: Seq<char>,
)
    requires
        from <= groups.len(),
    ensures
        zk::with_groups(groups, sources, folder) matches Some(after) ==> {
            &&& maps::ordered::<ByPath, ()>(after.taken)
            &&& zk::with_groups(groups.take(from as int), sources, folder) matches Some(before)
            &&& maps::ordered::<ByPath, ()>(before.taken)
            &&& artifact_output::is_taken(before.taken, other) ==> artifact_output::is_taken(
                after.taken,
                other,
            )
        },
    decreases groups.len(),
{
    assert(groups.take(groups.len() as int) =~= groups);
    if groups.len() > 0 {
        let rest = groups.drop_last();
        let last = groups.last();
        if from < groups.len() {
            assert(rest.take(from as int) =~= groups.take(from as int));
            lemma_groups_take(rest, from, sources, folder, other);
        } else {
            lemma_groups_take(rest, 0, sources, folder, other);
        }
        if let Some(middle) = zk::with_groups(rest, sources, folder) {
            lemma_contracts_take(middle, last, 0, last.len(), sources, folder, other);
        }
    }
}

/// What is known when a contract's turn comes, and after it.
proof fn lemma_turn(
    groups: Seq<Seq<MappedContractView>>,
    sources: Seq<(Seq<char>, Seq<VersionedSourceFileView>)>,
    folder: Seq<char>,
    group: int,
    at: int,
)
    requires
        0 <= group < groups.len(),
        0 <= at < groups[group].len(),
        zk::with_groups(groups, sources, folder) is Some,
    ensures
        zk::with_groups(groups.take(group), sources, folder) matches Some(progress) && {
            &&& maps::ordered::<ByPath, ()>(progress.taken)
            &&& zk::with_contracts(
                progress,
                groups[group],
                groups[group].len(),
                sources,
                folder,
            ) == zk::with_groups(groups.take(group + 1), sources, folder)
            &&& zk::with_groups(groups.take(group + 1), sources, folder) is Some
            &&& laws::path_of(groups, sources, folder, group, at) matches Some(file)
            &&& zk::with_contracts(
                progress,
                groups[group],
                (at + 1) as nat,
                sources,
                folder,
            ) matches Some(after)
            &&& artifact_output::is_taken(after.taken, file)
        },
{
    let first = groups.take(group + 1);
    let all = groups[group];
    lemma_groups_take(groups, (group + 1) as nat, sources, folder, Seq::empty());
    lemma_groups_take(groups, group as nat, sources, folder, Seq::empty());
    assert(first.drop_last() =~= groups.take(group));
    assert(first.last() == all);
    let progress = zk::with_groups(groups.take(group), sources, folder)->0;
    lemma_contracts_take(
        progress,
        all,
        (at + 1) as nat,
        all.len(),
        sources,
        folder,
        Seq::empty(),
    );
    lemma_contracts_take(
        progress,
        all,
        at as nat,
        (at + 1) as nat,
        sources,
        folder,
        Seq::empty(),
    );
    let before = zk::with_contracts(progress, all, at as nat, sources, folder)->0;
    let file = zk::contract_path(before.taken, all, at, folder)->0;
    lemma_taken_stays(before.taken, file, file);
}

/// Whether one contract is handled before another one.
pub open spec fn is_earlier(g: int, i: int, h: int, j: int) -> bool {
    g < h || g == h && i < j
}

/// The artifacts of two contracts have different paths, unless the later contract keeps a path
/// that has been given to the earlier one in place of its own.
pub proof fn law_contract_paths_differ(
    groups: Seq<Seq<MappedContractView>>,
    sources: Seq<(Seq<char>, Seq<VersionedSourceFileView>)>,
    folder: Seq<char>,
    g: int,
    i: int,
    h: int,
    j: int,
)
    requires
        are_grouped(groups),
        zk::with_groups(groups, sources, folder) is Some,
        0 <= g < groups.len(),
        0 <= i < groups[g].len(),
        0 <= h < groups.len(),
        0 <= j < groups[h].len(),
        is_earlier(g, i, h, j),
        !keeps_path(groups[g], i) && keeps_path(groups[h], j) ==> !path::same_path(
            laws::path_of(groups, sources, folder, g, i)->0,
            groups[h][j].artifact_path,
        ),
    ensures
        laws::path_of(groups, sources, folder, g, i) matches Some(a) && laws::path_of(
            groups,
            sources,
            folder,
            h,
            j,
        ) matches Some(b) && !path::same_path(a, b),
{
    lemma_turn(groups, sources, folder, g, i);
    lemma_turn(groups, sources, folder, h, j);
    let a = laws::path_of(groups, sources, folder, g, i)->0;
    let b = laws::path_of(groups, sources, folder, h, j)->0;
    let start = zk::with_groups(groups.take(h), sources, folder)->0;
    let before = laws::progress_before(groups, sources, folder, h, j)->0;
    if keeps_path(groups[h], j) {
        assert(b == groups[h][j].artifact_path);
        if keeps_path(groups[g], i) {
            assert(a == groups[g][i].artifact_path);
            if g == h {
                laws::law_one_top_most(groups[g], i, j);
            }
        }
    } else {
        let progress = zk::with_groups(groups.take(g), sources, folder)->0;
        if g < h {
            lemma_contracts_take(
                progress,
                groups[g],
                (i + 1) as nat,
                groups[g].len(),
                sources,
                folder,
                a,
            );
            let until = groups.take(h);
            assert(until.take(g + 1) =~= groups.take(g + 1));
            lemma_groups_take(until, (g + 1) as nat, sources, folder, a);
            lemma_contracts_take(start, groups[h], 0, j as nat, sources, folder, a);
        } else {
            lemma_contracts_take(
                start,
                groups[h],
                (i + 1) as nat,
                j as nat,
                sources,
                folder,
                a,
            );
        }
        assert(artifact_output::is_taken(before.taken, a));
        artifact_output::law_free_path_is_free(
            before.taken,
            groups[h][j].artifact_path,
            groups[h][j].file,
            folder,
        );
        if path::same_path(a, b) {
            let k = choose|k: int|
                0 <= k < before.taken.len() && path::components(#[trigger] before.taken[k].0)
                    == path::components(a);
            assert(path::components(before.taken[k].0) == path::components(b));
            assert(artifact_output::is_taken(before.taken, b));
        }
    }
}

/// The artifact of a source file without contracts has another path than all artifacts whose
/// paths are taken.
pub proof fn law_source_path_is_free(
    taken: Seq<(Seq<char>, ())>,
    file: Seq<char>,
    name: Seq<char>,
    versions: Seq<VersionedSourceFileView>,
    at: int,
    folder: Seq<char>,
)
    ensures
        zk::source_path(taken, file, name, versions, at, folder) matches Some(out)
            ==> !artifact_output::is_taken(taken, out),
{
    artifact_output::law_free_path_is_free(
        taken,
        zk::standalone_path(file, name, versions.len(), versions[at].version),
        file,
        folder,
    );
}

/// The paths of all contracts' artifacts are taken when it is the turn of the source files
/// without contracts.
pub proof fn law_contract_paths_are_taken(
    groups: Seq<Seq<MappedContractView>>,
    sources: Seq<(Seq<char>, Seq<VersionedSourceFileView>)>,
    folder: Seq<char>,
    g: int,
    i: int,
)
    requires
        zk::with_groups(groups, sources, folder) is Some,
        0 <= g < groups.len(),
        0 <= i < groups[g].len(),
    ensures
        laws::path_of(groups, sources, folder, g, i) matches Some(file) && artifact_output::is_taken(
            zk::with_groups(groups, sources, folder)->0.taken,
            file,
        ),
{
    lemma_turn(groups, sources, folder, g, i);
    let file = laws::path_of(groups, sources, folder, g, i)->0;
    let progress = zk::with_groups(groups.take(g), sources, folder)->0;
    lemma_contracts_take(
        progress,
        groups[g],
        (i + 1) as nat,
        groups[g].len(),
        sources,
        folder,
        file,
    );
    lemma_groups_take(groups, (g + 1) as nat, sources, folder, file);
}

} // verus!
