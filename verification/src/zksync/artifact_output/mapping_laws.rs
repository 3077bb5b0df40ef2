//! Which contracts artifacts are made of.
use crate::key_laws;
use crate::maps;
use crate::maps::ByPath;
use crate::zksync::artifact_output::files;
use crate::zksync::artifact_output::files::MappedContractView;
use crate::zksync::artifact_output::OutputContext;
use crate::zksync::compile::output::VersionedContractView;
use vstd::prelude::*;

verus! {

/// Whether a contract is listed for some path.
pub open spec fn is_listed(
    list: Seq<(Seq<char>, Seq<MappedContractView>)>,
    mapped: MappedContractView,
) -> bool {
    exists|k: int, i: int|
        0 <= k < list.len() && 0 <= i < list[k].1.len() && #[trigger] list[k].1[i] == mapped
}

/// A version of a contract, with the path that its artifact is meant for.
pub open spec fn mapped_version(
    ctx: OutputContext,
    file: Seq<char>,
    name: Seq<char>,
    versions: Seq<VersionedContractView>,
    v: int,
) -> MappedContractView {
    MappedContractView {
        file,
        name,
        contract: versions[v].contract,
        version: versions[v].version,
        artifact_path: files::mapped_path(ctx, file, name, versions.len(), versions[v].version),
    }
}

proof fn lemma_listed(
    list: Seq<(Seq<char>, Seq<MappedContractView>)>,
    item: MappedContractView,
    mapped: MappedContractView,
)
    requires
        maps::ordered::<ByPath, Seq<MappedContractView>>(list),
    ensures
        maps::ordered::<ByPath, Seq<MappedContractView>>(
            maps::pushed::<ByPath, MappedContractView>(list, item.artifact_path, item),
        ),
        is_listed(
            maps::pushed::<ByPath, MappedContractView>(list, item.artifact_path, item),
            mapped,
        ) <==> is_listed(list, mapped) || mapped == item,
{
    let key = item.artifact_path;
    let had = maps::list_of::<ByPath, MappedContractView>(list, key);
    let after = maps::pushed::<ByPath, MappedContractView>(list, key, item);
    let at = maps::slot::<ByPath, Seq<MappedContractView>>(list, key);
    maps::lemma_slot::<ByPath, Seq<MappedContractView>>(list, key);
    maps::law_inserted::<ByPath, Seq<MappedContractView>>(list, key, had.push(item), key);
    assert(after[at].1 == had.push(item));
    assert(after[at].1[had.len() as int] == item);
    if is_listed(after, mapped) {
        let (k, i) = choose|k: int, i: int|
            0 <= k < after.len() && 0 <= i < after[k].1.len() && #[trigger] after[k].1[i]
                == mapped;
        if k == at {
            if i < had.len() {
                assert(list[at].1[i] == mapped);
            }
        } else if k < at || after.len() == list.len() {
            assert(after[k] == list[k]);
            assert(list[k].1[i] == mapped);
        } else {
            assert(after[k] == list[k - 1]);
            assert(list[k - 1].1[i] == mapped);
        }
    }
    if is_listed(list, mapped) {
        let (k, i) = choose|k: int, i: int|
            0 <= k < list.len() && 0 <= i < list[k].1.len() && #[trigger] list[k].1[i] == mapped;
        if k < at {
            assert(after[k] == list[k]);
            assert(after[k].1[i] == mapped);
        } else if after.len() == list.len() {
            if k == at {
                assert(after[at].1[i] == had[i]);
                assert(after[at].1[i] == mapped);
            } else {
                assert(after[k] == list[k]);
                assert(after[k].1[i] == mapped);
            }
        } else {
            assert(after[k + 1] == list[k]);
            assert(after[k + 1].1[i] == mapped);
        }
    }
}

proof fn lemma_versions_listed(
    list: Seq<(Seq<char>, Seq<MappedContractView>)>,
    ctx: OutputContext,
    file: Seq<char>,
    name: Seq<char>,
    versions: Seq<VersionedContractView>,
    count: nat,
    mapped: MappedContractView,
)
    requires
        maps::ordered::<ByPath, Seq<MappedContractView>>(list),
        count <= versions.len(),
    ensures
        maps::ordered::<ByPath, Seq<MappedContractView>>(
            files::with_versions(list, ctx, file, name, versions, count),
        ),
        is_listed(files::with_versions(list, ctx, file, name, versions, count), mapped)
            <==> is_listed(list, mapped) || exists|v: int|
            0 <= v < count && mapped == #[trigger] mapped_version(ctx, file, name, versions, v),
    decreases count,
{
    if count > 0 {
        let last = (count - 1) as nat;
        lemma_versions_listed(list, ctx, file, name, versions, last, mapped);
        let before = files::with_versions(list, ctx, file, name, versions, last);
        let item = mapped_version(ctx, file, name, versions, last as int);
        lemma_listed(before, item, mapped);
        if exists|v: int|
            0 <= v < count && mapped == #[trigger] mapped_version(ctx, file, name, versions, v) {
            let v = choose|v: int|
                0 <= v < count && mapped == #[trigger] mapped_version(
                    ctx,
                    file,
                    name,
                    versions,
                    v,
                );
            if v < last {
                assert(is_listed(before, mapped));
            }
        }
    }
}

/// Whether a contract is one of a file's.
pub open spec fn is_of_file(
    ctx: OutputContext,
    file: Seq<char>,
    names: Seq<(Seq<char>, Seq<VersionedContractView>)>,
    mapped: MappedContractView,
) -> bool {
    exists|n: int, v: int|
        0 <= n < names.len() && 0 <= v < names[n].1.len() && mapped == #[trigger] mapped_version(
            ctx,
            file,
            names[n].0,
            names[n].1,
            v,
        )
}

proof fn lemma_names_listed(
    list: Seq<(Seq<char>, Seq<MappedContractView>)>,
    ctx: OutputContext,
    file: Seq<char>,
    names: Seq<(Seq<char>, Seq<VersionedContractView>)>,
    mapped: MappedContractView,
)
    requires
        maps::ordered::<ByPath, Seq<MappedContractView>>(list),
    ensures
        maps::ordered::<ByPath, Seq<MappedContractView>>(
            files::with_names(list, ctx, file, names),
        ),
        is_listed(files::with_names(list, ctx, file, names), mapped) <==> is_listed(list, mapped)
            || is_of_file(ctx, file, names, mapped),
    decreases names.len(),
{
    if names.len() > 0 {
        let rest = names.drop_last();
        let last = names.last();
        let at = names.len() - 1;
        lemma_names_listed(list, ctx, file, rest, mapped);
        lemma_versions_listed(
            files::with_names(list, ctx, file, rest),
            ctx,
            file,
            last.0,
            last.1,
            last.1.len(),
            mapped,
        );
        if is_of_file(ctx, file, names, mapped) {
            let (n, v) = choose|n: int, v: int|
                0 <= n < names.len() && 0 <= v < names[n].1.len() && mapped
                    == #[trigger] mapped_version(ctx, file, names[n].0, names[n].1, v);
            if n < at {
                assert(rest[n] == names[n]);
                assert(mapped == mapped_version(ctx, file, rest[n].0, rest[n].1, v));
            } else {
                assert(mapped == mapped_version(ctx, file, last.0, last.1, v));
            }
        }
        if is_of_file(ctx, file, rest, mapped) {
            let (n, v) = choose|n: int, v: int|
                0 <= n < rest.len() && 0 <= v < rest[n].1.len() && mapped
                    == #[trigger] mapped_version(ctx, file, rest[n].0, rest[n].1, v);
            assert(rest[n] == names[n]);
            assert(mapped == mapped_version(ctx, file, names[n].0, names[n].1, v));
        }
        if exists|v: int|
            0 <= v < last.1.len() && mapped == #[trigger] mapped_version(
                ctx,
                file,
                last.0,
                last.1,
                v,
            ) {
            let v = choose|v: int|
                0 <= v < last.1.len() && mapped == #[trigger] mapped_version(
                    ctx,
                    file,
                    last.0,
                    last.1,
                    v,
                );
            assert(mapped == mapped_version(ctx, file, names[at].0, names[at].1, v));
        }
    }
}

/// Just the contracts of an output are mapped to paths, each version of each: with its file, its
/// name, what was emitted for it, its version and the path that its artifact is meant for.
pub proof fn law_mapped_contracts(
    ctx: OutputContext<'_>,
    contracts: Seq<(Seq<char>, Seq<(Seq<char>, Seq<VersionedContractView>)>)>,
    mapped: MappedContractView,
)
    ensures
        maps::ordered::<ByPath, Seq<MappedContractView>>(files::mapped_files(ctx, contracts)),
        is_listed(files::mapped_files(ctx, contracts), mapped) <==> exists|f: int|
            0 <= f < contracts.len() && is_of_file(
                ctx,
                (#[trigger] contracts[f]).0,
                contracts[f].1,
                mapped,
            ),
    decreases contracts.len(),
{
    if contracts.len() > 0 {
        let rest = contracts.drop_last();
        let last = contracts.last();
        let at = contracts.len() - 1;
        law_mapped_contracts(ctx, rest, mapped);
        lemma_names_listed(files::mapped_files(ctx, rest), ctx, last.0, last.1, mapped);
        if exists|f: int|
            0 <= f < contracts.len() && is_of_file(
                ctx,
                (#[trigger] contracts[f]).0,
                contracts[f].1,
                mapped,
            ) {
            let f = choose|f: int|
                0 <= f < contracts.len() && is_of_file(
                    ctx,
                    (#[trigger] contracts[f]).0,
                    contracts[f].1,
                    mapped,
                );
            if f < at {
                assert(rest[f] == contracts[f]);
            }
        }
        if exists|f: int|
            0 <= f < rest.len() && is_of_file(ctx, (#[trigger] rest[f]).0, rest[f].1, mapped) {
            let f = choose|f: int|
                0 <= f < rest.len() && is_of_file(ctx, (#[trigger] rest[f]).0, rest[f].1, mapped);
            assert(rest[f] == contracts[f]);
        }
        assert(contracts[at] == last);
    }
}

/// How many contracts are listed.
pub open spec fn listed_count(list: Seq<(Seq<char>, Seq<MappedContractView>)>) -> nat
    decreases list.len(),
{
    if list.len() == 0 {
        0
    } else {
        listed_count(list.drop_last()) + list.last().1.len()
    }
}

/// How many versions of a file's contracts there are.
pub open spec fn name_count(names: Seq<(Seq<char>, Seq<VersionedContractView>)>) -> nat
    decreases names.len(),
{
    if names.len() == 0 {
        0
    } else {
        name_count(names.drop_last()) + names.last().1.len()
    }
}

/// How many versions of contracts there are.
pub open spec fn contract_count(
    contracts: Seq<(Seq<char>, Seq<(Seq<char>, Seq<VersionedContractView>)>)>,
) -> nat
    decreases contracts.len(),
{
    if contracts.len() == 0 {
        0
    } else {
        contract_count(contracts.drop_last()) + name_count(contracts.last().1)
    }
}

proof fn lemma_count_inserted(
    list: Seq<(Seq<char>, Seq<MappedContractView>)>,
    at: int,
    entry: (Seq<char>, Seq<MappedContractView>),
)
    requires
        0 <= at <= list.len(),
    ensures
        listed_count(list.insert(at, entry)) == listed_count(list) + entry.1.len(),
    decreases list.len(),
{
    let after = list.insert(at, entry);
    if at == list.len() {
        assert(after.drop_last() =~= list);
        assert(after.last() == entry);
    } else {
        assert(after.drop_last() =~= list.drop_last().insert(at, entry));
        assert(after.last() == list.last());
        lemma_count_inserted(list.drop_last(), at, entry);
    }
}

proof fn lemma_count_updated(
    list: Seq<(Seq<char>, Seq<MappedContractView>)>,
    at: int,
    entry: (Seq<char>, Seq<MappedContractView>),
)
    requires
        0 <= at < list.len(),
    ensures
        listed_count(list.update(at, entry)) + list[at].1.len() == listed_count(list)
            + entry.1.len(),
    decreases list.len(),
{
    let after = list.update(at, entry);
    if at == list.len() - 1 {
        assert(after.drop_last() =~= list.drop_last());
        assert(after.last() == entry);
    } else {
        assert(after.drop_last() =~= list.drop_last().update(at, entry));
        assert(after.last() == list.last());
        lemma_count_updated(list.drop_last(), at, entry);
    }
}

proof fn lemma_versions_counted(
    list: Seq<(Seq<char>, Seq<MappedContractView>)>,
    ctx: OutputContext,
    file: Seq<char>,
    name: Seq<char>,
    versions: Seq<VersionedContractView>,
    count: nat,
)
    requires
        maps::ordered::<ByPath, Seq<MappedContractView>>(list),
        count <= versions.len(),
    ensures
        maps::ordered::<ByPath, Seq<MappedContractView>>(
            files::with_versions(list, ctx, file, name, versions, count),
        ),
        listed_count(files::with_versions(list, ctx, file, name, versions, count))
            == listed_count(list) + count,
    decreases count,
{
    if count > 0 {
        let last = (count - 1) as nat;
        lemma_versions_counted(list, ctx, file, name, versions, last);
        let before = files::with_versions(list, ctx, file, name, versions, last);
        let item = mapped_version(ctx, file, name, versions, last as int);
        let key = item.artifact_path;
        let had = maps::list_of::<ByPath, MappedContractView>(before, key);
        let at = maps::slot::<ByPath, Seq<MappedContractView>>(before, key);
        maps::lemma_slot::<ByPath, Seq<MappedContractView>>(before, key);
        key_laws::law_pushed::<ByPath, MappedContractView>(before, key, item, key);
        if maps::found::<ByPath, Seq<MappedContractView>>(before, key) is Some {
            lemma_count_updated(before, at, (before[at].0, had.push(item)));
        } else {
            lemma_count_inserted(before, at, (key, had.push(item)));
        }
    }
}

proof fn lemma_names_counted(
    list: Seq<(Seq<char>, Seq<MappedContractView>)>,
    ctx: OutputContext,
    file: Seq<char>,
    names: Seq<(Seq<char>, Seq<VersionedContractView>)>,
)
    requires
        maps::ordered::<ByPath, Seq<MappedContractView>>(list),
    ensures
        maps::ordered::<ByPath, Seq<MappedContractView>>(
            files::with_names(list, ctx, file, names),
        ),
        listed_count(files::with_names(list, ctx, file, names)) == listed_count(list)
            + name_count(names),
    decreases names.len(),
{
    if names.len() > 0 {
        let last = names.last();
        lemma_names_counted(list, ctx, file, names.drop_last());
        lemma_versions_counted(
            files::with_names(list, ctx, file, names.drop_last()),
            ctx,
            file,
            last.0,
            last.1,
            last.1.len(),
        );
    }
}

/// As many contracts are mapped to paths as there are: none twice.
pub proof fn law_mapped_once(
    ctx: OutputContext<'_>,
    contracts: Seq<(Seq<char>, Seq<(Seq<char>, Seq<VersionedContractView>)>)>,
)
    ensures
        maps::ordered::<ByPath, Seq<MappedContractView>>(files::mapped_files(ctx, contracts)),
        listed_count(files::mapped_files(ctx, contracts)) == contract_count(contracts),
    decreases contracts.len(),
{
    if contracts.len() > 0 {
        let last = contracts.last();
        law_mapped_once(ctx, contracts.drop_last());
        lemma_names_counted(
            files::mapped_files(ctx, contracts.drop_last()),
            ctx,
            last.0,
            last.1,
        );
    }
}

} // verus!
