//! What holds of the artifacts that are made of an output.
use crate::maps;
use crate::maps::ByText;
use crate::path;
use crate::zksync::artifact_output;
use crate::zksync::artifact_output::files::MappedContractView;
use crate::zksync::artifact_output::zk;
use crate::zksync::artifact_output::zk::{ArtifactFileView, Progress};
use crate::zksync::compile::output;
use crate::zksync::compile::output::VersionedSourceFileView;
use vstd::prelude::*;

verus! {

/// Whether artifacts are ordered by the files and the names of their contracts.
pub open spec fn well_ordered(
    all: Seq<(Seq<char>, Seq<(Seq<char>, Seq<ArtifactFileView>)>)>,
) -> bool {
    &&& maps::ordered::<ByText, Seq<(Seq<char>, Seq<ArtifactFileView>)>>(all)
    &&& forall|i: int|
        0 <= i < all.len() ==> maps::ordered::<ByText, Seq<ArtifactFileView>>(
            (#[trigger] all[i]).1,
        )
}

/// What adding an artifact does to the artifacts of each contract.
pub proof fn law_with_artifact(
    all: Seq<(Seq<char>, Seq<(Seq<char>, Seq<ArtifactFileView>)>)>,
    file: Seq<char>,
    name: Seq<char>,
    artifact: ArtifactFileView,
    other_file: Seq<char>,
    other_name: Seq<char>,
)
    requires
        well_ordered(all),
    ensures
        well_ordered(zk::with_artifact(all, file, name, artifact)),
        zk::artifacts_of_contract(
            zk::with_artifact(all, file, name, artifact),
            other_file,
            other_name,
        ) == (if other_file == file && other_name == name {
            zk::artifacts_of_contract(all, file, name).push(artifact)
        } else {
            zk::artifacts_of_contract(all, other_file, other_name)
        }),
{
    let names = zk::artifacts_of_file(all, file);
    let more = maps::pushed::<ByText, ArtifactFileView>(names, name, artifact);
    let list = maps::list_of::<ByText, ArtifactFileView>(names, name);
    let res = zk::with_artifact(all, file, name, artifact);
    maps::lemma_slot::<ByText, Seq<(Seq<char>, Seq<ArtifactFileView>)>>(all, file);
    assert(maps::ordered::<ByText, Seq<ArtifactFileView>>(names));
    maps::law_inserted::<ByText, Seq<ArtifactFileView>>(
        names,
        name,
        list.push(artifact),
        other_name,
    );
    maps::law_inserted::<ByText, Seq<(Seq<char>, Seq<ArtifactFileView>)>>(
        all,
        file,
        more,
        other_file,
    );
    let at = maps::slot::<ByText, Seq<(Seq<char>, Seq<ArtifactFileView>)>>(all, file);
    assert forall|i: int| 0 <= i < res.len() implies maps::ordered::<
        ByText,
        Seq<ArtifactFileView>,
    >((#[trigger] res[i]).1) by {
        if i == at {
            assert(res[i].1 == more);
        } else if i < at {
            assert(res[i] == all[i]);
        } else if res.len() == all.len() {
            assert(res[i] == all[i]);
        } else {
            assert(res[i] == all[i - 1]);
        }
    }
}

/// Whether each contract has at least the artifacts that it had before.
spec fn keeps(before: Progress, after: Progress, file: Seq<char>, name: Seq<char>) -> bool {
    &&& well_ordered(before.artifacts)
    &&& well_ordered(after.artifacts)
    &&& zk::artifacts_of_contract(before.artifacts, file, name).is_prefix_of(
        zk::artifacts_of_contract(after.artifacts, file, name),
    )
}

proof fn lemma_contract_keeps(
    progress: Progress,
    group: Seq<MappedContractView>,
    at: int,
    sources: Seq<(Seq<char>, Seq<VersionedSourceFileView>)>,
    folder: Seq<char>,
    file: Seq<char>,
    name: Seq<char>,
)
    requires
        well_ordered(progress.artifacts),
    ensures
        zk::with_contract(progress, group, at, sources, folder) matches Some(after) ==> keeps(
            progress,
            after,
            file,
            name,
        ),
{
    if let Some(after) = zk::with_contract(progress, group, at, sources, folder) {
        let mapped = group[at];
        let source = output::find_source(sources, mapped.file, mapped.version);
        let place = zk::contract_path(progress.taken, group, at, folder)->0;
        law_with_artifact(
            progress.artifacts,
            mapped.file,
            mapped.name,
            ArtifactFileView {
                artifact: zk::contract_artifact(mapped.contract, zk::id_of(source)),
                file: place,
                version: mapped.version,
            },
            file,
            name,
        );
    }
}

proof fn lemma_contracts_keep(
    progress: Progress,
    group: Seq<MappedContractView>,
    from: nat,
    to: nat,
    sources: Seq<(Seq<char>, Seq<VersionedSourceFileView>)>,
    folder: Seq<char>,
    file: Seq<char>,
    name: Seq<char>,
)
    requires
        well_ordered(progress.artifacts),
        from <= to,
    ensures
        zk::with_contracts(progress, group, to, sources, folder) matches Some(after) ==> {
            &&& zk::with_contracts(progress, group, from, sources, folder) matches Some(before)
            &&& keeps(before, after, file, name)
            &&& keeps(progress, before, file, name)
        },
    decreases to,
{
    if to > 0 {
        let last = (to - 1) as nat;
        if from < to {
            lemma_contracts_keep(progress, group, from, last, sources, folder, file, name);
        } else {
            lemma_contracts_keep(progress, group, last, last, sources, folder, file, name);
        }
        if let Some(middle) = zk::with_contracts(progress, group, last, sources, folder) {
            lemma_contract_keeps(middle, group, last as int, sources, folder, file, name);
        }
    }
}

proof fn lemma_groups_keep(
    groups: Seq<Seq<MappedContractView>>,
    from: nat,
    sources: Seq<(Seq<char>, Seq<VersionedSourceFileView>)>,
    folder: Seq<char>,
    file: Seq<char>,
    name: Seq<char>,
)
    requires
        from <= groups.len(),
    ensures
        zk::with_groups(groups, sources, folder) matches Some(after) ==> {
            &&& well_ordered(after.artifacts)
            &&& zk::with_groups(groups.take(from as int), sources, folder) matches Some(before)
            &&& keeps(before, after, file, name)
        },
    decreases groups.len(),
{
    assert(groups.take(groups.len() as int) =~= groups);
    if groups.len() > 0 {
        let rest = groups.drop_last();
        let last = groups.last();
        if from < groups.len() {
            assert(rest.take(from as int) =~= groups.take(from as int));
            lemma_groups_keep(rest, from, sources, folder, file, name);
        } else {
            lemma_groups_keep(rest, 0, sources, folder, file, name);
        }
        if let Some(middle) = zk::with_groups(rest, sources, folder) {
            lemma_contracts_keep(middle, last, 0, last.len(), sources, folder, file, name);
        }
    }
}

proof fn lemma_source_keeps(
    progress: Progress,
    source_file: Seq<char>,
    versions: Seq<VersionedSourceFileView>,
    at: int,
    folder: Seq<char>,
    file: Seq<char>,
    name: Seq<char>,
)
    requires
        well_ordered(progress.artifacts),
    ensures
        zk::with_source(progress, source_file, versions, at, folder) matches Some(after) ==> {
            &&& keeps(progress, after, file, name)
            &&& after.seen == progress.seen
        },
{
    if let Some(after) = zk::with_source(progress, source_file, versions, at, folder) {
        if after.artifacts != progress.artifacts {
            let source = versions[at];
            let stem = path::file_stem(source_file)->0;
            let place =
                zk::source_path(progress.taken, source_file, stem, versions, at, folder)->0;
            law_with_artifact(
                progress.artifacts,
                source_file,
                stem,
                ArtifactFileView {
                    artifact: zk::standalone_artifact(source.source_file.id),
                    file: place,
                    version: source.version,
                },
                file,
                name,
            );
        }
    }
}

proof fn lemma_versions_keep(
    progress: Progress,
    source_file: Seq<char>,
    versions: Seq<VersionedSourceFileView>,
    from: nat,
    to: nat,
    folder: Seq<char>,
    file: Seq<char>,
    name: Seq<char>,
)
    requires
        well_ordered(progress.artifacts),
        from <= to,
    ensures
        zk::with_versions(progress, source_file, versions, to, folder) matches Some(after) ==> {
            &&& zk::with_versions(progress, source_file, versions, from, folder) matches Some(
                before,
            )
            &&& keeps(before, after, file, name)
            &&& keeps(progress, before, file, name)
            &&& before.seen == progress.seen
            &&& after.seen == progress.seen
        },
    decreases to,
{
    if to > 0 {
        let last = (to - 1) as nat;
        if from < to {
            lemma_versions_keep(progress, source_file, versions, from, last, folder, file, name);
        } else {
            lemma_versions_keep(progress, source_file, versions, last, last, folder, file, name);
        }
        if let Some(middle) = zk::with_versions(progress, source_file, versions, last, folder) {
            lemma_source_keeps(middle, source_file, versions, last as int, folder, file, name);
        }
    }
}

proof fn lemma_sources_keep(
    progress: Progress,
    sources: Seq<(Seq<char>, Seq<VersionedSourceFileView>)>,
    from: nat,
    folder: Seq<char>,
    file: Seq<char>,
    name: Seq<char>,
)
    requires
        well_ordered(progress.artifacts),
        from <= sources.len(),
    ensures
        zk::with_sources(progress, sources, folder) matches Some(after) ==> {
            &&& zk::with_sources(progress, sources.take(from as int), folder) matches Some(before)
            &&& keeps(before, after, file, name)
            &&& keeps(progress, before, file, name)
            &&& before.seen == progress.seen
            &&& after.seen == progress.seen
        },
    decreases sources.len(),
{
    assert(sources.take(sources.len() as int) =~= sources);
    if sources.len() > 0 {
        let rest = sources.drop_last();
        let last = sources.last();
        if from < sources.len() {
            assert(rest.take(from as int) =~= sources.take(from as int));
            lemma_sources_keep(progress, rest, from, folder, file, name);
        } else {
            lemma_sources_keep(progress, rest, 0, folder, file, name);
            lemma_sources_keep(progress, rest, rest.len(), folder, file, name);
            assert(rest.take(rest.len() as int) =~= rest);
        }
        if let Some(middle) = zk::with_sources(progress, rest, folder) {
            lemma_versions_keep(middle, last.0, last.1, 0, last.1.len(), folder, file, name);
        }
    }
}

/// What has been made of an output when a contract's turn comes.
pub open spec fn progress_before(
    groups: Seq<Seq<MappedContractView>>,
    sources: Seq<(Seq<char>, Seq<VersionedSourceFileView>)>,
    folder: Seq<char>,
    group: int,
    at: int,
) -> Option<Progress> {
    match zk::with_groups(groups.take(group), sources, folder) {
        Some(progress) => zk::with_contracts(progress, groups[group], at as nat, sources, folder),
        None => None,
    }
}

/// The path of a contract's artifact.
pub open spec fn path_of(
    groups: Seq<Seq<MappedContractView>>,
    sources: Seq<(Seq<char>, Seq<VersionedSourceFileView>)>,
    folder: Seq<char>,
    group: int,
    at: int,
) -> Option<Seq<char>> {
    match progress_before(groups, sources, folder, group, at) {
        Some(progress) => zk::contract_path(progress.taken, groups[group], at, folder),
        None => None,
    }
}

/// Every contract of an output has an artifact, made of what was emitted for it, at its path and
/// for the version that it was compiled with.
pub proof fn law_every_contract_has_artifact(
    groups: Seq<Seq<MappedContractView>>,
    sources: Seq<(Seq<char>, Seq<VersionedSourceFileView>)>,
    folder: Seq<char>,
    group: int,
    at: int,
)
    requires
        0 <= group < groups.len(),
        0 <= at < groups[group].len(),
    ensures
        zk::finished(groups, sources, folder) matches Some(progress) ==> {
            let mapped = groups[group][at];
            let source = output::find_source(sources, mapped.file, mapped.version);
            path_of(groups, sources, folder, group, at) matches Some(file)
                && zk::artifacts_of_contract(
                progress.artifacts,
                mapped.file,
                mapped.name,
            ).contains(
                ArtifactFileView {
                    artifact: zk::contract_artifact(mapped.contract, zk::id_of(source)),
                    file,
                    version: mapped.version,
                },
            )
        },
{
    let all = groups[group];
    let mapped = all[at];
    let (file, name) = (mapped.file, mapped.name);
    let source = output::find_source(sources, file, mapped.version);
    if let Some(progress) = zk::finished(groups, sources, folder) {
        let first = groups.take(group + 1);
        lemma_groups_keep(groups, (group + 1) as nat, sources, folder, file, name);
        let done = zk::with_groups(groups, sources, folder)->0;
        assert(first.drop_last() =~= groups.take(group));
        assert(first.last() == all);
        lemma_groups_keep(first, group as nat, sources, folder, file, name);
        assert(first.take(group) =~= groups.take(group));
        let before = zk::with_groups(groups.take(group), sources, folder)->0;
        lemma_contracts_keep(
            before,
            all,
            (at + 1) as nat,
            all.len(),
            sources,
            folder,
            file,
            name,
        );
        lemma_contracts_keep(before, all, at as nat, (at + 1) as nat, sources, folder, file, name);
        let start = zk::with_contracts(before, all, at as nat, sources, folder)->0;
        let end = zk::with_contract(start, all, at, sources, folder)->0;
        assert(zk::with_contracts(before, all, (at + 1) as nat, sources, folder) == Some(end));
        let place = zk::contract_path(start.taken, all, at, folder)->0;
        let artifact = ArtifactFileView {
            artifact: zk::contract_artifact(mapped.contract, zk::id_of(source)),
            file: place,
            version: mapped.version,
        };
        law_with_artifact(start.artifacts, file, name, artifact, file, name);
        lemma_sources_keep(done, sources, 0, folder, file, name);
        let n = zk::artifacts_of_contract(start.artifacts, file, name).len() as int;
        let list = zk::artifacts_of_contract(progress.artifacts, file, name);
        assert(zk::artifacts_of_contract(end.artifacts, file, name)[n] == artifact);
        assert(list[n] == artifact);
    }
}

/// Every source file with a syntax tree that no contract comes from and that defines none has
/// an artifact for the version that it was compiled with.
pub proof fn law_every_standalone_file_has_artifact(
    groups: Seq<Seq<MappedContractView>>,
    sources: Seq<(Seq<char>, Seq<VersionedSourceFileView>)>,
    folder: Seq<char>,
    at: int,
    version: int,
)
    requires
        0 <= at < sources.len(),
        0 <= version < sources[at].1.len(),
        path::file_stem(sources[at].0) is Some,
    ensures
        zk::finished(groups, sources, folder) matches Some(progress) ==> zk::is_standalone(
            progress.seen,
            sources[at].1[version],
        ) ==> zk::has_version(
            zk::artifacts_of_contract(
                progress.artifacts,
                sources[at].0,
                path::file_stem(sources[at].0)->0,
            ),
            sources[at].1[version].version,
        ),
{
    let (file, versions) = sources[at];
    let name = path::file_stem(file)->0;
    let source = versions[version];
    if let Some(progress) = zk::finished(groups, sources, folder) {
        if zk::is_standalone(progress.seen, source) {
            let done = zk::with_groups(groups, sources, folder)->0;
            lemma_groups_keep(groups, 0, sources, folder, file, name);
            let first = sources.take(at + 1);
            lemma_sources_keep(done, sources, (at + 1) as nat, folder, file, name);
            assert(first.drop_last() =~= sources.take(at));
            assert(first.last() == sources[at]);
            lemma_sources_keep(done, first, at as nat, folder, file, name);
            assert(first.take(at) =~= sources.take(at));
            let before = zk::with_sources(done, sources.take(at), folder)->0;
            lemma_versions_keep(
                before,
                file,
                versions,
                (version + 1) as nat,
                versions.len(),
                folder,
                file,
                name,
            );
            lemma_versions_keep(
                before,
                file,
                versions,
                version as nat,
                (version + 1) as nat,
                folder,
                file,
                name,
            );
            let start = zk::with_versions(before, file, versions, version as nat, folder)->0;
            let end = zk::with_source(start, file, versions, version, folder)->0;
            assert(zk::with_versions(before, file, versions, (version + 1) as nat, folder) == Some(
                end,
            ));
            assert(zk::is_standalone(start.seen, source));
            let then_list = zk::artifacts_of_contract(end.artifacts, file, name);
            let had = zk::artifacts_of_contract(start.artifacts, file, name);
            if !zk::has_version(had, source.version) {
                let place =
                    zk::source_path(start.taken, file, name, versions, version, folder)->0;
                let artifact = ArtifactFileView {
                    artifact: zk::standalone_artifact(source.source_file.id),
                    file: place,
                    version: source.version,
                };
                law_with_artifact(start.artifacts, file, name, artifact, file, name);
                assert(then_list[had.len() as int] == artifact);
            }
            assert(zk::has_version(then_list, source.version));
            let i = choose|i: int|
                0 <= i < then_list.len() && (#[trigger] then_list[i]).version == source.version;
            let list = zk::artifacts_of_contract(progress.artifacts, file, name);
            assert(list[i] == then_list[i]);
        }
    }
}

/// At most one of the contracts that are meant for the same path keeps it.
pub proof fn law_one_top_most(group: Seq<MappedContractView>, a: int, b: int)
    requires
        0 <= a < group.len(),
        0 <= b < group.len(),
        zk::is_top_most(group, a),
        zk::is_top_most(group, b),
    ensures
        a == b,
{
    if a != b {
        assert(path::components(group[a].file).len() < path::components(group[b].file).len());
        assert(path::components(group[b].file).len() < path::components(group[a].file).len());
    }
}

/// Whether a path can be replaced where it is in conflict: it is neither empty nor the
/// artifacts folder.
pub open spec fn is_replaceable(path: Seq<char>, folder: Seq<char>) -> bool {
    path::components(path).len() > 0 && !path::same_path(path, folder)
}

/// Whether all paths that artifacts of contracts are meant for can be replaced.
pub open spec fn contracts_replaceable(
    groups: Seq<Seq<MappedContractView>>,
    folder: Seq<char>,
) -> bool {
    forall|g: int, i: int|
        0 <= g < groups.len() && 0 <= i < groups[g].len() ==> is_replaceable(
            (#[trigger] groups[g][i]).artifact_path,
            folder,
        )
}

/// Whether all paths that artifacts of source files are meant for can be replaced.
pub open spec fn sources_replaceable(
    sources: Seq<(Seq<char>, Seq<VersionedSourceFileView>)>,
    folder: Seq<char>,
) -> bool {
    forall|k: int, j: int|
        0 <= k < sources.len() && 0 <= j < sources[k].1.len() ==> {
            let version = (#[trigger] sources[k].1[j]).version;
            path::file_stem(sources[k].0) matches Some(name) ==> is_replaceable(
                zk::standalone_path(sources[k].0, name, sources[k].1.len(), version),
                folder,
            )
        }
}

proof fn lemma_contracts_convert(
    progress: Progress,
    group: Seq<MappedContractView>,
    count: nat,
    sources: Seq<(Seq<char>, Seq<VersionedSourceFileView>)>,
    folder: Seq<char>,
)
    requires
        count <= group.len(),
        forall|i: int|
            0 <= i < group.len() ==> is_replaceable((#[trigger] group[i]).artifact_path, folder),
    ensures
        zk::with_contracts(progress, group, count, sources, folder) is Some,
    decreases count,
{
    if count > 0 {
        let last = (count - 1) as nat;
        lemma_contracts_convert(progress, group, last, sources, folder);
        let before = zk::with_contracts(progress, group, last, sources, folder)->0;
        let mapped = group[last as int];
        artifact_output::law_free_path_exists(
            before.taken,
            mapped.artifact_path,
            mapped.file,
            folder,
        );
    }
}

proof fn lemma_groups_convert(
    groups: Seq<Seq<MappedContractView>>,
    sources: Seq<(Seq<char>, Seq<VersionedSourceFileView>)>,
    folder: Seq<char>,
)
    requires
        contracts_replaceable(groups, folder),
    ensures
        zk::with_groups(groups, sources, folder) is Some,
    decreases groups.len(),
{
    if groups.len() > 0 {
        let rest = groups.drop_last();
        let last = groups.last();
        assert forall|g: int, i: int|
            0 <= g < rest.len() && 0 <= i < rest[g].len() implies is_replaceable(
            (#[trigger] rest[g][i]).artifact_path,
            folder,
        ) by {
            assert(rest[g][i] == groups[g][i]);
        }
        lemma_groups_convert(rest, sources, folder);
        let before = zk::with_groups(rest, sources, folder)->0;
        assert forall|i: int| 0 <= i < last.len() implies is_replaceable(
            (#[trigger] last[i]).artifact_path,
            folder,
        ) by {
            assert(last[i] == groups[groups.len() - 1][i]);
        }
        lemma_contracts_convert(before, last, last.len(), sources, folder);
    }
}

proof fn lemma_versions_convert(
    progress: Progress,
    file: Seq<char>,
    versions: Seq<VersionedSourceFileView>,
    count: nat,
    folder: Seq<char>,
)
    requires
        count <= versions.len(),
        forall|j: int|
            0 <= j < versions.len() ==> {
                let version = (#[trigger] versions[j]).version;
                path::file_stem(file) matches Some(name) ==> is_replaceable(
                    zk::standalone_path(file, name, versions.len(), version),
                    folder,
                )
            },
    ensures
        zk::with_versions(progress, file, versions, count, folder) is Some,
    decreases count,
{
    if count > 0 {
        let last = (count - 1) as nat;
        lemma_versions_convert(progress, file, versions, last, folder);
        let before = zk::with_versions(progress, file, versions, last, folder)->0;
        let source = versions[last as int];
        if let Some(name) = path::file_stem(file) {
            artifact_output::law_free_path_exists(
                before.taken,
                zk::standalone_path(file, name, versions.len(), source.version),
                file,
                folder,
            );
        }
    }
}

proof fn lemma_sources_convert(
    progress: Progress,
    sources: Seq<(Seq<char>, Seq<VersionedSourceFileView>)>,
    folder: Seq<char>,
)
    requires
        sources_replaceable(sources, folder),
    ensures
        zk::with_sources(progress, sources, folder) is Some,
    decreases sources.len(),
{
    if sources.len() > 0 {
        let rest = sources.drop_last();
        let last = sources.last();
        assert forall|k: int, j: int| 0 <= k < rest.len() && 0 <= j < rest[k].1.len() implies {
            let version = (#[trigger] rest[k].1[j]).version;
            path::file_stem(rest[k].0) matches Some(name) ==> is_replaceable(
                zk::standalone_path(rest[k].0, name, rest[k].1.len(), version),
                folder,
            )
        } by {
            assert(rest[k].1[j] == sources[k].1[j]);
        }
        lemma_sources_convert(progress, rest, folder);
        let before = zk::with_sources(progress, rest, folder)->0;
        assert forall|j: int| 0 <= j < last.1.len() implies {
            let version = (#[trigger] last.1[j]).version;
            path::file_stem(last.0) matches Some(name) ==> is_replaceable(
                zk::standalone_path(last.0, name, last.1.len(), version),
                folder,
            )
        } by {
            assert(last.1[j] == sources[sources.len() - 1].1[j]);
        }
        lemma_versions_convert(before, last.0, last.1, last.1.len(), folder);
    }
}

/// An output whose artifacts are all meant for paths other than the artifacts folder can be
/// converted.
pub proof fn law_output_converts(
    groups: Seq<Seq<MappedContractView>>,
    sources: Seq<(Seq<char>, Seq<VersionedSourceFileView>)>,
    folder: Seq<char>,
)
    requires
        contracts_replaceable(groups, folder),
        sources_replaceable(sources, folder),
    ensures
        zk::finished(groups, sources, folder) is Some,
{
    lemma_groups_convert(groups, sources, folder);
    lemma_sources_convert(zk::with_groups(groups, sources, folder)->0, sources, folder);
}

} // verus!
