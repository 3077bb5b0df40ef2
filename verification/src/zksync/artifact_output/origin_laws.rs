//! What each artifact of an output is made of.
use crate::maps;
use crate::maps::ByPath;
use crate::path;
use crate::version::VersionView;
use crate::zksync::artifact_output;
use crate::zksync::artifact_output::files;
use crate::zksync::artifact_output::files::MappedContractView;
use crate::zksync::artifact_output::laws;
use crate::zksync::artifact_output::mapping_laws;
use crate::zksync::artifact_output::zk;
use crate::zksync::artifact_output::zk::{ArtifactFileView, Progress};
use crate::zksync::artifact_output::OutputContext;
use crate::zksync::artifacts::ContractView;
use crate::zksync::compile::output;
use crate::zksync::compile::output::{VersionedContractView, VersionedSourceFileView};
use vstd::prelude::*;

verus! {

/// Whether an artifact is made of a contract: of what was emitted for it, for its version.
pub open spec fn is_made_of(
    artifact: ArtifactFileView,
    mapped: MappedContractView,
    sources: Seq<(Seq<char>, Seq<VersionedSourceFileView>)>,
) -> bool {
    &&& artifact.artifact == zk::contract_artifact(
        mapped.contract,
        zk::id_of(output::find_source(sources, mapped.file, mapped.version)),
    )
    &&& artifact.version == mapped.version
}

/// Whether an artifact is made of one of the first contracts of a group.
pub open spec fn is_of_group(
    artifact: ArtifactFileView,
    group: Seq<MappedContractView>,
    count: nat,
    sources: Seq<(Seq<char>, Seq<VersionedSourceFileView>)>,
    file: Seq<char>,
    name: Seq<char>,
) -> bool {
    exists|i: int|
        0 <= i < count && (#[trigger] group[i]).file == file && group[i].name == name
            && is_made_of(artifact, group[i], sources)
}

/// Whether an artifact is made of one of the contracts.
pub open spec fn is_of_contract(
    artifact: ArtifactFileView,
    groups: Seq<Seq<MappedContractView>>,
    sources: Seq<(Seq<char>, Seq<VersionedSourceFileView>)>,
    file: Seq<char>,
    name: Seq<char>,
) -> bool {
    exists|g: int|
        0 <= g < groups.len() && is_of_group(
            artifact,
            #[trigger] groups[g],
            groups[g].len(),
            sources,
            file,
            name,
        )
}

/// Whether an artifact is made of one of the first versions of a source file without contracts.
pub open spec fn is_of_version(
    artifact: ArtifactFileView,
    versions: Seq<VersionedSourceFileView>,
    count: nat,
) -> bool {
    exists|v: int|
        0 <= v < count && artifact.version == (#[trigger] versions[v]).version
            && artifact.artifact == zk::standalone_artifact(versions[v].source_file.id)
            && versions[v].source_file.ast is Some && !versions[v].source_file.defines_contract()
}

/// Whether an artifact is made of one of the source files.
pub open spec fn is_of_source(
    artifact: ArtifactFileView,
    sources: Seq<(Seq<char>, Seq<VersionedSourceFileView>)>,
    file: Seq<char>,
    name: Seq<char>,
) -> bool {
    exists|s: int|
        0 <= s < sources.len() && (#[trigger] sources[s]).0 == file && path::file_stem(file)
            == Some(name) && is_of_version(artifact, sources[s].1, sources[s].1.len())
}

/// How many of the first contracts of a group have a file and a name.
pub open spec fn group_count(
    group: Seq<MappedContractView>,
    count: nat,
    file: Seq<char>,
    name: Seq<char>,
) -> nat
    decreases count,
{
    if count == 0 {
        0
    } else {
        group_count(group, (count - 1) as nat, file, name) + (if group[count - 1].file == file
            && group[count - 1].name == name {
            1nat
        } else {
            0
        })
    }
}

/// How many of the contracts have a file and a name.
pub open spec fn groups_count(
    groups: Seq<Seq<MappedContractView>>,
    file: Seq<char>,
    name: Seq<char>,
) -> nat
    decreases groups.len(),
{
    if groups.len() == 0 {
        0
    } else {
        groups_count(groups.drop_last(), file, name) + group_count(
            groups.last(),
            groups.last().len(),
            file,
            name,
        )
    }
}

proof fn lemma_contracts_origin(
    progress: Progress,
    group: Seq<MappedContractView>,
    count: nat,
    sources: Seq<(Seq<char>, Seq<VersionedSourceFileView>)>,
    folder: Seq<char>,
    file: Seq<char>,
    name: Seq<char>,
)
    requires
        laws::well_ordered(progress.artifacts),
        count <= group.len(),
    ensures
        zk::with_contracts(progress, group, count, sources, folder) matches Some(after) ==> {
            let had = zk::artifacts_of_contract(progress.artifacts, file, name);
            let has = zk::artifacts_of_contract(after.artifacts, file, name);
            &&& laws::well_ordered(after.artifacts)
            &&& has.len() == had.len() + group_count(group, count, file, name)
            &&& forall|i: int|
                0 <= i < has.len() ==> had.contains(#[trigger] has[i]) || is_of_group(
                    has[i],
                    group,
                    count,
                    sources,
                    file,
                    name,
                )
        },
    decreases count,
{
    if let Some(after) = zk::with_contracts(progress, group, count, sources, folder) {
        let had = zk::artifacts_of_contract(progress.artifacts, file, name);
        let has = zk::artifacts_of_contract(after.artifacts, file, name);
        if count == 0 {
            assert forall|i: int| 0 <= i < has.len() implies had.contains(#[trigger] has[i]) by {
                assert(has[i] == had[i]);
            }
        } else {
            let last = (count - 1) as nat;
            lemma_contracts_origin(progress, group, last, sources, folder, file, name);
            let before = zk::with_contracts(progress, group, last, sources, folder)->0;
            let mapped = group[last as int];
            let source = output::find_source(sources, mapped.file, mapped.version);
            let made = ArtifactFileView {
                artifact: zk::contract_artifact(mapped.contract, zk::id_of(source)),
                file: zk::contract_path(before.taken, group, last as int, folder)->0,
                version: mapped.version,
            };
            laws::law_with_artifact(
                before.artifacts,
                mapped.file,
                mapped.name,
                made,
                file,
                name,
            );
            let middle = zk::artifacts_of_contract(before.artifacts, file, name);
            assert forall|i: int| 0 <= i < has.len() implies had.contains(#[trigger] has[i])
                || is_of_group(has[i], group, count, sources, file, name) by {
                if i < middle.len() {
                    assert(has[i] == middle[i]);
                    if is_of_group(middle[i], group, last, sources, file, name) {
                        let k = choose|k: int|
                            0 <= k < last && (#[trigger] group[k]).file == file && group[k].name
                                == name && is_made_of(middle[i], group[k], sources);
                        assert(group[k].file == file);
                    }
                } else {
                    assert(has[i] == made);
                    assert(is_made_of(made, group[last as int], sources));
                }
            }
        }
    }
}

proof fn lemma_groups_origin(
    groups: Seq<Seq<MappedContractView>>,
    sources: Seq<(Seq<char>, Seq<VersionedSourceFileView>)>,
    folder: Seq<char>,
    file: Seq<char>,
    name: Seq<char>,
)
    ensures
        zk::with_groups(groups, sources, folder) matches Some(after) ==> {
            let has = zk::artifacts_of_contract(after.artifacts, file, name);
            &&& laws::well_ordered(after.artifacts)
            &&& has.len() == groups_count(groups, file, name)
            &&& forall|i: int|
                0 <= i < has.len() ==> is_of_contract(
                    #[trigger] has[i],
                    groups,
                    sources,
                    file,
                    name,
                )
        },
    decreases groups.len(),
{
    if groups.len() > 0 {
        let rest = groups.drop_last();
        lemma_groups_origin(rest, sources, folder, file, name);
        if let Some(before) = zk::with_groups(rest, sources, folder) {
            lemma_contracts_origin(
                before,
                groups.last(),
                groups.last().len(),
                sources,
                folder,
                file,
                name,
            );
            if let Some(after) = zk::with_groups(groups, sources, folder) {
                let had = zk::artifacts_of_contract(before.artifacts, file, name);
                let has = zk::artifacts_of_contract(after.artifacts, file, name);
                assert forall|i: int| 0 <= i < has.len() implies is_of_contract(
                    #[trigger] has[i],
                    groups,
                    sources,
                    file,
                    name,
                ) by {
                    if had.contains(has[i]) {
                        let k = choose|k: int| 0 <= k < had.len() && had[k] == has[i];
                        assert(is_of_contract(had[k], rest, sources, file, name));
                        let g = choose|g: int|
                            0 <= g < rest.len() && is_of_group(
                                had[k],
                                #[trigger] rest[g],
                                rest[g].len(),
                                sources,
                                file,
                                name,
                            );
                        assert(groups[g] == rest[g]);
                    } else {
                        assert(groups[groups.len() - 1] == groups.last());
                    }
                }
            }
        }
    } else if let Some(after) = zk::with_groups(groups, sources, folder) {
        assert(after.artifacts.len() == 0);
    }
}

proof fn lemma_versions_origin(
    progress: Progress,
    at: Seq<char>,
    versions: Seq<VersionedSourceFileView>,
    count: nat,
    folder: Seq<char>,
    file: Seq<char>,
    name: Seq<char>,
)
    requires
        laws::well_ordered(progress.artifacts),
        count <= versions.len(),
    ensures
        zk::with_versions(progress, at, versions, count, folder) matches Some(after) ==> {
            let had = zk::artifacts_of_contract(progress.artifacts, file, name);
            let has = zk::artifacts_of_contract(after.artifacts, file, name);
            &&& laws::well_ordered(after.artifacts)
            &&& after.seen == progress.seen
            &&& at != file || path::file_stem(at) != Some(name) ==> has == had
            &&& forall|i: int|
                0 <= i < has.len() ==> had.contains(#[trigger] has[i]) || is_of_version(
                    has[i],
                    versions,
                    count,
                )
        },
    decreases count,
{
    if let Some(after) = zk::with_versions(progress, at, versions, count, folder) {
        let had = zk::artifacts_of_contract(progress.artifacts, file, name);
        let has = zk::artifacts_of_contract(after.artifacts, file, name);
        if count == 0 {
            assert forall|i: int| 0 <= i < has.len() implies had.contains(#[trigger] has[i]) by {
                assert(has[i] == had[i]);
            }
        } else {
            let last = (count - 1) as nat;
            lemma_versions_origin(progress, at, versions, last, folder, file, name);
            let before = zk::with_versions(progress, at, versions, last, folder)->0;
            let source = versions[last as int];
            let middle = zk::artifacts_of_contract(before.artifacts, file, name);
            if zk::is_standalone(before.seen, source) && path::file_stem(at) is Some
                && !zk::has_version(
                zk::artifacts_of_contract(before.artifacts, at, path::file_stem(at)->0),
                source.version,
            ) {
                let stem = path::file_stem(at)->0;
                let made = ArtifactFileView {
                    artifact: zk::standalone_artifact(source.source_file.id),
                    file: zk::source_path(
                        before.taken,
                        at,
                        stem,
                        versions,
                        last as int,
                        folder,
                    )->0,
                    version: source.version,
                };
                laws::law_with_artifact(before.artifacts, at, stem, made, file, name);
                assert(after.artifacts == zk::with_artifact(before.artifacts, at, stem, made));
                assert forall|i: int| 0 <= i < has.len() implies had.contains(#[trigger] has[i])
                    || is_of_version(has[i], versions, count) by {
                    if i < middle.len() {
                        assert(has[i] == middle[i]);
                        lemma_more_versions(middle[i], versions, last);
                    } else {
                        assert(has[i] == made);
                        assert(versions[last as int].version == made.version);
                    }
                }
            } else {
                assert(after.artifacts == before.artifacts);
                assert forall|i: int| 0 <= i < has.len() implies had.contains(#[trigger] has[i])
                    || is_of_version(has[i], versions, count) by {
                    assert(has[i] == middle[i]);
                    lemma_more_versions(middle[i], versions, last);
                }
            }
        }
    }
}

proof fn lemma_more_versions(
    artifact: ArtifactFileView,
    versions: Seq<VersionedSourceFileView>,
    count: nat,
)
    ensures
        is_of_version(artifact, versions, count) ==> is_of_version(artifact, versions, count + 1),
{
    if is_of_version(artifact, versions, count) {
        let v = choose|v: int|
            0 <= v < count && artifact.version == (#[trigger] versions[v]).version
                && artifact.artifact == zk::standalone_artifact(versions[v].source_file.id)
                && versions[v].source_file.ast is Some
                && !versions[v].source_file.defines_contract();
        assert(artifact.version == versions[v].version);
    }
}

proof fn lemma_sources_origin(
    progress: Progress,
    sources: Seq<(Seq<char>, Seq<VersionedSourceFileView>)>,
    folder: Seq<char>,
    file: Seq<char>,
    name: Seq<char>,
)
    requires
        laws::well_ordered(progress.artifacts),
    ensures
        zk::with_sources(progress, sources, folder) matches Some(after) ==> {
            let had = zk::artifacts_of_contract(progress.artifacts, file, name);
            let has = zk::artifacts_of_contract(after.artifacts, file, name);
            &&& laws::well_ordered(after.artifacts)
            &&& after.seen == progress.seen
            &&& path::file_stem(file) != Some(name) ==> has == had
            &&& forall|i: int|
                0 <= i < has.len() ==> had.contains(#[trigger] has[i]) || is_of_source(
                    has[i],
                    sources,
                    file,
                    name,
                )
        },
    decreases sources.len(),
{
    if let Some(after) = zk::with_sources(progress, sources, folder) {
        let had = zk::artifacts_of_contract(progress.artifacts, file, name);
        let has = zk::artifacts_of_contract(after.artifacts, file, name);
        if sources.len() == 0 {
            assert forall|i: int| 0 <= i < has.len() implies had.contains(#[trigger] has[i]) by {
                assert(has[i] == had[i]);
            }
        } else {
            let rest = sources.drop_last();
            let last = sources.last();
            lemma_sources_origin(progress, rest, folder, file, name);
            let before = zk::with_sources(progress, rest, folder)->0;
            let middle = zk::artifacts_of_contract(before.artifacts, file, name);
            lemma_versions_origin(
                before,
                last.0,
                last.1,
                last.1.len(),
                folder,
                file,
                name,
            );
            assert forall|i: int| 0 <= i < has.len() implies had.contains(#[trigger] has[i])
                || is_of_source(has[i], sources, file, name) by {
                if middle.contains(has[i]) {
                    let k = choose|k: int| 0 <= k < middle.len() && middle[k] == has[i];
                    assert(had.contains(middle[k]) || is_of_source(middle[k], rest, file, name));
                    if is_of_source(middle[k], rest, file, name) {
                        let s = choose|s: int|
                            0 <= s < rest.len() && (#[trigger] rest[s]).0 == file
                                && path::file_stem(file) == Some(name) && is_of_version(
                                middle[k],
                                rest[s].1,
                                rest[s].1.len(),
                            );
                        assert(sources[s] == rest[s]);
                    }
                } else {
                    assert(is_of_version(has[i], last.1, last.1.len()));
                    assert(last.0 == file && path::file_stem(file) == Some(name)) by {
                        if last.0 != file || path::file_stem(last.0) != Some(name) {
                            assert(has == middle);
                            assert(middle.contains(has[i]));
                        }
                    }
                    assert(sources[sources.len() - 1] == last);
                }
            }
        }
    }
}

/// Every artifact is made of a contract with its file and name, or of a source file without
/// contracts that its name comes from.
pub proof fn law_artifacts_come_from_output(
    groups: Seq<Seq<MappedContractView>>,
    sources: Seq<(Seq<char>, Seq<VersionedSourceFileView>)>,
    folder: Seq<char>,
    file: Seq<char>,
    name: Seq<char>,
    i: int,
)
    ensures
        zk::finished(groups, sources, folder) matches Some(progress) ==> {
            let has = zk::artifacts_of_contract(progress.artifacts, file, name);
            0 <= i < has.len() ==> is_of_contract(has[i], groups, sources, file, name)
                || is_of_source(has[i], sources, file, name)
        },
{
    lemma_groups_origin(groups, sources, folder, file, name);
    if let Some(progress) = zk::finished(groups, sources, folder) {
        let before = zk::with_groups(groups, sources, folder)->0;
        lemma_sources_origin(before, sources, folder, file, name);
        let had = zk::artifacts_of_contract(before.artifacts, file, name);
        let has = zk::artifacts_of_contract(progress.artifacts, file, name);
        if 0 <= i < has.len() && had.contains(has[i]) {
            let k = choose|k: int| 0 <= k < had.len() && had[k] == has[i];
            assert(is_of_contract(had[k], groups, sources, file, name));
        }
    }
}

/// A contract has as many artifacts as there are versions of it, unless its name is that of its
/// file, which may have an artifact of its own.
pub proof fn law_one_artifact_for_each_version(
    groups: Seq<Seq<MappedContractView>>,
    sources: Seq<(Seq<char>, Seq<VersionedSourceFileView>)>,
    folder: Seq<char>,
    file: Seq<char>,
    name: Seq<char>,
)
    requires
        path::file_stem(file) != Some(name),
    ensures
        zk::finished(groups, sources, folder) matches Some(progress) ==> zk::artifacts_of_contract(
            progress.artifacts,
            file,
            name,
        ).len() == groups_count(groups, file, name),
{
    lemma_groups_origin(groups, sources, folder, file, name);
    if let Some(progress) = zk::finished(groups, sources, folder) {
        let before = zk::with_groups(groups, sources, folder)->0;
        lemma_sources_origin(before, sources, folder, file, name);
    }
}

/// Whether one of the first contracts of a group comes from a source file of a version.
pub open spec fn is_seen_in_group(
    group: Seq<MappedContractView>,
    count: nat,
    sources: Seq<(Seq<char>, Seq<VersionedSourceFileView>)>,
    id: u32,
    version: VersionView,
) -> bool {
    exists|i: int|
        0 <= i < count && (#[trigger] group[i]).version == version && zk::id_of(
            output::find_source(sources, group[i].file, group[i].version),
        ) == Some(id)
}

/// Whether one of the contracts comes from a source file of a version.
pub open spec fn is_seen(
    groups: Seq<Seq<MappedContractView>>,
    sources: Seq<(Seq<char>, Seq<VersionedSourceFileView>)>,
    id: u32,
    version: VersionView,
) -> bool {
    exists|g: int|
        0 <= g < groups.len() && is_seen_in_group(
            #[trigger] groups[g],
            groups[g].len(),
            sources,
            id,
            version,
        )
}

proof fn lemma_contracts_seen(
    progress: Progress,
    group: Seq<MappedContractView>,
    count: nat,
    sources: Seq<(Seq<char>, Seq<VersionedSourceFileView>)>,
    folder: Seq<char>,
    id: u32,
    version: VersionView,
)
    ensures
        zk::with_contracts(progress, group, count, sources, folder) matches Some(after) ==> (
        after.seen.contains((id, version)) <==> progress.seen.contains((id, version))
            || is_seen_in_group(group, count, sources, id, version)),
    decreases count,
{
    if count > 0 {
        let last = (count - 1) as nat;
        lemma_contracts_seen(progress, group, last, sources, folder, id, version);
        if let Some(after) = zk::with_contracts(progress, group, count, sources, folder) {
            let before = zk::with_contracts(progress, group, last, sources, folder)->0;
            let mapped = group[last as int];
            let source = output::find_source(sources, mapped.file, mapped.version);
            if let Some(found) = source {
                assert(after.seen == before.seen.push((found.id, mapped.version)));
                vstd::seq_lib::lemma_seq_contains_after_push(
                    before.seen,
                    (found.id, mapped.version),
                    (id, version),
                );
            }
            if is_seen_in_group(group, count, sources, id, version) {
                let i = choose|i: int|
                    0 <= i < count && (#[trigger] group[i]).version == version && zk::id_of(
                        output::find_source(sources, group[i].file, group[i].version),
                    ) == Some(id);
                assert(group[i].version == version);
            }
            if is_seen_in_group(group, last, sources, id, version) {
                let i = choose|i: int|
                    0 <= i < last && (#[trigger] group[i]).version == version && zk::id_of(
                        output::find_source(sources, group[i].file, group[i].version),
                    ) == Some(id);
                assert(group[i].version == version);
            }
        }
    }
}

/// A source file counts as one that contracts come from just if a contract of the same version
/// does.
pub proof fn law_seen_source_files(
    groups: Seq<Seq<MappedContractView>>,
    sources: Seq<(Seq<char>, Seq<VersionedSourceFileView>)>,
    folder: Seq<char>,
    id: u32,
    version: VersionView,
)
    ensures
        zk::finished(groups, sources, folder) matches Some(progress) ==> (progress.seen.contains(
            (id, version),
        ) <==> is_seen(groups, sources, id, version)),
{
    lemma_groups_seen(groups, sources, folder, id, version);
    let name = Seq::<char>::empty();
    lemma_groups_origin(groups, sources, folder, name, name);
    if let Some(before) = zk::with_groups(groups, sources, folder) {
        lemma_sources_origin(before, sources, folder, name, name);
    }
}

proof fn lemma_groups_seen(
    groups: Seq<Seq<MappedContractView>>,
    sources: Seq<(Seq<char>, Seq<VersionedSourceFileView>)>,
    folder: Seq<char>,
    id: u32,
    version: VersionView,
)
    ensures
        zk::with_groups(groups, sources, folder) matches Some(after) ==> (after.seen.contains(
            (id, version),
        ) <==> is_seen(groups, sources, id, version)),
    decreases groups.len(),
{
    if groups.len() > 0 {
        let rest = groups.drop_last();
        let last = groups.last();
        lemma_groups_seen(rest, sources, folder, id, version);
        if let Some(before) = zk::with_groups(rest, sources, folder) {
            lemma_contracts_seen(before, last, last.len(), sources, folder, id, version);
        }
        if is_seen(groups, sources, id, version) {
            let g = choose|g: int|
                0 <= g < groups.len() && is_seen_in_group(
                    #[trigger] groups[g],
                    groups[g].len(),
                    sources,
                    id,
                    version,
                );
            if g < rest.len() {
                assert(rest[g] == groups[g]);
            }
        }
        if is_seen(rest, sources, id, version) {
            let g = choose|g: int|
                0 <= g < rest.len() && is_seen_in_group(
                    #[trigger] rest[g],
                    rest[g].len(),
                    sources,
                    id,
                    version,
                );
            assert(rest[g] == groups[g]);
        }
        assert(groups[groups.len() - 1] == last);
    }
}

/// Whether an artifact holds all that was emitted for a contract.
pub open spec fn holds_contract(artifact: ArtifactFileView, contract: ContractView) -> bool {
    let made = artifact.artifact;
    &&& made.abi == contract.abi
    &&& contract.evm matches Some(evm) ==> {
        &&& made.bytecode == evm.bytecode
        &&& made.assembly == evm.assembly
        &&& made.method_identifiers == Some(evm.method_identifiers)
    }
    &&& contract.evm is None ==> made.bytecode is None && made.assembly is None
        && made.method_identifiers is None
    &&& made.metadata == contract.metadata
    &&& made.storage_layout == Some(contract.storage_layout)
    &&& made.userdoc == Some(contract.userdoc)
    &&& made.devdoc == Some(contract.devdoc)
    &&& made.ir_optimized == contract.ir_optimized
    &&& made.hash == contract.hash
    &&& made.factory_dependencies == contract.factory_dependencies
    &&& made.missing_libraries == contract.missing_libraries
}

/// Whether one of the artifacts is that of a version of a contract.
pub open spec fn has_artifact_of(
    list: Seq<ArtifactFileView>,
    emitted: VersionedContractView,
    id: Option<u32>,
) -> bool {
    exists|i: int|
        0 <= i < list.len() && holds_contract(#[trigger] list[i], emitted.contract)
            && list[i].version == emitted.version && list[i].artifact.id == id
}

/// Every version of every contract that was emitted has an artifact under its file and name, with
/// its version, that holds all that was emitted for it.
pub proof fn law_every_emitted_contract_has_artifact(
    contracts: Seq<(Seq<char>, Seq<(Seq<char>, Seq<VersionedContractView>)>)>,
    sources: Seq<(Seq<char>, Seq<VersionedSourceFileView>)>,
    ctx: OutputContext<'_>,
    folder: Seq<char>,
    f: int,
    n: int,
    v: int,
)
    requires
        0 <= f < contracts.len(),
        0 <= n < contracts[f].1.len(),
        0 <= v < contracts[f].1[n].1.len(),
    ensures
        zk::converted(contracts, sources, ctx, folder) matches Some(progress) ==> has_artifact_of(
            zk::artifacts_of_contract(progress.artifacts, contracts[f].0, contracts[f].1[n].0),
            contracts[f].1[n].1[v],
            zk::id_of(
                output::find_source(sources, contracts[f].0, contracts[f].1[n].1[v].version),
            ),
        ),
{
    let (file, names) = contracts[f];
    let (name, versions) = names[n];
    let mapped = mapping_laws::mapped_version(ctx, file, name, versions, v);
    let list = files::mapped_files(ctx, contracts);
    let groups = zk::groups_of(list);
    mapping_laws::law_mapped_contracts(ctx, contracts, mapped);
    assert(mapping_laws::is_of_file(ctx, file, names, mapped)) by {
        assert(mapped == mapping_laws::mapped_version(ctx, file, names[n].0, names[n].1, v));
    }
    assert(mapping_laws::is_of_file(ctx, contracts[f].0, contracts[f].1, mapped));
    assert(mapping_laws::is_listed(list, mapped));
    let (k, i) = choose|k: int, i: int|
        0 <= k < list.len() && 0 <= i < list[k].1.len() && #[trigger] list[k].1[i] == mapped;
    assert(groups[k] == list[k].1);
    laws::law_every_contract_has_artifact(groups, sources, folder, k, i);
    if let Some(progress) = zk::converted(contracts, sources, ctx, folder) {
        let all = zk::artifacts_of_contract(progress.artifacts, file, name);
        let place = laws::path_of(groups, sources, folder, k, i)->0;
        let source = output::find_source(sources, file, mapped.version);
        let made = ArtifactFileView {
            artifact: zk::contract_artifact(mapped.contract, zk::id_of(source)),
            file: place,
            version: mapped.version,
        };
        assert(all.contains(made));
        let j = choose|j: int| 0 <= j < all.len() && all[j] == made;
        assert(holds_contract(all[j], versions[v].contract));
    }
}

/// A contract takes the path of its artifact, and leaves all others as they were.
pub proof fn law_contract_takes_path(
    progress: Progress,
    group: Seq<MappedContractView>,
    at: int,
    sources: Seq<(Seq<char>, Seq<VersionedSourceFileView>)>,
    folder: Seq<char>,
    other: Seq<char>,
)
    requires
        maps::ordered::<ByPath, ()>(progress.taken),
    ensures
        ({
            let place = zk::contract_path(progress.taken, group, at, folder);
            let res = zk::with_contract(progress, group, at, sources, folder);
            &&& res is Some <==> place is Some
            &&& res matches Some(after) ==> {
                &&& maps::ordered::<ByPath, ()>(after.taken)
                &&& artifact_output::is_taken(after.taken, place->0)
                &&& !path::same_path(other, place->0) ==> (artifact_output::is_taken(
                    after.taken,
                    other,
                ) <==> artifact_output::is_taken(progress.taken, other))
            }
        }),
{
    if let Some(place) = zk::contract_path(progress.taken, group, at, folder) {
        lemma_taken(progress.taken, place, other);
    }
}

proof fn lemma_taken(taken: Seq<(Seq<char>, ())>, place: Seq<char>, other: Seq<char>)
    requires
        maps::ordered::<ByPath, ()>(taken),
    ensures
        ({
            let after = maps::inserted::<ByPath, ()>(taken, place, ());
            &&& maps::ordered::<ByPath, ()>(after)
            &&& artifact_output::is_taken(after, place)
            &&& !path::same_path(other, place) ==> (artifact_output::is_taken(after, other)
                <==> artifact_output::is_taken(taken, other))
        }),
{
    let after = maps::inserted::<ByPath, ()>(taken, place, ());
    maps::law_inserted::<ByPath, ()>(taken, place, (), other);
    maps::lemma_has::<ByPath, ()>(after, place);
    maps::lemma_has::<ByPath, ()>(after, other);
    maps::lemma_has::<ByPath, ()>(taken, other);
}

/// A source file whose path is in conflict takes the one that stands in its place. All other source
/// files leave what is taken as it was, and so do all the source files that contracts come from.
pub proof fn law_source_takes_path(
    progress: Progress,
    file: Seq<char>,
    versions: Seq<VersionedSourceFileView>,
    at: int,
    folder: Seq<char>,
    other: Seq<char>,
)
    requires
        maps::ordered::<ByPath, ()>(progress.taken),
        path::file_stem(file) is Some,
    ensures
        ({
            let name = path::file_stem(file)->0;
            let wanted = zk::standalone_path(file, name, versions.len(), versions[at].version);
            let place = zk::source_path(progress.taken, file, name, versions, at, folder);
            let res = zk::with_source(progress, file, versions, at, folder);
            let alone = zk::is_standalone(progress.seen, versions[at]);
            &&& !alone ==> res == Some(progress)
            &&& alone ==> (res is Some <==> place is Some)
            &&& alone && res is Some && !artifact_output::is_taken(progress.taken, wanted)
                ==> res->0.taken == progress.taken
            &&& alone && res is Some && artifact_output::is_taken(progress.taken, wanted) ==> {
                &&& artifact_output::is_taken(res->0.taken, place->0)
                &&& !path::same_path(other, place->0) ==> (artifact_output::is_taken(
                    res->0.taken,
                    other,
                ) <==> artifact_output::is_taken(progress.taken, other))
            }
            &&& res is Some ==> res->0.seen == progress.seen
        }),
{
    let name = path::file_stem(file)->0;
    if let Some(place) = zk::source_path(progress.taken, file, name, versions, at, folder) {
        lemma_taken(progress.taken, place, other);
    }
}

/// A source file without contracts has its artifact under its path and its name without extension,
/// at the path that it takes and with its version, unless there is one for the version already.
/// Nothing else gets an artifact by it.
pub proof fn law_source_artifact(
    progress: Progress,
    file: Seq<char>,
    versions: Seq<VersionedSourceFileView>,
    at: int,
    folder: Seq<char>,
    other_file: Seq<char>,
    other_name: Seq<char>,
)
    requires
        laws::well_ordered(progress.artifacts),
        zk::is_standalone(progress.seen, versions[at]),
        path::file_stem(file) is Some,
        zk::with_source(progress, file, versions, at, folder) is Some,
    ensures
        ({
            let name = path::file_stem(file)->0;
            let before = zk::artifacts_of_contract(progress.artifacts, file, name);
            let after = zk::with_source(progress, file, versions, at, folder)->0.artifacts;
            let list = zk::artifacts_of_contract(after, file, name);
            let place = zk::source_path(progress.taken, file, name, versions, at, folder)->0;
            let there = exists|i: int|
                0 <= i < before.len() && (#[trigger] before[i]).version == versions[at].version;
            &&& there ==> list == before
            &&& !there ==> {
                &&& list.len() == before.len() + 1
                &&& list.drop_last() == before
                &&& list.last().file == place
                &&& list.last().version == versions[at].version
                &&& list.last().artifact.id == Some(versions[at].source_file.id)
                &&& list.last().artifact.abi is Some
                &&& list.last().artifact.abi->0.len() == 0
                &&& list.last().artifact.bytecode is None
            }
            &&& other_file != file || other_name != name ==> zk::artifacts_of_contract(
                after,
                other_file,
                other_name,
            ) == zk::artifacts_of_contract(progress.artifacts, other_file, other_name)
        }),
{
    let name = path::file_stem(file)->0;
    let before = zk::artifacts_of_contract(progress.artifacts, file, name);
    let made = ArtifactFileView {
        artifact: zk::standalone_artifact(versions[at].source_file.id),
        file: zk::source_path(progress.taken, file, name, versions, at, folder)->0,
        version: versions[at].version,
    };
    laws::law_with_artifact(progress.artifacts, file, name, made, file, name);
    laws::law_with_artifact(progress.artifacts, file, name, made, other_file, other_name);
    assert(before.push(made).drop_last() =~= before);
}

/// A contract has its artifact under its file and its name, at the path that it takes and with its
/// version, behind those that it has for other versions. No other contract gets an artifact by it.
pub proof fn law_contract_artifact(
    progress: Progress,
    group: Seq<MappedContractView>,
    at: int,
    sources: Seq<(Seq<char>, Seq<VersionedSourceFileView>)>,
    folder: Seq<char>,
    other_file: Seq<char>,
    other_name: Seq<char>,
)
    requires
        laws::well_ordered(progress.artifacts),
        zk::with_contract(progress, group, at, sources, folder) is Some,
    ensures
        ({
            let mapped = group[at];
            let before = zk::artifacts_of_contract(progress.artifacts, mapped.file, mapped.name);
            let after = zk::with_contract(progress, group, at, sources, folder)->0.artifacts;
            let list = zk::artifacts_of_contract(after, mapped.file, mapped.name);
            &&& list.len() == before.len() + 1
            &&& list.drop_last() == before
            &&& Some(list.last().file) == zk::contract_path(progress.taken, group, at, folder)
            &&& list.last().version == mapped.version
            &&& holds_contract(list.last(), mapped.contract)
            &&& list.last().artifact.id == zk::id_of(
                output::find_source(sources, mapped.file, mapped.version),
            )
            &&& other_file != mapped.file || other_name != mapped.name
                ==> zk::artifacts_of_contract(after, other_file, other_name)
                == zk::artifacts_of_contract(progress.artifacts, other_file, other_name)
        }),
{
    let mapped = group[at];
    let before = zk::artifacts_of_contract(progress.artifacts, mapped.file, mapped.name);
    let made = ArtifactFileView {
        artifact: zk::contract_artifact(
            mapped.contract,
            zk::id_of(output::find_source(sources, mapped.file, mapped.version)),
        ),
        file: zk::contract_path(progress.taken, group, at, folder)->0,
        version: mapped.version,
    };
    laws::law_with_artifact(
        progress.artifacts,
        mapped.file,
        mapped.name,
        made,
        mapped.file,
        mapped.name,
    );
    laws::law_with_artifact(
        progress.artifacts,
        mapped.file,
        mapped.name,
        made,
        other_file,
        other_name,
    );
    assert(before.push(made).drop_last() =~= before);
}

} // verus!
