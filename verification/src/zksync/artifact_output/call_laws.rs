//! How calls relate to what they are given, and to each other.
use crate::config::ProjectPathsConfig;
use crate::key_laws;
use crate::maps;
use crate::maps::{ByPath, ByText, PathSet};
use crate::path;
use crate::text;
use crate::version;
use crate::version::Version;
use crate::zksync::artifact_output;
use crate::zksync::artifact_output::artifact_laws;
use crate::zksync::artifact_output::files::MappedArtifactFiles;
use crate::zksync::artifact_output::mapping_laws;
use crate::zksync::artifact_output::origin_laws;
use crate::zksync::artifact_output::path_laws;
use crate::zksync::artifact_output::zk;
use crate::zksync::artifact_output::zk::{Artifacts, ZkArtifactOutput, ZkContractArtifact};
use crate::zksync::artifact_output::{ArtifactId, OutputContext};
use crate::zksync::artifacts;
use crate::zksync::artifacts::{CompilerOutput, Contract, Error, Severity, SourceFile};
use crate::zksync::cache::{CacheEntry, SolFilesCache};
use crate::zksync::compile::outcome_laws;
use crate::zksync::compile::output;
use crate::zksync::compile::output::{VersionedContracts, VersionedSourceFile, VersionedSourceFiles};
use vstd::prelude::*;

verus! {

/// The artifact of a contract holds all that was emitted for it, each part whatever the others
/// are, and the identifier of its source file.
pub proof fn law_contract_to_artifact(
    handler: &ZkArtifactOutput,
    file: &str,
    name: &str,
    contract: Contract,
    source: SourceFile,
    res: ZkContractArtifact,
    lone: ZkContractArtifact,
)
    requires
        call_ensures(
            ZkArtifactOutput::contract_to_artifact,
            (handler, file, name, contract, Some(&source)),
            res,
        ),
        call_ensures(
            ZkArtifactOutput::contract_to_artifact,
            (handler, file, name, contract, None::<&SourceFile>),
            lone,
        ),
    ensures
        res.id == Some(source.id),
        lone.id is None,
        contract.evm is Some ==> (res.bytecode is Some <==> contract.evm->0.bytecode is Some),
        contract.evm is Some && contract.evm->0.bytecode is Some ==> artifact_laws::same_bytecode(
            res.bytecode->0,
            contract.evm->0.bytecode->0,
        ) && artifact_laws::same_bytecode(lone.bytecode->0, contract.evm->0.bytecode->0),
        contract.evm is Some ==> artifact_laws::same_text(
            res.assembly,
            contract.evm->0.assembly,
        ) && res.method_identifiers is Some && artifact_laws::same_map(
            res.method_identifiers->0,
            contract.evm->0.method_identifiers,
        ),
        contract.evm is None ==> res.bytecode is None && res.assembly is None
            && res.method_identifiers is None,
        contract.abi is Some <==> res.abi is Some,
        contract.abi is Some ==> artifacts::abi_items(res.abi->0) == artifacts::abi_items(
            contract.abi->0,
        ),
        res.metadata == contract.metadata,
        res.storage_layout is Some && res.storage_layout->0.json@ == contract.storage_layout.json@,
        res.userdoc is Some && res.userdoc->0.json@ == contract.userdoc.json@,
        res.devdoc is Some && res.devdoc->0.json@ == contract.devdoc.json@,
        artifact_laws::same_text(res.ir_optimized, contract.ir_optimized),
        artifact_laws::same_text(res.hash, contract.hash),
        contract.factory_dependencies is Some <==> res.factory_dependencies is Some,
        contract.factory_dependencies is Some ==> artifact_laws::same_map(
            res.factory_dependencies->0,
            contract.factory_dependencies->0,
        ),
        contract.missing_libraries is Some <==> res.missing_libraries is Some,
        contract.missing_libraries is Some ==> artifact_laws::same_list(
            res.missing_libraries->0,
            contract.missing_libraries->0,
        ),
{
    artifact_laws::law_bytecode_of_artifact(contract, Some(source.id), res);
    artifact_laws::law_bytecode_of_artifact(contract, None, lone);
    artifact_laws::law_evm_of_artifact(contract, Some(source.id), res);
    artifact_laws::law_fields_of_artifact(contract, Some(source.id), res);
    artifact_laws::law_fields_of_artifact(contract, None, lone);
    artifact_laws::law_dependencies_of_artifact(contract, Some(source.id), res);
}

/// A source file has an artifact of its own just if it has a syntax tree: an ABI without items,
/// and the identifier of the file.
pub proof fn law_standalone_source_file_to_artifact(
    handler: &ZkArtifactOutput,
    name: &str,
    file: &VersionedSourceFile,
    res: Option<ZkContractArtifact>,
)
    requires
        call_ensures(
            ZkArtifactOutput::standalone_source_file_to_artifact,
            (handler, name, file),
            res,
        ),
    ensures
        res is Some <==> file.source_file.ast is Some,
        res matches Some(made) ==> {
            &&& made.id == Some(file.source_file.id)
            &&& made.abi is Some
            &&& artifacts::abi_items(made.abi->0).len() == 0
            &&& made.bytecode is None
            &&& made.metadata is None
            &&& made.hash is None
        },
{
    if let Some(made) = res {
        artifact_laws::law_standalone_artifact(file.source_file.id, made);
    }
}

/// Every version of every contract that was emitted has an artifact that holds all that was
/// emitted for it.
pub proof fn law_output_to_artifacts(
    handler: &ZkArtifactOutput,
    contracts: &VersionedContracts,
    sources: &VersionedSourceFiles,
    ctx: OutputContext<'_>,
    layout: &ProjectPathsConfig,
    res: Artifacts,
    f: int,
    n: int,
    v: int,
)
    requires
        zk::converted(contracts@, sources@, ctx, layout.zksync_artifacts@) is Some,
        call_ensures(
            ZkArtifactOutput::output_to_artifacts,
            (handler, contracts, sources, ctx, layout),
            res,
        ),
        0 <= f < contracts@.len(),
        0 <= n < contracts@[f].1.len(),
        0 <= v < contracts@[f].1[n].1.len(),
    ensures
        origin_laws::has_artifact_of(
            zk::artifacts_of_contract(res@, contracts@[f].0, contracts@[f].1[n].0),
            contracts@[f].1[n].1[v],
            zk::id_of(
                output::find_source(
                    sources@,
                    contracts@[f].0,
                    contracts@[f].1[n].1[v].version,
                ),
            ),
        ),
{
    origin_laws::law_every_emitted_contract_has_artifact(
        contracts@,
        sources@,
        ctx,
        layout.zksync_artifacts@,
        f,
        n,
        v,
    );
}

/// The artifacts that are to be written are those that are made otherwise, with their paths joined
/// to the artifacts folder.
pub proof fn law_on_output(
    handler: &ZkArtifactOutput,
    contracts: &VersionedContracts,
    sources: &VersionedSourceFiles,
    ctx: OutputContext<'_>,
    layout: &ProjectPathsConfig,
    tried: Option<Artifacts>,
    made: Artifacts,
    written: Artifacts,
)
    requires
        zk::converted(contracts@, sources@, ctx, layout.zksync_artifacts@) is Some,
        call_ensures(
            ZkArtifactOutput::try_output_to_artifacts,
            (handler, contracts, sources, ctx, layout),
            tried,
        ),
        call_ensures(
            ZkArtifactOutput::output_to_artifacts,
            (handler, contracts, sources, ctx, layout),
            made,
        ),
        call_ensures(
            ZkArtifactOutput::on_output,
            (handler, contracts, sources, layout, ctx),
            written,
        ),
    ensures
        tried is Some,
        tried->0@ == made@,
        outcome_laws::has_changed_files(
            written@,
            made@,
            |file: Seq<char>| path::join_path(layout.zksync_artifacts@, file),
        ),
{
    let folder = layout.zksync_artifacts@;
    let change = |file: Seq<char>| path::join_path(folder, file);
    assert(zk::joins(folder) =~= change);
    outcome_laws::law_changed_files(made@, zk::joins(folder));
}

/// Joining the paths of artifacts to a path, or slashing them, changes nothing but paths; slashing
/// them elsewhere than on Windows changes nothing at all.
pub proof fn law_moved_artifacts(
    given: Artifacts,
    root: &str,
    joined: Artifacts,
    slashed: Artifacts,
    kept: Artifacts,
)
    requires
        call_ensures(Artifacts::join_all, (given, root), joined),
        call_ensures(Artifacts::slash_paths, (given, true), slashed),
        call_ensures(Artifacts::slash_paths, (given, false), kept),
    ensures
        outcome_laws::has_changed_files(
            joined@,
            given@,
            |file: Seq<char>| path::join_path(root@, file),
        ),
        outcome_laws::are_slashed(slashed@, given@),
        kept@ == given@,
{
    let change = |file: Seq<char>| path::join_path(root@, file);
    assert(zk::joins(root@) =~= change);
    outcome_laws::law_changed_files(given@, zk::joins(root@));
    outcome_laws::law_slashed_artifacts(given@);
}

/// Just the versions of contracts that were emitted are mapped to paths.
pub proof fn law_artifact_files<'a>(
    contracts: &'a VersionedContracts,
    ctx: &OutputContext<'a>,
    res: MappedArtifactFiles<'a>,
    f: int,
    n: int,
    v: int,
)
    requires
        call_ensures(VersionedContracts::artifact_files, (contracts, ctx), res),
        0 <= f < contracts@.len(),
        0 <= n < contracts@[f].1.len(),
        0 <= v < contracts@[f].1[n].1.len(),
    ensures
        mapping_laws::is_listed(
            res@,
            mapping_laws::mapped_version(
                *ctx,
                contracts@[f].0,
                contracts@[f].1[n].0,
                contracts@[f].1[n].1,
                v,
            ),
        ),
        mapping_laws::listed_count(res@) == mapping_laws::contract_count(contracts@),
{
    let (file, names) = contracts@[f];
    let mapped = mapping_laws::mapped_version(*ctx, file, names[n].0, names[n].1, v);
    mapping_laws::law_mapped_contracts(*ctx, contracts@, mapped);
    mapping_laws::law_mapped_once(*ctx, contracts@);
    assert(mapping_laws::is_of_file(*ctx, file, names, mapped));
    assert(mapping_laws::is_of_file(*ctx, contracts@[f].0, contracts@[f].1, mapped));
}

/// An artifact is named after its contract, and leads back to it.
pub proof fn law_output_file(
    contract_file: &str,
    name: &str,
    made: String,
    file: &str,
    stem: Option<String>,
)
    requires
        name@.len() > 0,
        path::has_no_separator(name@),
        call_ensures(artifact_output::output_file, (contract_file, name), made),
        file@ == made@,
        call_ensures(artifact_output::contract_name, (file,), stem),
    ensures
        stem is Some,
        stem->0@ == name@,
        path::file_name(contract_file@) matches Some(dir) ==> made@ == dir + "/"@ + name@
            + ".json"@,
        path::file_name(contract_file@) is None ==> made@ == name@ + ".json"@,
{
    assert(name@[0] != '/');
    path_laws::law_artifact_path(contract_file@, name@);
    artifact_output::law_contract_name_of_output_file(contract_file@, name@);
}

/// The names of artifacts: with the version just where there are several.
pub proof fn law_output_file_names(
    contract_file: &str,
    name: &str,
    v: &Version,
    plain: String,
    versioned: String,
    place: String,
    versioned_place: String,
)
    requires
        name@.len() > 0 ==> name@[0] != '/',
        call_ensures(artifact_output::output_file_name, (name,), plain),
        call_ensures(artifact_output::output_file_name_versioned, (name, v), versioned),
        call_ensures(artifact_output::output_file, (contract_file, name), place),
        call_ensures(
            artifact_output::output_file_versioned,
            (contract_file, name, v),
            versioned_place,
        ),
    ensures
        plain@ == name@ + ".json"@,
        versioned@ == name@ + "."@ + path_laws::numbers(v@) + ".json"@,
        path::file_name(contract_file@) matches Some(dir) ==> {
            &&& place@ == dir + "/"@ + name@ + ".json"@
            &&& versioned_place@ == dir + "/"@ + name@ + "."@ + path_laws::numbers(v@) + ".json"@
        },
        path::file_name(contract_file@) is None ==> place@ == plain@ && versioned_place@
            == versioned@,
{
    path_laws::law_artifact_path(contract_file@, name@);
    path_laws::law_versioned_artifact_path(contract_file@, name@, v@);
    reveal_strlit(".");
    assert("."@ =~= seq!['.']);
    assert(version::release_text(v@) =~= path_laws::numbers(v@));
}

/// A path that takes the place of one in conflict is not taken, and there is one for any path but
/// the artifacts folder itself.
pub proof fn law_alternative_output_file(
    taken: &PathSet,
    conflict: &str,
    contract_file: &str,
    folder: &str,
    res: Option<String>,
    sure: String,
)
    requires
        call_ensures(
            artifact_output::alternative_output_file,
            (taken, conflict, contract_file, folder),
            res,
        ),
        call_ensures(
            artifact_output::conflict_free_output_file,
            (taken, conflict, contract_file, folder),
            sure,
        ),
        path::components(conflict@).len() > 0,
        !path::same_path(conflict@, folder@),
    ensures
        res is Some,
        res->0@ == sure@,
        forall|i: int|
            0 <= i < taken@.len() ==> !path::same_path((#[trigger] taken@[i]).0, sure@),
{
    artifact_output::law_free_path_exists(taken@, conflict@, contract_file@, folder@);
    artifact_output::law_free_path_is_free(taken@, conflict@, contract_file@, folder@);
    path_laws::law_taken(taken@, sure@);
}

/// Without a cache no artifact of an earlier run is known; a cache that is given is the one that
/// is asked.
pub proof fn law_contexts<'a>(known: &'a SolFilesCache, made: OutputContext<'a>)
    requires
        call_ensures(OutputContext::new, (known,), made),
    ensures
        made.cache == Some(known),
{
}

/// The artifact of an earlier run is the first that the cache lists for the version.
pub proof fn law_existing_artifact(
    known: SolFilesCache,
    file: &str,
    name: &str,
    v: &Version,
    res: Option<&String>,
    f: int,
    n: int,
    i: int,
)
    requires
        call_ensures(
            OutputContext::existing_artifact,
            (&OutputContext { cache: Some(&known) }, file, name, v),
            res,
        ),
        maps::ordered::<ByPath, CacheEntry>(known.files@),
        0 <= f < known.files@.len(),
        path::same_path(known.files@[f].0, file@),
        maps::ordered::<ByText, Vec<(Version, String)>>(known.files@[f].1.artifacts@),
        0 <= n < known.files@[f].1.artifacts@.len(),
        known.files@[f].1.artifacts@[n].0 == name@,
        0 <= i < known.files@[f].1.artifacts@[n].1@.len(),
        known.files@[f].1.artifacts@[n].1@[i].0@ == v@,
        forall|j: int|
            0 <= j < i ==> (#[trigger] known.files@[f].1.artifacts@[n].1@[j]).0@ != v@,
    ensures
        res is Some,
        res->0@ == known.files@[f].1.artifacts@[n].1@[i].1@,
{
    path_laws::law_existing_artifact(known, file@, name@, v@, f, n, i);
}

/// Identifiers keep their names and versions, and elsewhere than on Windows their paths too.
pub proof fn law_with_slashed_paths(given: ArtifactId, windows: bool, res: ArtifactId)
    requires
        call_ensures(ArtifactId::with_slashed_paths, (given, windows), res),
    ensures
        res.name@ == given.name@,
        res.version@ == given.version@,
        !windows ==> res.path@ == given.path@ && res.source@ == given.source@,
        windows ==> res.path@ == path::slashed(given.path@) && res.source@ == path::slashed(
            given.source@,
        ),
{
    assert(res@.name == res.name@ && res@.path == res.path@ && res@.source == res.source@);
}

/// Just the files of a list are retained, with all that was emitted for them; joining the paths of
/// files changes no message.
pub proof fn law_retain_files(
    given: CompilerOutput,
    files: &Vec<String>,
    root: &str,
    kept: CompilerOutput,
    joined: CompilerOutput,
    i: int,
)
    requires
        call_ensures(CompilerOutput::retain_files, (given, files), kept),
        call_ensures(CompilerOutput::join_all, (given, root), joined),
        maps::ordered::<ByText, SourceFile>(given.sources@),
    ensures
        kept.errors == given.errors && joined.errors == given.errors,
        kept.zksync_solc_version == given.zksync_solc_version && joined.zksync_solc_version
            == given.zksync_solc_version,
        0 <= i < files@.len() ==> maps::found::<ByText, SourceFile>(kept.sources@, files@[i]@)
            == maps::found::<ByText, SourceFile>(given.sources@, files@[i]@),
        key_laws::is_rekeyed::<ByText, SourceFile>(
            joined.sources@,
            given.sources@,
            |key: Seq<char>| path::join_path(root@, key),
        ),
{
    key_laws::law_joined_keys::<SourceFile>(given.sources@, root@);
    if 0 <= i < files@.len() {
        let names = text::texts(files@);
        assert(names[i] == files@[i]@);
        assert(names.contains(files@[i]@));
        artifacts::law_retained_files::<SourceFile>(given.sources@, names, files@[i]@);
    }
}

/// A message tells what it holds.
pub proof fn law_messages(
    message: &Error,
    is_error: bool,
    is_warning: bool,
    severity: Severity,
    code: Option<u64>,
    location: Option<artifacts::SourceLocation>,
)
    requires
        call_ensures(Error::is_error, (message,), is_error),
        call_ensures(Error::is_warning, (message,), is_warning),
        call_ensures(Error::severity, (message,), severity),
        call_ensures(Error::error_code, (message,), code),
        call_ensures(Error::source_location, (message,), location),
    ensures
        is_error <==> message.severity is Error,
        is_warning <==> message.severity is Warning,
        severity == message.severity,
        code == message.error_code,
        location == message.source_location,
{
}

/// A severity tells which one it is.
pub proof fn law_severities(severity: &Severity, is_error: bool, is_warning: bool)
    requires
        call_ensures(Severity::is_error, (severity,), is_error),
        call_ensures(Severity::is_warning, (severity,), is_warning),
    ensures
        is_error <==> *severity is Error,
        is_warning <==> *severity is Warning,
{
}

/// A source file defines a contract just if one of the nodes of its syntax tree does.
pub proof fn law_contains_contract_definition(source: &SourceFile, res: bool)
    requires
        call_ensures(SourceFile::contains_contract_definition, (source,), res),
    ensures
        res <==> source.ast is Some && exists|i: int|
            0 <= i < source.ast->0.node_types@.len() && (
            #[trigger] source.ast->0.node_types@[i])@ == "ContractDefinition"@,
{
    artifact_laws::law_defines_contract(*source);
}

/// New artifacts are none.
pub proof fn law_new_artifacts(res: Artifacts)
    requires
        call_ensures(Artifacts::new, (), res),
    ensures
        res@.len() == 0,
        res.0@.len() == 0,
{
    assert(res@.len() == res.0@.len());
}

} // verus!
