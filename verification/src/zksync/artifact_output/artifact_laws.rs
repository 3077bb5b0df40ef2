//! What artifacts hold of the contracts and source files that they are made of.
use crate::maps;
use crate::maps::TextMap;
use crate::text;
use crate::version::VersionView;
use crate::zksync::artifact_output::zk;
use crate::zksync::artifact_output::zk::{ArtifactFile, ArtifactFileView, ZkContractArtifact};
use crate::zksync::artifacts;
use crate::zksync::artifacts::{Bytecode, BytecodeObject, Contract, ContractView, SourceFile};
use crate::zksync::compile::output::VersionedSourceFileView;
use vstd::prelude::*;

verus! {

/// Whether two bytecodes hold the same bytes, or the same text.
pub open spec fn same_bytecode(a: Bytecode, b: Bytecode) -> bool {
    match (a.object, b.object) {
        (BytecodeObject::Bytecode(x), BytecodeObject::Bytecode(y)) => x@ == y@,
        (BytecodeObject::Unlinked(x), BytecodeObject::Unlinked(y)) => x@ == y@,
        _ => false,
    }
}

/// Whether two optional texts are the same.
pub open spec fn same_text(a: Option<String>, b: Option<String>) -> bool {
    match (a, b) {
        (Some(x), Some(y)) => x@ == y@,
        (None, None) => true,
        _ => false,
    }
}

/// Whether two maps have the same texts for the same keys, in the same order.
pub open spec fn same_map(a: TextMap<String>, b: TextMap<String>) -> bool {
    &&& a@.len() == b@.len()
    &&& forall|i: int|
        0 <= i < a@.len() ==> (#[trigger] a@[i]).0 == b@[i].0 && a@[i].1@ == b@[i].1@
}

/// Whether two lists have the same texts.
pub open spec fn same_list(a: Vec<String>, b: Vec<String>) -> bool {
    &&& a@.len() == b@.len()
    &&& forall|i: int| 0 <= i < a@.len() ==> (#[trigger] a@[i])@ == b@[i]@
}

proof fn lemma_same_map(a: TextMap<String>, b: TextMap<String>)
    requires
        maps::text_entries(a@) == maps::text_entries(b@),
    ensures
        same_map(a, b),
{
    let x = maps::text_entries(a@);
    let y = maps::text_entries(b@);
    assert(x.len() == a@.len() && y.len() == b@.len());
    assert forall|i: int| 0 <= i < a@.len() implies (#[trigger] a@[i]).0 == b@[i].0 && a@[i].1@
        == b@[i].1@ by {
        assert(x[i] == (a@[i].0, a@[i].1@));
        assert(y[i] == (b@[i].0, b@[i].1@));
    }
}

proof fn lemma_same_list(a: Vec<String>, b: Vec<String>)
    requires
        text::texts(a@) == text::texts(b@),
    ensures
        same_list(a, b),
{
    let x = text::texts(a@);
    let y = text::texts(b@);
    assert(x.len() == a@.len() && y.len() == b@.len());
    assert forall|i: int| 0 <= i < a@.len() implies (#[trigger] a@[i])@ == b@[i]@ by {
        assert(x[i] == a@[i]@);
        assert(y[i] == b@[i]@);
    }
}

/// The bytecode of a contract's artifact is the one that was emitted, whatever else was emitted
/// or not: there is one just where there is one to emit.
pub proof fn law_bytecode_of_artifact(
    contract: Contract,
    id: Option<u32>,
    artifact: ZkContractArtifact,
)
    requires
        artifact@ == zk::contract_artifact(contract@, id),
    ensures
        match contract.evm {
            Some(evm) => match evm.bytecode {
                Some(bytecode) => artifact.bytecode matches Some(res) && same_bytecode(
                    res,
                    bytecode,
                ),
                None => artifact.bytecode is None,
            },
            None => artifact.bytecode is None,
        },
{
    assert(artifact@.bytecode == artifacts::bytecode_view(artifact.bytecode));
}

/// Two contracts with the same bytecode have artifacts with the same bytecode, however the
/// contracts differ otherwise.
pub proof fn law_same_bytecode_same_artifact_bytecode(
    a: ContractView,
    b: ContractView,
    a_id: Option<u32>,
    b_id: Option<u32>,
)
    requires
        a.evm is Some,
        b.evm is Some,
    ensures
        a.evm->0.bytecode == b.evm->0.bytecode <==> zk::contract_artifact(a, a_id).bytecode
            == zk::contract_artifact(b, b_id).bytecode,
        zk::contract_artifact(a, a_id).bytecode == a.evm->0.bytecode,
        zk::contract_artifact(b, b_id).bytecode == b.evm->0.bytecode,
{
}

/// Just as the bytecode, the assembly of a contract's artifact is the one that was emitted, and
/// so are the function selectors.
pub proof fn law_evm_of_artifact(contract: Contract, id: Option<u32>, artifact: ZkContractArtifact)
    requires
        artifact@ == zk::contract_artifact(contract@, id),
    ensures
        match contract.evm {
            Some(evm) => {
                &&& same_text(artifact.assembly, evm.assembly)
                &&& artifact.method_identifiers matches Some(res)
                &&& same_map(res, evm.method_identifiers)
            },
            None => artifact.assembly is None && artifact.method_identifiers is None,
        },
{
    assert(artifact@.assembly == text::opt_text(artifact.assembly));
    assert(artifact@.method_identifiers == artifacts::map_view(artifact.method_identifiers));
    if let Some(evm) = contract.evm {
        assert(contract@.evm->0 == evm@);
        lemma_same_map(artifact.method_identifiers->0, evm.method_identifiers);
    }
}

/// The artifact of a contract has the contract's ABI, metadata, layout, documentation, code and
/// hash, and the identifier of its source file.
pub proof fn law_fields_of_artifact(
    contract: Contract,
    id: Option<u32>,
    artifact: ZkContractArtifact,
)
    requires
        artifact@ == zk::contract_artifact(contract@, id),
    ensures
        match (contract.abi, artifact.abi) {
            (Some(a), Some(b)) => artifacts::abi_items(a) == artifacts::abi_items(b),
            (None, None) => true,
            _ => false,
        },
        artifact.metadata == contract.metadata,
        artifact.storage_layout matches Some(layout) && layout.json@
            == contract.storage_layout.json@,
        artifact.userdoc matches Some(doc) && doc.json@ == contract.userdoc.json@,
        artifact.devdoc matches Some(doc) && doc.json@ == contract.devdoc.json@,
        same_text(artifact.ir_optimized, contract.ir_optimized),
        same_text(artifact.hash, contract.hash),
        artifact.id == id,
{
    let view = artifact@;
    assert(view.abi == artifacts::abi_view(artifact.abi));
    assert(view.ir_optimized == text::opt_text(artifact.ir_optimized));
    assert(view.hash == text::opt_text(artifact.hash));
    assert(view.metadata == artifact.metadata);
}

/// The artifact of a contract has the contracts that this one can deploy, and the libraries that
/// were not given.
pub proof fn law_dependencies_of_artifact(
    contract: Contract,
    id: Option<u32>,
    artifact: ZkContractArtifact,
)
    requires
        artifact@ == zk::contract_artifact(contract@, id),
    ensures
        match (contract.factory_dependencies, artifact.factory_dependencies) {
            (Some(a), Some(b)) => same_map(b, a),
            (None, None) => true,
            _ => false,
        },
        match (contract.missing_libraries, artifact.missing_libraries) {
            (Some(a), Some(b)) => same_list(b, a),
            (None, None) => true,
            _ => false,
        },
{
    let view = artifact@;
    assert(view.factory_dependencies == artifacts::map_view(artifact.factory_dependencies));
    assert(view.missing_libraries == artifacts::list_view(artifact.missing_libraries));
    if let (Some(a), Some(b)) = (contract.factory_dependencies, artifact.factory_dependencies) {
        lemma_same_map(b, a);
    }
    if let (Some(a), Some(b)) = (contract.missing_libraries, artifact.missing_libraries) {
        lemma_same_list(b, a);
    }
}

/// The identifier in an artifact is that of the source file, where there is one.
pub proof fn law_identifier_of_source(source: SourceFile)
    ensures
        zk::id_of(zk::opt_source(Some(&source))) == Some(source.id),
        zk::id_of(zk::opt_source(None)) is None,
{
}

/// The artifact of a source file without contracts has an ABI without items, the identifier of
/// the file, and nothing else.
pub proof fn law_standalone_artifact(id: u32, artifact: ZkContractArtifact)
    requires
        artifact@ == zk::standalone_artifact(id),
    ensures
        artifact.abi matches Some(abi) && artifacts::abi_items(abi).len() == 0,
        artifact.id == Some(id),
        artifact.bytecode is None,
        artifact.assembly is None,
        artifact.method_identifiers is None,
        artifact.metadata is None,
        artifact.storage_layout is None,
        artifact.userdoc is None,
        artifact.devdoc is None,
        artifact.ir_optimized is None,
        artifact.hash is None,
        artifact.factory_dependencies is None,
        artifact.missing_libraries is None,
{
    assert(artifact@.abi == artifacts::abi_view(artifact.abi));
}

/// An artifact that holds nothing has no field.
pub proof fn law_no_artifact(artifact: ZkContractArtifact)
    requires
        artifact@ == zk::no_artifact(),
    ensures
        artifact.abi is None,
        artifact.id is None,
        artifact.bytecode is None,
        artifact.assembly is None,
        artifact.method_identifiers is None,
        artifact.metadata is None,
        artifact.storage_layout is None,
        artifact.userdoc is None,
        artifact.devdoc is None,
        artifact.ir_optimized is None,
        artifact.hash is None,
        artifact.factory_dependencies is None,
        artifact.missing_libraries is None,
{
}

/// A source file gets an artifact of its own just if it has a syntax tree none of whose nodes
/// defines a contract, and no contract of the same version comes from it.
pub proof fn law_standalone_files(
    seen: Seq<(u32, VersionView)>,
    source: VersionedSourceFileView,
)
    ensures
        zk::is_standalone(seen, source) <==> {
            &&& source.source_file.ast is Some
            &&& forall|i: int|
                0 <= i < source.source_file.ast->0.len() ==> #[trigger] source.source_file.ast->0[i]
                    != "ContractDefinition"@
            &&& forall|i: int|
                0 <= i < seen.len() ==> (#[trigger] seen[i]) != (
                    source.source_file.id,
                    source.version,
                )
        },
{
    let pair = (source.source_file.id, source.version);
    if source.source_file.ast is Some {
        let nodes = source.source_file.ast->0;
        if exists|i: int| 0 <= i < nodes.len() && #[trigger] nodes[i] == "ContractDefinition"@ {
            let i = choose|i: int|
                0 <= i < nodes.len() && #[trigger] nodes[i] == "ContractDefinition"@;
            assert(nodes.contains(nodes[i]));
        }
    }
    if exists|i: int| 0 <= i < seen.len() && (#[trigger] seen[i]) == pair {
        let i = choose|i: int| 0 <= i < seen.len() && (#[trigger] seen[i]) == pair;
        assert(seen.contains(seen[i]));
    }
}

/// A source file defines a contract just if one of the nodes of its syntax tree does.
pub proof fn law_defines_contract(source: SourceFile)
    ensures
        source@.defines_contract() <==> source.ast is Some && exists|i: int|
            0 <= i < source.ast->0.node_types@.len() && (
            #[trigger] source.ast->0.node_types@[i])@ == "ContractDefinition"@,
{
    if let Some(ast) = source.ast {
        let nodes = text::texts(ast.node_types@);
        assert(nodes.len() == ast.node_types@.len());
        if source@.defines_contract() {
            let i = choose|i: int|
                0 <= i < nodes.len() && nodes[i] == artifacts::contract_definition();
            assert(nodes[i] == ast.node_types@[i]@);
        }
        if exists|i: int|
            0 <= i < ast.node_types@.len() && (#[trigger] ast.node_types@[i])@
                == "ContractDefinition"@ {
            let i = choose|i: int|
                0 <= i < ast.node_types@.len() && (#[trigger] ast.node_types@[i])@
                    == "ContractDefinition"@;
            assert(nodes[i] == ast.node_types@[i]@);
            assert(nodes.contains(nodes[i]));
        }
    }
}

/// Contracts that are told to hold the same do: no field is passed over.
pub proof fn law_views_tell_contracts_apart(a: Contract, b: Contract)
    requires
        a@ == b@,
    ensures
        a.abi is Some <==> b.abi is Some,
        a.abi is Some ==> artifacts::abi_items(a.abi->0) == artifacts::abi_items(b.abi->0),
        a.metadata == b.metadata,
        a.userdoc.json@ == b.userdoc.json@,
        a.devdoc.json@ == b.devdoc.json@,
        same_text(a.ir_optimized, b.ir_optimized),
        a.storage_layout.json@ == b.storage_layout.json@,
        same_text(a.hash, b.hash),
        a.evm is Some <==> b.evm is Some,
        a.evm is Some ==> {
            let (x, y) = (a.evm->0, b.evm->0);
            &&& same_text(x.assembly, y.assembly)
            &&& x.legacy_assembly == y.legacy_assembly
            &&& x.bytecode is Some <==> y.bytecode is Some
            &&& x.bytecode is Some ==> same_bytecode(x.bytecode->0, y.bytecode->0)
            &&& same_map(x.method_identifiers, y.method_identifiers)
            &&& x.extra_metadata == y.extra_metadata
        },
        a.factory_dependencies is Some <==> b.factory_dependencies is Some,
        a.factory_dependencies is Some ==> same_map(
            a.factory_dependencies->0,
            b.factory_dependencies->0,
        ),
        a.missing_libraries is Some <==> b.missing_libraries is Some,
        a.missing_libraries is Some ==> same_list(a.missing_libraries->0, b.missing_libraries->0),
{
    if a.evm is Some {
        lemma_same_map(a.evm->0.method_identifiers, b.evm->0.method_identifiers);
    }
    if a.factory_dependencies is Some {
        lemma_same_map(a.factory_dependencies->0, b.factory_dependencies->0);
    }
    if a.missing_libraries is Some {
        lemma_same_list(a.missing_libraries->0, b.missing_libraries->0);
    }
}

/// Source files that are told to hold the same do.
pub proof fn law_views_tell_source_files_apart(a: SourceFile, b: SourceFile)
    requires
        a@ == b@,
    ensures
        a.id == b.id,
        a.ast is Some <==> b.ast is Some,
        a.ast is Some ==> same_list(a.ast->0.node_types, b.ast->0.node_types),
{
    if a.ast is Some {
        lemma_same_list(a.ast->0.node_types, b.ast->0.node_types);
    }
}

/// Artifacts that are told to hold the same do.
pub proof fn law_views_tell_artifacts_apart(a: ArtifactFile, b: ArtifactFile)
    requires
        a@ == b@,
    ensures
        a.file@ == b.file@,
        a.version@ == b.version@,
        a.artifact@ == b.artifact@,
        a.artifact.abi is Some <==> b.artifact.abi is Some,
        a.artifact.abi is Some ==> artifacts::abi_items(a.artifact.abi->0) == artifacts::abi_items(
            b.artifact.abi->0,
        ),
        a.artifact.bytecode is Some <==> b.artifact.bytecode is Some,
        a.artifact.bytecode is Some ==> same_bytecode(
            a.artifact.bytecode->0,
            b.artifact.bytecode->0,
        ),
        same_text(a.artifact.assembly, b.artifact.assembly),
        a.artifact.metadata == b.artifact.metadata,
        same_text(a.artifact.ir_optimized, b.artifact.ir_optimized),
        same_text(a.artifact.hash, b.artifact.hash),
        a.artifact.id == b.artifact.id,
        a.artifact.method_identifiers is Some <==> b.artifact.method_identifiers is Some,
        a.artifact.factory_dependencies is Some <==> b.artifact.factory_dependencies is Some,
        a.artifact.missing_libraries is Some <==> b.artifact.missing_libraries is Some,
        a.artifact.storage_layout is Some <==> b.artifact.storage_layout is Some,
        a.artifact.userdoc is Some <==> b.artifact.userdoc is Some,
        a.artifact.devdoc is Some <==> b.artifact.devdoc is Some,
{
    let (x, y) = (a@.artifact, b@.artifact);
    assert(x.bytecode == artifacts::bytecode_view(a.artifact.bytecode));
    assert(y.bytecode == artifacts::bytecode_view(b.artifact.bytecode));
}

/// A contract has an artifact for a version just if one of its artifacts has that version.
pub proof fn law_has_version(list: Seq<ArtifactFileView>, last: ArtifactFileView, v: VersionView)
    ensures
        !zk::has_version(Seq::empty(), v),
        zk::has_version(list.push(last), v) <==> zk::has_version(list, v) || last.version == v,
{
    let more = list.push(last);
    if zk::has_version(list, v) {
        let i = choose|i: int| 0 <= i < list.len() && (#[trigger] list[i]).version == v;
        assert(more[i] == list[i]);
    }
    if last.version == v {
        assert(more[list.len() as int].version == v);
    }
    if zk::has_version(more, v) && last.version != v {
        let i = choose|i: int| 0 <= i < more.len() && (#[trigger] more[i]).version == v;
        assert(more[i] == list[i]);
    }
}

} // verus!
