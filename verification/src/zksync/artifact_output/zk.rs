//! The artifacts of contracts.
use crate::config::ProjectPathsConfig;
use crate::maps;
use crate::maps::{ByPath, ByText, PathSet, TextMap};
use crate::path;
use crate::text;
use crate::version::{Version, VersionView};
use crate::zksync::artifact_output;
use crate::zksync::artifact_output::files;
use crate::zksync::artifact_output::files::{MappedContract, MappedContractView};
use crate::zksync::artifact_output::{
    alternative_output_file, output_file, output_file_versioned, Artifact,
    CompactContractBytecodeCow, OutputContext,
};
use crate::zksync::artifacts;
use crate::zksync::artifacts::{
    empty_abi, Bytecode, BytecodeObjectView, Contract, ContractView, DevDoc, SourceFile,
    SourceFileView, StorageLayout, UserDoc,
};
use crate::zksync::compile::output;
use crate::zksync::compile::output::{
    VersionedContractView, VersionedContracts, VersionedSourceFile, VersionedSourceFileView,
    VersionedSourceFiles,
};
use alloy_json_abi::JsonAbi;
use serde_json::Value;
use vstd::prelude::*;
use vstd::string::*;

verus! {

/// The artifact of a contract.
pub struct ZkContractArtifact {
    pub abi: Option<JsonAbi>,
    pub bytecode: Option<Bytecode>,
    pub assembly: Option<String>,
    pub method_identifiers: Option<TextMap<String>>,
    pub metadata: Option<Value>,
    pub storage_layout: Option<StorageLayout>,
    pub userdoc: Option<UserDoc>,
    pub devdoc: Option<DevDoc>,
    pub ir_optimized: Option<String>,
    pub hash: Option<String>,
    pub factory_dependencies: Option<TextMap<String>>,
    pub missing_libraries: Option<Vec<String>>,
    /// The identifier of the source file
    pub id: Option<u32>,
}

/// What a [`ZkContractArtifact`] holds.
#[verifier::ext_equal]
pub struct ArtifactView {
    pub abi: Option<Seq<Seq<char>>>,
    pub bytecode: Option<BytecodeObjectView>,
    pub assembly: Option<Seq<char>>,
    pub method_identifiers: Option<Seq<(Seq<char>, Seq<char>)>>,
    pub metadata: Option<Value>,
    pub storage_layout: Option<Seq<char>>,
    pub userdoc: Option<Seq<char>>,
    pub devdoc: Option<Seq<char>>,
    pub ir_optimized: Option<Seq<char>>,
    pub hash: Option<Seq<char>>,
    pub factory_dependencies: Option<Seq<(Seq<char>, Seq<char>)>>,
    pub missing_libraries: Option<Seq<Seq<char>>>,
    pub id: Option<u32>,
}

impl View for ZkContractArtifact {
    type V = ArtifactView;

    open spec fn view(&self) -> ArtifactView {
        ArtifactView {
            abi: artifacts::abi_view(self.abi),
            bytecode: artifacts::bytecode_view(self.bytecode),
            assembly: text::opt_text(self.assembly),
            method_identifiers: artifacts::map_view(self.method_identifiers),
            metadata: self.metadata,
            storage_layout: match self.storage_layout {
                Some(layout) => Some(layout.json@),
                None => None,
            },
            userdoc: match self.userdoc {
                Some(doc) => Some(doc.json@),
                None => None,
            },
            devdoc: match self.devdoc {
                Some(doc) => Some(doc.json@),
                None => None,
            },
            ir_optimized: text::opt_text(self.ir_optimized),
            hash: text::opt_text(self.hash),
            factory_dependencies: artifacts::map_view(self.factory_dependencies),
            missing_libraries: artifacts::list_view(self.missing_libraries),
            id: self.id,
        }
    }
}

/// An artifact that holds nothing.
pub open spec fn no_artifact() -> ArtifactView {
    ArtifactView {
        abi: None,
        bytecode: None,
        assembly: None,
        method_identifiers: None,
        metadata: None,
        storage_layout: None,
        userdoc: None,
        devdoc: None,
        ir_optimized: None,
        hash: None,
        factory_dependencies: None,
        missing_libraries: None,
        id: None,
    }
}

impl Default for ZkContractArtifact {
    fn default() -> (res: Self)
        ensures
            res@ == no_artifact(),
    {
        ZkContractArtifact {
            abi: None,
            bytecode: None,
            assembly: None,
            method_identifiers: None,
            metadata: None,
            storage_layout: None,
            userdoc: None,
            devdoc: None,
            ir_optimized: None,
            hash: None,
            factory_dependencies: None,
            missing_libraries: None,
            id: None,
        }
    }
}

impl Artifact for ZkContractArtifact {
    open spec fn abi_of(&self) -> Option<JsonAbi> {
        self.abi
    }

    open spec fn bytecode_of(&self) -> Option<Bytecode> {
        self.bytecode
    }

    fn get_contract_bytecode(&self) -> (res: CompactContractBytecodeCow<'_>) {
        let abi = self.abi.as_ref();
        assert(artifact_output::value_of(abi) == self.abi_of());
        CompactContractBytecodeCow { abi, bytecode: self.bytecode.as_ref() }
    }
}

/// The artifact of a contract whose source file has an identifier.
pub open spec fn contract_artifact(contract: ContractView, id: Option<u32>) -> ArtifactView {
    ArtifactView {
        abi: contract.abi,
        bytecode: match contract.evm {
            Some(evm) => evm.bytecode,
            None => None,
        },
        assembly: match contract.evm {
            Some(evm) => evm.assembly,
            None => None,
        },
        method_identifiers: match contract.evm {
            Some(evm) => Some(evm.method_identifiers),
            None => None,
        },
        metadata: contract.metadata,
        storage_layout: Some(contract.storage_layout),
        userdoc: Some(contract.userdoc),
        devdoc: Some(contract.devdoc),
        ir_optimized: contract.ir_optimized,
        hash: contract.hash,
        factory_dependencies: contract.factory_dependencies,
        missing_libraries: contract.missing_libraries,
        id,
    }
}

/// The artifact of a source file without contracts: an empty ABI and the file's identifier.
pub open spec fn standalone_artifact(id: u32) -> ArtifactView {
    ArtifactView { abi: Some(Seq::empty()), id: Some(id), ..no_artifact() }
}

/// The identifier of a source file, where there is one.
pub open spec fn id_of(source: Option<SourceFileView>) -> Option<u32> {
    match source {
        Some(file) => Some(file.id),
        None => None,
    }
}

/// What an optional source file holds.
pub open spec fn opt_source(source: Option<&SourceFile>) -> Option<SourceFileView> {
    match source {
        Some(file) => Some(file@),
        None => None,
    }
}

/// An artifact, and the file that it is written to.
pub struct ArtifactFile {
    pub artifact: ZkContractArtifact,
    /// The path of the file
    pub file: String,
    /// The version that the contract was compiled with
    pub version: Version,
}

/// What an [`ArtifactFile`] holds.
#[verifier::ext_equal]
pub struct ArtifactFileView {
    pub artifact: ArtifactView,
    pub file: Seq<char>,
    pub version: VersionView,
}

impl View for ArtifactFile {
    type V = ArtifactFileView;

    open spec fn view(&self) -> ArtifactFileView {
        ArtifactFileView {
            artifact: self.artifact@,
            file: self.file@,
            version: self.version@,
        }
    }
}

/// The artifacts by the files and the names of their contracts.
pub struct Artifacts(pub TextMap<TextMap<Vec<ArtifactFile>>>);

/// The artifacts of a file's contracts.
pub open spec fn names_view(names: TextMap<Vec<ArtifactFile>>) -> Seq<
    (Seq<char>, Seq<ArtifactFileView>),
> {
    maps::item_views(maps::lists(names@))
}

impl View for Artifacts {
    type V = Seq<(Seq<char>, Seq<(Seq<char>, Seq<ArtifactFileView>)>)>;

    open spec fn view(&self) -> Seq<(Seq<char>, Seq<(Seq<char>, Seq<ArtifactFileView>)>)> {
        maps::map_entries(self.0@, |names: TextMap<Vec<ArtifactFile>>| names_view(names))
    }
}

/// The artifacts of one file's contracts.
pub open spec fn artifacts_of_file(
    all: Seq<(Seq<char>, Seq<(Seq<char>, Seq<ArtifactFileView>)>)>,
    file: Seq<char>,
) -> Seq<(Seq<char>, Seq<ArtifactFileView>)> {
    match maps::found::<ByText, Seq<(Seq<char>, Seq<ArtifactFileView>)>>(all, file) {
        Some(names) => names,
        None => Seq::empty(),
    }
}

/// The artifacts of one contract, one for each version.
pub open spec fn artifacts_of_contract(
    all: Seq<(Seq<char>, Seq<(Seq<char>, Seq<ArtifactFileView>)>)>,
    file: Seq<char>,
    name: Seq<char>,
) -> Seq<ArtifactFileView> {
    maps::list_of::<ByText, ArtifactFileView>(artifacts_of_file(all, file), name)
}

/// The artifacts with one more for a contract.
pub open spec fn with_artifact(
    all: Seq<(Seq<char>, Seq<(Seq<char>, Seq<ArtifactFileView>)>)>,
    file: Seq<char>,
    name: Seq<char>,
    artifact: ArtifactFileView,
) -> Seq<(Seq<char>, Seq<(Seq<char>, Seq<ArtifactFileView>)>)> {
    maps::inserted::<ByText, Seq<(Seq<char>, Seq<ArtifactFileView>)>>(
        all,
        file,
        maps::pushed::<ByText, ArtifactFileView>(artifacts_of_file(all, file), name, artifact),
    )
}

impl Artifacts {
    pub fn new() -> (res: Self)
        ensures
            res@ == Seq::<(Seq<char>, Seq<(Seq<char>, Seq<ArtifactFileView>)>)>::empty(),
    {
        let res = Artifacts(TextMap::new());
        assert(res@ =~= Seq::<(Seq<char>, Seq<(Seq<char>, Seq<ArtifactFileView>)>)>::empty());
        res
    }

    /// Adds an artifact of a contract
    pub fn push(&mut self, file: &str, name: &str, artifact: ArtifactFile)
        ensures
            final(self)@ == with_artifact(old(self)@, file@, name@, artifact@),
    {
        let ghost view = |names: TextMap<Vec<ArtifactFile>>| names_view(names);
        let ghost before = self.0@;
        proof {
            use_type_invariant(&self.0);
            maps::lemma_map_found::<
                ByText,
                TextMap<Vec<ArtifactFile>>,
                Seq<(Seq<char>, Seq<ArtifactFileView>)>,
            >(before, view, file@);
        }
        let nothing: TextMap<Vec<ArtifactFile>> = TextMap::new();
        let ghost empty = nothing;
        let mut names: TextMap<Vec<ArtifactFile>> = match self.0.insert(
            file.to_string(),
            nothing,
        ) {
            Some(names) => names,
            None => TextMap::new(),
        };
        let ghost names_before = names;
        proof {
            use_type_invariant(&names);
            maps::lemma_map_found::<ByText, Vec<ArtifactFile>, Seq<ArtifactFile>>(
                names@,
                |list: Vec<ArtifactFile>| list@,
                name@,
            );
            maps::lemma_item_views::<ByText, ArtifactFile>(maps::lists(names@), name@, artifact);
        }
        maps::push_value(&mut names, name, artifact);
        proof {
            maps::law_inserted_twice::<ByText, TextMap<Vec<ArtifactFile>>>(
                before,
                file@,
                empty,
                names,
            );
            maps::lemma_map_inserted::<
                ByText,
                TextMap<Vec<ArtifactFile>>,
                Seq<(Seq<char>, Seq<ArtifactFileView>)>,
            >(before, view, file@, names);
            assert(names_view(names_before) =~= artifacts_of_file(
                maps::map_entries(before, view),
                file@,
            ));
        }
        self.0.insert(file.to_string(), names);
    }
}

#[derive(Debug, Copy, Clone, Eq, PartialEq, Default)]
pub struct ZkArtifactOutput();

impl ZkArtifactOutput {
    /// Makes the artifact of a contract
    pub fn contract_to_artifact(
        &self,
        _file: &str,
        _name: &str,
        contract: Contract,
        source_file: Option<&SourceFile>,
    ) -> (res: ZkContractArtifact)
        ensures
            res@ == contract_artifact(contract@, id_of(opt_source(source_file))),
    {
        let mut artifact_bytecode = None;
        let mut artifact_method_identifiers = None;
        let mut artifact_assembly = None;
        if let Some(evm) = contract.evm {
            artifact_bytecode = evm.bytecode;
            artifact_method_identifiers = Some(evm.method_identifiers);
            artifact_assembly = evm.assembly;
        }
        let id: Option<u32> = match source_file {
            Some(file) => Some(file.id),
            None => None,
        };
        ZkContractArtifact {
            abi: contract.abi,
            hash: contract.hash,
            factory_dependencies: contract.factory_dependencies,
            missing_libraries: contract.missing_libraries,
            storage_layout: Some(contract.storage_layout),
            bytecode: artifact_bytecode,
            assembly: artifact_assembly,
            method_identifiers: artifact_method_identifiers,
            metadata: contract.metadata,
            userdoc: Some(contract.userdoc),
            devdoc: Some(contract.devdoc),
            ir_optimized: contract.ir_optimized,
            id,
        }
    }

    /// Makes the artifact of a source file without contracts, if it has a syntax tree
    pub fn standalone_source_file_to_artifact(
        &self,
        _path: &str,
        file: &VersionedSourceFile,
    ) -> (res: Option<ZkContractArtifact>)
        ensures
            match res {
                Some(artifact) => file.source_file.ast is Some && artifact@ == standalone_artifact(
                    file.source_file.id,
                ),
                None => file.source_file.ast is None,
            },
    {
        match &file.source_file.ast {
            Some(_) => {
                let mut artifact = ZkContractArtifact::default();
                artifact.abi = Some(empty_abi());
                artifact.id = Some(file.source_file.id);
                Some(artifact)
            },
            None => None,
        }
    }
}

/// What has been made of an output so far.
#[verifier::ext_equal]
pub struct Progress {
    /// The artifacts
    pub artifacts: Seq<(Seq<char>, Seq<(Seq<char>, Seq<ArtifactFileView>)>)>,
    /// The paths that are taken
    pub taken: Seq<(Seq<char>, ())>,
    /// The source files that contracts come from, with the versions of these
    pub seen: Seq<(u32, VersionView)>,
}

/// Nothing has been made of an output yet.
pub open spec fn no_progress() -> Progress {
    Progress { artifacts: Seq::empty(), taken: Seq::empty(), seen: Seq::empty() }
}

/// Whether a contract's file is less deep than those of all contracts with the same path.
pub open spec fn is_top_most(group: Seq<MappedContractView>, at: int) -> bool {
    forall|i: int|
        0 <= i < group.len() && i != at ==> path::components(group[at].file).len()
            < path::components(#[trigger] group[i].file).len()
}

/// The path of a contract's artifact: the one it is meant for, unless that is meant for other
/// contracts too and the contract's file is not the top most one.
pub open spec fn contract_path(
    taken: Seq<(Seq<char>, ())>,
    group: Seq<MappedContractView>,
    at: int,
    folder: Seq<char>,
) -> Option<Seq<char>> {
    if group.len() > 1 && !is_top_most(group, at) {
        artifact_output::free_path(taken, group[at].artifact_path, group[at].file, folder)
    } else {
        Some(group[at].artifact_path)
    }
}

/// What is made of an output after one more contract.
pub open spec fn with_contract(
    progress: Progress,
    group: Seq<MappedContractView>,
    at: int,
    sources: Seq<(Seq<char>, Seq<VersionedSourceFileView>)>,
    folder: Seq<char>,
) -> Option<Progress> {
    let mapped = group[at];
    let source = output::find_source(sources, mapped.file, mapped.version);
    match contract_path(progress.taken, group, at, folder) {
        Some(file) => Some(
            Progress {
                artifacts: with_artifact(
                    progress.artifacts,
                    mapped.file,
                    mapped.name,
                    ArtifactFileView {
                        artifact: contract_artifact(mapped.contract, id_of(source)),
                        file,
                        version: mapped.version,
                    },
                ),
                taken: maps::inserted::<ByPath, ()>(progress.taken, file, ()),
                seen: match source {
                    Some(source) => progress.seen.push((source.id, mapped.version)),
                    None => progress.seen,
                },
            },
        ),
        None => None,
    }
}

/// What is made of an output after the first contracts of a group.
pub open spec fn with_contracts(
    progress: Progress,
    group: Seq<MappedContractView>,
    count: nat,
    sources: Seq<(Seq<char>, Seq<VersionedSourceFileView>)>,
    folder: Seq<char>,
) -> Option<Progress>
    decreases count,
{
    if count == 0 {
        Some(progress)
    } else {
        match with_contracts(progress, group, (count - 1) as nat, sources, folder) {
            Some(before) => with_contract(before, group, count - 1, sources, folder),
            None => None,
        }
    }
}

/// What is made of an output after all contracts of the groups.
pub open spec fn with_groups(
    groups: Seq<Seq<MappedContractView>>,
    sources: Seq<(Seq<char>, Seq<VersionedSourceFileView>)>,
    folder: Seq<char>,
) -> Option<Progress>
    decreases groups.len(),
{
    if groups.len() == 0 {
        Some(no_progress())
    } else {
        match with_groups(groups.drop_last(), sources, folder) {
            Some(before) => with_contracts(
                before,
                groups.last(),
                groups.last().len(),
                sources,
                folder,
            ),
            None => None,
        }
    }
}

/// Whether a source file gets an artifact of its own: no contract comes from it, it has a
/// syntax tree and defines no contract.
pub open spec fn is_standalone(
    seen: Seq<(u32, VersionView)>,
    source: VersionedSourceFileView,
) -> bool {
    &&& !seen.contains((source.source_file.id, source.version))
    &&& source.source_file.ast is Some
    &&& !source.source_file.defines_contract()
}

/// The path that the artifact of a source file without contracts is meant for.
pub open spec fn standalone_path(
    file: Seq<char>,
    name: Seq<char>,
    versions: nat,
    version: VersionView,
) -> Seq<char> {
    artifact_output::artifact_path(
        file,
        if versions > 1 {
            artifact_output::artifact_name_versioned(name, version)
        } else {
            artifact_output::artifact_name(name)
        },
    )
}

/// The path of the artifact of a source file without contracts: the one it is meant for, unless
/// that is taken.
pub open spec fn source_path(
    taken: Seq<(Seq<char>, ())>,
    file: Seq<char>,
    name: Seq<char>,
    versions: Seq<VersionedSourceFileView>,
    at: int,
    folder: Seq<char>,
) -> Option<Seq<char>> {
    let wanted = standalone_path(file, name, versions.len(), versions[at].version);
    if artifact_output::is_taken(taken, wanted) {
        artifact_output::free_path(taken, wanted, file, folder)
    } else {
        Some(wanted)
    }
}

/// Whether a contract has an artifact for a version.
pub open spec fn has_version(list: Seq<ArtifactFileView>, version: VersionView) -> bool {
    exists|i: int| 0 <= i < list.len() && (#[trigger] list[i]).version == version
}

/// What is made of an output after one more source file: one that gets an artifact of its own
/// has it at its path, or at another one where that is taken, unless there is one for the
/// version already.
pub open spec fn with_source(
    progress: Progress,
    file: Seq<char>,
    versions: Seq<VersionedSourceFileView>,
    at: int,
    folder: Seq<char>,
) -> Option<Progress> {
    let source = versions[at];
    match (is_standalone(progress.seen, source), path::file_stem(file)) {
        (true, Some(name)) => {
            let wanted = standalone_path(file, name, versions.len(), source.version);
            let conflict = artifact_output::is_taken(progress.taken, wanted);
            match source_path(progress.taken, file, name, versions, at, folder) {
                Some(out) => Some(
                    Progress {
                        artifacts: if has_version(
                            artifacts_of_contract(progress.artifacts, file, name),
                            source.version,
                        ) {
                            progress.artifacts
                        } else {
                            with_artifact(
                                progress.artifacts,
                                file,
                                name,
                                ArtifactFileView {
                                    artifact: standalone_artifact(source.source_file.id),
                                    file: out,
                                    version: source.version,
                                },
                            )
                        },
                        taken: if conflict {
                            maps::inserted::<ByPath, ()>(progress.taken, out, ())
                        } else {
                            progress.taken
                        },
                        seen: progress.seen,
                    },
                ),
                None => None,
            }
        },
        _ => Some(progress),
    }
}

/// What is made of an output after the first versions of a source file.
pub open spec fn with_versions(
    progress: Progress,
    file: Seq<char>,
    versions: Seq<VersionedSourceFileView>,
    count: nat,
    folder: Seq<char>,
) -> Option<Progress>
    decreases count,
{
    if count == 0 {
        Some(progress)
    } else {
        match with_versions(progress, file, versions, (count - 1) as nat, folder) {
            Some(before) => with_source(before, file, versions, count - 1, folder),
            None => None,
        }
    }
}

/// What is made of an output after all source files.
pub open spec fn with_sources(
    progress: Progress,
    sources: Seq<(Seq<char>, Seq<VersionedSourceFileView>)>,
    folder: Seq<char>,
) -> Option<Progress>
    decreases sources.len(),
{
    if sources.len() == 0 {
        Some(progress)
    } else {
        match with_sources(progress, sources.drop_last(), folder) {
            Some(before) => with_versions(
                before,
                sources.last().0,
                sources.last().1,
                sources.last().1.len(),
                folder,
            ),
            None => None,
        }
    }
}

/// What is made of an output, first of the contracts, then of the source files. There is
/// nothing where a path in conflict cannot be replaced.
pub open spec fn finished(
    groups: Seq<Seq<MappedContractView>>,
    sources: Seq<(Seq<char>, Seq<VersionedSourceFileView>)>,
    folder: Seq<char>,
) -> Option<Progress> {
    match with_groups(groups, sources, folder) {
        Some(progress) => with_sources(progress, sources, folder),
        None => None,
    }
}

/// What has been made of an output so far.
struct Work {
    artifacts: Artifacts,
    taken: PathSet,
    seen: Vec<(u32, Version)>,
}

impl View for Work {
    type V = Progress;

    closed spec fn view(&self) -> Progress {
        Progress {
            artifacts: self.artifacts@,
            taken: self.taken@,
            seen: self.seen@.map_values(|s: (u32, Version)| (s.0, s.1@)),
        }
    }
}

/// What the contracts of a group hold.
pub open spec fn group_view(group: Seq<MappedContract>) -> Seq<MappedContractView> {
    group.map_values(|mapped: MappedContract| mapped@)
}

/// What the contracts of all groups hold.
pub open spec fn groups_view(groups: Seq<Vec<MappedContract>>) -> Seq<Seq<MappedContractView>> {
    groups.map_values(|group: Vec<MappedContract>| group_view(group@))
}

/// Whether the file of a contract is the top most one of a group.
fn find_top_most(group: &Vec<MappedContract>, at: usize) -> (res: bool)
    requires
        at < group.len(),
    ensures
        res == is_top_most(group_view(group@), at as int),
{
    let ghost all = group_view(group@);
    let depth: usize = path::split_path(group[at].file).len();
    assert(depth == path::components(all[at as int].file).len());
    let mut i: usize = 0;
    while i < group.len()
        invariant
            all == group_view(group@),
            at < group.len(),
            i <= group.len(),
            depth == path::components(all[at as int].file).len(),
            forall|j: int|
                0 <= j < i && j != at ==> depth < path::components(#[trigger] all[j].file).len(),
        decreases group.len() - i,
    {
        if i != at {
            let other: usize = path::split_path(group[i].file).len();
            assert(other == path::components(all[i as int].file).len());
            if depth >= other {
                return false;
            }
        }
        i = i + 1;
    }
    true
}

/// Handles one contract. Fails where its path is in conflict and cannot be replaced.
fn add_contract(
    work: &mut Work,
    group: &Vec<MappedContract>,
    at: usize,
    sources: &VersionedSourceFiles,
    folder: &str,
) -> (res: bool)
    requires
        at < group.len(),
    ensures
        match with_contract(old(work)@, group_view(group@), at as int, sources@, folder@) {
            Some(progress) => res && final(work)@ == progress,
            None => !res,
        },
{
    let ghost all = group_view(group@);
    let ghost before = work@;
    let mapped = &group[at];
    assert(all[at as int] == mapped@);
    let version = &mapped.contract.version;
    let source_file = sources.find_file_and_version(mapped.file, version);
    let mut artifact_path: String = mapped.artifact_path.clone();
    if group.len() > 1 && !find_top_most(group, at) {
        match alternative_output_file(
            &work.taken,
            artifact_path.as_str(),
            mapped.file,
            folder,
        ) {
            Some(out) => {
                artifact_path = out;
            },
            None => {
                return false;
            },
        }
    }
    let ghost file = artifact_path@;
    assert(contract_path(before.taken, all, at as int, folder@) == Some(file));
    if let Some(source) = source_file {
        work.seen.push((source.id, version.clone()));
    }
    assert(work@.seen =~= (match output::find_source(sources@, mapped@.file, mapped@.version) {
        Some(source) => before.seen.push((source.id, mapped@.version)),
        None => before.seen,
    }));
    work.taken.insert(artifact_path.clone(), ());
    let artifact = ZkArtifactOutput().contract_to_artifact(
        mapped.file,
        mapped.name,
        mapped.contract.contract.clone(),
        source_file,
    );
    work.artifacts.push(
        mapped.file,
        mapped.name,
        ArtifactFile { artifact, file: artifact_path, version: version.clone() },
    );
    true
}

/// Whether a source file is one that contracts come from.
fn is_seen(work: &Work, id: u32, version: &Version) -> (res: bool)
    ensures
        res == work@.seen.contains((id, version@)),
{
    let ghost all = work@.seen;
    let mut i: usize = 0;
    while i < work.seen.len()
        invariant
            all == work@.seen,
            i <= work.seen.len(),
            forall|j: int| 0 <= j < i ==> all[j] != (id, version@),
        decreases work.seen.len() - i,
    {
        assert(all[i as int] == (work.seen@[i as int].0, work.seen@[i as int].1@));
        if work.seen[i].0 == id && work.seen[i].1.same(version) {
            return true;
        }
        i = i + 1;
    }
    assert(all.len() == work.seen.len());
    false
}

impl Artifacts {
    /// Looks up the artifacts of a contract.
    proof fn lemma_contract(&self, file: Seq<char>, name: Seq<char>)
        requires
            maps::ordered::<ByText, TextMap<Vec<ArtifactFile>>>(self.0@),
            maps::found::<ByText, TextMap<Vec<ArtifactFile>>>(self.0@, file) matches Some(names)
                ==> maps::ordered::<ByText, Vec<ArtifactFile>>(names@),
        ensures
            artifacts_of_contract(self@, file, name) == (match maps::found::<
                ByText,
                TextMap<Vec<ArtifactFile>>,
            >(self.0@, file) {
                Some(names) => match maps::found::<ByText, Vec<ArtifactFile>>(names@, name) {
                    Some(list) => list@.map_values(|item: ArtifactFile| item@),
                    None => Seq::empty(),
                },
                None => Seq::empty(),
            }),
    {
        let view = |names: TextMap<Vec<ArtifactFile>>| names_view(names);
        maps::lemma_map_found::<
            ByText,
            TextMap<Vec<ArtifactFile>>,
            Seq<(Seq<char>, Seq<ArtifactFileView>)>,
        >(self.0@, view, file);
        if let Some(names) = maps::found::<ByText, TextMap<Vec<ArtifactFile>>>(self.0@, file) {
            maps::lemma_map_found::<ByText, Vec<ArtifactFile>, Seq<ArtifactFile>>(
                names@,
                |list: Vec<ArtifactFile>| list@,
                name,
            );
            maps::lemma_map_found::<ByText, Seq<ArtifactFile>, Seq<ArtifactFileView>>(
                maps::lists(names@),
                |list: Seq<ArtifactFile>| list.map_values(|item: ArtifactFile| item@),
                name,
            );
        } else {

        }
    }

    /// Whether a contract has an artifact for a version.
    fn has_version(&self, file: &str, name: &str, version: &Version) -> (res: bool)
        ensures
            res == has_version(artifacts_of_contract(self@, file@, name@), version@),
    {
        proof {
            use_type_invariant(&self.0);
        }
        let found = self.0.get(file);
        match found {
            Some(names) => {
                proof {
                    use_type_invariant(names);
                    self.lemma_contract(file@, name@);
                }
                match names.get(name) {
                    Some(list) => {
                        let ghost all = list@.map_values(|item: ArtifactFile| item@);
                        let mut i: usize = 0;
                        while i < list.len()
                            invariant
                                all == list@.map_values(|item: ArtifactFile| item@),
                                all == artifacts_of_contract(self@, file@, name@),
                                i <= list.len(),
                                forall|j: int|
                                    0 <= j < i ==> (#[trigger] all[j]).version != version@,
                            decreases list.len() - i,
                        {
                            assert(all[i as int] == list@[i as int]@);
                            if list[i].version.same(version) {
                                return true;
                            }
                            i = i + 1;
                        }
                        false
                    },
                    None => false,
                }
            },
            None => {
                proof {
                    self.lemma_contract(file@, name@);
                }
                false
            },
        }
    }
}

/// Handles one version of a source file. Fails where its path is in conflict and cannot be
/// replaced.
fn add_source(
    work: &mut Work,
    file: &str,
    versions: &Vec<VersionedSourceFile>,
    at: usize,
    folder: &str,
) -> (res: bool)
    requires
        at < versions.len(),
    ensures
        match with_source(
            old(work)@,
            file@,
            versions@.map_values(|item: VersionedSourceFile| item@),
            at as int,
            folder@,
        ) {
            Some(progress) => res && final(work)@ == progress,
            None => !res,
        },
{
    let ghost all = versions@.map_values(|item: VersionedSourceFile| item@);
    let source = &versions[at];
    assert(all[at as int] == source@);
    if is_seen(work, source.source_file.id, &source.version)
        || source.source_file.contains_contract_definition() {
        return true;
    }
    let name = match path::path_file_stem(file) {
        Some(name) => name,
        None => {
            return true;
        },
    };
    let artifact = match ZkArtifactOutput().standalone_source_file_to_artifact(file, source) {
        Some(artifact) => artifact,
        None => {
            return true;
        },
    };
    let mut artifact_path: String = if versions.len() > 1 {
        output_file_versioned(file, name.as_str(), &source.version)
    } else {
        output_file(file, name.as_str())
    };
    if work.taken.contains(artifact_path.as_str()) {
        match alternative_output_file(&work.taken, artifact_path.as_str(), file, folder) {
            Some(out) => {
                artifact_path = out;
            },
            None => {
                return false;
            },
        }
        work.taken.insert(artifact_path.clone(), ());
    }
    if !work.artifacts.has_version(file, name.as_str(), &source.version) {
        work.artifacts.push(
            file,
            name.as_str(),
            ArtifactFile { artifact, file: artifact_path, version: source.version.clone() },
        );
    }
    true
}

proof fn lemma_with_contracts_fails(
    progress: Progress,
    group: Seq<MappedContractView>,
    count: nat,
    sources: Seq<(Seq<char>, Seq<VersionedSourceFileView>)>,
    folder: Seq<char>,
)
    requires
        count <= group.len(),
        with_contracts(progress, group, count, sources, folder) is None,
    ensures
        with_contracts(progress, group, group.len(), sources, folder) is None,
    decreases group.len() - count,
{
    if count < group.len() {
        lemma_with_contracts_fails(progress, group, count + 1, sources, folder);
    }
}

proof fn lemma_with_groups_fails(
    groups: Seq<Seq<MappedContractView>>,
    count: nat,
    sources: Seq<(Seq<char>, Seq<VersionedSourceFileView>)>,
    folder: Seq<char>,
)
    requires
        count <= groups.len(),
        with_groups(groups.take(count as int), sources, folder) is None,
    ensures
        with_groups(groups, sources, folder) is None,
    decreases groups.len() - count,
{
    if count < groups.len() {
        assert(groups.take(count as int + 1).drop_last() =~= groups.take(count as int));
        lemma_with_groups_fails(groups, count + 1, sources, folder);
    } else {
        assert(groups.take(count as int) =~= groups);
    }
}

proof fn lemma_with_versions_fails(
    progress: Progress,
    file: Seq<char>,
    versions: Seq<VersionedSourceFileView>,
    count: nat,
    folder: Seq<char>,
)
    requires
        count <= versions.len(),
        with_versions(progress, file, versions, count, folder) is None,
    ensures
        with_versions(progress, file, versions, versions.len(), folder) is None,
    decreases versions.len() - count,
{
    if count < versions.len() {
        lemma_with_versions_fails(progress, file, versions, count + 1, folder);
    }
}

proof fn lemma_with_sources_fails(
    progress: Progress,
    sources: Seq<(Seq<char>, Seq<VersionedSourceFileView>)>,
    count: nat,
    folder: Seq<char>,
)
    requires
        count <= sources.len(),
        with_sources(progress, sources.take(count as int), folder) is None,
    ensures
        with_sources(progress, sources, folder) is None,
    decreases sources.len() - count,
{
    if count < sources.len() {
        assert(sources.take(count as int + 1).drop_last() =~= sources.take(count as int));
        lemma_with_sources_fails(progress, sources, count + 1, folder);
    } else {
        assert(sources.take(count as int) =~= sources);
    }
}

/// Handles all contracts of a group.
fn add_group(
    work: &mut Work,
    group: &Vec<MappedContract>,
    sources: &VersionedSourceFiles,
    folder: &str,
) -> (res: bool)
    ensures
        match with_contracts(
            old(work)@,
            group_view(group@),
            group_view(group@).len(),
            sources@,
            folder@,
        ) {
            Some(progress) => res && final(work)@ == progress,
            None => !res,
        },
{
    let ghost all = group_view(group@);
    let ghost before = work@;
    let mut i: usize = 0;
    while i < group.len()
        invariant
            all == group_view(group@),
            before == old(work)@,
            i <= group.len(),
            with_contracts(before, all, i as nat, sources@, folder@) == Some(work@),
        decreases group.len() - i,
    {
        if !add_contract(work, group, i, sources, folder) {
            proof {
                lemma_with_contracts_fails(before, all, (i + 1) as nat, sources@, folder@);
            }
            return false;
        }
        i = i + 1;
    }
    true
}

/// Handles all versions of a source file.
fn add_versions(
    work: &mut Work,
    file: &str,
    versions: &Vec<VersionedSourceFile>,
    folder: &str,
) -> (res: bool)
    ensures
        match with_versions(
            old(work)@,
            file@,
            versions@.map_values(|item: VersionedSourceFile| item@),
            versions@.len(),
            folder@,
        ) {
            Some(progress) => res && final(work)@ == progress,
            None => !res,
        },
{
    let ghost all = versions@.map_values(|item: VersionedSourceFile| item@);
    let ghost before = work@;
    let mut i: usize = 0;
    while i < versions.len()
        invariant
            all == versions@.map_values(|item: VersionedSourceFile| item@),
            before == old(work)@,
            i <= versions.len(),
            with_versions(before, file@, all, i as nat, folder@) == Some(work@),
        decreases versions.len() - i,
    {
        if !add_source(work, file, versions, i, folder) {
            proof {
                lemma_with_versions_fails(before, file@, all, (i + 1) as nat, folder@);
            }
            return false;
        }
        i = i + 1;
    }
    true
}

impl ZkArtifactOutput {
    /// Makes artifacts of the contracts and of the source files without contracts
    ///
    /// The contracts come in groups that are meant for the same path, and the groups in any
    /// order. There are no artifacts where the path of one is in conflict with another one and
    /// is the artifacts folder itself, so that it cannot be replaced.
    pub fn groups_to_artifacts(
        &self,
        groups: &Vec<Vec<MappedContract>>,
        sources: &VersionedSourceFiles,
        artifacts_folder: &str,
    ) -> (res: Option<Artifacts>)
        ensures
            match finished(groups_view(groups@), sources@, artifacts_folder@) {
                Some(progress) => res matches Some(artifacts) && artifacts@ == progress.artifacts,
                None => res is None,
            },
    {
        let ghost all = groups_view(groups@);
        let ghost files = sources@;
        let ghost folder = artifacts_folder@;
        let mut work = Work { artifacts: Artifacts::new(), taken: PathSet::new(), seen: Vec::new() };
        assert(work@ =~= no_progress());
        let mut i: usize = 0;
        while i < groups.len()
            invariant
                all == groups_view(groups@),
                files == sources@,
                folder == artifacts_folder@,
                i <= groups.len(),
                with_groups(all.take(i as int), files, folder) == Some(work@),
            decreases groups.len() - i,
        {
            assert(all.take(i + 1).drop_last() =~= all.take(i as int));
            assert(all.take(i + 1).last() == group_view(groups@[i as int]@));
            if !add_group(&mut work, &groups[i], sources, artifacts_folder) {
                proof {
                    lemma_with_groups_fails(all, (i + 1) as nat, files, folder);
                }
                return None;
            }
            i = i + 1;
        }
        assert(all.take(i as int) =~= all);
        let ghost middle = work@;
        let mut k: usize = 0;
        assert(files.len() == sources.0@.len());
        while k < sources.0.len()
            invariant
                all == groups_view(groups@),
                files == sources@,
                files.len() == sources.0@.len(),
                folder == artifacts_folder@,
                k <= files.len(),
                with_groups(all, files, folder) == Some(middle),
                with_sources(middle, files.take(k as int), folder) == Some(work@),
            decreases files.len() - k,
        {
            assert(files.take(k + 1).drop_last() =~= files.take(k as int));
            let file = sources.0.key_at(k).as_str();
            let versions = sources.0.value_at(k);
            assert(files.take(k + 1).last() == (
                file@,
                versions@.map_values(|item: VersionedSourceFile| item@),
            ));
            if !add_versions(&mut work, file, versions, artifacts_folder) {
                proof {
                    lemma_with_sources_fails(middle, files, (k + 1) as nat, folder);
                }
                return None;
            }
            k = k + 1;
        }
        assert(files.take(k as int) =~= files);
        Some(work.artifacts)
    }
}

/// The contracts in groups that are meant for the same path.
pub open spec fn groups_of(files: Seq<(Seq<char>, Seq<MappedContractView>)>) -> Seq<
    Seq<MappedContractView>,
> {
    files.map_values(|entry: (Seq<char>, Seq<MappedContractView>)| entry.1)
}

/// What is made of contracts and source files.
pub open spec fn converted(
    contracts: Seq<(Seq<char>, Seq<(Seq<char>, Seq<VersionedContractView>)>)>,
    sources: Seq<(Seq<char>, Seq<VersionedSourceFileView>)>,
    ctx: OutputContext,
    folder: Seq<char>,
) -> Option<Progress> {
    finished(groups_of(files::mapped_files(ctx, contracts)), sources, folder)
}

/// How the paths of artifacts' files are changed.
#[derive(Clone, Copy)]
enum PathChange<'a> {
    /// They are joined to a path
    Join(&'a str),
    /// They are written with `/`
    Slash,
}

/// Joining paths to a path.
pub open spec fn joins(root: Seq<char>) -> spec_fn(Seq<char>) -> Seq<char> {
    |file: Seq<char>| path::join_path(root, file)
}

/// Writing paths with `/`.
pub open spec fn slashes() -> spec_fn(Seq<char>) -> Seq<char> {
    |file: Seq<char>| path::slashed(file)
}

impl<'a> PathChange<'a> {
    spec fn changes(self) -> spec_fn(Seq<char>) -> Seq<char> {
        match self {
            PathChange::Join(root) => joins(root@),
            PathChange::Slash => slashes(),
        }
    }

    fn apply(self, file: &str) -> (res: String)
        ensures
            res@ == self.changes()(file@),
    {
        match self {
            PathChange::Join(root) => path::join(root, file),
            PathChange::Slash => path::slash(file),
        }
    }
}

/// An artifact with the path of its file changed.
pub open spec fn changed_file(
    artifact: ArtifactFileView,
    change: spec_fn(Seq<char>) -> Seq<char>,
) -> ArtifactFileView {
    ArtifactFileView { file: change(artifact.file), ..artifact }
}

/// The artifacts of a contract with the paths of their files changed.
pub open spec fn changed_list(
    list: Seq<ArtifactFileView>,
    change: spec_fn(Seq<char>) -> Seq<char>,
) -> Seq<ArtifactFileView> {
    list.map_values(|artifact: ArtifactFileView| changed_file(artifact, change))
}

/// The artifacts of a file's contracts with the paths of their files changed.
pub open spec fn changed_names(
    names: Seq<(Seq<char>, Seq<ArtifactFileView>)>,
    change: spec_fn(Seq<char>) -> Seq<char>,
) -> Seq<(Seq<char>, Seq<ArtifactFileView>)> {
    maps::map_entries(names, |list: Seq<ArtifactFileView>| changed_list(list, change))
}

/// The artifacts with the paths of all files changed.
pub open spec fn changed_files(
    all: Seq<(Seq<char>, Seq<(Seq<char>, Seq<ArtifactFileView>)>)>,
    change: spec_fn(Seq<char>) -> Seq<char>,
) -> Seq<(Seq<char>, Seq<(Seq<char>, Seq<ArtifactFileView>)>)> {
    maps::map_entries(
        all,
        |names: Seq<(Seq<char>, Seq<ArtifactFileView>)>| changed_names(names, change),
    )
}

/// The artifacts with the paths of their files joined to a path.
pub open spec fn joined_files(
    all: Seq<(Seq<char>, Seq<(Seq<char>, Seq<ArtifactFileView>)>)>,
    root: Seq<char>,
) -> Seq<(Seq<char>, Seq<(Seq<char>, Seq<ArtifactFileView>)>)> {
    changed_files(all, joins(root))
}

/// The artifacts with `/` in place of each `\\` in the paths of their files and of their
/// contracts' files.
pub open spec fn slashed_files(
    all: Seq<(Seq<char>, Seq<(Seq<char>, Seq<ArtifactFileView>)>)>,
) -> Seq<(Seq<char>, Seq<(Seq<char>, Seq<ArtifactFileView>)>)> {
    maps::slashed_keys::<ByText, Seq<(Seq<char>, Seq<ArtifactFileView>)>>(
        changed_files(all, slashes()),
    )
}

/// No slashed path of an artifact's file or of its contract's file holds a `\\`.
pub proof fn law_slashed_files(
    all: Seq<(Seq<char>, Seq<(Seq<char>, Seq<ArtifactFileView>)>)>,
    i: int,
)
    requires
        0 <= i < slashed_files(all).len(),
    ensures
        !slashed_files(all)[i].0.contains('\\'),
        forall|k: int, l: int|
            0 <= k < slashed_files(all)[i].1.len() && 0 <= l < slashed_files(all)[i].1[k].1.len()
                ==> !(#[trigger] slashed_files(all)[i].1[k].1[l]).file.contains('\\'),
{
    let changed = changed_files(all, slashes());
    let names = slashed_files(all)[i].1;
    maps::law_slashed_keys::<ByText, Seq<(Seq<char>, Seq<ArtifactFileView>)>>(changed, i);
    let j = choose|j: int| 0 <= j < changed.len() && names == (#[trigger] changed[j]).1;
    assert(names == changed_names(all[j].1, slashes()));
    assert forall|k: int, l: int|
        0 <= k < names.len() && 0 <= l < names[k].1.len() implies !(
    #[trigger] names[k].1[l]).file.contains('\\') by {
        let before = all[j].1[k].1[l];
        assert(names[k].1[l] == changed_file(before, slashes()));
        path::law_slashed(before.file);
    }
}

fn change_list(list: Vec<ArtifactFile>, change: PathChange<'_>) -> (res: Vec<ArtifactFile>)
    ensures
        res@.map_values(|item: ArtifactFile| item@) == changed_list(
            list@.map_values(|item: ArtifactFile| item@),
            change.changes(),
        ),
{
    let ghost all = list@;
    let mut res: Vec<ArtifactFile> = Vec::new();
    for item in it: list
        invariant
            it.seq() == all,
            res.len() == it.index(),
            forall|i: int|
                #![trigger res[i]]
                0 <= i < it.index() ==> res[i]@ == changed_file(all[i]@, change.changes()),
    {
        res.push(
            ArtifactFile {
                artifact: item.artifact,
                file: change.apply(item.file.as_str()),
                version: item.version,
            },
        );
    }
    assert(res@.map_values(|item: ArtifactFile| item@) =~= changed_list(
        all.map_values(|item: ArtifactFile| item@),
        change.changes(),
    ));
    res
}

fn change_names(names: TextMap<Vec<ArtifactFile>>, change: PathChange<'_>) -> (res: TextMap<
    Vec<ArtifactFile>,
>)
    ensures
        names_view(res) == changed_names(names_view(names), change.changes()),
{
    proof {
        use_type_invariant(&names);
    }
    let ghost all = names@;
    let ghost before = names_view(names);
    let list = names.into_entries();
    assert(all.len() == list.len());
    let mut res: Vec<(String, Vec<ArtifactFile>)> = Vec::new();
    for entry in it: list
        invariant
            maps::entry_views(it.seq()) == all,
            all.len() == it.seq().len(),
            res.len() == it.index(),
            forall|i: int|
                #![trigger res[i]]
                0 <= i < it.index() ==> res[i].0@ == all[i].0 && res[i].1@.map_values(
                    |item: ArtifactFile| item@,
                ) == changed_list(all[i].1@.map_values(|item: ArtifactFile| item@), change.changes()),
    {
        assert(all[it.index() as int] == (entry.0@, entry.1));
        res.push((entry.0, change_list(entry.1, change)));
    }
    let ghost views = maps::entry_views(res@);
    proof {
        assert forall|i: int| 0 <= i < all.len() implies (#[trigger] views[i]).0 == all[i].0 by {
            assert(views[i].0 == res[i].0@);
        }
        maps::lemma_same_keys::<ByText, Vec<ArtifactFile>, Vec<ArtifactFile>>(all, views);
    }
    let map = TextMap::from_entries(res);
    assert(names_view(map) =~= changed_names(before, change.changes())) by {
        let after = names_view(map);
        let wanted = changed_names(before, change.changes());
        assert forall|i: int| 0 <= i < after.len() implies after[i] == wanted[i] by {
            assert(map@[i] == (res[i].0@, res[i].1));
            assert(before[i] == (
                all[i].0,
                all[i].1@.map_values(|item: ArtifactFile| item@),
            ));
        }
    }
    map
}

impl Artifacts {
    /// Changes the paths of all artifacts' files
    fn change_all(self, change: PathChange<'_>) -> (res: Artifacts)
        ensures
            res@ == changed_files(self@, change.changes()),
    {
        proof {
            use_type_invariant(&self.0);
        }
        let ghost all = self.0@;
        let ghost before = self@;
        let list = self.0.into_entries();
        assert(all.len() == list.len());
        let mut res: Vec<(String, TextMap<Vec<ArtifactFile>>)> = Vec::new();
        for entry in it: list
            invariant
                maps::entry_views(it.seq()) == all,
                all.len() == it.seq().len(),
                res.len() == it.index(),
                forall|i: int|
                    #![trigger res[i]]
                    0 <= i < it.index() ==> res[i].0@ == all[i].0 && names_view(res[i].1)
                        == changed_names(names_view(all[i].1), change.changes()),
        {
            assert(all[it.index() as int] == (entry.0@, entry.1));
            res.push((entry.0, change_names(entry.1, change)));
        }
        let ghost views = maps::entry_views(res@);
        proof {
            assert forall|i: int| 0 <= i < all.len() implies (#[trigger] views[i]).0
                == all[i].0 by {
                assert(views[i].0 == res[i].0@);
            }
            maps::lemma_same_keys::<
                ByText,
                TextMap<Vec<ArtifactFile>>,
                TextMap<Vec<ArtifactFile>>,
            >(all, views);
        }
        let joined = Artifacts(TextMap::from_entries(res));
        assert(joined@ =~= changed_files(before, change.changes())) by {
            let after = joined@;
            let wanted = changed_files(before, change.changes());
            assert forall|i: int| 0 <= i < after.len() implies after[i] == wanted[i] by {
                assert(joined.0@[i] == (res[i].0@, res[i].1));
                assert(before[i] == (all[i].0, names_view(all[i].1)));
            }
        }
        joined
    }
}

impl Artifacts {
    /// Joins the paths of all artifacts' files to a path
    pub fn join_all(self, root: &str) -> (res: Artifacts)
        ensures
            res@ == joined_files(self@, root@),
    {
        self.change_all(PathChange::Join(root))
    }

    /// Converts all `\\` separators in all paths to `/`
    ///
    /// `windows` tells whether the paths are those of Windows. Elsewhere a `\\` is no separator,
    /// and the paths stay as they are.
    pub fn slash_paths(self, windows: bool) -> (res: Artifacts)
        ensures
            res@ == (if windows {
                slashed_files(self@)
            } else {
                self@
            }),
    {
        if !windows {
            return self;
        }
        let changed = self.change_all(PathChange::Slash);
        proof {
            maps::lemma_map_slashed_keys::<
                ByText,
                TextMap<Vec<ArtifactFile>>,
                Seq<(Seq<char>, Seq<ArtifactFileView>)>,
            >(changed.0@, |names: TextMap<Vec<ArtifactFile>>| names_view(names));
        }
        Artifacts(maps::slash_keys(changed.0))
    }
}

impl ZkArtifactOutput {
    /// Convert the compiler output into a set of artifacts, where that is possible
    ///
    /// There are no artifacts where the path of one is in conflict with another one and is the
    /// artifacts folder itself, so that it cannot be replaced.
    pub fn try_output_to_artifacts(
        &self,
        contracts: &VersionedContracts,
        sources: &VersionedSourceFiles,
        ctx: OutputContext<'_>,
        layout: &ProjectPathsConfig,
    ) -> (res: Option<Artifacts>)
        ensures
            match converted(contracts@, sources@, ctx, layout.zksync_artifacts@) {
                Some(progress) => res matches Some(artifacts) && artifacts@ == progress.artifacts,
                None => res is None,
            },
    {
        let mapped = contracts.artifact_files(&ctx);
        let ghost all = mapped@;
        let ghost entries = mapped.files@;
        let list = mapped.files.into_entries();
        let mut groups: Vec<Vec<MappedContract<'_>>> = Vec::new();
        assert(entries.len() == list.len());
        for entry in it: list
            invariant
                maps::entry_views(it.seq()) == entries,
                entries.len() == it.seq().len(),
                groups.len() == it.index(),
                forall|i: int|
                    #![trigger groups[i]]
                    0 <= i < it.index() ==> groups[i] == entries[i].1,
        {
            assert(entries[it.index() as int] == (entry.0@, entry.1));
            groups.push(entry.1);
        }
        assert(groups_view(groups@) =~= groups_of(all)) by {
            let after = groups_view(groups@);
            let wanted = groups_of(all);
            assert forall|i: int| 0 <= i < after.len() implies after[i] == wanted[i] by {
                assert(after[i] == group_view(groups[i]@));
                assert(all[i].1 =~= group_view(entries[i].1@));
            }
        }
        self.groups_to_artifacts(&groups, sources, layout.zksync_artifacts.as_str())
    }

    /// Convert the compiler output into a set of artifacts
    ///
    /// **Note:** This does only convert, but _NOT_ write the artifacts to disk, See
    /// [`Self::on_output()`]
    pub fn output_to_artifacts(
        &self,
        contracts: &VersionedContracts,
        sources: &VersionedSourceFiles,
        ctx: OutputContext<'_>,
        layout: &ProjectPathsConfig,
    ) -> (res: Artifacts)
        requires
            converted(contracts@, sources@, ctx, layout.zksync_artifacts@) is Some,
        ensures
            converted(contracts@, sources@, ctx, layout.zksync_artifacts@) matches Some(progress)
                && res@ == progress.artifacts,
    {
        match self.try_output_to_artifacts(contracts, sources, ctx, layout) {
            Some(artifacts) => artifacts,
            None => Artifacts::new(),
        }
    }

    /// Convert the compiler output into the artifacts to write, with their paths joined to the
    /// artifacts folder
    pub fn on_output(
        &self,
        contracts: &VersionedContracts,
        sources: &VersionedSourceFiles,
        layout: &ProjectPathsConfig,
        ctx: OutputContext<'_>,
    ) -> (res: Artifacts)
        requires
            converted(contracts@, sources@, ctx, layout.zksync_artifacts@) is Some,
        ensures
            converted(contracts@, sources@, ctx, layout.zksync_artifacts@) matches Some(progress)
                && res@ == joined_files(progress.artifacts, layout.zksync_artifacts@),
    {
        let artifacts = self.output_to_artifacts(contracts, sources, ctx, layout);
        artifacts.join_all(layout.zksync_artifacts.as_str())
    }
}

} // verus!
