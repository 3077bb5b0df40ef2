//! What values are told to hold is what they hold, part by part.
use crate::compilers::solc::Solc;
use crate::compilers::zksolc;
use crate::compilers::zksolc::SolcVersionInfo;
use crate::config;
use crate::config::Remapping;
use crate::maps;
use crate::process::Command;
use crate::text;
use crate::version;
use crate::version::{CompilerVersion, CompilerVersionView, Version};
use crate::zksync::artifact_output::files::{MappedArtifactFiles, MappedContract};
use crate::zksync::artifact_output::zk;
use crate::zksync::artifact_output::zk::{ArtifactFile, Artifacts, ZkContractArtifact};
use crate::zksync::artifact_output::ArtifactId;
use crate::zksync::artifacts;
use crate::zksync::artifacts::{
    Bytecode, BytecodeObject, BytecodeObjectView, Contract, Evm, SourceFile,
};
use crate::zksync::compile;
use crate::zksync::compile::output;
use crate::zksync::compile::output::{
    AggregatedCompilerOutput, VersionedContract, VersionedContracts, VersionedSourceFile,
    VersionedSourceFiles,
};
use crate::zksync::compile::project;
use crate::zksync::compile::project::{
    CompilerRun, CompilerSources, FilteredCompilerSources, ProjectCompileOutput, VersionRuns,
    VersionedFilteredSources, VersionedSources,
};
use crate::zksync::compile::runs;
use crate::zksync::compile::runs::{RunStep, RunStepView};
use crate::zksync::compilers::zksolc::input;
use crate::zksync::compilers::zksolc::input::ZkSolcInput;
use crate::zksync::compilers::zksolc::settings;
use crate::zksync::compilers::zksolc::settings::ZkSolcSettings;
use vstd::prelude::*;

verus! {

/// What lists of strings and optional strings are told to hold.
pub proof fn law_views_of_texts(list: Vec<String>, one: String, i: int)
    ensures
        text::texts(list@).len() == list@.len(),
        0 <= i < list@.len() ==> text::texts(list@)[i] == list@[i]@,
        text::opt_text(Some(one)) == Some(one@),
        text::opt_text(None) is None,
{
}

/// What compilers, versions and commands are told to hold.
pub proof fn law_views_of_compilers(
    version: Version,
    known: CompilerVersion,
    info: SolcVersionInfo,
    solc: Solc,
    compiler: compile::ZkSolc,
    command: Command,
)
    ensures
        version@.major == version.major,
        version@.minor == version.minor,
        version@.patch == version.patch,
        version@.pre == version.pre@,
        version@.build == version.build@,
        known matches CompilerVersion::Installed(v) ==> known@ == CompilerVersionView::Installed(
            v@,
        ),
        known matches CompilerVersion::Remote(v) ==> known@ == CompilerVersionView::Remote(v@),
        info@.version == info.version@,
        info.zksync_version matches Some(v) ==> info@.zksync_version == Some(v@),
        info.zksync_version is None ==> info@.zksync_version is None,
        solc@.solc == solc.solc@,
        solc@.version == solc.version@,
        solc@.base_path == text::opt_text(solc.base_path),
        solc@.allow_paths == solc.allow_paths@,
        solc@.include_paths == solc.include_paths@,
        solc@.args == text::texts(solc.args@),
        compiler@.zksolc == compiler.zksolc@,
        compiler@.base_path == text::opt_text(compiler.base_path),
        compiler@.solc == text::opt_text(compiler.solc),
        compiler@.args == text::texts(compiler.args@),
        command@.program == command.program@,
        command@.args == text::texts(command.args@),
        command@.current_dir == text::opt_text(command.current_dir),
{
}

/// What installations are told to hold.
pub proof fn law_views_of_installs(a: zksolc::Install, b: compile::Install)
    ensures
        a@.compilers_dir == a.compilers_dir@,
        a@.compiler_path == a.compiler_path@,
        a@.lock_path == a.lock_path@,
        a@.download_url == a.download_url@,
        a@.label == a.label@,
        b@.compilers_dir == b.compilers_dir@,
        b@.compiler_path == b.compiler_path@,
        b@.download_url == b.download_url@,
{
}

/// What inputs, their settings and their remappings are told to hold.
pub proof fn law_views_of_inputs(input: ZkSolcInput, given: ZkSolcSettings, i: int, j: int)
    ensures
        input@.language == input.language@,
        input@.sources == input.sources@,
        input@.settings == input.settings@,
        given@.evm_version == text::opt_text(given.evm_version),
        given@.system_mode == given.system_mode,
        given@.force_evmla == given.force_evmla,
        given@.detect_missing_libraries == given.detect_missing_libraries,
        given@.solc == text::opt_text(given.solc),
        given@.other == given.other,
        given@.remappings.len() == given.remappings@.len(),
        0 <= i < given.remappings@.len() ==> {
            let (a, b) = (given@.remappings[i], given.remappings@[i]);
            &&& a.context == text::opt_text(b.context)
            &&& a.name == b.name@
            &&& a.path == b.path@
        },
        given@.libraries.len() == given.libraries@.len(),
        0 <= i < given.libraries@.len() ==> given@.libraries[i].0 == given.libraries@[i].0
            && given@.libraries[i].1.len() == given.libraries@[i].1@.len(),
        0 <= i < given.libraries@.len() && 0 <= j < given.libraries@[i].1@.len() ==> {
            let (a, b) = (given@.libraries[i].1[j], given.libraries@[i].1@[j]);
            &&& a.0 == b.0
            &&& a.1 == b.1@
        },
{
    let mapped = config::remapping_views(given.remappings@);
    assert(mapped.len() == given.remappings@.len());
    if 0 <= i < given.remappings@.len() {
        assert(mapped[i] == given.remappings@[i]@);
    }
    let all = settings::libraries_view(given.libraries@);
    assert(all.len() == given.libraries@.len());
    if 0 <= i < given.libraries@.len() {
        let names = maps::text_entries(given.libraries@[i].1@);
        assert(all[i] == (given.libraries@[i].0, names));
        assert(names.len() == given.libraries@[i].1@.len());
        if 0 <= j < given.libraries@[i].1@.len() {
            assert(names[j] == (given.libraries@[i].1@[j].0, given.libraries@[i].1@[j].1@));
        }
    }
}

/// What bytecode, what is emitted for the virtual machine and source files are told to hold.
pub proof fn law_views_of_bytecode(object: BytecodeObject, code: Bytecode, evm: Evm, i: int)
    ensures
        object matches BytecodeObject::Bytecode(bytes) ==> object@ == BytecodeObjectView::Bytecode(
            bytes@,
        ),
        object matches BytecodeObject::Unlinked(linked) ==> object@
            == BytecodeObjectView::Unlinked(linked@),
        code@ == code.object@,
        evm@.assembly == text::opt_text(evm.assembly),
        evm@.legacy_assembly == evm.legacy_assembly,
        evm.bytecode matches Some(b) ==> evm@.bytecode == Some(b@),
        evm.bytecode is None ==> evm@.bytecode is None,
        evm@.extra_metadata == evm.extra_metadata,
        evm@.method_identifiers.len() == evm.method_identifiers@.len(),
        0 <= i < evm.method_identifiers@.len() ==> evm@.method_identifiers[i] == (
            evm.method_identifiers@[i].0,
            evm.method_identifiers@[i].1@,
        ),
{
}

/// What contracts are told to hold.
pub proof fn law_views_of_contracts(contract: Contract, i: int)
    ensures
        contract.abi matches Some(abi) ==> contract@.abi == Some(artifacts::abi_items(abi)),
        contract.abi is None ==> contract@.abi is None,
        contract@.metadata == contract.metadata,
        contract@.userdoc == contract.userdoc.json@,
        contract@.devdoc == contract.devdoc.json@,
        contract@.ir_optimized == text::opt_text(contract.ir_optimized),
        contract@.storage_layout == contract.storage_layout.json@,
        contract.evm matches Some(evm) ==> contract@.evm == Some(evm@),
        contract.evm is None ==> contract@.evm is None,
        contract@.hash == text::opt_text(contract.hash),
        contract.factory_dependencies is None ==> contract@.factory_dependencies is None,
        contract.factory_dependencies matches Some(map) ==> {
            &&& contract@.factory_dependencies is Some
            &&& contract@.factory_dependencies->0.len() == map@.len()
            &&& 0 <= i < map@.len() ==> contract@.factory_dependencies->0[i] == (
                map@[i].0,
                map@[i].1@,
            )
        },
        contract.missing_libraries is None ==> contract@.missing_libraries is None,
        contract.missing_libraries matches Some(list) ==> contract@.missing_libraries == Some(
            text::texts(list@),
        ),
{
}

/// What artifacts are told to hold.
pub proof fn law_views_of_artifacts(artifact: ZkContractArtifact, file: ArtifactFile)
    ensures
        artifact.abi matches Some(abi) ==> artifact@.abi == Some(artifacts::abi_items(abi)),
        artifact.abi is None ==> artifact@.abi is None,
        artifact.bytecode matches Some(code) ==> artifact@.bytecode == Some(code@),
        artifact.bytecode is None ==> artifact@.bytecode is None,
        artifact@.assembly == text::opt_text(artifact.assembly),
        artifact@.metadata == artifact.metadata,
        artifact.storage_layout matches Some(layout) ==> artifact@.storage_layout == Some(
            layout.json@,
        ),
        artifact.storage_layout is None ==> artifact@.storage_layout is None,
        artifact.userdoc matches Some(doc) ==> artifact@.userdoc == Some(doc.json@),
        artifact.userdoc is None ==> artifact@.userdoc is None,
        artifact.devdoc matches Some(doc) ==> artifact@.devdoc == Some(doc.json@),
        artifact.devdoc is None ==> artifact@.devdoc is None,
        artifact@.ir_optimized == text::opt_text(artifact.ir_optimized),
        artifact@.hash == text::opt_text(artifact.hash),
        artifact.method_identifiers is None <==> artifact@.method_identifiers is None,
        artifact.factory_dependencies is None <==> artifact@.factory_dependencies is None,
        artifact.missing_libraries is None <==> artifact@.missing_libraries is None,
        artifact.missing_libraries matches Some(list) ==> artifact@.missing_libraries == Some(
            text::texts(list@),
        ),
        artifact@.id == artifact.id,
        file@.artifact == file.artifact@,
        file@.file == file.file@,
        file@.version == file.version@,
{
}

/// What identifiers, source files and contracts with their versions are told to hold.
pub proof fn law_views_of_versioned(
    id: ArtifactId,
    mapped: MappedContract<'_>,
    source: SourceFile,
    file: VersionedSourceFile,
    contract: VersionedContract,
)
    ensures
        id@.path == id.path@,
        id@.name == id.name@,
        id@.source == id.source@,
        id@.version == id.version@,
        mapped@.file == mapped.file@,
        mapped@.name == mapped.name@,
        mapped@.contract == mapped.contract.contract@,
        mapped@.version == mapped.contract.version@,
        mapped@.artifact_path == mapped.artifact_path@,
        source@.id == source.id,
        source.ast is None ==> source@.ast is None,
        source.ast matches Some(ast) ==> source@.ast == Some(text::texts(ast.node_types@)),
        file@.source_file == file.source_file@,
        file@.version == file.version@,
        contract@.contract == contract.contract@,
        contract@.version == contract.version@,
{
}

/// What all artifacts are told to be.
pub proof fn law_views_of_all_artifacts(all: Artifacts, i: int, j: int, k: int)
    requires
        0 <= i < all.0@.len(),
    ensures
        all@.len() == all.0@.len(),
        all@[i].0 == all.0@[i].0,
        all@[i].1.len() == all.0@[i].1@.len(),
        0 <= j < all.0@[i].1@.len() ==> {
            &&& all@[i].1[j].0 == all.0@[i].1@[j].0
            &&& all@[i].1[j].1.len() == all.0@[i].1@[j].1@.len()
            &&& 0 <= k < all.0@[i].1@[j].1@.len() ==> all@[i].1[j].1[k]
                == all.0@[i].1@[j].1@[k]@
        },
{
    let names = zk::names_view(all.0@[i].1);
    assert(all@[i] == (all.0@[i].0, names));
    assert(names.len() == all.0@[i].1@.len());
    if 0 <= j < all.0@[i].1@.len() {
        assert(names[j].0 == all.0@[i].1@[j].0);
    }
}

/// What all source files and contracts are told to be.
pub proof fn law_views_of_emitted(
    files: VersionedSourceFiles,
    contracts: VersionedContracts,
    i: int,
    j: int,
    k: int,
)
    ensures
        files@.len() == files.0@.len(),
        0 <= i < files.0@.len() ==> {
            &&& files@[i].0 == files.0@[i].0
            &&& files@[i].1.len() == files.0@[i].1@.len()
            &&& 0 <= k < files.0@[i].1@.len() ==> files@[i].1[k] == files.0@[i].1@[k]@
        },
        contracts@.len() == contracts.0@.len(),
        0 <= i < contracts.0@.len() ==> {
            &&& contracts@[i].0 == contracts.0@[i].0
            &&& contracts@[i].1.len() == contracts.0@[i].1@.len()
            &&& 0 <= j < contracts.0@[i].1@.len() ==> {
                &&& contracts@[i].1[j].0 == contracts.0@[i].1@[j].0
                &&& contracts@[i].1[j].1.len() == contracts.0@[i].1@[j].1@.len()
                &&& 0 <= k < contracts.0@[i].1@[j].1@.len() ==> contracts@[i].1[j].1[k]
                    == contracts.0@[i].1@[j].1@[k]@
            }
        },
{
    if 0 <= i < files.0@.len() {
        assert(files@[i].0 == files.0@[i].0);
    }
    if 0 <= i < contracts.0@.len() {
        let names = output::contracts_view(contracts.0@[i].1);
        assert(contracts@[i] == (contracts.0@[i].0, names));
        assert(names.len() == contracts.0@[i].1@.len());
        if 0 <= j < contracts.0@[i].1@.len() {
            assert(names[j].0 == contracts.0@[i].1@[j].0);
        }
    }
}

/// What the contracts by path are told to be.
pub proof fn law_views_of_mapped_files(all: MappedArtifactFiles<'_>, i: int, k: int)
    ensures
        all@.len() == all.files@.len(),
        0 <= i < all.files@.len() ==> {
            &&& all@[i].0 == all.files@[i].0
            &&& all@[i].1.len() == all.files@[i].1@.len()
            &&& 0 <= k < all.files@[i].1@.len() ==> all@[i].1[k] == all.files@[i].1@[k]@
        },
{
    if 0 <= i < all.files@.len() {
        assert(all@[i].0 == all.files@[i].0);
    }
}

/// What outputs and what comes of a compilation are told to hold.
pub proof fn law_views_of_outcomes(all: AggregatedCompilerOutput, done: ProjectCompileOutput)
    ensures
        all@.errors == all.errors@,
        all@.sources == all.sources@,
        all@.contracts == all.contracts@,
        all@.recompiled_with_detect_missing_libraries
            == all.recompiled_with_detect_missing_libraries,
        done@.compiler_output == done.compiler_output@,
        done@.compiled_artifacts == done.compiled_artifacts@,
        done@.cached_artifacts == done.cached_artifacts@,
        done@.ignored_error_codes == done.ignored_error_codes@,
        done@.ignored_file_paths == text::texts(done.ignored_file_paths@),
        done@.compiler_severity_filter == done.compiler_severity_filter,
{
}

/// What plans and their steps, and what they are made for, are told to hold.
pub proof fn law_views_of_plans(
    pair: VersionedSources,
    left: VersionedFilteredSources,
    run: CompilerRun,
    job: VersionRuns,
    step: RunStep,
    steps: Vec<RunStep>,
    i: int,
)
    ensures
        pair@.solc == pair.solc@,
        pair@.version == pair.version@,
        pair@.sources == pair.sources@,
        pair@.evm_version == text::opt_text(pair.evm_version),
        left@.solc == left.solc@,
        left@.version == left.version@,
        left@.sources == left.sources.0@,
        left@.evm_version == text::opt_text(left.evm_version),
        run@.input == run.input@,
        run@.dirty == text::texts(run.dirty@),
        job@.solc == job.solc@,
        job@.version == job.version@,
        job@.runs.len() == job.runs@.len(),
        0 <= i < job.runs@.len() ==> job@.runs[i] == job.runs@[i]@,
        step matches RunStep::Prepare(a) ==> step@ == RunStepView::Prepare(a as int),
        step matches RunStep::AskVersion(a, b) ==> step@ == RunStepView::AskVersion(
            a as int,
            b as int,
        ),
        step matches RunStep::Compile(a, b) ==> step@ == RunStepView::Compile(a as int, b as int),
        runs::step_views(steps@).len() == steps@.len(),
        0 <= i < steps@.len() ==> runs::step_views(steps@)[i] == steps@[i]@,
{
}

/// What remappings are told to hold.
pub proof fn law_views_of_remappings(remapping: Remapping)
    ensures
        remapping@.context == text::opt_text(remapping.context),
        remapping@.name == remapping.name@,
        remapping@.path == remapping.path@,
{
}

/// What lists are told to hold is what their items hold, one by one.
pub proof fn law_views_of_lists(
    pairs: Vec<VersionedSources>,
    left: Vec<VersionedFilteredSources>,
    plan: Vec<VersionRuns>,
    inputs: Vec<ZkSolcInput>,
    remappings: Vec<Remapping>,
    versions: Vec<Version>,
    groups: Vec<Vec<MappedContract<'_>>>,
    i: int,
    j: int,
)
    ensures
        project::pair_views(pairs@).len() == pairs@.len(),
        0 <= i < pairs@.len() ==> project::pair_views(pairs@)[i] == pairs@[i]@,
        project::filtered_views(left@).len() == left@.len(),
        0 <= i < left@.len() ==> project::filtered_views(left@)[i] == left@[i]@,
        project::version_run_views(plan@).len() == plan@.len(),
        0 <= i < plan@.len() ==> project::version_run_views(plan@)[i] == plan@[i]@,
        input::input_views(inputs@).len() == inputs@.len(),
        0 <= i < inputs@.len() ==> input::input_views(inputs@)[i] == inputs@[i]@,
        config::remapping_views(remappings@).len() == remappings@.len(),
        0 <= i < remappings@.len() ==> config::remapping_views(remappings@)[i] == remappings@[i]@,
        version::views(versions@).len() == versions@.len(),
        0 <= i < versions@.len() ==> version::views(versions@)[i] == versions@[i]@,
        zk::groups_view(groups@).len() == groups@.len(),
        0 <= i < groups@.len() ==> zk::groups_view(groups@)[i].len() == groups@[i]@.len(),
        0 <= i < groups@.len() && 0 <= j < groups@[i]@.len() ==> zk::groups_view(groups@)[i][j]
            == groups@[i]@[j]@,
{
}

/// The source files to compile are those that are listed, whether or not they are filtered.
pub proof fn law_listed_pairs(
    pairs: Vec<VersionedSources>,
    left: Vec<VersionedFilteredSources>,
)
    ensures
        CompilerSources::Sequential(pairs).pairs() == pairs@,
        FilteredCompilerSources::Sequential(left).pairs() == left@,
{
}

} // verus!
