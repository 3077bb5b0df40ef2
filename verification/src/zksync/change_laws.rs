//! What calls change, what they start from and what copies hold.
use crate::compilers::solc::Solc;
use crate::config;
use crate::config::Remapping;
use crate::key_laws;
use crate::map_laws;
use crate::maps;
use crate::maps::{ByPath, ByText, KeyOrder, OrderedMap, TextMap};
use crate::path;
use crate::process::Command;
use crate::text;
use crate::version::Version;
use crate::zksync::artifact_output::artifact_laws;
use crate::zksync::artifact_output::laws as artifact_map_laws;
use crate::zksync::artifact_output::zk;
use crate::zksync::artifact_output::zk::{ArtifactFile, Artifacts, ZkContractArtifact};
use crate::zksync::artifact_output::{Artifact, CompactContractBytecodeCow, OutputContext};
use crate::zksync::artifacts::{
    Bytecode, BytecodeObject, CompilerOutput, Contract, SourceFile, SourceLocation,
};
use crate::zksync::compile::gather_laws;
use crate::zksync::compile::laws as output_laws;
use crate::zksync::compile::output;
use crate::zksync::compile::output::{
    AggregatedCompilerOutput, VersionedContractView, VersionedContracts, VersionedSourceFileView,
    VersionedSourceFiles,
};
use crate::zksync::compile::plan_laws;
use crate::zksync::compile::project;
use crate::zksync::compile::project::{
    FilteredSource, FilteredSources, VersionRuns, VersionedFilteredSources, VersionedSources,
};
use crate::zksync::compilers::zksolc::input::{Source, Sources, ZkSolcInput};
use crate::zksync::compilers::zksolc::laws as input_laws;
use crate::zksync::compilers::zksolc::settings::ZkSolcSettings;
use crate::zksync::config::ZkSolcConfig;
use vstd::prelude::*;
use vstd::string::*;

verus! {

/// A value that is put into a map is found for its key, and each other key has what it had. What
/// the key had is returned.
pub proof fn law_insert<O: KeyOrder, V>(
    map: &mut OrderedMap<O, V>,
    key: String,
    value: V,
    res: Option<V>,
    other: Seq<char>,
)
    requires
        maps::ordered::<O, V>(old(map)@),
        call_ensures(OrderedMap::<O, V>::insert, (map, key, value), res),
    ensures
        res == maps::found::<O, V>(old(map)@, key@),
        maps::found::<O, V>(final(map)@, key@) == Some(value),
        O::key(other) != O::key(key@) ==> maps::found::<O, V>(final(map)@, other) == maps::found::<
            O,
            V,
        >(old(map)@, other),
        maps::has::<O, V>(old(map)@, key@) ==> final(map)@.len() == old(map)@.len(),
        !maps::has::<O, V>(old(map)@, key@) ==> final(map)@.len() == old(map)@.len() + 1,
        maps::ordered::<O, V>(final(map)@),
{
    maps::law_inserted::<O, V>(old(map)@, key@, value, other);
    map_laws::law_inserted_entries::<O, V>(old(map)@, key@, value, 0);
}

/// Of two maps that are put together, the values of the second one stay.
pub proof fn law_extend<O: KeyOrder, V>(
    map: &mut OrderedMap<O, V>,
    others: OrderedMap<O, V>,
    key: Seq<char>,
)
    requires
        maps::ordered::<O, V>(old(map)@),
        maps::ordered::<O, V>(others@),
        call_ensures(maps::extend::<O, V>, (map, others), ()),
    ensures
        maps::found::<O, V>(others@, key) is Some ==> maps::found::<O, V>(final(map)@, key)
            == maps::found::<O, V>(others@, key),
        maps::found::<O, V>(others@, key) is None ==> maps::found::<O, V>(final(map)@, key)
            == maps::found::<O, V>(old(map)@, key),
{
    key_laws::law_extended::<O, V>(old(map)@, others@, key);
}

/// An item is put behind those that its key has, and each other key has what it had.
pub proof fn law_push_value<O: KeyOrder, T>(
    map: &mut OrderedMap<O, Vec<T>>,
    key: &str,
    item: T,
    other: Seq<char>,
)
    requires
        maps::ordered::<O, Seq<T>>(maps::lists(old(map)@)),
        call_ensures(maps::push_value::<O, T>, (map, key, item), ()),
    ensures
        maps::list_of::<O, T>(maps::lists(final(map)@), key@) == maps::list_of::<O, T>(
            maps::lists(old(map)@),
            key@,
        ).push(item),
        O::key(other) != O::key(key@) ==> maps::list_of::<O, T>(maps::lists(final(map)@), other)
            == maps::list_of::<O, T>(maps::lists(old(map)@), other),
{
    key_laws::law_pushed::<O, T>(maps::lists(old(map)@), key@, item, other);
    let had = maps::list_of::<O, T>(maps::lists(old(map)@), key@);
    assert(maps::list_of::<O, T>(maps::lists(final(map)@), key@) =~= had.push(item));
}

/// An artifact is put behind those of its contract, and each other contract has what it had.
pub proof fn law_push_artifact(
    all: &mut Artifacts,
    file: &str,
    name: &str,
    artifact: ArtifactFile,
    other_file: Seq<char>,
    other_name: Seq<char>,
)
    requires
        artifact_map_laws::well_ordered(old(all)@),
        call_ensures(Artifacts::push, (all, file, name, artifact), ()),
    ensures
        zk::artifacts_of_contract(final(all)@, file@, name@) == zk::artifacts_of_contract(
            old(all)@,
            file@,
            name@,
        ).push(artifact@),
        other_file != file@ || other_name != name@ ==> zk::artifacts_of_contract(
            final(all)@,
            other_file,
            other_name,
        ) == zk::artifacts_of_contract(old(all)@, other_file, other_name),
{
    artifact_map_laws::law_with_artifact(
        old(all)@,
        file@,
        name@,
        artifact@,
        file@,
        name@,
    );
    artifact_map_laws::law_with_artifact(
        old(all)@,
        file@,
        name@,
        artifact@,
        other_file,
        other_name,
    );
}

/// Merging outputs keeps all messages, the first ones first. Where both have a file, that of the
/// second one stays.
pub proof fn law_merge(out: &mut CompilerOutput, other: CompilerOutput, file: Seq<char>)
    requires
        maps::ordered::<ByText, SourceFile>(old(out).sources@),
        maps::ordered::<ByText, SourceFile>(other.sources@),
        maps::ordered::<ByText, TextMap<Contract>>(old(out).contracts@),
        maps::ordered::<ByText, TextMap<Contract>>(other.contracts@),
        call_ensures(CompilerOutput::merge, (out, other), ()),
    ensures
        final(out).errors@ == old(out).errors@ + other.errors@,
        final(out).zksync_solc_version == old(out).zksync_solc_version,
        maps::found::<ByText, SourceFile>(final(out).sources@, file) == (match maps::found::<
            ByText,
            SourceFile,
        >(other.sources@, file) {
            Some(source) => Some(source),
            None => maps::found::<ByText, SourceFile>(old(out).sources@, file),
        }),
        maps::found::<ByText, TextMap<Contract>>(final(out).contracts@, file) == (
        match maps::found::<ByText, TextMap<Contract>>(other.contracts@, file) {
            Some(names) => Some(names),
            None => maps::found::<ByText, TextMap<Contract>>(old(out).contracts@, file),
        }),
{
    key_laws::law_extended::<ByText, SourceFile>(old(out).sources@, other.sources@, file);
    key_laws::law_extended::<ByText, TextMap<Contract>>(
        old(out).contracts@,
        other.contracts@,
        file,
    );
}

/// One more run adds its messages, and each of its source files and contracts with its version.
pub proof fn law_extend_output(
    all: &mut AggregatedCompilerOutput,
    version: Version,
    emitted: CompilerOutput,
    file: Seq<char>,
    name: Seq<char>,
)
    requires
        maps::ordered::<ByText, Seq<VersionedSourceFileView>>(old(all).sources@),
        maps::ordered::<ByText, SourceFile>(emitted.sources@),
        output_laws::all_ordered(old(all).contracts@),
        maps::ordered::<ByText, TextMap<Contract>>(emitted.contracts@),
        forall|i: int|
            0 <= i < emitted.contracts@.len() ==> maps::ordered::<ByText, Contract>(
                (#[trigger] emitted.contracts@[i]).1@,
            ),
        call_ensures(AggregatedCompilerOutput::extend, (all, version, emitted), ()),
    ensures
        final(all).errors@ == old(all).errors@ + emitted.errors@,
        final(all).recompiled_with_detect_missing_libraries == old(
            all,
        ).recompiled_with_detect_missing_libraries,
        maps::found::<ByText, SourceFile>(emitted.sources@, file) matches Some(source)
            ==> maps::list_of::<ByText, VersionedSourceFileView>(final(all).sources@, file)
            == maps::list_of::<ByText, VersionedSourceFileView>(old(all).sources@, file).push(
            VersionedSourceFileView { source_file: source@, version: version@ },
        ),
        maps::found::<ByText, SourceFile>(emitted.sources@, file) is None ==> maps::list_of::<
            ByText,
            VersionedSourceFileView,
        >(final(all).sources@, file) == maps::list_of::<ByText, VersionedSourceFileView>(
            old(all).sources@,
            file,
        ),
        maps::found::<ByText, TextMap<Contract>>(emitted.contracts@, file) matches Some(names)
            ==> maps::found::<ByText, Contract>(names@, name) matches Some(contract)
            ==> output_laws::contract_list(final(all).contracts@, file, name)
            == output_laws::contract_list(old(all).contracts@, file, name).push(
            VersionedContractView { contract: contract@, version: version@ },
        ),
{
    gather_laws::law_sources_of_a_run(old(all).sources@, emitted.sources@, version@, file);
    gather_laws::law_contracts_of_a_run(
        old(all).contracts@,
        emitted.contracts@,
        version@,
        file,
        name,
    );
}

/// One more run of a project adds its messages, tells whether it was repeated, and has the paths
/// of its files joined to the root.
pub proof fn law_add_run(
    all: &mut AggregatedCompilerOutput,
    version: Version,
    emitted: CompilerOutput,
    again: bool,
    root: &str,
)
    requires
        call_ensures(
            AggregatedCompilerOutput::add_run,
            (all, version, emitted, again, root),
            (),
        ),
    ensures
        final(all).errors@ == old(all).errors@ + emitted.errors@,
        final(all).recompiled_with_detect_missing_libraries == (old(
            all,
        ).recompiled_with_detect_missing_libraries || again),
        final(all).sources@ == output::with_sources(
            old(all).sources@,
            maps::joined_keys(emitted.sources@, root@),
            version@,
        ),
        final(all).contracts@ == output::with_contracts(
            old(all).contracts@,
            maps::joined_keys(emitted.contracts@, root@),
            version@,
        ),
{
}

/// The source files of one more run are added with its version.
pub proof fn law_extend_sources(
    all: &mut VersionedSourceFiles,
    version: &Version,
    more: TextMap<SourceFile>,
    file: Seq<char>,
)
    requires
        maps::ordered::<ByText, Seq<VersionedSourceFileView>>(old(all)@),
        maps::ordered::<ByText, SourceFile>(more@),
        call_ensures(VersionedSourceFiles::extend, (all, version, more), ()),
    ensures
        maps::found::<ByText, SourceFile>(more@, file) matches Some(source) ==> maps::list_of::<
            ByText,
            VersionedSourceFileView,
        >(final(all)@, file) == maps::list_of::<ByText, VersionedSourceFileView>(
            old(all)@,
            file,
        ).push(VersionedSourceFileView { source_file: source@, version: version@ }),
        maps::found::<ByText, SourceFile>(more@, file) is None ==> maps::list_of::<
            ByText,
            VersionedSourceFileView,
        >(final(all)@, file) == maps::list_of::<ByText, VersionedSourceFileView>(old(all)@, file),
{
    gather_laws::law_sources_of_a_run(old(all)@, more@, version@, file);
}

/// The contracts of one more run are added with its version.
pub proof fn law_extend_contracts(
    all: &mut VersionedContracts,
    version: &Version,
    more: TextMap<TextMap<Contract>>,
    file: Seq<char>,
    name: Seq<char>,
)
    requires
        output_laws::all_ordered(old(all)@),
        maps::ordered::<ByText, TextMap<Contract>>(more@),
        forall|i: int|
            0 <= i < more@.len() ==> maps::ordered::<ByText, Contract>((#[trigger] more@[i]).1@),
        call_ensures(VersionedContracts::extend, (all, version, more), ()),
    ensures
        maps::found::<ByText, TextMap<Contract>>(more@, file) matches Some(names) ==> maps::found::<
            ByText,
            Contract,
        >(names@, name) matches Some(contract) ==> output_laws::contract_list(
            final(all)@,
            file,
            name,
        ) == output_laws::contract_list(old(all)@, file, name).push(
            VersionedContractView { contract: contract@, version: version@ },
        ),
        maps::found::<ByText, TextMap<Contract>>(more@, file) is None
            ==> output_laws::contract_list(final(all)@, file, name) == output_laws::contract_list(
            old(all)@,
            file,
            name,
        ),
{
    gather_laws::law_contracts_of_a_run(old(all)@, more@, version@, file, name);
}

/// A prefix is stripped off the paths of source files, of remappings and of the files of
/// libraries; nothing else of an input changes.
pub proof fn law_strip_input(given: &mut ZkSolcInput, base: &str, i: int)
    requires
        call_ensures(ZkSolcInput::strip_prefix, (given, base), ()),
    ensures
        ({
            let change = |key: Seq<char>|
                if path::stripped(key, base@) is Some {
                    path::stripped(key, base@)->0
                } else {
                    key
                };
            &&& final(given).language@ == old(given).language@
            &&& key_laws::is_rekeyed::<ByPath, Source>(
                final(given).sources@,
                old(given).sources@,
                change,
            )
            &&& key_laws::is_rekeyed::<ByPath, Seq<(Seq<char>, Seq<char>)>>(
                final(given).settings@.libraries,
                old(given).settings@.libraries,
                change,
            )
            &&& final(given).settings@.system_mode == old(given).settings@.system_mode
            &&& final(given).settings@.force_evmla == old(given).settings@.force_evmla
            &&& final(given).settings@.detect_missing_libraries == old(
                given,
            ).settings@.detect_missing_libraries
            &&& final(given).settings@.evm_version == old(given).settings@.evm_version
            &&& final(given).settings@.solc == old(given).settings@.solc
            &&& final(given).settings@.other == old(given).settings@.other
            &&& final(given).settings@.remappings.len() == old(given).settings@.remappings.len()
            &&& 0 <= i < old(given).settings@.remappings.len() ==> {
                let (a, b) = (
                    final(given).settings@.remappings[i],
                    old(given).settings@.remappings[i],
                );
                &&& a.context == b.context && a.name == b.name
                &&& a.path == change(b.path)
            }
        }),
{
    input_laws::law_stripped_input(old(given)@, base@, i);
    assert(final(given)@.settings == final(given).settings@);
    assert(final(given)@.sources == final(given).sources@);
}

/// A prefix is stripped off the paths of remappings, and nothing else of settings changes but the
/// paths of the files of libraries.
pub proof fn law_strip_settings(given: &mut ZkSolcSettings, base: &str, i: int)
    requires
        call_ensures(ZkSolcSettings::strip_prefix, (given, base), ()),
    ensures
        final(given).system_mode == old(given).system_mode,
        final(given).force_evmla == old(given).force_evmla,
        final(given).detect_missing_libraries == old(given).detect_missing_libraries,
        final(given)@.evm_version == old(given)@.evm_version,
        final(given)@.solc == old(given)@.solc,
        final(given).other == old(given).other,
        final(given)@.remappings.len() == old(given)@.remappings.len(),
        0 <= i < old(given)@.remappings.len() ==> final(given)@.remappings[i].name == old(
            given,
        )@.remappings[i].name && final(given)@.remappings[i].context == old(
            given,
        )@.remappings[i].context,
        key_laws::is_rekeyed::<ByPath, Seq<(Seq<char>, Seq<char>)>>(
            final(given)@.libraries,
            old(given)@.libraries,
            |key: Seq<char>|
                if path::stripped(key, base@) is Some {
                    path::stripped(key, base@)->0
                } else {
                    key
                },
        ),
{
    key_laws::law_stripped_keys::<Seq<(Seq<char>, Seq<char>)>>(old(given)@.libraries, base@);
    assert(final(given)@.system_mode == final(given).system_mode);
    assert(final(given)@.force_evmla == final(given).force_evmla);
    assert(final(given)@.detect_missing_libraries == final(given).detect_missing_libraries);
    assert(final(given)@.other == final(given).other);
}

/// Remappings are stripped one by one, and copied as they are.
pub proof fn law_strip_remappings(
    list: Vec<Remapping>,
    base: &str,
    stripped: Vec<Remapping>,
    copied: Vec<Remapping>,
    i: int,
)
    requires
        call_ensures(config::strip_remappings, (list, base), stripped),
        call_ensures(config::copy_remappings, (&list,), copied),
    ensures
        copied@ == list@,
        stripped@.len() == list@.len(),
        0 <= i < list@.len() ==> {
            &&& stripped@[i].name@ == list@[i].name@
            &&& stripped@[i]@.context == list@[i]@.context
            &&& path::stripped(list@[i].path@, base@) matches Some(rest) ==> stripped@[i].path@
                == rest
            &&& path::stripped(list@[i].path@, base@) is None ==> stripped@[i].path@
                == list@[i].path@
        },
{
    let (a, b) = (config::remapping_views(stripped@), config::remapping_views(list@));
    assert(a.len() == stripped@.len() && b.len() == list@.len());
    if 0 <= i < list@.len() {
        assert(a[i] == stripped@[i]@ && b[i] == list@[i]@);
    }
}

/// A command gets its arguments one behind the other, and the directory that it is run in.
pub proof fn law_command(
    longer: &mut Command,
    moved: &mut Command,
    arg: &str,
    dir: &str,
    program: &str,
    made: Command,
)
    requires
        call_ensures(Command::arg, (longer, arg), ()),
        call_ensures(Command::current_dir, (moved, dir), ()),
        call_ensures(Command::new, (program,), made),
    ensures
        final(longer)@.args == old(longer)@.args.push(arg@),
        final(longer)@.program == old(longer)@.program,
        final(longer)@.current_dir == old(longer)@.current_dir,
        final(moved)@.current_dir == Some(dir@),
        final(moved)@.args == old(moved)@.args,
        final(moved)@.program == old(moved)@.program,
        made.program@ == program@,
        made.args@.len() == 0,
        made.current_dir is None,
{
    assert(made@.args.len() == made.args@.len());
}

/// Artifacts give out their ABI and their bytecode just if they have one, and as they have it.
pub proof fn law_given_bytecode(
    artifact: &ZkContractArtifact,
    both: CompactContractBytecodeCow<'_>,
    bytecode: Option<&Bytecode>,
    object: Option<&BytecodeObject>,
)
    requires
        call_ensures(ZkContractArtifact::get_contract_bytecode, (artifact,), both),
        call_ensures(ZkContractArtifact::get_bytecode, (artifact,), bytecode),
        call_ensures(ZkContractArtifact::get_bytecode_object, (artifact,), object),
    ensures
        both.abi is Some <==> artifact.abi is Some,
        both.abi is Some ==> *both.abi->0 == artifact.abi->0,
        both.bytecode is Some <==> artifact.bytecode is Some,
        both.bytecode is Some ==> *both.bytecode->0 == artifact.bytecode->0,
        bytecode is Some <==> artifact.bytecode is Some,
        bytecode is Some ==> *bytecode->0 == artifact.bytecode->0,
        object is Some <==> artifact.bytecode is Some,
        object is Some ==> *object->0 == artifact.bytecode->0.object,
{
}

/// By default nothing is set, and nothing is there.
pub proof fn law_defaults(
    config: ZkSolcConfig,
    settings: ZkSolcSettings,
    input: ZkSolcInput,
    emitted: CompilerOutput,
    all: AggregatedCompilerOutput,
    artifact: ZkContractArtifact,
    ctx: OutputContext<'_>,
)
    requires
        call_ensures(ZkSolcConfig::default, (), config),
        call_ensures(ZkSolcSettings::default, (), settings),
        call_ensures(ZkSolcInput::default, (), input),
        call_ensures(CompilerOutput::default, (), emitted),
        call_ensures(AggregatedCompilerOutput::default, (), all),
        call_ensures(ZkContractArtifact::default, (), artifact),
        call_ensures(OutputContext::default, (), ctx),
    ensures
        config.settings@ == settings@,
        input.settings@ == settings@,
        settings@.remappings.len() == 0,
        settings@.libraries.len() == 0,
        settings@.evm_version is None,
        settings@.solc is None,
        settings@.other is None,
        !settings@.system_mode,
        !settings@.force_evmla,
        !settings@.detect_missing_libraries,
        input.language@ == "Solidity"@,
        input.sources@.len() == 0,
        emitted.errors@.len() == 0,
        emitted.sources@.len() == 0,
        emitted.contracts@.len() == 0,
        emitted.zksync_solc_version is None,
        all.errors@.len() == 0,
        all.sources@.len() == 0,
        all.contracts@.len() == 0,
        !all.recompiled_with_detect_missing_libraries,
        artifact.abi is None,
        artifact.bytecode is None,
        artifact.id is None,
        ctx.cache is None,
{
    assert(config.settings@.remappings =~= settings@.remappings);
    assert(config.settings@.libraries =~= settings@.libraries);
    assert(config.settings@ =~= settings@);
    artifact_laws::law_no_artifact(artifact);
}

/// Copies hold what was copied.
pub proof fn law_copies(
    version: &Version,
    solc: &Solc,
    object: &BytecodeObject,
    bytecode: &Bytecode,
    contract: &Contract,
    location: &SourceLocation,
    settings: &ZkSolcSettings,
    remapping: &Remapping,
    version_copy: Version,
    solc_copy: Solc,
    object_copy: BytecodeObject,
    bytecode_copy: Bytecode,
    contract_copy: Contract,
    location_copy: SourceLocation,
    settings_copy: ZkSolcSettings,
    remapping_copy: Remapping,
)
    requires
        call_ensures(Version::clone, (version,), version_copy),
        call_ensures(Solc::clone, (solc,), solc_copy),
        call_ensures(BytecodeObject::clone, (object,), object_copy),
        call_ensures(Bytecode::clone, (bytecode,), bytecode_copy),
        call_ensures(Contract::clone, (contract,), contract_copy),
        call_ensures(SourceLocation::clone, (location,), location_copy),
        call_ensures(ZkSolcSettings::clone, (settings,), settings_copy),
        call_ensures(Remapping::clone, (remapping,), remapping_copy),
    ensures
        version_copy@ == version@,
        solc_copy@ == solc@,
        object_copy@ == object@,
        bytecode_copy@ == bytecode@,
        contract_copy@ == contract@,
        location_copy == *location,
        settings_copy@ == settings@,
        remapping_copy == *remapping,
{
}

/// Source files are left to compile just if there are any; those that have to be compiled are
/// named, and all of them are handed on with their contents.
pub proof fn law_filtered_sources(
    given: FilteredSources,
    empty: bool,
    dirty: Vec<String>,
    sources: Sources,
    i: int,
)
    requires
        call_ensures(FilteredSources::is_empty, (&given,), empty),
        call_ensures(FilteredSources::dirty_files, (&given,), dirty),
        call_ensures(FilteredSources::into_sources, (given,), sources),
    ensures
        empty <==> given.0@.len() == 0,
        sources@.len() == given.0@.len(),
        0 <= i < given.0@.len() ==> sources@[i].0 == given.0@[i].0 && sources@[i].1 == (
        match given.0@[i].1 {
            FilteredSource::Dirty(source) => source,
            FilteredSource::Clean(source) => source,
        }),
        0 <= i < given.0@.len() && given.0@[i].1 is Dirty ==> text::texts(dirty@).contains(
            given.0@[i].0,
        ),
{
    plan_laws::law_plain_sources(given.0@, i);
    if 0 <= i < given.0@.len() {
        plan_laws::law_dirty_paths(given.0@, given.0@[i].0);
    }
}

/// Plans, and the source files that they are made for, that are told to hold the same do.
pub proof fn law_views_tell_plans_apart(
    a: VersionRuns,
    b: VersionRuns,
    x: VersionedSources,
    y: VersionedSources,
    p: VersionedFilteredSources,
    q: VersionedFilteredSources,
    i: int,
)
    ensures
        a@ == b@ ==> a.solc@ == b.solc@ && a.version@ == b.version@ && a.runs@.len()
            == b.runs@.len(),
        a@ == b@ && 0 <= i < a.runs@.len() ==> a.runs@[i].input@ == b.runs@[i].input@
            && text::texts(a.runs@[i].dirty@) == text::texts(b.runs@[i].dirty@),
        x@ == y@ ==> x.solc@ == y.solc@ && x.version@ == y.version@ && x.sources@ == y.sources@
            && text::opt_text(x.evm_version) == text::opt_text(y.evm_version),
        p@ == q@ ==> p.solc@ == q.solc@ && p.version@ == q.version@ && p.sources.0@ == q.sources.0@
            && text::opt_text(p.evm_version) == text::opt_text(q.evm_version),
{
    let (m, n) = (project::run_views(a.runs@), project::run_views(b.runs@));
    assert(m.len() == a.runs@.len() && n.len() == b.runs@.len());
    if a@ == b@ {
        assert(m == n);
        if 0 <= i < a.runs@.len() {
            assert(m[i] == a.runs@[i]@ && n[i] == b.runs@[i]@);
        }
    }
}

/// Source files and contracts that are told to be the same are, file by file.
pub proof fn law_views_tell_emitted_apart(
    a: VersionedSourceFiles,
    b: VersionedSourceFiles,
    x: VersionedContracts,
    y: VersionedContracts,
    i: int,
    j: int,
    k: int,
)
    ensures
        a@ == b@ ==> a.0@.len() == b.0@.len(),
        a@ == b@ && 0 <= i < a.0@.len() ==> a.0@[i].0 == b.0@[i].0 && a.0@[i].1@.len()
            == b.0@[i].1@.len(),
        a@ == b@ && 0 <= i < a.0@.len() && 0 <= k < a.0@[i].1@.len() ==> {
            &&& a.0@[i].1@[k].version@ == b.0@[i].1@[k].version@
            &&& a.0@[i].1@[k].source_file@ == b.0@[i].1@[k].source_file@
        },
        x@ == y@ ==> x.0@.len() == y.0@.len(),
        x@ == y@ && 0 <= i < x.0@.len() ==> x.0@[i].0 == y.0@[i].0 && x.0@[i].1@.len()
            == y.0@[i].1@.len(),
        x@ == y@ && 0 <= i < x.0@.len() && 0 <= j < x.0@[i].1@.len() ==> x.0@[i].1@[j].0
            == y.0@[i].1@[j].0 && x.0@[i].1@[j].1@.len() == y.0@[i].1@[j].1@.len(),
        x@ == y@ && 0 <= i < x.0@.len() && 0 <= j < x.0@[i].1@.len() && 0 <= k
            < x.0@[i].1@[j].1@.len() ==> {
            &&& x.0@[i].1@[j].1@[k].version@ == y.0@[i].1@[j].1@[k].version@
            &&& x.0@[i].1@[j].1@[k].contract@ == y.0@[i].1@[j].1@[k].contract@
        },
{
    let (m, n) = (a@, b@);
    assert(m.len() == a.0@.len() && n.len() == b.0@.len());
    if m == n && 0 <= i < a.0@.len() {
        assert(m[i].0 == a.0@[i].0 && n[i].0 == b.0@[i].0);
        assert(m[i].1.len() == a.0@[i].1@.len() && n[i].1.len() == b.0@[i].1@.len());
        if 0 <= k < a.0@[i].1@.len() {
            assert(m[i].1[k] == a.0@[i].1@[k]@ && n[i].1[k] == b.0@[i].1@[k]@);
        }
    }
    let (p, q) = (x@, y@);
    assert(p.len() == x.0@.len() && q.len() == y.0@.len());
    if p == q && 0 <= i < x.0@.len() {
        let (r, s) = (output::contracts_view(x.0@[i].1), output::contracts_view(y.0@[i].1));
        assert(p[i] == (x.0@[i].0, r) && q[i] == (y.0@[i].0, s));
        assert(r.len() == x.0@[i].1@.len() && s.len() == y.0@[i].1@.len());
        if 0 <= j < x.0@[i].1@.len() {
            assert(r[j].0 == x.0@[i].1@[j].0 && s[j].0 == y.0@[i].1@[j].0);
            assert(r[j].1.len() == x.0@[i].1@[j].1@.len());
            assert(s[j].1.len() == y.0@[i].1@[j].1@.len());
            if 0 <= k < x.0@[i].1@[j].1@.len() {
                assert(r[j].1[k] == x.0@[i].1@[j].1@[k]@);
                assert(s[j].1[k] == y.0@[i].1@[j].1@[k]@);
            }
        }
    }
}

} // verus!
