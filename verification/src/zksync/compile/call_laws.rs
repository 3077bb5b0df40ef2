//! How calls relate to what they are given, and to each other.
use crate::compilers::solc::Solc;
use crate::compilers::zksolc;
use crate::compilers::zksolc::{Host, SolcEvent, SolcStep};
use crate::config;
use crate::config::Remapping;
use crate::error::{SolcError, SolcErrorView};
use crate::key_laws;
use crate::maps;
use crate::maps::{ByText, TextMap};
use crate::path;
use crate::process::{Command, Output};
use crate::text;
use crate::version;
use crate::version::Version;
use crate::zksync;
use crate::zksync::artifact_output::zk::Artifacts;
use crate::zksync::artifact_output::OutputContext;
use crate::zksync::artifacts;
use crate::zksync::artifacts::{CompilerOutput, Contract, SourceFile};
use crate::zksync::compile;
use crate::zksync::compile::command_laws;
use crate::zksync::compile::gather_laws;
use crate::zksync::compile::install::{InstallEvent, InstallStep};
use crate::zksync::compile::outcome_laws;
use crate::zksync::compile::output::{
    AggregatedCompilerOutput, VersionedContractView, VersionedSourceFileView,
};
use crate::zksync::compile::plan_laws;
use crate::zksync::compile::project;
use crate::zksync::compile::project::{
    ArtifactsState, CompiledState, CompilerSources, FilteredCompilerSources, FilteredSources,
    GraphEdges, PreprocessedState, Project, ProjectCompileOutput, ProjectCompiler, Resolved,
    VersionRuns, VersionedSources,
};
use crate::zksync::compile::runs;
use crate::zksync::compile::runs::{RunEvent, RunStep};
use crate::zksync::compile::stage_laws;
use crate::zksync::compile::stages;
use crate::zksync::compile::stages::{Opening, Outcome, Stage, StageEvent};
use crate::zksync::compile::{FirstRun, Install, ZkSolc, ZkSolcOS};
use crate::zksync::compilers::zksolc::input;
use crate::zksync::compilers::zksolc::input::{Sources, ZkSolcInput};
use crate::zksync::compilers::zksolc::laws;
use crate::zksync::compilers::zksolc::settings::ZkSolcSettings;
use vstd::prelude::*;
use vstd::string::*;

verus! {

/// The command that compiles runs `zksolc` in its base path, and tells it that its input is JSON.
/// A second run has the arguments of the first one, and one more behind them.
pub proof fn law_compile_commands(
    compiler: &ZkSolc,
    input: &ZkSolcInput,
    first: Command,
    second: Command,
)
    requires
        call_ensures(ZkSolc::compile_command, (compiler, input, false), first),
        call_ensures(ZkSolc::compile_command, (compiler, input, true), second),
    ensures
        first@.program == compiler.zksolc@,
        second@.program == compiler.zksolc@,
        first@.args.len() > 0,
        first@.args.last() == "--standard-json"@,
        second@.args == first@.args.push("--detect-missing-libraries"@),
        match compiler.base_path {
            Some(base) => first@.current_dir == Some(base@),
            None => first@.current_dir is None,
        },
        second@.current_dir == first@.current_dir,
{
}

/// A compiler is asked for its version by that argument alone.
pub proof fn law_version_command(compiler: &ZkSolc, res: Command)
    requires
        call_ensures(ZkSolc::version_command, (compiler,), res),
    ensures
        res@.program == compiler.zksolc@,
        res@.args.len() == 1,
        res@.args[0] == "--version"@,
        res@.current_dir is None,
{
}

/// The compiler runs again just if the first run failed because of a library that was not found.
/// Otherwise the first run is what counts, as one that was not repeated.
pub proof fn law_first_run(output: Output, res: FirstRun)
    requires
        call_ensures(ZkSolc::after_first_run, (output,), res),
    ensures
        output.success ==> res is Ended,
        res is Again <==> compile::misses_library(output),
        res matches FirstRun::Ended(ended) ==> {
            &&& ended is Ok <==> output.success
            &&& ended is Ok ==> ended->Ok_0.0 == output.stdout && !ended->Ok_0.1
            &&& ended is Err ==> ended->Err_0@ == (SolcErrorView::SolcOutput {
                success: false,
                stdout: output.stdout@,
                stderr: output.stderr@,
            })
        },
{
}

/// The second run is what counts where there is one, as one that was repeated.
pub proof fn law_second_run(output: Output, res: Result<(Vec<u8>, bool), SolcError>)
    requires
        call_ensures(ZkSolc::after_second_run, (output,), res),
    ensures
        res is Ok <==> output.success,
        res is Ok ==> res->Ok_0.0 == output.stdout && res->Ok_0.1,
        res is Err ==> res->Err_0@ == (SolcErrorView::SolcOutput {
            success: false,
            stdout: output.stdout@,
            stderr: output.stderr@,
        }),
{
}

/// What a compiler wrote is text just if it is valid.
pub proof fn law_compile(written: &Vec<u8>, res: Result<String, SolcError>)
    requires
        call_ensures(ZkSolc::compile, (written,), res),
    ensures
        res is Ok <==> vstd::utf8::valid_utf8(written@),
        res is Ok ==> res->Ok_0@ == vstd::utf8::decode_utf8(written@),
        res is Err ==> res->Err_0@ is InvalidUtf8,
{
}

/// Of an output just the files of the input are kept, with all that was emitted for them, and all
/// messages.
pub proof fn law_compile_exact(
    out: CompilerOutput,
    input: &ZkSolcInput,
    res: CompilerOutput,
    file: Seq<char>,
)
    requires
        call_ensures(ZkSolc::compile_exact, (out, input), res),
        maps::ordered::<ByText, SourceFile>(out.sources@),
        maps::ordered::<ByText, TextMap<Contract>>(out.contracts@),
    ensures
        res.errors == out.errors,
        res.zksync_solc_version == out.zksync_solc_version,
        (exists|i: int| 0 <= i < input.sources@.len() && (#[trigger] input.sources@[i]).0 == file)
            ==> maps::found::<ByText, SourceFile>(res.sources@, file) == maps::found::<
            ByText,
            SourceFile,
        >(out.sources@, file) && maps::found::<ByText, TextMap<Contract>>(res.contracts@, file)
            == maps::found::<ByText, TextMap<Contract>>(out.contracts@, file),
        (forall|i: int| 0 <= i < input.sources@.len() ==> (#[trigger] input.sources@[i]).0 != file)
            ==> maps::found::<ByText, SourceFile>(res.sources@, file) is None && maps::found::<
            ByText,
            TextMap<Contract>,
        >(res.contracts@, file) is None,
{
    let paths = compile::source_paths(input@.sources);
    assert(paths.len() == input.sources@.len());
    artifacts::law_retained_files::<SourceFile>(out.sources@, paths, file);
    artifacts::law_retained_files::<TextMap<Contract>>(out.contracts@, paths, file);
    if exists|i: int| 0 <= i < input.sources@.len() && (#[trigger] input.sources@[i]).0 == file {
        let i = choose|i: int|
            0 <= i < input.sources@.len() && (#[trigger] input.sources@[i]).0 == file;
        assert(paths[i] == file);
        assert(paths.contains(file));
    }
    if paths.contains(file) {
        let i = choose|i: int| 0 <= i < paths.len() && paths[i] == file;
        assert(paths[i] == input.sources@[i].0);
    }
}

/// The outputs of inputs are merged: all messages one after the other, or the first error.
pub proof fn law_compile_source(
    outputs: Vec<Result<CompilerOutput, SolcError>>,
    res: Result<CompilerOutput, SolcError>,
    i: int,
    k: int,
)
    requires
        call_ensures(ZkSolc::compile_source, (outputs,), res),
        0 <= i < outputs@.len(),
    ensures
        outputs@[i] is Err && (forall|j: int| 0 <= j < i ==> (#[trigger] outputs@[j]) is Ok) ==> res
            == Err::<CompilerOutput, SolcError>(outputs@[i]->Err_0),
        (forall|j: int| 0 <= j < outputs@.len() ==> (#[trigger] outputs@[j]) is Ok) ==> res is Ok
            && (0 <= k < outputs@[i]->Ok_0.errors@.len() ==> res->Ok_0.errors@.contains(
            outputs@[i]->Ok_0.errors@[k],
        )),
{
    if outputs@[i] is Err && (forall|j: int| 0 <= j < i ==> (#[trigger] outputs@[j]) is Ok) {
        command_laws::law_first_error_is_returned(res, outputs@, i);
    }
    if forall|j: int| 0 <= j < outputs@.len() ==> (#[trigger] outputs@[j]) is Ok {
        command_laws::lemma_no_error(outputs@);
        if 0 <= k < outputs@[i]->Ok_0.errors@.len() {
            lemma_merged_messages(outputs@, i, k);
        }
    }
}

proof fn lemma_merged_messages(
    outputs: Seq<Result<CompilerOutput, SolcError>>,
    i: int,
    k: int,
)
    requires
        forall|j: int| 0 <= j < outputs.len() ==> (#[trigger] outputs[j]) is Ok,
        0 <= i < outputs.len(),
        0 <= k < outputs[i]->Ok_0.errors@.len(),
    ensures
        compile::merged_errors(outputs).contains(outputs[i]->Ok_0.errors@[k]),
    decreases outputs.len(),
{
    let rest = outputs.drop_last();
    let before = compile::merged_errors(rest);
    let all = compile::merged_errors(outputs);
    let message = outputs[i]->Ok_0.errors@[k];
    assert(outputs[outputs.len() - 1] is Ok);
    if i < rest.len() {
        assert forall|j: int| 0 <= j < rest.len() implies (#[trigger] rest[j]) is Ok by {
            assert(rest[j] == outputs[j]);
        }
        assert(rest[i] == outputs[i]);
        lemma_merged_messages(rest, i, k);
        let n = choose|n: int| 0 <= n < before.len() && before[n] == message;
        assert(all[n] == message);
    } else {
        assert(all[before.len() + k] == message);
    }
}

/// A release has the numbers of a version, and nothing behind them.
pub proof fn law_version_short(given: &Version, res: Version)
    requires
        call_ensures(ZkSolc::version_short, (given,), res),
    ensures
        res@.major == given@.major,
        res@.minor == given@.minor,
        res@.patch == given@.patch,
        res@.pre.len() == 0,
        res@.build.len() == 0,
{
}

/// A failed attempt to run a compiler tells what went wrong, and with which compiler.
pub proof fn law_map_io_err(compiler: &ZkSolc, message: &str, res: SolcError)
    requires
        call_ensures(ZkSolc::map_io_err, (compiler, message), res),
    ensures
        res@ == (SolcErrorView::Io { message: message@, path: compiler.zksolc@ }),
{
}

/// A new instance has its path and nothing else; without a path it is called by its name.
pub proof fn law_new_instances(path: String, made: ZkSolc, given: ZkSolc, default: ZkSolc)
    requires
        call_ensures(ZkSolc::new, (path,), made),
        call_ensures(ZkSolc::default_for, (Some(path),), given),
        call_ensures(ZkSolc::default_for, (None::<String>,), default),
    ensures
        made.zksolc@ == path@,
        given@ == made@,
        default.zksolc@ == "zksolc"@,
        made.base_path is None && default.base_path is None,
        made.solc is None && default.solc is None,
        made.args@.len() == 0 && default.args@.len() == 0,
{
    assert(made@.args.len() == made.args@.len());
    assert(default@.args.len() == default.args@.len());
}

/// Setting a base path or adding arguments changes nothing else.
pub proof fn law_changed_instances(
    given: ZkSolc,
    base: String,
    one: String,
    more: Vec<String>,
    based: ZkSolc,
    longer: ZkSolc,
    longest: ZkSolc,
)
    requires
        call_ensures(ZkSolc::with_base_path, (given, base), based),
        call_ensures(ZkSolc::arg, (given, one), longer),
        call_ensures(ZkSolc::args, (given, more), longest),
    ensures
        based@.base_path == Some(base@),
        based@.zksolc == given@.zksolc && based@.solc == given@.solc && based@.args == given@.args,
        longer@.args == given@.args.push(one@),
        longer@.zksolc == given@.zksolc && longer@.solc == given@.solc && longer@.base_path
            == given@.base_path,
        longest@.args == given@.args + text::texts(more@),
        longest@.zksolc == given@.zksolc && longest@.solc == given@.solc && longest@.base_path
            == given@.base_path,
{
}

/// An instance for a `solc` has the executable of the template, the base path and the arguments of
/// the `solc`, and the ZKsync fork of `solc` in place of the template's, where there is one.
pub proof fn law_instance_for_solc(
    template: &ZkSolc,
    solc: Solc,
    fork: String,
    forked: ZkSolc,
    kept: ZkSolc,
)
    requires
        call_ensures(ZkSolc::from_template_and_solc, (template, solc, Some(fork)), forked),
        call_ensures(ZkSolc::from_template_and_solc, (template, solc, None::<String>), kept),
    ensures
        forked.zksolc@ == template.zksolc@ && kept.zksolc@ == template.zksolc@,
        forked@.base_path == text::opt_text(solc.base_path) && kept@.base_path == text::opt_text(
            solc.base_path,
        ),
        forked@.args == text::texts(solc.args@) && kept@.args == text::texts(solc.args@),
        forked@.solc == Some(fork@),
        kept@.solc == template@.solc,
{
}

/// Instances that are told to hold the same do.
pub proof fn law_views_tell_instances_apart(a: ZkSolc, b: ZkSolc)
    requires
        a@ == b@,
    ensures
        a.zksolc@ == b.zksolc@,
        a.base_path is Some <==> b.base_path is Some,
        a.base_path is Some ==> a.base_path->0@ == b.base_path->0@,
        a.solc is Some <==> b.solc is Some,
        a.solc is Some ==> a.solc->0@ == b.solc->0@,
        a.args@.len() == b.args@.len(),
        forall|i: int| 0 <= i < a.args@.len() ==> (#[trigger] a.args@[i])@ == b.args@[i]@,
{
    let (x, y) = (text::texts(a.args@), text::texts(b.args@));
    assert(x == y);
    assert(x.len() == a.args@.len() && y.len() == b.args@.len());
    assert forall|i: int| 0 <= i < a.args@.len() implies (#[trigger] a.args@[i])@
        == b.args@[i]@ by {
        assert(x[i] == a.args@[i]@ && y[i] == b.args@[i]@);
    }
}

/// An instance is written as its executable, with its arguments behind it, if there are any.
pub proof fn law_instance_as_text(compiler: &ZkSolc, res: String)
    requires
        call_ensures(ZkSolc::to_text, (compiler,), res),
    ensures
        compiler.args@.len() == 0 ==> res@ == compiler.zksolc@,
        compiler.args@.len() == 1 ==> res@ == compiler.zksolc@ + " "@ + compiler.args@[0]@,
        compiler.args@.len() > 0 ==> res@ == compiler.zksolc@ + " "@ + text::joined(
            text::texts(compiler.args@),
            " "@,
        ),
{
    let args = text::texts(compiler.args@);
    assert(args.len() == compiler.args@.len());
    if args.len() == 1 {
        assert(args[0] == compiler.args@[0]@);
        zksolc::command_laws::law_joined(
            Seq::<Seq<char>>::empty(),
            args[0],
            " "@,
        );
        assert(Seq::<Seq<char>>::empty().push(args[0]) =~= args);
    }
}

/// A compiler is installed at the path at which it is looked for, in the directory of compilers.
pub proof fn law_installed_where_looked_for(
    host: &Host,
    wanted: &Version,
    dir: Result<String, SolcError>,
    looked: Result<String, SolcError>,
    install: Result<Install, SolcError>,
)
    requires
        call_ensures(ZkSolc::compilers_dir, (host,), dir),
        call_ensures(ZkSolc::compiler_path, (host, wanted), looked),
        call_ensures(ZkSolc::blocking_install, (host, wanted), install),
    ensures
        looked is Ok <==> install is Ok,
        looked is Ok ==> dir is Ok && install->Ok_0.compiler_path@ == looked->Ok_0@
            && install->Ok_0.compilers_dir@ == dir->Ok_0@,
        looked is Err ==> looked->Err_0@ == install->Err_0@,
        dir is Ok <==> host.home is Some,
        host.home matches Some(home) ==> dir->Ok_0@ == path::join_path(home@, ".zksync"@),
{
}

/// A `solc` is installed at the path at which it is looked for, in the directory of compilers.
pub proof fn law_solc_installed_where_looked_for(
    host: &Host,
    wanted: &str,
    dir: Result<String, SolcError>,
    looked: Result<String, SolcError>,
    install: Result<Install, SolcError>,
)
    requires
        call_ensures(ZkSolc::compilers_dir, (host,), dir),
        call_ensures(ZkSolc::solc_path, (host, wanted), looked),
        call_ensures(ZkSolc::solc_blocking_install, (host, wanted), install),
    ensures
        looked is Ok <==> install is Ok,
        looked is Ok ==> dir is Ok && install->Ok_0.compiler_path@ == looked->Ok_0@
            && install->Ok_0.compilers_dir@ == dir->Ok_0@,
        looked is Err ==> looked->Err_0@ == install->Err_0@,
{
}

/// A compiler counts as installed just if there is a file at its path.
pub proof fn law_found_compilers(
    path: String,
    is_file: bool,
    zk: Option<ZkSolc>,
    sol: Option<String>,
)
    requires
        call_ensures(ZkSolc::find_installed_version, (path, is_file), zk),
        call_ensures(ZkSolc::find_solc_installed_version, (path, is_file), sol),
    ensures
        zk is Some <==> is_file,
        zk matches Some(found) ==> found.zksolc@ == path@ && found.base_path is None
            && found.solc is None && found.args@.len() == 0,
        is_file ==> sol == Some(path),
        !is_file ==> sol is None,
{
    if let Some(found) = zk {
        assert(found@.args.len() == found.args@.len());
    }
}

/// The release of the `solc` is looked for, installed if it was not found, and then used.
pub proof fn law_next_solc_step(solc: &Solc, event: SolcEvent, res: SolcStep)
    requires
        call_ensures(ZkSolc::next_solc_step, (solc, event), res),
    ensures
        match event {
            SolcEvent::Wanted => res matches SolcStep::Search(v) && v@ == version::release_text(
                solc.version@,
            ),
            SolcEvent::Searched(None) => res matches SolcStep::Install(v) && v@
                == version::release_text(solc.version@),
            SolcEvent::Searched(Some(path)) => res == SolcStep::Use(path),
            SolcEvent::Installed(path) => res == SolcStep::Use(path),
        },
{
}

/// Every input that is built has all settings that were given, but for remappings, which Yul does
/// without, and the EVM version, which is the one that the version of `solc` supports.
pub proof fn law_built_inputs(
    sources: Sources,
    settings: ZkSolcSettings,
    evm_version: Option<String>,
    res: Vec<ZkSolcInput>,
    k: int,
)
    requires
        call_ensures(ZkSolcInput::build, (sources, settings, evm_version), res),
        0 <= k < res@.len(),
    ensures
        res@[k].settings@.libraries == settings@.libraries,
        res@[k].settings.system_mode == settings.system_mode,
        res@[k].settings.force_evmla == settings.force_evmla,
        res@[k].settings.detect_missing_libraries == settings.detect_missing_libraries,
        res@[k].settings@.solc == settings@.solc,
        res@[k].settings.other == settings.other,
        res@[k].language@ == "Solidity"@ || res@[k].language@ == "Yul"@,
        res@[k].language@ == "Solidity"@ ==> res@[k].settings@.remappings == settings@.remappings,
        settings.evm_version is None ==> res@[k].settings.evm_version is None,
        settings.evm_version is Some && evm_version is Some
            ==> res@[k].settings.evm_version is Some && res@[k].settings.evm_version->0@
            == evm_version->0@,
        settings.evm_version is Some && evm_version is None ==> res@[k].settings.evm_version
            is None,
{
    let made = input::input_views(res@);
    assert(made.len() == res@.len());
    assert(made[k] == res@[k]@);
    laws::law_inputs_keep_settings(sources@, settings@, text::opt_text(evm_version), k);
}

/// Remappings replace those of an input, and nothing else. The source files of an input can be
/// asked for, and so can whether it is one for Yul.
pub proof fn law_input_calls(
    given: ZkSolcInput,
    remappings: Vec<Remapping>,
    mapped: ZkSolcInput,
    sources: &Sources,
    yul: bool,
)
    requires
        call_ensures(ZkSolcInput::with_remappings, (given, remappings), mapped),
        call_ensures(ZkSolcInput::sources, (&given,), sources),
        call_ensures(ZkSolcInput::is_yul, (&given,), yul),
    ensures
        mapped.language@ == given.language@,
        mapped.sources@ == given.sources@,
        mapped.settings@.libraries == given.settings@.libraries,
        mapped.settings@.evm_version == given.settings@.evm_version,
        mapped.settings@.system_mode == given.settings@.system_mode,
        mapped.settings@.force_evmla == given.settings@.force_evmla,
        mapped.settings@.detect_missing_libraries == given.settings@.detect_missing_libraries,
        mapped.settings@.solc == given.settings@.solc,
        mapped.settings@.other == given.settings@.other,
        *sources == given.sources,
        yul <==> given.language@ == "Yul"@,
{
    laws::law_remapped_input(given@, config::remapping_views(remappings@));
}

/// The output of all runs has every message of every run, or the error of the first that failed.
pub proof fn law_gather_runs(
    plan: &Vec<VersionRuns>,
    events: Vec<RunEvent>,
    root: &str,
    res: Result<AggregatedCompilerOutput, SolcError>,
    at: int,
    k: int,
)
    requires
        runs::is_run(project::version_run_views(plan@), events@),
        call_ensures(runs::gather_runs, (plan, events, root), res),
        0 <= at < events@.len(),
    ensures
        events@[at] is Failed && (forall|j: int|
            0 <= j < at ==> !((#[trigger] events@[j]) is Failed)) ==> res == Err::<
            AggregatedCompilerOutput,
            SolcError,
        >(events@[at]->Failed_0),
        (forall|j: int| 0 <= j < events@.len() ==> !((#[trigger] events@[j]) is Failed))
            ==> res is Ok,
        res is Ok && events@[at] is Emitted && 0 <= k < events@[at]->Emitted_0.errors@.len()
            ==> res->Ok_0.errors@.contains(events@[at]->Emitted_0.errors@[k]),
{
    let jobs = project::version_run_views(plan@);
    gather_laws::law_first_failure(events@, at);
    if res is Ok && events@[at] is Emitted && 0 <= k < events@[at]->Emitted_0.errors@.len() {
        gather_laws::law_gathered_messages(jobs, events@, root@, at, k);
        assert(res->Ok_0.errors@ == res->Ok_0@.errors);
    }
}

/// The messages of all runs come one after the other: those of one more run stand behind all that
/// came before.
pub proof fn law_gather_one_more_run(
    plan: &Vec<VersionRuns>,
    events: Vec<RunEvent>,
    more: Vec<RunEvent>,
    last: RunEvent,
    root: &str,
    before: AggregatedCompilerOutput,
    after: AggregatedCompilerOutput,
)
    requires
        more@ == events@.push(last),
        runs::is_run(project::version_run_views(plan@), more@),
        call_ensures(
            runs::gather_runs,
            (plan, events, root),
            Ok::<AggregatedCompilerOutput, SolcError>(before),
        ),
        call_ensures(
            runs::gather_runs,
            (plan, more, root),
            Ok::<AggregatedCompilerOutput, SolcError>(after),
        ),
    ensures
        last matches RunEvent::Emitted(output, again) ==> after.errors@ == before.errors@
            + output.errors@ && after.recompiled_with_detect_missing_libraries == (
        before.recompiled_with_detect_missing_libraries || again),
        !(last is Emitted) ==> after@ == before@,
{
    let jobs = project::version_run_views(plan@);
    gather_laws::law_gathered_step_by_step(jobs, events@, last, root@);
    assert(after.errors@ == after@.errors && before.errors@ == before@.errors);
}

/// The first step of a plan is the first that is to be done, and none is once all are done: what
/// is to be done next is the step behind as many as there are events.
pub proof fn law_next_run(
    plan: &Vec<VersionRuns>,
    events: &Vec<RunEvent>,
    steps: Vec<RunStep>,
    next: Option<RunStep>,
)
    requires
        call_ensures(runs::list_steps, (plan,), steps),
        call_ensures(runs::next_run, (plan, events), next),
        forall|j: int| 0 <= j < events@.len() ==> !((#[trigger] events@[j]) is Failed),
    ensures
        events@.len() >= steps@.len() ==> next is None,
        events@.len() < steps@.len() ==> next is Some && next->0@
            == steps@[events@.len() as int]@,
{
    let jobs = project::version_run_views(plan@);
    gather_laws::law_first_failure(events@, 0);
    gather_laws::law_next_steps(jobs, events@, 0);
    let all = runs::step_views(steps@);
    assert(all.len() == steps@.len());
    if events@.len() < steps@.len() {
        assert(all[events@.len() as int] == steps@[events@.len() as int]@);
    }
}

/// With a pinned `solc` all source files are compiled with it; otherwise those of each version
/// with its own.
pub proof fn law_sources_to_compile<'a>(
    project: &'a Project,
    sources: Sources,
    evm_version: Option<String>,
    by_version: Vec<VersionedSources>,
    edges: GraphEdges,
    solc: Solc,
    solc_version: Version,
    pinned: ProjectCompiler<'a>,
    sorted: ProjectCompiler<'a>,
)
    requires
        call_ensures(
            ProjectCompiler::with_sources_and_solc,
            (project, sources, evm_version, edges, solc, solc_version),
            pinned,
        ),
        call_ensures(
            ProjectCompiler::with_sources_and_version_manager,
            (project, by_version, edges),
            sorted,
        ),
    ensures
        pinned.project == project && sorted.project == project,
        pinned.edges == edges && sorted.edges == edges,
        pinned.sources.pairs().len() == 1,
        pinned.sources.pairs()[0].solc == solc,
        pinned.sources.pairs()[0].version == solc_version,
        pinned.sources.pairs()[0].sources == sources,
        pinned.sources.pairs()[0].evm_version == evm_version,
        sorted.sources.pairs() == by_version@,
{
}

/// What is left to compile of each version takes the place of its source files, and nothing else
/// changes.
pub proof fn law_filtered(
    given: CompilerSources,
    filtered: Vec<FilteredSources>,
    res: FilteredCompilerSources,
    i: int,
)
    requires
        call_ensures(CompilerSources::filtered, (given, filtered), res),
        0 <= i < given.pairs().len(),
    ensures
        res.pairs().len() == given.pairs().len(),
        res.pairs()[i].sources == filtered@[i],
        res.pairs()[i].solc == given.pairs()[i].solc,
        res.pairs()[i].version == given.pairs()[i].version,
        res.pairs()[i].evm_version == given.pairs()[i].evm_version,
{
}

/// A project's plan has a job for each version with files left, and no other jobs.
pub proof fn law_plan<'a>(
    compiler: ProjectCompiler<'a>,
    filtered: Vec<FilteredSources>,
    state: PreprocessedState<'a>,
    plan: Vec<VersionRuns>,
    k: int,
    i: int,
)
    requires
        filtered@.len() == compiler.sources.pairs().len(),
        call_ensures(ProjectCompiler::preprocess, (compiler, filtered), state),
        call_ensures(PreprocessedState::compile, (state,), plan),
    ensures
        ({
            let pairs = project::pair_views(compiler.sources.pairs());
            let jobs = project::version_run_views(plan@);
            &&& 0 <= k < jobs.len() ==> exists|p: int|
                0 <= p < pairs.len() && plan_laws::is_job_for(
                    jobs[k],
                    *compiler.project,
                    #[trigger] pairs[p],
                    compiler.edges,
                    filtered@[p],
                )
            &&& 0 <= i < pairs.len() && filtered@[i].0@.len() > 0 ==> exists|j: int|
                0 <= j < jobs.len() && plan_laws::is_job_for(
                    #[trigger] jobs[j],
                    *compiler.project,
                    pairs[i],
                    compiler.edges,
                    filtered@[i],
                )
        }),
{
    let pairs = project::pair_views(compiler.sources.pairs());
    assert(pairs.len() == compiler.sources.pairs().len());
    plan_laws::law_plan_of_project(*compiler.project, pairs, compiler.edges, filtered@, k, i);
}

/// The output of a project has all messages, and the paths of its files are joined to the root of
/// the project.
pub proof fn law_compiled_state<'a>(
    project: &'a Project,
    output: AggregatedCompilerOutput,
    res: CompiledState<'a>,
)
    requires
        call_ensures(CompiledState::new, (project, output), res),
    ensures
        res.project == project,
        res.output.errors@ == output.errors@,
        res.output.recompiled_with_detect_missing_libraries
            == output.recompiled_with_detect_missing_libraries,
        key_laws::is_rekeyed::<ByText, Seq<VersionedSourceFileView>>(
            res.output.sources@,
            output.sources@,
            |key: Seq<char>| path::join_path(project.paths.root@, key),
        ),
        key_laws::is_rekeyed::<ByText, Seq<(Seq<char>, Seq<VersionedContractView>)>>(
            res.output.contracts@,
            output.contracts@,
            |key: Seq<char>| path::join_path(project.paths.root@, key),
        ),
{
    gather_laws::law_joined_output(output@, project.paths.root@);
    assert(res.output.errors@ == res.output@.errors);
    assert(res.output.sources@ == res.output@.sources);
    assert(res.output.contracts@ == res.output@.contracts);
}

/// Artifacts are made of the output whether or not they are written, with their paths joined to
/// the artifacts folder where they are.
pub proof fn law_made_artifacts<'a>(
    state: CompiledState<'a>,
    ctx: OutputContext<'_>,
    has_error: bool,
    res: ArtifactsState<'a>,
)
    requires
        call_ensures(CompiledState::write_artifacts, (state, ctx, has_error), res),
        project::converted_output(state.output@, *state.project, ctx) is Some,
    ensures
        res.project == state.project,
        res.output == state.output,
        res.write <==> !state.project.no_artifacts && !has_error,
        ({
            let made = project::converted_output(state.output@, *state.project, ctx)->0.artifacts;
            &&& !res.write ==> res.compiled_artifacts@ == made
            &&& res.write ==> outcome_laws::has_changed_files(
                res.compiled_artifacts@,
                made,
                |file: Seq<char>| path::join_path(state.project.paths.zksync_artifacts@, file),
            )
        }),
{
    let progress = project::converted_output(state.output@, *state.project, ctx)->0;
    outcome_laws::law_project_artifacts(progress, *state.project);
}

/// The cache file is left as it is just if no artifacts are written, the messages make the build
/// fail, or a run was repeated to detect missing libraries.
pub proof fn law_skip_write_to_disk<'a>(state: &ArtifactsState<'a>, has_error: bool, res: bool)
    requires
        call_ensures(ArtifactsState::skip_write_to_disk, (state, has_error), res),
    ensures
        res <==> state.project.no_artifacts || has_error
            || state.output.recompiled_with_detect_missing_libraries,
{
}

/// A compilation ends with all that the compiler emitted, the artifacts that were made of it,
/// those that the cache gave, and the filters of the project.
pub proof fn law_write_cache<'a>(
    state: ArtifactsState<'a>,
    cached: Artifacts,
    res: ProjectCompileOutput,
)
    requires
        call_ensures(ArtifactsState::write_cache, (state, cached), res),
    ensures
        res.compiler_output.errors@ == state.output.errors@,
        res.compiler_output.sources@ == state.output.sources@,
        res.compiler_output.contracts@ == state.output.contracts@,
        res.compiler_output.recompiled_with_detect_missing_libraries
            == state.output.recompiled_with_detect_missing_libraries,
        res.compiled_artifacts@ == state.compiled_artifacts@,
        res.cached_artifacts@ == cached@,
        outcome_laws::has_filters_of(res, *state.project),
{
    outcome_laws::law_conclusion(
        *state.project,
        state.output@,
        state.compiled_artifacts@,
        cached@,
        res,
    );
}

/// Slashing paths elsewhere than on Windows changes nothing.
pub proof fn law_slash_paths(given: ProjectCompileOutput, res: ProjectCompileOutput)
    requires
        call_ensures(ProjectCompileOutput::slash_paths, (given, false), res),
    ensures
        res.compiler_output@ == given.compiler_output@,
        res.compiled_artifacts@ == given.compiled_artifacts@,
        res.cached_artifacts@ == given.cached_artifacts@,
        res.ignored_error_codes@ == given.ignored_error_codes@,
        res.compiler_severity_filter == given.compiler_severity_filter,
{
    assert(res@ == given@);
}

/// All files are read, each with what was read for it, or the first error is returned.
pub proof fn law_read_all(
    files: Vec<String>,
    contents: Vec<Result<String, SolcError>>,
    res: Result<Sources, SolcError>,
    i: int,
)
    requires
        call_ensures(stages::read_all, (files, contents), res),
    ensures
        0 <= i < contents@.len() && contents@[i] is Err && (forall|j: int|
            0 <= j < i ==> (#[trigger] contents@[j]) is Ok) ==> res == Err::<Sources, SolcError>(
            contents@[i]->Err_0,
        ),
        (forall|j: int| 0 <= j < contents@.len() ==> (#[trigger] contents@[j]) is Ok)
            ==> res is Ok && res->Ok_0@ == stages::read_sources(text::texts(files@), contents@),
{
    outcome_laws::law_first_unread(contents@, i);
}

/// A stage that fails ends the compilation with its own error.
pub proof fn law_next_stage<'a>(stage: Stage<'a>, event: StageEvent<'_>, next: Stage<'a>)
    requires
        stage.allows(event),
        call_ensures(Stage::next, (stage, event), next),
    ensures
        event matches StageEvent::Resolved(Err(error)) ==> next == Stage::<'a>::Failed(error),
        event matches StageEvent::Filtered(Err(error)) ==> next == Stage::<'a>::Failed(error),
        event matches StageEvent::Written(Err(error)) ==> next == Stage::<'a>::Failed(error),
        event matches StageEvent::Consumed(Err(error)) ==> next == Stage::<'a>::Failed(error),
        event matches StageEvent::Consumed(Ok(found)) ==> next matches Stage::Finished(res)
            && stage matches Stage::Consume(state, _) && (!state.project.slash_paths
            || !state.project.windows ==> res.cached_artifacts@ == found@),
{
    stage_laws::law_failed_stages(stage, event, next, 0);
    if event matches StageEvent::Consumed(Ok(_)) {
        stage_laws::law_last_stage(stage, event, next);
    }
}

/// A compilation succeeds just if all its stages do. It then gives every message of every run, and
/// the artifacts that the cache gave.
pub proof fn law_compile_sources<'a>(
    compiler: ProjectCompiler<'a>,
    outcome: Outcome<'_>,
    res: Result<ProjectCompileOutput, SolcError>,
    at: int,
    k: int,
)
    requires
        stages::can_come(
            *compiler.project,
            project::slashed_pairs(
                project::pair_views(compiler.sources.pairs()),
                compiler.project.windows,
            ),
            compiler.edges,
            outcome,
        ),
        call_ensures(ProjectCompiler::compile, (compiler, outcome), res),
    ensures
        res is Ok <==> stage_laws::succeeds(*compiler.project, outcome),
        res matches Ok(done) ==> {
            &&& outcome_laws::has_filters_of(done, *compiler.project)
            &&& 0 <= at < outcome.events@.len() && outcome.events@[at] is Emitted && 0 <= k
                < outcome.events@[at]->Emitted_0.errors@.len()
                ==> done.compiler_output.errors@.contains(
                outcome.events@[at]->Emitted_0.errors@[k],
            )
            &&& !compiler.project.slash_paths || !compiler.project.windows
                ==> done.cached_artifacts@ == outcome.cached->Ok_0@
        },
{
    stage_laws::law_successful_compilation(
        res,
        *compiler.project,
        project::slashed_pairs(
            project::pair_views(compiler.sources.pairs()),
            compiler.project.windows,
        ),
        compiler.edges,
        outcome,
        at,
        k,
    );
}

/// Compiling a project, and compiling files of it, succeeds just if all files can be read, their
/// imports can be added, and all later stages succeed.
pub proof fn law_compile_project(
    project: &Project,
    files: Vec<String>,
    avoid: Option<Vec<Vec<bool>>>,
    opening: Opening,
    outcome: Outcome<'_>,
    res: Result<ProjectCompileOutput, SolcError>,
    some: Result<ProjectCompileOutput, SolcError>,
    at: int,
    k: int,
)
    requires
        stages::can_all_come(
            *project,
            project::chosen_files(text::texts(files@), avoid),
            opening,
            outcome,
        ),
        call_ensures(
            zksync::project_compile,
            (project, files, avoid, opening, outcome),
            res,
        ),
        call_ensures(zksync::project_compile_files, (project, files, opening, outcome), some),
    ensures
        res is Ok <==> some is Ok,
        res is Err ==> res->Err_0 == some->Err_0,
        res is Ok ==> res->Ok_0@ == some->Ok_0@,
        res is Ok <==> (forall|j: int|
            0 <= j < opening.contents@.len() ==> (#[trigger] opening.contents@[j]) is Ok)
            && opening.resolved is Ok && stage_laws::succeeds(*project, outcome),
        res matches Ok(done) ==> {
            &&& outcome_laws::has_filters_of(done, *project)
            &&& 0 <= at < outcome.events@.len() && outcome.events@[at] is Emitted && 0 <= k
                < outcome.events@[at]->Emitted_0.errors@.len()
                ==> done.compiler_output.errors@.contains(
                outcome.events@[at]->Emitted_0.errors@[k],
            )
            &&& !project.slash_paths || !project.windows ==> done.cached_artifacts@
                == outcome.cached->Ok_0@
        },
{
    let contents = opening.contents@;
    if exists|j: int| 0 <= j < contents.len() && (#[trigger] contents[j]) is Err {
        let j = choose|j: int| 0 <= j < contents.len() && (#[trigger] contents[j]) is Err;
        assert(j == contents.len() - 1);
        outcome_laws::law_first_unread(contents, j);
    } else {
        outcome_laws::law_first_unread(contents, 0);
        if let Ok(found) = opening.resolved {
            let pairs = project::slashed_pairs(
                project::resolved_pairs(*project, found.0),
                project.windows,
            );
            stage_laws::law_successful_compilation(
                res,
                *project,
                pairs,
                found.1,
                outcome,
                at,
                k,
            );
            stage_laws::law_successful_compilation(
                some,
                *project,
                pairs,
                found.1,
                outcome,
                at,
                k,
            );
        }
    }
}

/// A project's artifacts and its cache are where its paths say.
pub proof fn law_project_paths(project: &Project, made: &String, cached: &String)
    requires
        call_ensures(zksync::project_artifacts_path, (project,), made),
        call_ensures(zksync::project_cache_path, (project,), cached),
    ensures
        *made == project.paths.zksync_artifacts,
        *cached == project.paths.zksync_cache,
{
}

/// The files of the compilers begin with the name of the compiler, of the system and of the
/// processor, and `zksolc` is downloaded from where it is called by the latter two.
pub proof fn law_prefixes(os: &ZkSolcOS, zk: &str, sol: &str, uri: &str)
    requires
        call_ensures(ZkSolcOS::get_compiler, (os,), zk),
        call_ensures(ZkSolcOS::get_solc_prefix, (os,), sol),
        call_ensures(ZkSolcOS::get_download_uri, (os,), uri),
    ensures
        zk@ == (match os {
            ZkSolcOS::Linux => "zksolc-linux-amd64-musl-"@,
            ZkSolcOS::MacAMD => "zksolc-macosx-amd64-"@,
            ZkSolcOS::MacARM => "zksolc-macosx-arm64-"@,
        }),
        sol@ == (match os {
            ZkSolcOS::Linux => "solc-linux-amd64-"@,
            ZkSolcOS::MacAMD => "solc-macosx-amd64-"@,
            ZkSolcOS::MacARM => "solc-macosx-arm64-"@,
        }),
        uri@ == (match os {
            ZkSolcOS::Linux => "linux-amd64-musl"@,
            ZkSolcOS::MacAMD => "macosx-amd64"@,
            ZkSolcOS::MacARM => "macosx-arm64"@,
        }),
{
}

/// The steps of an installation follow on each other in one order: the directory of compilers is
/// created only if it is not there. A step that fails ends the installation.
pub proof fn law_install_steps(step: InstallStep, event: InstallEvent, next: InstallStep)
    requires
        step@.allows(event@),
        call_ensures(InstallStep::next, (step, event), next),
    ensures
        step is Request && (event matches InstallEvent::Answered { success, .. } && success)
            ==> next is CheckDir,
        step is Request && (event matches InstallEvent::Answered { success, .. } && !success)
            ==> next is Failed,
        step is CheckDir && (event matches InstallEvent::Found(there) && there) ==> next is Create,
        step is CheckDir && (event matches InstallEvent::Found(there) && !there)
            ==> next is CreateDir,
        step is CreateDir && event is Done ==> next is Create,
        step is Create && event is Done ==> next is Download,
        step is Download && event is Done ==> next is Write,
        step is Write && event is Done ==> next is SetPermissions,
        step is SetPermissions && event is Done ==> next is Finished,
        event is Error ==> next is Failed,
{
}

/// What a compiler says of its version is read just if it succeeded; otherwise the error holds what
/// it said.
pub proof fn law_failed_version(output: Output, res: Result<Version, SolcError>)
    requires
        !output.success,
        call_ensures(compile::version_from_output, (output,), res),
    ensures
        res is Err,
        res->Err_0@ == (SolcErrorView::SolcOutput {
            success: false,
            stdout: output.stdout@,
            stderr: output.stderr@,
        }),
{
}

/// Files are chosen just if no pattern matches them, in their order; without patterns all are.
pub proof fn law_choose_files(
    files: Vec<String>,
    avoid: Vec<Vec<bool>>,
    all: Vec<String>,
    some: Vec<String>,
    i: int,
)
    requires
        avoid@.len() == files@.len(),
        call_ensures(project::choose_files, (files, None::<Vec<Vec<bool>>>), all),
        call_ensures(project::choose_files, (files, Some(avoid)), some),
        0 <= i < files@.len(),
    ensures
        text::texts(all@) == text::texts(files@),
        (forall|p: int| 0 <= p < avoid@[i]@.len() ==> !(#[trigger] avoid@[i]@[p])) ==> text::texts(
            some@,
        ).contains(files@[i]@),
        (forall|j: int|
            0 <= j < files@.len() && (#[trigger] files@[j])@ == files@[i]@ ==> exists|p: int|
                0 <= p < avoid@[j]@.len() && #[trigger] avoid@[j]@[p]) ==> !text::texts(
            some@,
        ).contains(files@[i]@),
        some@.len() <= files@.len(),
        (forall|j: int|
            0 <= j < files@.len() ==> forall|p: int|
                0 <= p < (#[trigger] avoid@[j])@.len() ==> !(#[trigger] avoid@[j]@[p]))
            ==> text::texts(some@) == text::texts(files@),
{
    let names = text::texts(files@);
    assert(names.len() == files@.len());
    assert(names[i] == files@[i]@);
    stages::law_chosen_files(names, Some(avoid), files@[i]@);
    if forall|p: int| 0 <= p < avoid@[i]@.len() ==> !(#[trigger] avoid@[i]@[p]) {
        assert(stages::is_chosen(Some(avoid), i));
    }
    if text::texts(some@).contains(files@[i]@) {
        let j = choose|j: int|
            0 <= j < names.len() && #[trigger] names[j] == files@[i]@ && stages::is_chosen(
                Some(avoid),
                j,
            );
        assert(files@[j]@ == files@[i]@);
        assert(project::is_free(avoid@[j]@));
    }
    lemma_not_avoided(names, avoid@);
    assert(text::texts(some@).len() == some@.len());
}

/// Files are chosen one after the other: one more file comes last, or not at all.
pub proof fn law_files_are_chosen_in_order(
    files: Seq<Seq<char>>,
    last: Seq<char>,
    avoid: Vec<Vec<bool>>,
)
    requires
        files.len() < avoid@.len(),
    ensures
        ({
            let before = project::chosen_files(files, Some(avoid));
            let after = project::chosen_files(files.push(last), Some(avoid));
            let matches = avoid@[files.len() as int]@;
            &&& (forall|p: int| 0 <= p < matches.len() ==> !(#[trigger] matches[p])) ==> after
                == before.push(last)
            &&& (exists|p: int| 0 <= p < matches.len() && #[trigger] matches[p]) ==> after
                == before
        }),
{
    assert(files.push(last).drop_last() =~= files);
}

proof fn lemma_not_avoided(files: Seq<Seq<char>>, avoid: Seq<Vec<bool>>)
    requires
        files.len() <= avoid.len(),
    ensures
        project::not_avoided(files, avoid).len() <= files.len(),
        (forall|j: int| 0 <= j < files.len() ==> project::is_free((#[trigger] avoid[j])@))
            ==> project::not_avoided(files, avoid) == files,
    decreases files.len(),
{
    if files.len() > 0 {
        lemma_not_avoided(files.drop_last(), avoid);
        if forall|j: int| 0 <= j < files.len() ==> project::is_free((#[trigger] avoid[j])@) {
            assert(project::is_free(avoid[files.len() - 1]@));
            assert(files.drop_last().push(files.last()) =~= files);
        }
    } else {
        assert(project::not_avoided(files, avoid) =~= files);
    }
}

} // verus!
