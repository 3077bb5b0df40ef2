//! What holds of the commands that a project is compiled with, and of what comes of them.
use crate::compilers::zksolc;
use crate::compilers::zksolc::Host;
use crate::error::{SolcError, SolcErrorView};
use crate::key_laws;
use crate::maps;
use crate::maps::{ByText, TextMap};
use crate::path;
use crate::process::Output;
use crate::text;
use crate::version;
use crate::version::VersionView;
use crate::zksync::artifacts::{CompilerOutput, Contract, SourceFile};
use crate::zksync::compile;
use crate::zksync::compile::{Install, InstallView, ZkSolc, ZkSolcOS, ZkSolcView};
use crate::zksync::compilers::zksolc::settings::ZkSolcSettingsView;
use vstd::prelude::*;
use vstd::string::*;

verus! {

/// Whatever the settings, `zksolc` is told last that its input is JSON, right behind its
/// additional arguments, on which nothing else depends.
pub proof fn law_arguments_end(zksolc: ZkSolcView, settings: ZkSolcSettingsView)
    ensures
        zksolc.compile_args(settings) == (ZkSolcView {
            args: Seq::empty(),
            ..zksolc
        }).compile_args(settings).drop_last() + zksolc.args + seq!["--standard-json"@],
        zksolc.compile_args(settings).last() == "--standard-json"@,
{
    let bare = ZkSolcView { args: Seq::empty(), ..zksolc };
    assert(zksolc.compile_args(settings) =~= bare.compile_args(settings).drop_last() + zksolc.args
        + seq!["--standard-json"@]);
}

/// A base path is named in front of all arguments that there are without it.
pub proof fn law_base_path_comes_first(zksolc: ZkSolcView, settings: ZkSolcSettingsView)
    requires
        zksolc.base_path is Some,
    ensures
        zksolc.compile_args(settings) == seq!["--base-path"@, zksolc.base_path->0] + (ZkSolcView {
            base_path: None,
            ..zksolc
        }).compile_args(settings),
{
    let bare = ZkSolcView { base_path: None, ..zksolc };
    assert(zksolc.compile_args(settings) =~= seq!["--base-path"@, zksolc.base_path->0]
        + bare.compile_args(settings));
}

/// Each mode that the settings ask for is named by its flag, in front of all arguments that there
/// are without it: the system mode, then EVMLA, then missing libraries detection.
pub proof fn law_modes_are_named(zksolc: ZkSolcView, settings: ZkSolcSettingsView)
    requires
        zksolc.base_path is None,
    ensures
        settings.system_mode ==> zksolc.compile_args(settings) == seq!["--system-mode"@]
            + zksolc.compile_args(ZkSolcSettingsView { system_mode: false, ..settings }),
        !settings.system_mode && settings.force_evmla ==> zksolc.compile_args(settings) == seq![
            "--force-evmla"@,
        ] + zksolc.compile_args(ZkSolcSettingsView { force_evmla: false, ..settings }),
        !settings.system_mode && !settings.force_evmla && settings.detect_missing_libraries
            ==> zksolc.compile_args(settings) == seq!["--detect-missing-libraries"@]
            + zksolc.compile_args(
            ZkSolcSettingsView { detect_missing_libraries: false, ..settings },
        ),
{
    let args = zksolc.compile_args(settings);
    if settings.system_mode {
        assert(args =~= seq!["--system-mode"@] + zksolc.compile_args(
            ZkSolcSettingsView { system_mode: false, ..settings },
        ));
    } else if settings.force_evmla {
        assert(args =~= seq!["--force-evmla"@] + zksolc.compile_args(
            ZkSolcSettingsView { force_evmla: false, ..settings },
        ));
    } else if settings.detect_missing_libraries {
        assert(args =~= seq!["--detect-missing-libraries"@] + zksolc.compile_args(
            ZkSolcSettingsView { detect_missing_libraries: false, ..settings },
        ));
    }
}

/// The `solc` of the settings is named, and the one of `zksolc` only where the settings have none;
/// nothing stands in front of the additional arguments where there is none at all.
pub proof fn law_solc_is_named(zksolc: ZkSolcView, settings: ZkSolcSettingsView)
    requires
        zksolc.base_path is None,
        !settings.system_mode,
        !settings.force_evmla,
        !settings.detect_missing_libraries,
    ensures
        zksolc.compile_args(settings) == (if settings.solc is Some {
            seq!["--solc"@, settings.solc->0]
        } else if zksolc.solc is Some {
            seq!["--solc"@, zksolc.solc->0]
        } else {
            Seq::empty()
        }) + zksolc.args + seq!["--standard-json"@],
{
    assert(zksolc.compile_args(settings) =~= (if settings.solc is Some {
        seq!["--solc"@, settings.solc->0]
    } else if zksolc.solc is Some {
        seq!["--solc"@, zksolc.solc->0]
    } else {
        Seq::empty()
    }) + zksolc.args + seq!["--standard-json"@]);
}

/// Settings that `zksolc` takes out of its input make no difference to its arguments.
pub proof fn law_arguments_depend_on_modes_alone(
    zksolc: ZkSolcView,
    a: ZkSolcSettingsView,
    b: ZkSolcSettingsView,
)
    requires
        a.system_mode == b.system_mode,
        a.force_evmla == b.force_evmla,
        a.detect_missing_libraries == b.detect_missing_libraries,
        a.solc == b.solc,
    ensures
        zksolc.compile_args(a) == zksolc.compile_args(b),
{
}

/// The compiler runs again just where it failed and what it said about that holds `not found in
/// the project`, wherever that stands.
pub proof fn law_missing_libraries(output: Output, front: Seq<u8>, part: Seq<u8>, back: Seq<u8>)
    requires
        part.len() == "not found in the project"@.len(),
        forall|i: int|
            0 <= i < part.len() ==> part[i] as int
                == #[trigger] "not found in the project"@[i] as int,
    ensures
        output.success ==> !compile::misses_library(output),
        !output.success && output.stderr@ == front + part + back ==> compile::misses_library(
            output,
        ),
        compile::misses_library(output) ==> exists|a: Seq<u8>, b: Seq<u8>|
            output.stderr@ == #[trigger] (a + part + b),
{
    let wanted = compile::ascii("not found in the project"@);
    assert(part =~= wanted) by {
        reveal_strlit("not found in the project");
        assert forall|i: int| 0 <= i < part.len() implies part[i] == wanted[i] by {
            assert(part[i] as int == "not found in the project"@[i] as int);
        }
    }
    let said = output.stderr@;
    if said == front + part + back {
        let i = front.len() as int;
        assert(said.subrange(i, i + part.len()) =~= part);
    }
    if compile::misses_library(output) {
        let i = choose|i: int|
            0 <= i && i + part.len() <= said.len() && #[trigger] said.subrange(i, i + part.len())
                == part;
        let (a, b) = (said.take(i), said.skip(i + part.len()));
        assert(said =~= a + part + b) by {
            assert(said.subrange(i, i + part.len()) == part);
            assert forall|k: int| 0 <= k < said.len() implies said[k] == (a + part + b)[k] by {
                if i <= k < i + part.len() {
                    assert(said.subrange(i, i + part.len())[k - i] == said[k]);
                }
            }
        }
    }
}

/// What a run gives is what the compiler wrote, with the mark of the run, just where it succeeded;
/// otherwise it is all that the compiler left behind.
pub proof fn law_written(
    res: Result<(Vec<u8>, bool), SolcError>,
    output: Output,
    recompiled: bool,
)
    requires
        compile::is_written(res, output, recompiled),
    ensures
        res is Ok <==> output.success,
        res is Ok ==> res->Ok_0.0@ == output.stdout@ && res->Ok_0.1 == recompiled,
        res is Err ==> res->Err_0@ == (SolcErrorView::SolcOutput {
            success: output.success,
            stdout: output.stdout@,
            stderr: output.stderr@,
        }),
{
}

/// `zksolc` has the version that is the fourth word on the last line that is not blank, where a
/// `v` may stand in front.
pub proof fn law_version_is_told(said: Seq<char>, v: VersionView)
    requires
        v.valid(),
        zksolc::filled_lines(said).len() > 0,
        text::words(zksolc::filled_lines(said).last()).len() >= 4,
        text::without_prefixes(text::words(zksolc::filled_lines(said).last())[3], "v"@)
            == version::version_text(v),
    ensures
        compile::told_version(said) == Ok::<VersionView, SolcErrorView>(v),
{
    version::law_version_of_text(v);
}

/// Without a fourth word on the last line that is not blank no version is told.
pub proof fn law_no_version_is_told(said: Seq<char>)
    ensures
        zksolc::filled_lines(said).len() == 0 ==> compile::told_version(said) == Err::<
            VersionView,
            SolcErrorView,
        >(SolcErrorView::Message("Version not found in zksolc output"@)),
        zksolc::filled_lines(said).len() > 0 && text::words(
            zksolc::filled_lines(said).last(),
        ).len() < 4 ==> compile::told_version(said) == Err::<VersionView, SolcErrorView>(
            SolcErrorView::Message("Unable to retrieve version from zksolc output"@),
        ),
{
}

/// Where an input could not be compiled, the error of the first one is returned.
pub proof fn law_first_error_is_returned(
    res: Result<CompilerOutput, SolcError>,
    outputs: Seq<Result<CompilerOutput, SolcError>>,
    i: int,
)
    requires
        compile::is_merged(res, outputs),
        0 <= i < outputs.len(),
        outputs[i] is Err,
        forall|j: int| 0 <= j < i ==> (#[trigger] outputs[j]) is Ok,
    ensures
        res == Err::<CompilerOutput, SolcError>(outputs[i]->Err_0),
{
    lemma_first_error(outputs, i);
}

proof fn lemma_first_error(outputs: Seq<Result<CompilerOutput, SolcError>>, i: int)
    requires
        0 <= i < outputs.len(),
        outputs[i] is Err,
        forall|j: int| 0 <= j < i ==> (#[trigger] outputs[j]) is Ok,
    ensures
        compile::first_error(outputs) == Some(outputs[i]->Err_0),
    decreases outputs.len(),
{
    let rest = outputs.drop_last();
    assert forall|j: int| 0 <= j < i && j < rest.len() implies (#[trigger] rest[j]) is Ok by {
        assert(rest[j] == outputs[j]);
    }
    if i < rest.len() {
        lemma_first_error(rest, i);
    } else {
        lemma_no_error(rest);
    }
}

/// Where no output is an error, none is the first.
pub proof fn lemma_no_error(outputs: Seq<Result<CompilerOutput, SolcError>>)
    requires
        forall|j: int| 0 <= j < outputs.len() ==> (#[trigger] outputs[j]) is Ok,
    ensures
        compile::first_error(outputs) is None,
    decreases outputs.len(),
{
    if outputs.len() > 0 {
        let rest = outputs.drop_last();
        assert forall|j: int| 0 <= j < rest.len() implies (#[trigger] rest[j]) is Ok by {
            assert(rest[j] == outputs[j]);
        }
        assert(outputs[outputs.len() - 1] is Ok);
        lemma_no_error(rest);
    }
}

/// Where all inputs could be compiled, every message, source file and contract that was emitted is
/// in what is returned; where two outputs have the same file, that of the later one is.
pub proof fn law_outputs_are_merged(
    res: Result<CompilerOutput, SolcError>,
    outputs: Seq<Result<CompilerOutput, SolcError>>,
    i: int,
    k: int,
)
    requires
        compile::is_merged(res, outputs),
        forall|j: int| 0 <= j < outputs.len() ==> (#[trigger] outputs[j]) is Ok,
        forall|j: int|
            0 <= j < outputs.len() ==> maps::ordered::<ByText, SourceFile>(
                (#[trigger] outputs[j])->Ok_0.sources@,
            ) && maps::ordered::<ByText, TextMap<Contract>>(outputs[j]->Ok_0.contracts@),
        0 <= i < outputs.len(),
    ensures
        res is Ok,
        0 <= k < outputs[i]->Ok_0.errors@.len() ==> res->Ok_0.errors@.contains(
            outputs[i]->Ok_0.errors@[k],
        ),
        0 <= k < outputs[i]->Ok_0.sources@.len() && (forall|j: int|
            i < j < outputs.len() ==> maps::found::<ByText, SourceFile>(
                (#[trigger] outputs[j])->Ok_0.sources@,
                outputs[i]->Ok_0.sources@[k].0,
            ) is None) ==> maps::found::<ByText, SourceFile>(
            res->Ok_0.sources@,
            outputs[i]->Ok_0.sources@[k].0,
        ) == Some(outputs[i]->Ok_0.sources@[k].1),
        0 <= k < outputs[i]->Ok_0.contracts@.len() && (forall|j: int|
            i < j < outputs.len() ==> maps::found::<ByText, TextMap<Contract>>(
                (#[trigger] outputs[j])->Ok_0.contracts@,
                outputs[i]->Ok_0.contracts@[k].0,
            ) is None) ==> maps::found::<ByText, TextMap<Contract>>(
            res->Ok_0.contracts@,
            outputs[i]->Ok_0.contracts@[k].0,
        ) == Some(outputs[i]->Ok_0.contracts@[k].1),
{
    lemma_no_error(outputs);
    lemma_merged(outputs, i, k);
}

proof fn lemma_merged(outputs: Seq<Result<CompilerOutput, SolcError>>, i: int, k: int)
    requires
        forall|j: int|
            0 <= j < outputs.len() ==> maps::ordered::<ByText, SourceFile>(
                (#[trigger] outputs[j])->Ok_0.sources@,
            ) && maps::ordered::<ByText, TextMap<Contract>>(outputs[j]->Ok_0.contracts@),
        0 <= i < outputs.len(),
    ensures
        maps::ordered::<ByText, SourceFile>(compile::merged_sources(outputs)),
        maps::ordered::<ByText, TextMap<Contract>>(compile::merged_contracts(outputs)),
        0 <= k < outputs[i]->Ok_0.errors@.len() ==> compile::merged_errors(outputs).contains(
            outputs[i]->Ok_0.errors@[k],
        ),
        0 <= k < outputs[i]->Ok_0.sources@.len() && (forall|j: int|
            i < j < outputs.len() ==> maps::found::<ByText, SourceFile>(
                (#[trigger] outputs[j])->Ok_0.sources@,
                outputs[i]->Ok_0.sources@[k].0,
            ) is None) ==> maps::found::<ByText, SourceFile>(
            compile::merged_sources(outputs),
            outputs[i]->Ok_0.sources@[k].0,
        ) == Some(outputs[i]->Ok_0.sources@[k].1),
        0 <= k < outputs[i]->Ok_0.contracts@.len() && (forall|j: int|
            i < j < outputs.len() ==> maps::found::<ByText, TextMap<Contract>>(
                (#[trigger] outputs[j])->Ok_0.contracts@,
                outputs[i]->Ok_0.contracts@[k].0,
            ) is None) ==> maps::found::<ByText, TextMap<Contract>>(
            compile::merged_contracts(outputs),
            outputs[i]->Ok_0.contracts@[k].0,
        ) == Some(outputs[i]->Ok_0.contracts@[k].1),
    decreases outputs.len(),
{
    let rest = outputs.drop_last();
    let last = outputs.last()->Ok_0;
    assert(outputs[outputs.len() - 1] == outputs.last());
    assert forall|j: int| 0 <= j < rest.len() implies maps::ordered::<ByText, SourceFile>(
        (#[trigger] rest[j])->Ok_0.sources@,
    ) && maps::ordered::<ByText, TextMap<Contract>>(rest[j]->Ok_0.contracts@) by {
        assert(rest[j] == outputs[j]);
    }
    if rest.len() > 0 {
        lemma_merged(rest, if i < rest.len() { i } else { 0 }, k);
    }
    let before = compile::merged_sources(rest);
    let held = compile::merged_contracts(rest);
    if i < rest.len() {
        let mine = rest[i]->Ok_0;
        assert(rest[i] == outputs[i]);
        if 0 <= k < mine.errors@.len() {
            let at = compile::merged_errors(rest).index_of(mine.errors@[k]);
            assert(compile::merged_errors(outputs)[at] == mine.errors@[k]);
        }
        if 0 <= k < mine.sources@.len() {
            key_laws::law_extended::<ByText, SourceFile>(before, last.sources@, mine.sources@[k].0);
            if forall|j: int|
                i < j < outputs.len() ==> maps::found::<ByText, SourceFile>(
                    (#[trigger] outputs[j])->Ok_0.sources@,
                    mine.sources@[k].0,
                ) is None {
                assert forall|j: int| i < j < rest.len() implies maps::found::<
                    ByText,
                    SourceFile,
                >((#[trigger] rest[j])->Ok_0.sources@, mine.sources@[k].0) is None by {
                    assert(rest[j] == outputs[j]);
                }
                assert(maps::found::<ByText, SourceFile>(
                    outputs[outputs.len() - 1]->Ok_0.sources@,
                    mine.sources@[k].0,
                ) is None);
            }
        }
        if 0 <= k < mine.contracts@.len() {
            key_laws::law_extended::<ByText, TextMap<Contract>>(
                held,
                last.contracts@,
                mine.contracts@[k].0,
            );
            if forall|j: int|
                i < j < outputs.len() ==> maps::found::<ByText, TextMap<Contract>>(
                    (#[trigger] outputs[j])->Ok_0.contracts@,
                    mine.contracts@[k].0,
                ) is None {
                assert forall|j: int| i < j < rest.len() implies maps::found::<
                    ByText,
                    TextMap<Contract>,
                >((#[trigger] rest[j])->Ok_0.contracts@, mine.contracts@[k].0) is None by {
                    assert(rest[j] == outputs[j]);
                }
                assert(maps::found::<ByText, TextMap<Contract>>(
                    outputs[outputs.len() - 1]->Ok_0.contracts@,
                    mine.contracts@[k].0,
                ) is None);
            }
        }
    } else {
        if 0 <= k < last.errors@.len() {
            assert(compile::merged_errors(outputs)[compile::merged_errors(rest).len() + k]
                == last.errors@[k]);
        }
        if 0 <= k < last.sources@.len() {
            maps::lemma_found::<ByText, SourceFile>(last.sources@, last.sources@[k].0, k);
            key_laws::law_extended::<ByText, SourceFile>(before, last.sources@, last.sources@[k].0);
        }
        if 0 <= k < last.contracts@.len() {
            maps::lemma_found::<ByText, TextMap<Contract>>(
                last.contracts@,
                last.contracts@[k].0,
                k,
            );
            key_laws::law_extended::<ByText, TextMap<Contract>>(
                held,
                last.contracts@,
                last.contracts@[k].0,
            );
        }
    }
    key_laws::law_extended::<ByText, SourceFile>(before, last.sources@, Seq::empty());
    key_laws::law_extended::<ByText, TextMap<Contract>>(held, last.contracts@, Seq::empty());
}

/// The messages that are returned are those of all outputs, one output after the other, and
/// nothing is said of the ZKsync version.
pub proof fn law_messages_are_merged(
    res: Result<CompilerOutput, SolcError>,
    more: Result<CompilerOutput, SolcError>,
    outputs: Seq<Result<CompilerOutput, SolcError>>,
    last: CompilerOutput,
)
    requires
        compile::is_merged(res, outputs),
        res is Ok,
        compile::is_merged(more, outputs.push(Ok(last))),
    ensures
        more is Ok,
        more->Ok_0.errors@ == res->Ok_0.errors@ + last.errors@,
        outputs.len() == 0 ==> res->Ok_0.errors@.len() == 0 && res->Ok_0.sources@.len() == 0
            && res->Ok_0.contracts@.len() == 0,
        res->Ok_0.zksync_solc_version is None,
{
    assert(outputs.push(Ok(last)).drop_last() =~= outputs);
}

/// There are compilers for Linux and for macOS, with a processor of their own kind on macOS where
/// it is an ARM one.
pub proof fn law_systems(os: Seq<char>, arch: Seq<char>)
    ensures
        compile::system(os, arch) is Some <==> os == "linux"@ || os == "macos"@ || os
            == "darwin"@,
        compile::system("linux"@, arch) == Some(ZkSolcOS::Linux),
        compile::system("macos"@, arch) == Some(
            if arch == "aarch64"@ {
                ZkSolcOS::MacARM
            } else {
                ZkSolcOS::MacAMD
            },
        ),
        compile::system("darwin"@, arch) == compile::system("macos"@, arch),
{
    reveal_strlit("linux");
    reveal_strlit("macos");
    reveal_strlit("darwin");
    assert("linux"@[0] != "macos"@[0]);
    assert("linux"@.len() != "darwin"@.len());
}

/// A path of a compiler, or how to install one, is there just where the system and the home
/// directory are known; otherwise it is said which of them is not, the system first.
pub proof fn law_known_hosts(
    path: Result<String, SolcError>,
    install: Result<Install, SolcError>,
    host: Host,
    file_name: spec_fn(ZkSolcOS) -> Seq<char>,
    how: spec_fn(ZkSolcOS, Seq<char>) -> InstallView,
)
    requires
        compile::is_path(path, host, file_name),
        compile::is_install(install, host, how),
    ensures
        ({
            let known = host.os@ == "linux"@ || host.os@ == "macos"@ || host.os@ == "darwin"@;
            let os = compile::system(host.os@, host.arch@)->0;
            &&& (path is Ok <==> known && host.home is Some)
            &&& (install is Ok <==> known && host.home is Some)
            &&& !known ==> path->Err_0@ == SolcErrorView::Message(
                "Unsupported operating system "@ + host.os@,
            ) && install->Err_0@ == path->Err_0@
            &&& known && host.home is None ==> path->Err_0@ == SolcErrorView::Message(
                "Could not build SolcManager - homedir not found"@,
            ) && install->Err_0@ == path->Err_0@
            &&& path is Ok ==> path->Ok_0@ == path::join_path(
                path::join_path(host.home->0@, ".zksync"@),
                file_name(os),
            )
            &&& install is Ok ==> install->Ok_0.compilers_dir@ == how(
                os,
                host.home->0@,
            ).compilers_dir && install->Ok_0.compiler_path@ == how(
                os,
                host.home->0@,
            ).compiler_path && install->Ok_0.download_url@ == how(os, host.home->0@).download_url
        }),
{
    law_systems(host.os@, host.arch@);
}

/// The compilers are in the directory `.zksync` of the home directory, under the names that they
/// have where they are downloaded from.
pub proof fn law_installs(os: ZkSolcOS, home: Seq<char>, v: VersionView, release: Seq<char>)
    ensures
        ({
            let zk = compile::zksolc_install(os, home, v);
            let solc = compile::solc_install(os, home, release);
            let dir = path::join_path(home, ".zksync"@);
            let name = os.compiler() + "v"@ + version::version_text(v);
            let solc_name = os.solc_prefix() + release + "-1.0.1"@;
            &&& zk.compilers_dir == dir && solc.compilers_dir == dir
            &&& zk.compiler_path == path::join_path(dir, name)
            &&& solc.compiler_path == path::join_path(dir, solc_name)
            &&& zk.download_url == "https://github.com/matter-labs/zksolc-bin/releases/download/v"@
                + version::version_text(v) + "/"@ + name
            &&& solc.download_url
                == "https://github.com/matter-labs/era-solidity/releases/download/"@ + release
                + "-1.0.1/"@ + solc_name
        }),
{
    let fork = version::version_text(zksolc::solc_release());
    reveal_strlit("-1.0.1/");
    reveal_strlit("-1.0.1");
    reveal_strlit("-");
    reveal_strlit("/");
    reveal_strlit("v");
    reveal_strlit("-v");
    reveal_strlit("/zksolc-");
    reveal_strlit("zksolc-linux-amd64-musl-");
    reveal_strlit("zksolc-macosx-amd64-");
    reveal_strlit("zksolc-macosx-arm64-");
    reveal_strlit("linux-amd64-musl");
    reveal_strlit("macosx-amd64");
    reveal_strlit("macosx-arm64");
    assert(fork =~= seq!['1', '.', '0', '.', '1']) by {
        assert(version::metadata_text(zksolc::solc_release()) =~= Seq::<char>::empty());
        reveal_with_fuel(text::decimal, 2);
    }
    let name = os.compiler() + "v"@ + version::version_text(v);
    let solc_name = os.solc_prefix() + release + "-1.0.1"@;
    assert(compile::solc_file_name(os, release) =~= solc_name);
    assert("/zksolc-"@ + os.download_uri() + "-v"@ =~= "/"@ + os.compiler() + "v"@);
    assert(compile::zksolc_url(os, v)
        =~= "https://github.com/matter-labs/zksolc-bin/releases/download/v"@
        + version::version_text(v) + ("/zksolc-"@ + os.download_uri() + "-v"@)
        + version::version_text(v));
    assert(compile::zksolc_url(os, v)
        =~= "https://github.com/matter-labs/zksolc-bin/releases/download/v"@
        + version::version_text(v) + "/"@ + name);
    assert(compile::solc_url(os, release)
        =~= "https://github.com/matter-labs/era-solidity/releases/download/"@ + release
        + "-1.0.1/"@ + solc_name);
}

/// What holds of two instances that hold the same; a new one has its path and nothing else.
pub proof fn law_instances(a: ZkSolc, b: ZkSolc, path: Seq<char>)
    ensures
        a@ == b@ ==> {
            &&& a.zksolc@ == b.zksolc@
            &&& (a.base_path is Some <==> b.base_path is Some)
            &&& a.base_path is Some ==> a.base_path->0@ == b.base_path->0@
            &&& (a.solc is Some <==> b.solc is Some)
            &&& a.solc is Some ==> a.solc->0@ == b.solc->0@
            &&& a.args@.len() == b.args@.len()
            &&& forall|i: int|
                0 <= i < a.args@.len() ==> (#[trigger] a.args@[i])@ == b.args@[i]@
        },
        compile::plain(path).zksolc == path,
        compile::plain(path).base_path is None,
        compile::plain(path).solc is None,
        compile::plain(path).args.len() == 0,
{
    if a@ == b@ {
        assert(text::texts(a.args@).len() == text::texts(b.args@).len());
        assert forall|i: int| 0 <= i < a.args@.len() implies (#[trigger] a.args@[i])@
            == b.args@[i]@ by {
            assert(text::texts(a.args@)[i] == text::texts(b.args@)[i]);
        }
    }
}

} // verus!
