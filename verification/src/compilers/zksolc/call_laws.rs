//! How calls relate to what they are given, and to each other.
use crate::compilers::solc;
use crate::compilers::solc::{Solc, SolcCompiler};
use crate::compilers::zksolc;
use crate::compilers::zksolc::command_laws;
use crate::compilers::zksolc::install::{InstallEvent, InstallStep};
use crate::compilers::zksolc::laws;
use crate::compilers::zksolc::{
    Host, Install, SolcEvent, SolcStep, SolcVersionInfo, ZkSolc, ZkSolcCompiler, ZkSolcOS,
    ZkSolcVersionedInput,
};
use crate::error::{SolcError, SolcErrorView};
use crate::maps::PathSet;
use crate::path;
use crate::process::{Command, Output};
use crate::text;
use crate::version;
use crate::version::{CompilerVersion, CompilerVersionView, Version, VersionView};
use crate::zksync::artifacts::CompilerOutput;
use crate::zksync::compilers::zksolc::input::ZkSolcInput;
use vstd::prelude::*;
use vstd::string::*;

verus! {

/// A compiler is asked for its version by that argument alone.
pub proof fn law_version_command(path: &str, res: Command)
    requires
        call_ensures(ZkSolc::version_command, (path,), res),
    ensures
        res@.program == path@,
        res@.args.len() == 1,
        res@.args[0] == "--version"@,
        res@.current_dir is None,
{
}

/// The command that compiles runs `zksolc` in its base path, and tells it last that its input is
/// JSON, whatever the input is.
pub proof fn law_compile_command(compiler: &ZkSolc, input: &ZkSolcInput, res: Command)
    requires
        call_ensures(ZkSolc::compile_command, (compiler, input), res),
    ensures
        res@.program == compiler.zksolc@,
        res@.args.len() > 0,
        res@.args.last() == "--standard-json"@,
        match compiler.base_path {
            Some(base) => res@.current_dir == Some(base@),
            None => res@.current_dir is None,
        },
{
}

/// A Yul input is compiled with the arguments of any other input, but for `--solc` and its value;
/// two inputs of the same language are compiled with the same arguments.
pub proof fn law_arguments_by_language(
    compiler: &ZkSolc,
    yul: &ZkSolcInput,
    other: &ZkSolcInput,
    third: &ZkSolcInput,
    for_yul: Command,
    for_other: Command,
    for_third: Command,
)
    requires
        yul.language@ == "Yul"@,
        other.language@ != "Yul"@,
        third.language@ != "Yul"@,
        call_ensures(ZkSolc::compile_command, (compiler, yul), for_yul),
        call_ensures(ZkSolc::compile_command, (compiler, other), for_other),
        call_ensures(ZkSolc::compile_command, (compiler, third), for_third),
    ensures
        for_other@ == for_third@,
        match compiler.solc {
            Some(path) => for_other@.args == for_yul@.args.drop_last() + seq![
                "--solc"@,
                path@,
                "--standard-json"@,
            ],
            None => for_other@.args == for_yul@.args,
        },
{
    command_laws::law_yul_leaves_out_solc(*compiler);
}

/// What a compiler emits is kept as it is; only the version of the ZKsync fork of `solc` is added,
/// where there is one.
pub proof fn law_compile(compiler: &ZkSolc, output: CompilerOutput, res: CompilerOutput)
    requires
        call_ensures(ZkSolc::compile, (compiler, output), res),
    ensures
        res.errors == output.errors,
        res.sources == output.sources,
        res.contracts == output.contracts,
        res.zksync_solc_version == compiler.solc_version_info.zksync_version,
{
}

/// What a compiler wrote is returned just if it succeeded; otherwise the error holds what it said.
pub proof fn law_compile_output(output: Output, res: Result<Vec<u8>, SolcError>)
    requires
        call_ensures(zksolc::compile_output, (output,), res),
    ensures
        res is Ok <==> output.success,
        output.success ==> res->Ok_0 == output.stdout,
        !output.success ==> res->Err_0@ == (SolcErrorView::SolcOutput {
            success: false,
            stdout: output.stdout@,
            stderr: output.stderr@,
        }),
{
}

/// What a compiler wrote is text just if it is valid.
pub proof fn law_read_output(written: &Vec<u8>, res: Result<String, SolcError>)
    requires
        call_ensures(ZkSolc::read_output, (written,), res),
    ensures
        res is Ok <==> vstd::utf8::valid_utf8(written@),
        res is Ok ==> res->Ok_0@ == vstd::utf8::decode_utf8(written@),
        res is Err ==> res->Err_0@ is InvalidUtf8,
{
}

/// A failed attempt to run a compiler tells what went wrong, and with which compiler.
pub proof fn law_map_io_err(compiler: &str, message: &str, res: SolcError)
    requires
        call_ensures(zksolc::map_io_err, (compiler, message), res),
    ensures
        res@ == (SolcErrorView::Io { message: message@, path: compiler@ }),
{
}

/// The version of `solc` that has to be known is that of the given one, or of `solc`.
pub proof fn law_solc_to_ask(path: String, given: String, default: String)
    requires
        call_ensures(ZkSolc::solc_to_ask, (&Some(path),), given),
        call_ensures(ZkSolc::solc_to_ask, (&None::<String>,), default),
    ensures
        given@ == path@,
        default@ == "solc"@,
{
}

/// A new instance has what it is given and no paths, and a base path can be set afterwards without
/// changing anything else.
pub proof fn law_new_instance(
    path: String,
    solc: Option<String>,
    info: SolcVersionInfo,
    base: String,
    made: ZkSolc,
    based: ZkSolc,
)
    requires
        call_ensures(ZkSolc::new, (path, solc, info), made),
        call_ensures(ZkSolc::with_base_path, (made, base), based),
    ensures
        made.zksolc == path,
        made.solc == solc,
        made.solc_version_info == info,
        made.base_path is None,
        made.allow_paths@.len() == 0,
        made.include_paths@.len() == 0,
        based.base_path == Some(base),
        based.zksolc == path,
        based.solc == solc,
        based.solc_version_info == info,
        based.allow_paths == made.allow_paths,
        based.include_paths == made.include_paths,
{
}

/// The `zksolc` to compile an input with has the executable of the compiler, the paths of the
/// input and the given `solc`.
pub proof fn law_compiler_for_input(
    compiler: &ZkSolcCompiler,
    input: &ZkSolcVersionedInput,
    path: String,
    info: SolcVersionInfo,
    res: ZkSolc,
)
    requires
        call_ensures(ZkSolcCompiler::zksolc, (compiler, input, path, info), res),
    ensures
        res.zksolc == compiler.zksolc,
        res.base_path == input.cli_settings.base_path,
        res.allow_paths@ == input.cli_settings.allow_paths@,
        res.include_paths@ == input.cli_settings.include_paths@,
        res.solc == Some(path),
        res.solc_version_info == info,
{
}

/// A pinned `solc` is used as it is. Otherwise the version of the input is looked for first,
/// installed if it was not found, and then used.
pub proof fn law_next_solc_step(
    compiler: &ZkSolcCompiler,
    input: &ZkSolcVersionedInput,
    event: SolcEvent,
    res: SolcStep,
)
    requires
        call_ensures(ZkSolcCompiler::next_solc_step, (compiler, input, event), res),
    ensures
        compiler.solc matches SolcCompiler::Specific(pinned) ==> res == SolcStep::Use(pinned.solc),
        compiler.solc is AutoDetect ==> match event {
            SolcEvent::Wanted => res matches SolcStep::Search(v) && v@ == version::release_text(
                input.solc_version@,
            ),
            SolcEvent::Searched(None) => res matches SolcStep::Install(v) && v@
                == version::release_text(input.solc_version@),
            SolcEvent::Searched(Some(path)) => res == SolcStep::Use(path),
            SolcEvent::Installed(path) => res == SolcStep::Use(path),
        },
{
}

/// A `zksolc` version is looked for, installed if it was not found, and then used.
pub proof fn law_path_for_version(wanted: &Version, event: SolcEvent, res: SolcStep)
    requires
        call_ensures(ZkSolc::get_path_for_version, (wanted, event), res),
    ensures
        match event {
            SolcEvent::Wanted => res matches SolcStep::Search(v) && v@ == version::version_text(
                wanted@,
            ),
            SolcEvent::Searched(None) => res matches SolcStep::Install(v) && v@
                == version::version_text(wanted@),
            SolcEvent::Searched(Some(path)) => res == SolcStep::Use(path),
            SolcEvent::Installed(path) => res == SolcStep::Use(path),
        },
{
}

/// A compiler is installed at the path at which it is looked for, in the directory of compilers.
pub proof fn law_installed_where_looked_for(
    host: &Host,
    wanted: &Version,
    dir: Result<String, SolcError>,
    looked: Result<String, SolcError>,
    install: Result<Install, SolcError>,
)
    requires
        call_ensures(ZkSolc::compilers_dir, (host,), dir),
        call_ensures(ZkSolc::compiler_path, (host, wanted), looked),
        call_ensures(ZkSolc::blocking_install, (host, wanted), install),
    ensures
        looked is Ok <==> install is Ok,
        looked is Ok ==> dir is Ok && install->Ok_0.compiler_path@ == looked->Ok_0@
            && install->Ok_0.compilers_dir@ == dir->Ok_0@,
        looked is Err ==> looked->Err_0@ == install->Err_0@,
        dir is Ok <==> host.home is Some,
        host.home matches Some(home) ==> dir->Ok_0@ == path::join_path(home@, ".zksync"@),
{
}

/// A `solc` is installed at the path at which it is looked for, in the directory of compilers.
pub proof fn law_solc_installed_where_looked_for(
    host: &Host,
    wanted: &str,
    dir: Result<String, SolcError>,
    looked: Result<String, SolcError>,
    install: Result<Install, SolcError>,
)
    requires
        call_ensures(ZkSolc::compilers_dir, (host,), dir),
        call_ensures(ZkSolc::solc_path, (host, wanted), looked),
        call_ensures(ZkSolc::solc_blocking_install, (host, wanted), install),
    ensures
        looked is Ok <==> install is Ok,
        looked is Ok ==> dir is Ok && install->Ok_0.compiler_path@ == looked->Ok_0@
            && install->Ok_0.compilers_dir@ == dir->Ok_0@,
        looked is Err ==> looked->Err_0@ == install->Err_0@,
{
}

/// A compiler counts as installed just if there is a file at its path.
pub proof fn law_found_compilers(
    path: String,
    is_file: bool,
    zk: Option<String>,
    sol: Option<String>,
)
    requires
        call_ensures(ZkSolc::find_installed_version, (path, is_file), zk),
        call_ensures(ZkSolc::find_solc_installed_version, (path, is_file), sol),
    ensures
        is_file ==> zk == Some(path) && sol == Some(path),
        !is_file ==> zk is None && sol is None,
{
}

/// A system that there are compilers for is found by its names; any other is named in the error.
pub proof fn law_operating_system(
    os: &str,
    arch: &str,
    res: Result<ZkSolcOS, SolcError>,
)
    requires
        call_ensures(zksolc::get_operating_system, (os, arch), res),
    ensures
        res is Ok <==> os@ == "linux"@ || os@ == "macos"@ || os@ == "darwin"@,
        os@ == "linux"@ ==> (res->Ok_0 is LinuxARM64 <==> arch@ == "aarch64"@) && (
        res->Ok_0 is LinuxAMD64 <==> arch@ != "aarch64"@),
        os@ == "macos"@ || os@ == "darwin"@ ==> (res->Ok_0 is MacARM <==> arch@ == "aarch64"@) && (
        res->Ok_0 is MacAMD <==> arch@ != "aarch64"@),
        res matches Err(error) ==> error@ == SolcErrorView::Message(
            "Unsupported operating system "@ + os@,
        ),
{
    reveal_strlit("linux");
    reveal_strlit("macos");
    reveal_strlit("darwin");
    assert("linux"@[0] != "macos"@[0]);
    assert("linux"@[0] != "darwin"@[0]);
}

/// A lock is a file of the compilers directory that names the compiler and its version.
pub proof fn law_lock_file_path(dir: &str, compiler: &str, wanted: &str, res: String)
    requires
        call_ensures(zksolc::lock_file_path, (dir, compiler, wanted), res),
    ensures
        res@ == path::join_path(dir@, ".lock-"@ + compiler@ + "-"@ + wanted@),
{
}

/// That the directory of compilers cannot be created is told with the reason.
pub proof fn law_compilers_dir_failed(reason: &str, res: SolcError)
    requires
        call_ensures(zksolc::compilers_dir_failed, (reason,), res),
    ensures
        res@ == SolcErrorView::Message("Could not create compilers path: "@ + reason@),
{
}

/// With a pinned `solc` its release is the only version to choose from, and it is installed.
pub proof fn law_pinned_version(
    compiler: &ZkSolcCompiler,
    installed: Vec<Version>,
    res: Vec<CompilerVersion>,
)
    requires
        call_ensures(ZkSolcCompiler::available_versions, (compiler, installed), res),
        compiler.solc is Specific,
    ensures
        res@.len() == 1,
        res@[0]@ is Installed,
        ({
            let given = compiler.solc->Specific_0.version;
            let v = res@[0]@->Installed_0;
            &&& v.major == given.major
            &&& v.minor == given.minor
            &&& v.patch == given.patch
            &&& v.pre.len() == 0
            &&& v.build.len() == 0
        }),
{
    let given = compiler.solc->Specific_0.version;
    let only = CompilerVersionView::Installed(
        version::release(given.major, given.minor, given.patch),
    );
    let list = version::views(res@);
    broadcast use vstd::seq_lib::group_to_multiset_ensures;

    assert(seq![only].to_multiset().len() == 1);
    assert(list.len() == 1);
    assert(list.to_multiset().contains(list[0]));
    assert(seq![only].contains(list[0]));
    assert(list[0] == only);
    assert(list[0] == res@[0]@);
}

/// Without a pinned `solc` just the installed versions and those that can be installed besides are
/// there to choose from, in ascending order.
pub proof fn law_versions_to_choose_from(
    compiler: &ZkSolcCompiler,
    installed: Vec<Version>,
    res: Vec<CompilerVersion>,
    v: VersionView,
)
    requires
        call_ensures(ZkSolcCompiler::available_versions, (compiler, installed), res),
        compiler.solc is AutoDetect,
    ensures
        version::views(res@).contains(CompilerVersionView::Installed(v)) <==> version::views(
            installed@,
        ).contains(v),
        version::views(res@).contains(CompilerVersionView::Remote(v))
            <==> zksolc::available_releases().contains(v) && !zksolc::has_numbers(
            version::views(installed@),
            v,
        ),
        version::sorted_by_version::<CompilerVersion>(version::views(res@)),
{
    let list = version::views(res@);
    let known = zksolc::known_versions(version::views(installed@));
    broadcast use vstd::seq_lib::group_to_multiset_ensures;

    laws::law_known_versions(version::views(installed@), CompilerVersionView::Installed(v));
    laws::law_known_versions(version::views(installed@), CompilerVersionView::Remote(v));
    assert(list.contains(CompilerVersionView::Installed(v)) <==> list.to_multiset().contains(
        CompilerVersionView::Installed(v),
    ));
    assert(known.contains(CompilerVersionView::Installed(v)) <==> known.to_multiset().contains(
        CompilerVersionView::Installed(v),
    ));
    assert(list.contains(CompilerVersionView::Remote(v)) <==> list.to_multiset().contains(
        CompilerVersionView::Remote(v),
    ));
    assert(known.contains(CompilerVersionView::Remote(v)) <==> known.to_multiset().contains(
        CompilerVersionView::Remote(v),
    ));
}

/// Just the versions that the files of the compilers directory are named after are installed, in
/// ascending order; without a home directory there are none.
pub proof fn law_installed(host: &Host, files: &Vec<String>, res: Vec<Version>, v: VersionView)
    requires
        call_ensures(ZkSolc::solc_installed_versions, (host, files), res),
    ensures
        host.home is None ==> res@.len() == 0,
        zksolc::system(host.os@, host.arch@) matches Some(os) ==> host.home is Some ==> (
        version::views(res@).contains(v) <==> exists|i: int|
            0 <= i < files@.len() && zksolc::installed_version(os, (#[trigger] files@[i])@)
                == Some(v)),
        version::sorted_by_version::<Version>(version::views(res@)),
{
    let list = version::views(res@);
    broadcast use vstd::seq_lib::group_to_multiset_ensures;

    if host.home is None {
        assert(Seq::<VersionView>::empty().to_multiset().len() == 0);
        assert(list.len() == 0);
    }
    if let (Some(_), Some(os)) = (host.home, zksolc::system(host.os@, host.arch@)) {
        let names = text::texts(files@);
        let all = zksolc::installed_versions(os, names);
        lemma_installed(os, names, v);
        assert(list.contains(v) <==> list.to_multiset().contains(v));
        assert(all.contains(v) <==> all.to_multiset().contains(v));
        assert(names.len() == files@.len());
        if all.contains(v) {
            let i = choose|i: int|
                0 <= i < names.len() && zksolc::installed_version(os, #[trigger] names[i])
                    == Some(v);
            assert(names[i] == files@[i]@);
        }
        if exists|i: int|
            0 <= i < files@.len() && zksolc::installed_version(os, (#[trigger] files@[i])@)
                == Some(v) {
            let i = choose|i: int|
                0 <= i < files@.len() && zksolc::installed_version(os, (#[trigger] files@[i])@)
                    == Some(v);
            assert(names[i] == files@[i]@);
        }
    }
}

proof fn lemma_installed(os: ZkSolcOS, files: Seq<Seq<char>>, v: VersionView)
    ensures
        zksolc::installed_versions(os, files).contains(v) <==> exists|i: int|
            0 <= i < files.len() && zksolc::installed_version(os, #[trigger] files[i]) == Some(v),
    decreases files.len(),
{
    if files.len() > 0 {
        let rest = files.drop_last();
        let before = zksolc::installed_versions(os, rest);
        let at = files.len() - 1;
        lemma_installed(os, rest, v);
        if let Some(last) = zksolc::installed_version(os, files.last()) {
            vstd::seq_lib::lemma_seq_contains_after_push(before, last, v);
        }
        if exists|i: int|
            0 <= i < files.len() && zksolc::installed_version(os, #[trigger] files[i]) == Some(
                v,
            ) {
            let i = choose|i: int|
                0 <= i < files.len() && zksolc::installed_version(os, #[trigger] files[i])
                    == Some(v);
            if i < at {
                assert(rest[i] == files[i]);
            }
        }
        if before.contains(v) {
            let i = choose|i: int|
                0 <= i < rest.len() && zksolc::installed_version(os, #[trigger] rest[i]) == Some(
                    v,
                );
            assert(rest[i] == files[i]);
        }
        assert(files[at] == files.last());
    }
}

/// A `solc` keeps all but what is set.
pub proof fn law_solc_paths(
    given: Solc,
    base: String,
    paths: PathSet,
    based: Solc,
    allowed: Solc,
    included: Solc,
    copied: PathSet,
)
    requires
        call_ensures(Solc::with_base_path, (given, base), based),
        call_ensures(Solc::with_allowed_paths, (given, paths), allowed),
        call_ensures(Solc::with_include_paths, (given, paths), included),
        call_ensures(solc::copy_paths, (&paths,), copied),
    ensures
        based.base_path == Some(base),
        based.solc == given.solc && based.version == given.version && based.args == given.args,
        based.allow_paths == given.allow_paths && based.include_paths == given.include_paths,
        allowed.allow_paths == paths,
        allowed.solc == given.solc && allowed.version == given.version && allowed.args
            == given.args,
        allowed.base_path == given.base_path && allowed.include_paths == given.include_paths,
        included.include_paths == paths,
        included.solc == given.solc && included.version == given.version && included.args
            == given.args,
        included.base_path == given.base_path && included.allow_paths == given.allow_paths,
        copied@ == paths@,
{
}

/// Errors hold what they are made with.
pub proof fn law_errors(message: &str, path: &str, told: SolcError, failed: SolcError)
    requires
        call_ensures(SolcError::msg, (message,), told),
        call_ensures(SolcError::io, (message, path), failed),
    ensures
        told@ == SolcErrorView::Message(message@),
        failed@ == (SolcErrorView::Io { message: message@, path: path@ }),
{
}

/// The files of the compilers begin with the name of the compiler, of the system and of the
/// processor.
pub proof fn law_prefixes(os: &ZkSolcOS, zk: &str, sol: &str)
    requires
        call_ensures(ZkSolcOS::get_zksolc_prefix, (os,), zk),
        call_ensures(ZkSolcOS::get_solc_prefix, (os,), sol),
    ensures
        zk@ == (match os {
            ZkSolcOS::LinuxAMD64 => "zksolc-linux-amd64-musl-"@,
            ZkSolcOS::LinuxARM64 => "zksolc-linux-arm64-musl-"@,
            ZkSolcOS::MacAMD => "zksolc-macosx-amd64-"@,
            ZkSolcOS::MacARM => "zksolc-macosx-arm64-"@,
        }),
        sol@ == (match os {
            ZkSolcOS::LinuxAMD64 => "solc-linux-amd64-"@,
            ZkSolcOS::LinuxARM64 => "solc-linux-arm64-"@,
            ZkSolcOS::MacAMD => "solc-macosx-amd64-"@,
            ZkSolcOS::MacARM => "solc-macosx-arm64-"@,
        }),
{
}

/// The steps of an installation follow on each other in one order: what is sent is read before the
/// lock is taken, and the file is written only if it is not there by then. A step that fails ends
/// the installation.
pub proof fn law_install_steps(
    step: InstallStep,
    event: InstallEvent,
    label: &str,
    next: InstallStep,
)
    requires
        step@.allows(event@),
        call_ensures(InstallStep::next, (step, event, label), next),
    ensures
        step is Request && (event matches InstallEvent::Answered { success, .. } && success)
            ==> next is Download,
        step is Request && (event matches InstallEvent::Answered { success, .. } && !success)
            ==> next is Failed,
        step is Download && event is Done ==> next is OpenLock,
        step is OpenLock && event is Done ==> next is TakeLock,
        step is TakeLock && event is Done ==> next is Check,
        step is Check && (event matches InstallEvent::Found(there) && there) ==> next is Finished,
        step is Check && (event matches InstallEvent::Found(there) && !there) ==> next is Create,
        step is Create && event is Done ==> next is Write,
        step is Write && event is Done ==> next is SetPermissions,
        step is SetPermissions && event is Done ==> next is Finished,
        event is Error ==> next is Failed,
{
}

/// What a compiler says of its version is read just if it succeeded; otherwise the error holds what
/// it said.
pub proof fn law_failed_version(
    output: Output,
    info: Result<SolcVersionInfo, SolcError>,
    version: Result<Version, SolcError>,
)
    requires
        !output.success,
        call_ensures(zksolc::get_solc_version_info, (output,), info),
        call_ensures(zksolc::version_from_output, (output,), version),
    ensures
        info is Err,
        version is Err,
        info->Err_0@ == (SolcErrorView::SolcOutput {
            success: false,
            stdout: output.stdout@,
            stderr: output.stderr@,
        }),
        version->Err_0@ == info->Err_0@,
{
}

} // verus!
