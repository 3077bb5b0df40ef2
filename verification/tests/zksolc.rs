use foundry_compilers::compilers::solc::{Solc, SolcCompiler};
use foundry_compilers::compilers::zksolc::{
    compile_output, compilers_dir_failed, get_operating_system, get_solc_version_info,
    lock_file_path, map_io_err, version_from_output, zksolc_version, zksync_solc_release,
    CliSettings, Host, SolcEvent, SolcStep, SolcVersionInfo, ZkSolc, ZkSolcCompiler, ZkSolcOS,
    ZkSolcVersionedInput, ZKSOLC,
};
use foundry_compilers::error::SolcError;
use foundry_compilers::maps::PathSet;
use foundry_compilers::process::Output;
use foundry_compilers::version::{CompilerVersion, Version, Versioned};
use foundry_compilers::zksync::artifacts::CompilerOutput;
use foundry_compilers::zksync::compilers::zksolc::input::ZkSolcInput;

fn host() -> Host {
    Host {
        os: "linux".to_string(),
        arch: "x86_64".to_string(),
        home: Some("/home/me".to_string()),
    }
}

fn said(stdout: &str) -> Output {
    Output { success: true, stdout: stdout.as_bytes().to_vec(), stderr: Vec::new() }
}

fn failure(stderr: &str) -> Output {
    Output { success: false, stdout: Vec::new(), stderr: stderr.as_bytes().to_vec() }
}

fn message(error: SolcError) -> String {
    match error {
        SolcError::Message(message) => message,
        other => panic!("{other:?}"),
    }
}

fn version(text: &str) -> Version {
    Version::parse(text).unwrap()
}

fn paths(list: &[&str]) -> PathSet {
    let mut set = PathSet::new();
    for p in list {
        set.insert(p.to_string(), ());
    }
    set
}

fn info() -> SolcVersionInfo {
    SolcVersionInfo {
        version: version("0.8.27"),
        zksync_version: Some(version("0.8.27-1.0.1")),
    }
}

fn solc(path: &str, v: &str) -> Solc {
    Solc {
        solc: path.to_string(),
        version: version(v),
        base_path: None,
        allow_paths: PathSet::new(),
        include_paths: PathSet::new(),
        args: Vec::new(),
    }
}

const ZKSYNC_SOLC: &str = "solc, the solidity compiler commandline interface\n\
    Version: 0.8.27+commit.40a35a09.Linux.g++\nZKsync: 0.8.27-1.0.1\n";
const VANILLA_SOLC: &str = "solc, the solidity compiler commandline interface\n\
    Version: 0.8.18+commit.87f61d96.Linux.g++\n";

#[test]
fn mod_zksolc_version_works() {
    let v = version_from_output(said(
        "Solidity compiler for ZKsync v1.5.7 (LLVM build f9f732c8ebdb88fb8cd4528482a00e4f65bcb8b7)\n",
    ))
    .unwrap();
    assert!(v.same(&zksolc_version()));
}

#[test]
fn get_solc_type_and_version_works_for_zksync_solc() {
    let solc_v = get_solc_version_info(said(ZKSYNC_SOLC)).unwrap();
    let zksync_v = solc_v.zksync_version.unwrap();
    let prerelease = Version::parse(zksync_v.pre.as_str()).unwrap();
    assert_eq!(solc_v.version.minor, 8);
    assert_eq!(prerelease, zksync_solc_release());
    assert_eq!(solc_v.version.to_text(), "0.8.27+commit.40a35a09.Linux.gcc");
}

#[test]
fn get_solc_type_and_version_works_for_vanilla_solc() {
    let solc_v = get_solc_version_info(said(VANILLA_SOLC)).unwrap();
    assert_eq!(solc_v.version.minor, 8);
    assert!(solc_v.zksync_version.is_none());
}

#[test]
fn solc_versions_that_are_not_told_are_errors() {
    let error = get_solc_version_info(said("solc\n\n  \n")).unwrap_err();
    assert_eq!(message(error), "Version not found in Solc output");
    match get_solc_version_info(said("solc\nVersion: none\n")).unwrap_err() {
        SolcError::Semver(reason) => {
            assert_eq!(reason, semver::Version::parse("none").unwrap_err().to_string())
        }
        other => panic!("{other:?}"),
    }
    match get_solc_version_info(failure("broken")).unwrap_err() {
        SolcError::SolcOutput(output) => assert_eq!(output.stderr, b"broken".to_vec()),
        other => panic!("{other:?}"),
    }
    // a ZKsync line that holds no version is passed over
    let info = get_solc_version_info(said("solc\nVersion: 0.8.1\nZKsync: later\n")).unwrap();
    assert!(info.zksync_version.is_none());
    // blank lines do not count, and the version may have several labels in front
    let info = get_solc_version_info(said("\nsolc\n \nVersion: Version: 0.8.1\n")).unwrap();
    assert_eq!(info.version.to_text(), "0.8.1");
}

#[test]
fn output_that_is_no_utf8_is_read_with_replacements() {
    let mut bytes = b"solc \xff\nVersion: 0.8.1\n".to_vec();
    let output = Output { success: true, stdout: bytes.clone(), stderr: Vec::new() };
    assert_eq!(get_solc_version_info(output).unwrap().version.to_text(), "0.8.1");
    bytes.extend_from_slice(b"ZKsync: \xfe1.0.0\n");
    let output = Output { success: true, stdout: bytes, stderr: Vec::new() };
    assert!(get_solc_version_info(output).unwrap().zksync_version.is_none());
}

#[test]
fn the_first_version_on_the_last_line_is_taken() {
    let v = version_from_output(said("zksolc v0.0.1\nthe version vv1.5.7-rc.1 of 2.0.0\n\n")).unwrap();
    assert_eq!(v.to_text(), "1.5.7-rc.1");
    let error = version_from_output(said(" \n")).unwrap_err();
    assert_eq!(message(error), "Version not found in zksolc output");
    let error = version_from_output(said("v1.0.0\nno version\n")).unwrap_err();
    assert_eq!(message(error), "Unable to retrieve version from zksolc output");
    assert!(matches!(version_from_output(failure("x")), Err(SolcError::SolcOutput(_))));
}

#[test]
fn systems_are_told_by_their_names() {
    assert_eq!(get_operating_system("linux", "x86_64").unwrap(), ZkSolcOS::LinuxAMD64);
    assert_eq!(get_operating_system("linux", "aarch64").unwrap(), ZkSolcOS::LinuxARM64);
    assert_eq!(get_operating_system("macos", "x86_64").unwrap(), ZkSolcOS::MacAMD);
    assert_eq!(get_operating_system("darwin", "aarch64").unwrap(), ZkSolcOS::MacARM);
    let error = get_operating_system("windows", "x86_64").unwrap_err();
    assert_eq!(message(error), "Unsupported operating system windows");
    assert_eq!(ZkSolcOS::LinuxAMD64.get_zksolc_prefix(), "zksolc-linux-amd64-musl-");
    assert_eq!(ZkSolcOS::LinuxARM64.get_zksolc_prefix(), "zksolc-linux-arm64-musl-");
    assert_eq!(ZkSolcOS::MacAMD.get_zksolc_prefix(), "zksolc-macosx-amd64-");
    assert_eq!(ZkSolcOS::MacARM.get_zksolc_prefix(), "zksolc-macosx-arm64-");
    assert_eq!(ZkSolcOS::LinuxAMD64.get_solc_prefix(), "solc-linux-amd64-");
    assert_eq!(ZkSolcOS::LinuxARM64.get_solc_prefix(), "solc-linux-arm64-");
    assert_eq!(ZkSolcOS::MacAMD.get_solc_prefix(), "solc-macosx-amd64-");
    assert_eq!(ZkSolcOS::MacARM.get_solc_prefix(), "solc-macosx-arm64-");
    assert_eq!(ZKSOLC, "zksolc");
}

#[test]
fn compilers_are_in_the_home_directory() {
    assert_eq!(ZkSolc::compilers_dir(&host()).unwrap(), "/home/me/.zksync");
    assert_eq!(
        ZkSolc::compiler_path(&host(), &version("1.5.7")).unwrap(),
        "/home/me/.zksync/zksolc-linux-amd64-musl-v1.5.7"
    );
    assert_eq!(
        ZkSolc::solc_path(&host(), "0.8.27").unwrap(),
        "/home/me/.zksync/solc-linux-amd64-0.8.27-1.0.1"
    );
    assert_eq!(
        lock_file_path("/home/me/.zksync", "solc", "0.8.27"),
        "/home/me/.zksync/.lock-solc-0.8.27"
    );
    let mut homeless = host();
    homeless.home = None;
    let error = ZkSolc::compiler_path(&homeless, &version("1.5.7")).unwrap_err();
    assert_eq!(message(error), "Could not build SolcManager - homedir not found");
    homeless.os = "plan9".to_string();
    let error = ZkSolc::solc_path(&homeless, "0.8.27").unwrap_err();
    assert_eq!(message(error), "Unsupported operating system plan9");
    assert_eq!(
        ZkSolc::find_installed_version("p".to_string(), true),
        Some("p".to_string())
    );
    assert_eq!(ZkSolc::find_solc_installed_version("p".to_string(), false), None);
    assert_eq!(
        message(compilers_dir_failed("no space")),
        "Could not create compilers path: no space"
    );
}

#[test]
fn installations_know_where_to_download_from() {
    let install = ZkSolc::blocking_install(&host(), &version("1.5.7")).unwrap();
    assert_eq!(
        install.download_url,
        "https://github.com/matter-labs/zksolc-bin/releases/download/v1.5.7/zksolc-linux-amd64-musl-v1.5.7"
    );
    assert_eq!(install.compilers_dir, "/home/me/.zksync");
    assert_eq!(install.compiler_path, "/home/me/.zksync/zksolc-linux-amd64-musl-v1.5.7");
    assert_eq!(install.lock_path, "/home/me/.zksync/.lock-zksolc-1.5.7");
    assert_eq!(install.label, "zksolc-1.5.7");
    let install = ZkSolc::blocking_install(&host(), &version("1.5.8-prerelease-a3+b")).unwrap();
    assert_eq!(
        install.download_url,
        "https://github.com/matter-labs/era-compiler-solidity/releases/download/prerelease-a3/zksolc-zksolc-linux-amd64-musl-v1.5.8"
    );
    assert_eq!(install.label, "zksolc-1.5.8-prerelease-a3+b");
    let install = ZkSolc::solc_blocking_install(&host(), "0.8.27").unwrap();
    assert_eq!(
        install.download_url,
        "https://github.com/matter-labs/era-solidity/releases/download/0.8.27-1.0.1/solc-linux-amd64-0.8.27-1.0.1"
    );
    assert_eq!(install.compiler_path, "/home/me/.zksync/solc-linux-amd64-0.8.27-1.0.1");
    assert_eq!(install.lock_path, "/home/me/.zksync/.lock-solc-0.8.27");
    assert_eq!(install.label, "solc-0.8.27");
    let mut homeless = host();
    homeless.home = None;
    assert!(ZkSolc::blocking_install(&homeless, &version("1.5.7")).is_err());
    assert!(ZkSolc::solc_blocking_install(&homeless, "0.8.27").is_err());
}

#[test]
fn installed_versions_are_found_among_files() {
    let files: Vec<String> = [
        "solc-linux-amd64-0.8.27-1.0.1",
        "solc-linux-amd64-0.8.9-1.0.1",
        "solc-linux-amd64-0.8.1-1.0.0",
        "solc-macosx-amd64-0.8.2-1.0.1",
        "zksolc-linux-amd64-musl-v1.5.7",
        "solc-linux-amd64-x-1.0.1",
        ".lock-solc-0.8.27",
        "solc-linux-amd64-1.0.1",
    ]
    .iter()
    .map(|s| s.to_string())
    .collect();
    let found = ZkSolc::solc_installed_versions(&host(), &files);
    let texts: Vec<String> = found.iter().map(|v| v.to_text()).collect();
    assert_eq!(texts, vec!["0.8.9", "0.8.27", "1.0.1"]);
    let mut homeless = host();
    homeless.home = None;
    assert!(ZkSolc::solc_installed_versions(&homeless, &files).is_empty());
}

#[test]
fn the_file_of_an_installed_version_is_recognised() {
    for v in ZkSolc::solc_available_versions() {
        let path = ZkSolc::solc_path(&host(), &v.to_text()).unwrap();
        let file = path.rsplit('/').next().unwrap().to_string();
        let found = ZkSolc::installed_versions_in(ZkSolcOS::LinuxAMD64, &vec![file]);
        assert_eq!(found.len(), 1);
        assert!(found[0].same(&v));
    }
}

#[test]
fn available_versions_are_listed_in_order() {
    let all = ZkSolc::solc_available_versions();
    let texts: Vec<String> = all.iter().map(|v| v.to_text()).collect();
    assert_eq!(texts.len(), 15 + 18 + 13 + 7 + 29);
    assert_eq!(texts[0], "0.4.12");
    assert_eq!(texts[14], "0.4.26");
    assert_eq!(texts[15], "0.5.0");
    assert_eq!(texts[32], "0.5.17");
    assert_eq!(texts[45], "0.6.12");
    assert_eq!(texts[52], "0.7.6");
    assert_eq!(texts[81], "0.8.28");
}

#[test]
fn versions_to_choose_from_are_installed_or_remote() {
    let compiler =
        ZkSolcCompiler { zksolc: "zksolc".to_string(), solc: SolcCompiler::AutoDetect };
    let installed = vec![version("0.8.27"), version("0.8.3-x"), version("0.9.0")];
    let all = compiler.available_versions(installed);
    assert_eq!(all.len(), 82 + 1);
    let local: Vec<String> = all
        .iter()
        .filter(|v| matches!(v, CompilerVersion::Installed(_)))
        .map(|v| v.version().to_text())
        .collect();
    assert_eq!(local, vec!["0.8.3-x", "0.8.27", "0.9.0"]);
    assert!(!all.iter().any(|v| v.version().to_text() == "0.8.3"));
    assert_eq!(all[82].version().to_text(), "0.9.0");
    assert_eq!(all[0].version().to_text(), "0.4.12");
    let compiler = ZkSolcCompiler {
        zksolc: "zksolc".to_string(),
        solc: SolcCompiler::Specific(solc("/bin/solc", "0.8.20+commit.1")),
    };
    let all = compiler.available_versions(vec![version("0.4.12")]);
    assert_eq!(all, vec![CompilerVersion::Installed(version("0.8.20"))]);
}

fn versioned_input() -> ZkSolcVersionedInput {
    ZkSolcVersionedInput {
        input: ZkSolcInput::default(),
        solc_version: version("0.8.20+commit.1"),
        cli_settings: CliSettings {
            base_path: Some("/root".to_string()),
            allow_paths: paths(&["/b", "/a"]),
            include_paths: paths(&["lib"]),
        },
    }
}

#[test]
fn solc_is_searched_before_it_is_installed() {
    let input = versioned_input();
    let compiler =
        ZkSolcCompiler { zksolc: "zksolc".to_string(), solc: SolcCompiler::AutoDetect };
    match compiler.next_solc_step(&input, SolcEvent::Wanted) {
        SolcStep::Search(v) => assert_eq!(v, "0.8.20"),
        other => panic!("{other:?}"),
    }
    match compiler.next_solc_step(&input, SolcEvent::Searched(None)) {
        SolcStep::Install(v) => assert_eq!(v, "0.8.20"),
        other => panic!("{other:?}"),
    }
    match compiler.next_solc_step(&input, SolcEvent::Searched(Some("/s".to_string()))) {
        SolcStep::Use(path) => assert_eq!(path, "/s"),
        other => panic!("{other:?}"),
    }
    match compiler.next_solc_step(&input, SolcEvent::Installed("/t".to_string())) {
        SolcStep::Use(path) => assert_eq!(path, "/t"),
        other => panic!("{other:?}"),
    }
    let compiler = ZkSolcCompiler {
        zksolc: "zksolc".to_string(),
        solc: SolcCompiler::Specific(solc("/bin/solc", "0.8.20")),
    };
    match compiler.next_solc_step(&input, SolcEvent::Wanted) {
        SolcStep::Use(path) => assert_eq!(path, "/bin/solc"),
        other => panic!("{other:?}"),
    }
    let zksolc = compiler.zksolc(&input, "/bin/solc".to_string(), info());
    assert_eq!(zksolc.zksolc, "zksolc");
    assert_eq!(zksolc.solc, Some("/bin/solc".to_string()));
    assert_eq!(zksolc.base_path, Some("/root".to_string()));
    assert_eq!(zksolc.allow_paths.len(), 2);
    assert!(zksolc.include_paths.contains("lib"));
}

#[test]
fn zksolc_is_searched_before_it_is_installed() {
    let wanted = version("1.5.7-rc.1");
    match ZkSolc::get_path_for_version(&wanted, SolcEvent::Wanted) {
        SolcStep::Search(v) => assert_eq!(v, "1.5.7-rc.1"),
        other => panic!("{other:?}"),
    }
    match ZkSolc::get_path_for_version(&wanted, SolcEvent::Searched(Some("/z".to_string()))) {
        SolcStep::Use(path) => assert_eq!(path, "/z"),
        other => panic!("{other:?}"),
    }
    match ZkSolc::get_path_for_version(&wanted, SolcEvent::Searched(None)) {
        SolcStep::Install(v) => assert_eq!(v, "1.5.7-rc.1"),
        other => panic!("{other:?}"),
    }
    match ZkSolc::get_path_for_version(&wanted, SolcEvent::Installed("/y".to_string())) {
        SolcStep::Use(path) => assert_eq!(path, "/y"),
        other => panic!("{other:?}"),
    }
}

#[test]
fn commands_hold_the_arguments_in_order() {
    let mut zksolc = ZkSolc::new("/bin/zksolc".to_string(), Some("/bin/solc".to_string()), info());
    let mut input = ZkSolcInput::default();
    let cmd = zksolc.compile_command(&input);
    assert_eq!(cmd.program, "/bin/zksolc");
    assert_eq!(cmd.args, vec!["--solc", "/bin/solc", "--standard-json"]);
    assert_eq!(cmd.current_dir, None);
    zksolc.allow_paths = paths(&["/b", "/a"]);
    zksolc.include_paths = paths(&["/root/", "/root/lib", "/else"]);
    zksolc = zksolc.with_base_path("/root".to_string());
    let cmd = zksolc.compile_command(&input);
    assert_eq!(
        cmd.args,
        vec![
            "--allow-paths", "/a,/b", "--include-path", "/else", "--include-path", "/root/lib",
            "--base-path", "/root", "--solc", "/bin/solc", "--standard-json",
        ]
    );
    assert_eq!(cmd.current_dir, Some("/root".to_string()));
    input.language = "Yul".to_string();
    let cmd = zksolc.compile_command(&input);
    assert!(!cmd.args.contains(&"--solc".to_string()));
    let cmd = ZkSolc::version_command("/bin/solc");
    assert_eq!(cmd.program, "/bin/solc");
    assert_eq!(cmd.args, vec!["--version"]);
    assert_eq!(ZkSolc::solc_to_ask(&None), "solc");
    assert_eq!(ZkSolc::solc_to_ask(&Some("/s".to_string())), "/s");
}

#[test]
fn outputs_are_checked_before_they_are_read() {
    assert_eq!(compile_output(said("{}")).unwrap(), b"{}".to_vec());
    match compile_output(failure("no")).unwrap_err() {
        SolcError::SolcOutput(output) => assert!(!output.success),
        other => panic!("{other:?}"),
    }
    assert_eq!(ZkSolc::read_output(&"{ü}".as_bytes().to_vec()).unwrap(), "{ü}");
    assert!(matches!(ZkSolc::read_output(&vec![0xff]), Err(SolcError::InvalidUtf8)));
    match map_io_err("/bin/zksolc", "denied") {
        SolcError::Io { message, path } => {
            assert_eq!(message, "denied");
            assert_eq!(path, "/bin/zksolc");
        }
        other => panic!("{other:?}"),
    }
    let zksolc = ZkSolc::new("zksolc".to_string(), None, info());
    let output = zksolc.compile(CompilerOutput::default());
    assert_eq!(output.zksync_solc_version, Some(version("0.8.27-1.0.1")));
}
