use foundry_compilers::compilers::solc::Solc;
use foundry_compilers::compilers::zksolc::{Host, SolcEvent, SolcStep};
use foundry_compilers::error::SolcError;
use foundry_compilers::maps::{PathMap, PathSet, TextMap};
use foundry_compilers::process::Output;
use foundry_compilers::version::Version;
use foundry_compilers::zksync::artifacts::{CompilerOutput, Error, Severity, SourceFile, SourceLocation};
use foundry_compilers::zksync::compile::{
    compile_output, get_operating_system, version_from_output, FirstRun, ZkSolc, ZkSolcOS, ZKSOLC,
};
use foundry_compilers::zksync::compilers::zksolc::input::{Source, ZkSolcInput};

fn host(os: &str, arch: &str) -> Host {
    Host { os: os.to_string(), arch: arch.to_string(), home: Some("/home/me".to_string()) }
}

fn output(success: bool, stdout: &str, stderr: &str) -> Output {
    Output { success, stdout: stdout.as_bytes().to_vec(), stderr: stderr.as_bytes().to_vec() }
}

fn message(error: SolcError) -> String {
    match error {
        SolcError::Message(message) => message,
        other => panic!("{other:?}"),
    }
}

fn version(text: &str) -> Version {
    Version::parse(text).unwrap()
}

fn named(list: &[&str]) -> TextMap<SourceFile> {
    let mut map = TextMap::new();
    for (i, name) in list.iter().enumerate() {
        map.insert(name.to_string(), SourceFile { id: i as u32, ast: None });
    }
    map
}

fn warning(text: &str) -> Error {
    Error {
        source_location: None,
        severity: Severity::Warning,
        error_code: Some(5),
        message: text.to_string(),
    }
}

#[test]
fn the_path_of_zksolc_comes_from_the_environment_first() {
    let zksolc = ZkSolc::default_for(Some("/opt/zksolc".to_string()));
    assert_eq!(zksolc.zksolc, "/opt/zksolc");
    let zksolc = ZkSolc::default_for(None);
    assert_eq!(zksolc.zksolc, ZKSOLC);
    assert_eq!(zksolc.base_path, None);
    assert_eq!(zksolc.solc, None);
    assert!(zksolc.args.is_empty());
}

#[test]
fn zksolc_is_written_with_its_arguments() {
    let zksolc = ZkSolc::new("zksolc".to_string());
    assert_eq!(zksolc.to_text(), "zksolc");
    let zksolc = zksolc.arg("-a".to_string()).args(vec!["-b".to_string(), "c".to_string()]);
    assert_eq!(zksolc.to_text(), "zksolc -a -b c");
    assert_eq!(zksolc.args, vec!["-a", "-b", "c"]);
}

#[test]
fn systems_have_names_for_downloads() {
    assert_eq!(get_operating_system("linux", "aarch64").unwrap(), ZkSolcOS::Linux);
    assert_eq!(get_operating_system("macos", "aarch64").unwrap(), ZkSolcOS::MacARM);
    assert_eq!(get_operating_system("darwin", "x86_64").unwrap(), ZkSolcOS::MacAMD);
    let error = get_operating_system("windows", "x86_64").unwrap_err();
    assert_eq!(message(error), "Unsupported operating system windows");
    assert_eq!(ZkSolcOS::Linux.get_compiler(), "zksolc-linux-amd64-musl-");
    assert_eq!(ZkSolcOS::MacAMD.get_compiler(), "zksolc-macosx-amd64-");
    assert_eq!(ZkSolcOS::MacARM.get_compiler(), "zksolc-macosx-arm64-");
    assert_eq!(ZkSolcOS::Linux.get_solc_prefix(), "solc-linux-amd64-");
    assert_eq!(ZkSolcOS::MacAMD.get_solc_prefix(), "solc-macosx-amd64-");
    assert_eq!(ZkSolcOS::MacARM.get_solc_prefix(), "solc-macosx-arm64-");
    assert_eq!(ZkSolcOS::Linux.get_download_uri(), "linux-amd64-musl");
    assert_eq!(ZkSolcOS::MacAMD.get_download_uri(), "macosx-amd64");
    assert_eq!(ZkSolcOS::MacARM.get_download_uri(), "macosx-arm64");
}

#[test]
fn downloads_are_named_by_system_and_version() {
    let mac = host("macos", "aarch64");
    let install = ZkSolc::blocking_install(&mac, &version("1.3.14")).unwrap();
    assert_eq!(
        install.download_url,
        "https://github.com/matter-labs/zksolc-bin/releases/download/v1.3.14/zksolc-macosx-arm64-v1.3.14"
    );
    assert_eq!(install.compiler_path, "/home/me/.zksync/zksolc-macosx-arm64-v1.3.14");
    assert_eq!(install.compilers_dir, "/home/me/.zksync");
    let install = ZkSolc::solc_blocking_install(&mac, "0.8.24").unwrap();
    assert_eq!(
        install.download_url,
        "https://github.com/matter-labs/era-solidity/releases/download/0.8.24-1.0.1/solc-macosx-arm64-0.8.24-1.0.1"
    );
    assert_eq!(install.compiler_path, "/home/me/.zksync/solc-macosx-arm64-0.8.24-1.0.1");
    let mut homeless = host("linux", "x86_64");
    homeless.home = None;
    let error = ZkSolc::blocking_install(&homeless, &version("1.3.14")).unwrap_err();
    assert_eq!(message(error), "Could not build SolcManager - homedir not found");
    let error = ZkSolc::solc_path(&host("beos", "x86_64"), "0.8.24").unwrap_err();
    assert_eq!(message(error), "Unsupported operating system beos");
    assert_eq!(
        ZkSolc::find_installed_version("/z".to_string(), true).unwrap().zksolc,
        "/z"
    );
    assert!(ZkSolc::find_installed_version("/z".to_string(), false).is_none());
    assert_eq!(
        ZkSolc::find_solc_installed_version("/s".to_string(), true),
        Some("/s".to_string())
    );
}

#[test]
fn the_fourth_word_of_the_last_line_is_the_version() {
    let said = "Copyright\nSolidity zkSync compiler v1.3.14 (LLVM build f9f732)\n";
    let v = version_from_output(output(true, said, "")).unwrap();
    assert_eq!(v.to_text(), "1.3.14");
    let error = version_from_output(output(true, "\n \n", "")).unwrap_err();
    assert_eq!(message(error), "Version not found in zksolc output");
    let error = version_from_output(output(true, "just three words\n", "")).unwrap_err();
    assert_eq!(message(error), "Unable to retrieve version from zksolc output");
    match version_from_output(output(true, "no version is here\n", "")).unwrap_err() {
        SolcError::Semver(reason) => {
            assert_eq!(reason, semver::Version::parse("here").unwrap_err().to_string())
        }
        other => panic!("{other:?}"),
    }
    assert!(matches!(
        version_from_output(output(false, said, "")),
        Err(SolcError::SolcOutput(_))
    ));
    assert_eq!(ZkSolc::version_short(&version("1.3.14-rc.1+x")).to_text(), "1.3.14");
}

#[test]
fn zksolc_version_works() {
    let zksolc = ZkSolc::new(ZKSOLC.to_string());
    let cmd = zksolc.version_command();
    assert_eq!(cmd.program, ZKSOLC);
    assert_eq!(cmd.args, vec!["--version"]);
    let said = "Solidity zkSync compiler v1.3.17 (LLVM build f9f732c8ebdb88fb8cd4528482a00e4f)\n";
    assert_eq!(version_from_output(output(true, said, "")).unwrap(), version("1.3.17"));
}

fn solc() -> Solc {
    Solc {
        solc: "/bin/solc".to_string(),
        version: version("0.8.20+commit.1"),
        base_path: Some("/root".to_string()),
        allow_paths: PathSet::new(),
        include_paths: PathSet::new(),
        args: vec!["-y".to_string()],
    }
}

#[test]
fn the_fork_of_solc_is_searched_before_it_is_installed() {
    match ZkSolc::next_solc_step(&solc(), SolcEvent::Wanted) {
        SolcStep::Search(v) => assert_eq!(v, "0.8.20"),
        other => panic!("{other:?}"),
    }
    match ZkSolc::next_solc_step(&solc(), SolcEvent::Searched(None)) {
        SolcStep::Install(v) => assert_eq!(v, "0.8.20"),
        other => panic!("{other:?}"),
    }
    match ZkSolc::next_solc_step(&solc(), SolcEvent::Searched(Some("/s".to_string()))) {
        SolcStep::Use(path) => assert_eq!(path, "/s"),
        other => panic!("{other:?}"),
    }
    match ZkSolc::next_solc_step(&solc(), SolcEvent::Installed("/t".to_string())) {
        SolcStep::Use(path) => assert_eq!(path, "/t"),
        other => panic!("{other:?}"),
    }
}

#[test]
fn a_template_is_given_the_config_of_solc() {
    let template = ZkSolc::new("zksolc".to_string()).arg("-x".to_string());
    let zksolc = ZkSolc::from_template_and_solc(&template, solc(), Some("/zk/solc".to_string()));
    assert_eq!(zksolc.zksolc, "zksolc");
    assert_eq!(zksolc.base_path, Some("/root".to_string()));
    assert_eq!(zksolc.args, vec!["-y"]);
    assert_eq!(zksolc.solc, Some("/zk/solc".to_string()));
    let zksolc = ZkSolc::from_template_and_solc(&template, solc(), None);
    assert_eq!(zksolc.solc, None);
}

#[test]
fn compile_commands_follow_the_settings() {
    let mut zksolc = ZkSolc::new("zksolc".to_string()).arg("-x".to_string());
    let mut input = ZkSolcInput::default();
    let cmd = zksolc.compile_command(&input, false);
    assert_eq!(cmd.args, vec!["-x", "--standard-json"]);
    assert_eq!(cmd.current_dir, None);
    zksolc = zksolc.with_base_path("/root".to_string());
    zksolc.solc = Some("/zk/solc".to_string());
    input.settings.system_mode = true;
    input.settings.force_evmla = true;
    let cmd = zksolc.compile_command(&input, true);
    assert_eq!(
        cmd.args,
        vec![
            "--base-path", "/root", "--system-mode", "--force-evmla", "--solc", "/zk/solc", "-x",
            "--standard-json", "--detect-missing-libraries",
        ]
    );
    assert_eq!(cmd.current_dir, Some("/root".to_string()));
    input.settings.detect_missing_libraries = true;
    input.settings.solc = Some("/mine".to_string());
    let cmd = zksolc.compile_command(&input, false);
    assert_eq!(
        cmd.args,
        vec![
            "--base-path", "/root", "--system-mode", "--force-evmla",
            "--detect-missing-libraries", "--solc", "/mine", "-x", "--standard-json",
        ]
    );
    assert_eq!(zksolc.version_command().args, vec!["--version"]);
}

#[test]
fn the_compiler_runs_again_only_for_missing_libraries() {
    let missing = output(false, "", "Library `L` not found in the project");
    assert!(matches!(ZkSolc::after_first_run(missing), FirstRun::Again));
    let exact = output(false, "", "not found in the project");
    assert!(matches!(ZkSolc::after_first_run(exact), FirstRun::Again));
    let other = output(false, "", "not found in the projec");
    match ZkSolc::after_first_run(other) {
        FirstRun::Ended(Err(SolcError::SolcOutput(o))) => assert!(!o.success),
        other => panic!("{other:?}"),
    }
    let fine = output(true, "{}", "not found in the project");
    match ZkSolc::after_first_run(fine) {
        FirstRun::Ended(Ok((written, again))) => {
            assert_eq!(written, b"{}".to_vec());
            assert!(!again);
        }
        other => panic!("{other:?}"),
    }
    let (written, again) = ZkSolc::after_second_run(output(true, "{}", "")).unwrap();
    assert_eq!(written, b"{}".to_vec());
    assert!(again);
    assert!(ZkSolc::after_second_run(output(false, "", "x")).is_err());
    assert!(compile_output(output(true, "a", ""), true).unwrap().1);
    match ZkSolc::new("/z".to_string()).map_io_err("denied") {
        SolcError::Io { message, path } => assert_eq!((message.as_str(), path.as_str()), ("denied", "/z")),
        other => panic!("{other:?}"),
    }
}

#[test]
fn written_text_has_to_be_utf8() {
    assert_eq!(ZkSolc::compile(&b"{\"a\":1}".to_vec()).unwrap(), "{\"a\":1}");
    assert!(matches!(ZkSolc::compile(&vec![0xc3, 0x28]), Err(SolcError::InvalidUtf8)));
}

#[test]
fn outputs_of_several_inputs_are_merged() {
    let mut a = CompilerOutput::default();
    a.errors.push(warning("first"));
    a.sources = named(&["a.sol", "b.sol"]);
    let mut b = CompilerOutput::default();
    b.errors.push(warning("second"));
    b.sources = named(&["b.yul", "b.sol"]);
    let merged = ZkSolc::compile_source(vec![Ok(a), Ok(b)]).unwrap();
    let texts: Vec<&str> = merged.errors.iter().map(|e| e.message.as_str()).collect();
    assert_eq!(texts, vec!["first", "second"]);
    let files: Vec<(String, u32)> =
        merged.sources.into_entries().into_iter().map(|(k, v)| (k, v.id)).collect();
    assert_eq!(
        files,
        vec![("a.sol".to_string(), 0), ("b.sol".to_string(), 1), ("b.yul".to_string(), 0)]
    );
    let results = vec![
        Ok(CompilerOutput::default()),
        Err(SolcError::msg("one")),
        Err(SolcError::msg("two")),
    ];
    let error = ZkSolc::compile_source(results).err().unwrap();
    assert_eq!(message(error), "one");
    assert!(ZkSolc::compile_source(Vec::new()).unwrap().errors.is_empty());
}

#[test]
fn only_files_of_the_input_are_kept() {
    let mut input = ZkSolcInput::default();
    let mut sources: PathMap<Source> = PathMap::new();
    sources.insert("src/a.sol".to_string(), Source { content: "a".to_string() });
    sources.insert("src/c.sol".to_string(), Source { content: "c".to_string() });
    input.sources = sources;
    let mut out = CompilerOutput::default();
    out.sources = named(&["lib/b.sol", "src/a.sol"]);
    out.contracts.insert("lib/b.sol".to_string(), TextMap::new());
    out.contracts.insert("src/a.sol".to_string(), TextMap::new());
    out.errors.push(warning("stays"));
    let kept = ZkSolc::compile_exact(out, &input);
    assert_eq!(kept.sources.len(), 1);
    assert_eq!(kept.sources.key_at(0), "src/a.sol");
    assert_eq!(kept.contracts.len(), 1);
    assert_eq!(kept.errors.len(), 1);
}

#[test]
fn messages_tell_their_severity() {
    let mut error = warning("w");
    assert!(error.is_warning() && !error.is_error());
    assert_eq!(error.error_code(), Some(5));
    assert!(error.source_location().is_none());
    error.severity = Severity::Error;
    error.source_location = Some(SourceLocation { file: "a.sol".to_string(), start: 1, end: 4 });
    assert!(error.is_error() && !error.is_warning());
    assert_eq!(error.severity(), Severity::Error);
    assert_eq!(error.source_location().unwrap().file, "a.sol");
    error.severity = Severity::Info;
    assert!(!error.is_error() && !error.is_warning());
}
