//! Running `zksolc`.
use crate::compilers::solc::Solc;
use crate::compilers::zksolc;
use crate::compilers::zksolc::{
    split_filled_lines, zksync_solc_release, Host, SolcEvent, SolcStep,
};
use crate::error::{SolcError, SolcErrorView};
use crate::maps;
use crate::path;
use crate::process;
use crate::process::{read_lossy, read_utf8, Command, CommandView, Output};
use crate::text;
use crate::version;
use crate::version::{Version, VersionView};
use crate::zksync::artifacts;
use crate::zksync::artifacts::{CompilerOutput, Contract, SourceFile};
use crate::zksync::compilers::zksolc::input::{Source, ZkSolcInput};
use crate::zksync::compilers::zksolc::settings::ZkSolcSettingsView;
use vstd::prelude::*;
use vstd::string::*;
use vstd::utf8;

pub mod call_laws;
pub mod command_laws;
pub mod gather_laws;
pub mod install;
pub mod laws;
pub mod outcome_laws;
pub mod output;
pub mod plan_laws;
pub mod project;
pub mod runs;
pub mod stage_laws;
pub mod stages;

verus! {

/// The name of the `zksolc` executable.
pub const ZKSOLC: &'static str = "zksolc";

/// The systems that there are compilers for.
#[derive(Debug, Clone, Copy, PartialEq, Eq, Structural)]
pub enum ZkSolcOS {
    Linux,
    MacAMD,
    MacARM,
}

/// The system by its names.
pub open spec fn system(os: Seq<char>, arch: Seq<char>) -> Option<ZkSolcOS> {
    if os == "linux"@ {
        Some(ZkSolcOS::Linux)
    } else if os == "macos"@ || os == "darwin"@ {
        Some(
            if arch == "aarch64"@ {
                ZkSolcOS::MacARM
            } else {
                ZkSolcOS::MacAMD
            },
        )
    } else {
        None
    }
}

/// Returns the system that compilers are to be run on
pub fn get_operating_system(os: &str, arch: &str) -> (res: Result<ZkSolcOS, SolcError>)
    ensures
        match res {
            Ok(found) => system(os@, arch@) == Some(found),
            Err(error) => system(os@, arch@) is None && error@ == zksolc::unsupported_system(os@),
        },
{
    if text::equal(os, "linux") {
        Ok(ZkSolcOS::Linux)
    } else if text::equal(os, "macos") || text::equal(os, "darwin") {
        if text::equal(arch, "aarch64") {
            Ok(ZkSolcOS::MacARM)
        } else {
            Ok(ZkSolcOS::MacAMD)
        }
    } else {
        let mut message: String = "Unsupported operating system ".to_string();
        message.append(os);
        Err(SolcError::Message(message))
    }
}

impl ZkSolcOS {
    /// What the file names of `zksolc` begin with.
    pub open spec fn compiler(self) -> Seq<char> {
        match self {
            ZkSolcOS::Linux => "zksolc-linux-amd64-musl-"@,
            ZkSolcOS::MacAMD => "zksolc-macosx-amd64-"@,
            ZkSolcOS::MacARM => "zksolc-macosx-arm64-"@,
        }
    }

    /// What the file names of `solc` begin with.
    pub open spec fn solc_prefix(self) -> Seq<char> {
        match self {
            ZkSolcOS::Linux => "solc-linux-amd64-"@,
            ZkSolcOS::MacAMD => "solc-macosx-amd64-"@,
            ZkSolcOS::MacARM => "solc-macosx-arm64-"@,
        }
    }

    /// How the system is called where `zksolc` is downloaded from.
    pub open spec fn download_uri(self) -> Seq<char> {
        match self {
            ZkSolcOS::Linux => "linux-amd64-musl"@,
            ZkSolcOS::MacAMD => "macosx-amd64"@,
            ZkSolcOS::MacARM => "macosx-arm64"@,
        }
    }

    pub fn get_compiler(&self) -> (res: &'static str)
        ensures
            res@ == self.compiler(),
    {
        match self {
            ZkSolcOS::Linux => "zksolc-linux-amd64-musl-",
            ZkSolcOS::MacAMD => "zksolc-macosx-amd64-",
            ZkSolcOS::MacARM => "zksolc-macosx-arm64-",
        }
    }

    pub fn get_solc_prefix(&self) -> (res: &'static str)
        ensures
            res@ == self.solc_prefix(),
    {
        match self {
            ZkSolcOS::Linux => "solc-linux-amd64-",
            ZkSolcOS::MacAMD => "solc-macosx-amd64-",
            ZkSolcOS::MacARM => "solc-macosx-arm64-",
        }
    }

    pub fn get_download_uri(&self) -> (res: &'static str)
        ensures
            res@ == self.download_uri(),
    {
        match self {
            ZkSolcOS::Linux => "linux-amd64-musl",
            ZkSolcOS::MacAMD => "macosx-amd64",
            ZkSolcOS::MacARM => "macosx-arm64",
        }
    }
}

/// Abstraction over `zksolc` command line utility: the executable, the `solc` that it works with,
/// and its additional arguments
///
/// By default (see [`ZkSolc::default_for()`]) the zksolc path is configured as follows, with
/// descending priority:
///   1. `ZKSOLC_PATH` environment variable
///   2. `zksolc` otherwise
#[derive(Debug)]
pub struct ZkSolc {
    /// Path to the `zksolc` executable
    pub zksolc: String,
    /// The base path to set when invoking zksolc
    pub base_path: Option<String>,
    /// Value for --solc arg
    pub solc: Option<String>,
    /// Additional arguments passed to the `zksolc` exectuable
    pub args: Vec<String>,
}

/// What a [`ZkSolc`] holds.
#[verifier::ext_equal]
pub struct ZkSolcView {
    pub zksolc: Seq<char>,
    pub base_path: Option<Seq<char>>,
    pub solc: Option<Seq<char>>,
    pub args: Seq<Seq<char>>,
}

impl View for ZkSolc {
    type V = ZkSolcView;

    open spec fn view(&self) -> ZkSolcView {
        ZkSolcView {
            zksolc: self.zksolc@,
            base_path: text::opt_text(self.base_path),
            solc: text::opt_text(self.solc),
            args: text::texts(self.args@),
        }
    }
}

/// A `zksolc` without anything else.
pub open spec fn plain(path: Seq<char>) -> ZkSolcView {
    ZkSolcView { zksolc: path, base_path: None, solc: None, args: Seq::empty() }
}

/// The bytes of a text of ASCII characters.
pub open spec fn ascii(s: Seq<char>) -> Seq<u8> {
    s.map_values(|c: char| c as u8)
}

/// Whether bytes hold others in a row.
pub open spec fn holds_bytes(bytes: Seq<u8>, part: Seq<u8>) -> bool {
    exists|i: int|
        0 <= i && i + part.len() <= bytes.len() && #[trigger] bytes.subrange(i, i + part.len())
            == part
}

/// Whether the compiler failed for a library that was not found.
pub open spec fn misses_library(output: Output) -> bool {
    !output.success && holds_bytes(output.stderr@, ascii("not found in the project"@))
}

impl ZkSolcView {
    /// The arguments of a compiler run.
    pub open spec fn compile_args(self, settings: ZkSolcSettingsView) -> Seq<Seq<char>> {
        (match self.base_path {
            Some(base) => seq!["--base-path"@, base],
            None => Seq::empty(),
        }) + (if settings.system_mode {
            seq!["--system-mode"@]
        } else {
            Seq::empty()
        }) + (if settings.force_evmla {
            seq!["--force-evmla"@]
        } else {
            Seq::empty()
        }) + (if settings.detect_missing_libraries {
            seq!["--detect-missing-libraries"@]
        } else {
            Seq::empty()
        }) + (match (settings.solc, self.solc) {
            (Some(solc), _) => seq!["--solc"@, solc],
            (None, Some(solc)) => seq!["--solc"@, solc],
            (None, None) => Seq::empty(),
        }) + self.args + seq!["--standard-json"@]
    }
}

/// What follows on the first run of the compiler.
#[derive(Debug)]
pub enum FirstRun {
    /// Another run with missing libraries detection
    Again,
    /// Nothing: this is what came of it
    Ended(Result<(Vec<u8>, bool), SolcError>),
}

/// Whether a result is what a program wrote, or its error if it failed.
pub open spec fn is_written(
    res: Result<(Vec<u8>, bool), SolcError>,
    output: Output,
    recompiled: bool,
) -> bool {
    match res {
        Ok((written, flag)) => output.success && written == output.stdout && flag == recompiled,
        Err(error) => !output.success && error@ == zksolc::failed(output),
    }
}

/// Returns what the compiler wrote, or the error if it failed
pub fn compile_output(output: Output, recompiled_with_dml: bool) -> (res: Result<
    (Vec<u8>, bool),
    SolcError,
>)
    ensures
        is_written(res, output, recompiled_with_dml),
{
    if output.success {
        Ok((output.stdout, recompiled_with_dml))
    } else {
        Err(SolcError::SolcOutput(output))
    }
}

/// The version that `zksolc --version` tells: the fourth word on the last line.
pub open spec fn told_version(said: Seq<char>) -> Result<VersionView, SolcErrorView> {
    let lines = zksolc::filled_lines(said);
    if lines.len() == 0 {
        Err(SolcErrorView::Message("Version not found in zksolc output"@))
    } else {
        let words = text::words(lines.last());
        if words.len() < 4 {
            Err(SolcErrorView::Message("Unable to retrieve version from zksolc output"@))
        } else {
            let written = text::without_prefixes(words[3], "v"@);
            match version::version_of_text(written) {
                Some(v) => Ok(v),
                None => Err(SolcErrorView::Semver(version::parse_error(written))),
            }
        }
    }
}

/// Reads the version out of what `zksolc --version` says
pub fn read_version(said: &str) -> (res: Result<Version, SolcError>)
    ensures
        zksolc::is_version(res, told_version(said@)),
{
    let lines = split_filled_lines(said);
    let ghost all = zksolc::filled_lines(said@);
    assert(all.len() == lines.len());
    if lines.len() == 0 {
        return Err(SolcError::msg("Version not found in zksolc output"));
    }
    let last = lines[lines.len() - 1].as_str();
    assert(all.last() == last@) by {
        assert(text::texts(lines@)[lines.len() - 1] == last@);
    }
    let words = text::split_words(last);
    assert(text::texts(words@).len() == words.len());
    if words.len() < 4 {
        return Err(SolcError::msg("Unable to retrieve version from zksolc output"));
    }
    proof {
        reveal_strlit("v");
        assert(text::texts(words@)[3] == words@[3]@);
    }
    match Version::parse(text::strip_prefixes(words[3].as_str(), "v").as_str()) {
        Ok(version) => Ok(version),
        Err(message) => Err(SolcError::Semver(message)),
    }
}

/// Parses the output of `zksolc --version` as a SemVer [`Version`].
pub fn version_from_output(output: Output) -> (res: Result<Version, SolcError>)
    ensures
        zksolc::is_version(
            res,
            if output.success {
                told_version(process::utf8_lossy(output.stdout@))
            } else {
                Err(zksolc::failed(output))
            },
        ),
{
    if output.success {
        read_version(read_lossy(&output.stdout).as_str())
    } else {
        Err(SolcError::SolcOutput(output))
    }
}

/// The bytes of a text of ASCII characters
fn ascii_bytes(s: &str) -> (res: Vec<u8>)
    ensures
        res@ == ascii(s@),
{
    let chars = text::chars_of(s);
    let mut res: Vec<u8> = Vec::new();
    let mut i: usize = 0;
    while i < chars.len()
        invariant
            chars@ == s@,
            i <= chars.len(),
            res@ =~= ascii(s@.take(i as int)),
        decreases chars.len() - i,
    {
        res.push(chars[i] as u8);
        i = i + 1;
    }
    assert(s@.take(i as int) =~= s@);
    res
}

/// Whether bytes hold others in a row
fn find_bytes(bytes: &Vec<u8>, part: &Vec<u8>) -> (res: bool)
    ensures
        res == holds_bytes(bytes@, part@),
{
    if part.len() > bytes.len() {
        return false;
    }
    let last: usize = bytes.len() - part.len();
    let mut i: usize = 0;
    while i <= last
        invariant
            last + part.len() == bytes.len(),
            i <= last + 1,
            forall|k: int|
                0 <= k < i ==> #[trigger] bytes@.subrange(k, k + part@.len()) != part@,
        decreases last + 1 - i,
    {
        let mut j: usize = 0;
        while j < part.len() && bytes[i + j] == part[j]
            invariant
                last + part.len() == bytes.len(),
                i <= last,
                j <= part.len(),
                forall|k: int| 0 <= k < j ==> bytes@[i + k] == part@[k],
            decreases part.len() - j,
        {
            j = j + 1;
        }
        let ghost here = bytes@.subrange(i as int, i + part@.len());
        if j == part.len() {
            assert(here =~= part@);
            return true;
        }
        assert(here[j as int] != part@[j as int]);
        if i == last {
            return false;
        }
        i = i + 1;
    }
    false
}

/// Whether a result is a path in the compilers directory: it takes a system that there are
/// compilers for and a home directory.
pub open spec fn is_path(
    res: Result<String, SolcError>,
    host: Host,
    file_name: spec_fn(ZkSolcOS) -> Seq<char>,
) -> bool {
    match (system(host.os@, host.arch@), host.home) {
        (Some(os), Some(home)) => res matches Ok(found) && found@ == path::join_path(
            zksolc::compilers_dir(home@),
            file_name(os),
        ),
        (Some(_), None) => res matches Err(error) && error@ == zksolc::no_home(),
        (None, _) => res matches Err(error) && error@ == zksolc::unsupported_system(host.os@),
    }
}

/// The file name of `zksolc`.
pub open spec fn zksolc_file_name(os: ZkSolcOS, v: VersionView) -> Seq<char> {
    os.compiler() + "v"@ + version::version_text(v)
}

/// The file name of `solc`.
pub open spec fn solc_file_name(os: ZkSolcOS, version: Seq<char>) -> Seq<char> {
    os.solc_prefix() + version + "-"@ + version::version_text(zksolc::solc_release())
}

/// Where `zksolc` can be downloaded from.
pub open spec fn zksolc_url(os: ZkSolcOS, v: VersionView) -> Seq<char> {
    "https://github.com/matter-labs/zksolc-bin/releases/download/v"@ + version::version_text(v)
        + "/zksolc-"@ + os.download_uri() + "-v"@ + version::version_text(v)
}

/// Where `solc` can be downloaded from.
pub open spec fn solc_url(os: ZkSolcOS, version: Seq<char>) -> Seq<char> {
    let release = version::version_text(zksolc::solc_release());
    "https://github.com/matter-labs/era-solidity/releases/download/"@ + version + "-"@ + release
        + "/"@ + os.solc_prefix() + version + "-"@ + release
}

/// What has to be known to install a compiler.
#[derive(Debug)]
pub struct Install {
    /// The directory of the compilers, to be created if it does not exist
    pub compilers_dir: String,
    /// Where the compiler is to be written
    pub compiler_path: String,
    /// Where the compiler is to be downloaded from
    pub download_url: String,
}

/// What an [`Install`] holds.
#[verifier::ext_equal]
pub struct InstallView {
    pub compilers_dir: Seq<char>,
    pub compiler_path: Seq<char>,
    pub download_url: Seq<char>,
}

impl View for Install {
    type V = InstallView;

    open spec fn view(&self) -> InstallView {
        InstallView {
            compilers_dir: self.compilers_dir@,
            compiler_path: self.compiler_path@,
            download_url: self.download_url@,
        }
    }
}

/// How `zksolc` is installed.
pub open spec fn zksolc_install(os: ZkSolcOS, home: Seq<char>, v: VersionView) -> InstallView {
    let dir = zksolc::compilers_dir(home);
    InstallView {
        compilers_dir: dir,
        compiler_path: path::join_path(dir, zksolc_file_name(os, v)),
        download_url: zksolc_url(os, v),
    }
}

/// How `solc` is installed.
pub open spec fn solc_install(os: ZkSolcOS, home: Seq<char>, version: Seq<char>) -> InstallView {
    let dir = zksolc::compilers_dir(home);
    InstallView {
        compilers_dir: dir,
        compiler_path: path::join_path(dir, solc_file_name(os, version)),
        download_url: solc_url(os, version),
    }
}

/// Whether a result is an installation: it takes a system that there are compilers for and a
/// home directory.
pub open spec fn is_install(
    res: Result<Install, SolcError>,
    host: Host,
    install: spec_fn(ZkSolcOS, Seq<char>) -> InstallView,
) -> bool {
    match (system(host.os@, host.arch@), host.home) {
        (Some(os), Some(home)) => res matches Ok(found) && found@ == install(os, home@),
        (Some(_), None) => res matches Err(error) && error@ == zksolc::no_home(),
        (None, _) => res matches Err(error) && error@ == zksolc::unsupported_system(host.os@),
    }
}

/// What comes of the outputs of several inputs: the first error, or all outputs merged.
pub open spec fn is_merged(
    res: Result<CompilerOutput, SolcError>,
    outputs: Seq<Result<CompilerOutput, SolcError>>,
) -> bool {
    match first_error(outputs) {
        Some(error) => res == Err::<CompilerOutput, SolcError>(error),
        None => res matches Ok(out) && {
            &&& out.errors@ == merged_errors(outputs)
            &&& out.sources@ == merged_sources(outputs)
            &&& out.contracts@ == merged_contracts(outputs)
            &&& out.zksync_solc_version is None
        },
    }
}

/// The first error among results.
pub open spec fn first_error(outputs: Seq<Result<CompilerOutput, SolcError>>) -> Option<SolcError>
    decreases outputs.len(),
{
    if outputs.len() == 0 {
        None
    } else {
        match first_error(outputs.drop_last()) {
            Some(error) => Some(error),
            None => match outputs.last() {
                Ok(_) => None,
                Err(error) => Some(error),
            },
        }
    }
}

/// The messages of all outputs.
pub open spec fn merged_errors(outputs: Seq<Result<CompilerOutput, SolcError>>) -> Seq<
    artifacts::Error,
>
    decreases outputs.len(),
{
    if outputs.len() == 0 {
        Seq::empty()
    } else {
        merged_errors(outputs.drop_last()) + outputs.last()->Ok_0.errors@
    }
}

/// The source files of all outputs.
pub open spec fn merged_sources(outputs: Seq<Result<CompilerOutput, SolcError>>) -> Seq<
    (Seq<char>, SourceFile),
>
    decreases outputs.len(),
{
    if outputs.len() == 0 {
        Seq::empty()
    } else {
        maps::extended::<maps::ByText, SourceFile>(
            merged_sources(outputs.drop_last()),
            outputs.last()->Ok_0.sources@,
        )
    }
}

/// The contracts of all outputs.
pub open spec fn merged_contracts(outputs: Seq<Result<CompilerOutput, SolcError>>) -> Seq<
    (Seq<char>, maps::TextMap<Contract>),
>
    decreases outputs.len(),
{
    if outputs.len() == 0 {
        Seq::empty()
    } else {
        maps::extended::<maps::ByText, maps::TextMap<Contract>>(
            merged_contracts(outputs.drop_last()),
            outputs.last()->Ok_0.contracts@,
        )
    }
}

proof fn lemma_first_error_stays(outputs: Seq<Result<CompilerOutput, SolcError>>, count: nat)
    requires
        count <= outputs.len(),
        first_error(outputs.take(count as int)) is Some,
    ensures
        first_error(outputs) == first_error(outputs.take(count as int)),
    decreases outputs.len() - count,
{
    if count < outputs.len() {
        assert(outputs.take(count as int + 1).drop_last() =~= outputs.take(count as int));
        lemma_first_error_stays(outputs, count + 1);
    } else {
        assert(outputs.take(count as int) =~= outputs);
    }
}

/// The paths of source files.
pub open spec fn source_paths(sources: Seq<(Seq<char>, Source)>) -> Seq<Seq<char>> {
    sources.map_values(|entry: (Seq<char>, Source)| entry.0)
}

impl ZkSolc {
    /// A new instance which points to `zksolc`
    pub fn new(path: String) -> (res: Self)
        ensures
            res@ == plain(path@),
    {
        let res = ZkSolc { zksolc: path, base_path: None, args: Vec::new(), solc: None };
        assert(res@.args =~= Seq::<Seq<char>>::empty());
        res
    }

    /// The instance that is used by default
    ///
    /// `zksolc_path` is the value of the `ZKSOLC_PATH` environment variable, if it is set.
    pub fn default_for(zksolc_path: Option<String>) -> (res: Self)
        ensures
            res@ == plain(
                match zksolc_path {
                    Some(path) => path@,
                    None => ZKSOLC@,
                },
            ),
    {
        match zksolc_path {
            Some(path) => ZkSolc::new(path),
            None => ZkSolc::new(ZKSOLC.to_string()),
        }
    }

    /// The executable and its additional arguments
    pub fn to_text(&self) -> (res: String)
        ensures
            res@ == (if self@.args.len() == 0 {
                self@.zksolc
            } else {
                self@.zksolc + " "@ + text::joined(self@.args, " "@)
            }),
    {
        let mut res: String = self.zksolc.clone();
        if self.args.len() > 0 {
            res.append(" ");
            res.append(text::join(&self.args, " ").as_str());
        }
        res
    }

    /// What is to be done next to get the ZKsync fork of a `solc` of the given version, without
    /// metadata, for [`Self::from_template_and_solc()`]
    pub fn next_solc_step(solc: &Solc, event: SolcEvent) -> (res: SolcStep)
        ensures
            zksolc::is_solc_step(res, version::release_text(solc.version@), event),
    {
        event.next(solc.version.release_string())
    }

    /// Associate a template ZkSolc instance with a Solc compiler instance,
    /// creating a new instance that inherits all the config and compiles
    /// using the specific solc path.
    ///
    /// `zksync_solc` is the path of the ZKsync fork of `solc` that [`Self::next_solc_step()`] says
    /// to work with, if it was found or could be installed.
    pub fn from_template_and_solc(template: &Self, solc: Solc, zksync_solc: Option<String>) -> (res:
        Self)
        ensures
            res@ == (ZkSolcView {
                zksolc: template@.zksolc,
                base_path: text::opt_text(solc.base_path),
                solc: match zksync_solc {
                    Some(path) => Some(path@),
                    None => template@.solc,
                },
                args: text::texts(solc.args@),
            }),
    {
        let solc_path = match zksync_solc {
            Some(path) => Some(path),
            None => text::copy_option(&template.solc),
        };
        ZkSolc {
            zksolc: template.zksolc.clone(),
            base_path: solc.base_path,
            solc: solc_path,
            args: solc.args,
        }
    }

    /// Sets zksolc's base path
    pub fn with_base_path(self, base_path: String) -> (res: Self)
        ensures
            res@ == (ZkSolcView { base_path: Some(base_path@), ..self@ }),
    {
        let mut res = self;
        res.base_path = Some(base_path);
        res
    }

    /// Adds an argument to pass to the `zksolc` command.
    pub fn arg(self, arg: String) -> (res: Self)
        ensures
            res@ == (ZkSolcView { args: self@.args.push(arg@), ..self@ }),
    {
        let mut res = self;
        let ghost before = res.args@;
        res.args.push(arg);
        assert(text::texts(res.args@) =~= text::texts(before).push(arg@));
        res
    }

    /// Adds multiple arguments to pass to the `zksolc`.
    pub fn args(self, args: Vec<String>) -> (res: Self)
        ensures
            res@ == (ZkSolcView { args: self@.args + text::texts(args@), ..self@ }),
    {
        let ghost before = self@;
        let ghost all = text::texts(args@);
        let mut res = self;
        assert(all.len() == args.len());
        assert(res@.args =~= before.args + all.take(0));
        for arg in it: args
            invariant
                text::texts(it.seq()) == all,
                all.len() == it.seq().len(),
                res@ == (ZkSolcView {
                    args: before.args + all.take(it.index() as int),
                    ..before
                }),
        {
            let ghost i = it.index() as int;
            assert(all[i] == arg@);
            res = res.arg(arg);
            assert(res@.args =~= before.args + all.take(i + 1));
        }
        assert(all.take(all.len() as int) =~= all);
        res
    }

    /// Puts together what comes of compiling several inputs
    pub fn compile_source(outputs: Vec<Result<CompilerOutput, SolcError>>) -> (res: Result<
        CompilerOutput,
        SolcError,
    >)
        ensures
            is_merged(res, outputs@),
    {
        let ghost all = outputs@;
        let mut res = CompilerOutput::default();
        assert(all.take(0) =~= Seq::<Result<CompilerOutput, SolcError>>::empty());
        assert(res.errors@ =~= merged_errors(all.take(0)));
        assert(res.sources@ =~= merged_sources(all.take(0)));
        assert(res.contracts@ =~= merged_contracts(all.take(0)));
        for output in it: outputs
            invariant
                it.seq() == all,
                first_error(all.take(it.index() as int)) is None,
                res.errors@ == merged_errors(all.take(it.index() as int)),
                res.sources@ == merged_sources(all.take(it.index() as int)),
                res.contracts@ == merged_contracts(all.take(it.index() as int)),
                res.zksync_solc_version is None,
        {
            let ghost i = it.index() as int;
            assert(all.take(i + 1).drop_last() =~= all.take(i));
            assert(all.take(i + 1).last() == output);
            match output {
                Ok(output) => {
                    res.merge(output);
                },
                Err(error) => {
                    proof {
                        lemma_first_error_stays(all, (i + 1) as nat);
                    }
                    return Err(error);
                },
            }
        }
        assert(all.take(all.len() as int) =~= all);
        Ok(res)
    }

    /// Same as [`Self::compile()`], but only returns those files which are included in the input.
    ///
    /// In other words, this removes those files from the output that are __not__ included in the
    /// provided input.
    pub fn compile_exact(out: CompilerOutput, input: &ZkSolcInput) -> (res: CompilerOutput)
        ensures
            res.sources@ == artifacts::kept(out.sources@, source_paths(input@.sources)),
            res.contracts@ == artifacts::kept(out.contracts@, source_paths(input@.sources)),
            res.errors == out.errors,
            res.zksync_solc_version == out.zksync_solc_version,
    {
        let ghost all = source_paths(input@.sources);
        let mut files: Vec<String> = Vec::new();
        let mut i: usize = 0;
        assert(all.len() == input.sources@.len());
        while i < input.sources.len()
            invariant
                all == source_paths(input@.sources),
                all.len() == input.sources@.len(),
                i <= all.len(),
                text::texts(files@) =~= all.take(i as int),
            decreases all.len() - i,
        {
            let ghost before = text::texts(files@);
            let file: String = input.sources.key_at(i).clone();
            files.push(file);
            assert(text::texts(files@) =~= before.push(file@));
            i = i + 1;
        }
        assert(all.take(i as int) =~= all);
        out.retain_files(&files)
    }

    /// Reads what the compiler wrote as text
    pub fn compile(written: &Vec<u8>) -> (res: Result<String, SolcError>)
        ensures
            match res {
                Ok(output) => utf8::valid_utf8(written@) && output@ == utf8::decode_utf8(written@),
                Err(error) => !utf8::valid_utf8(written@) && error@ == SolcErrorView::InvalidUtf8,
            },
    {
        match read_utf8(written) {
            Some(output) => Ok(output),
            None => Err(SolcError::InvalidUtf8),
        }
    }

    /// The command that compiles with `--standard-json`
    ///
    /// `again` tells the second run, which detects missing libraries.
    pub fn compile_command(&self, input: &ZkSolcInput, again: bool) -> (res: Command)
        ensures
            res@ == (CommandView {
                program: self@.zksolc,
                args: if again {
                    self@.compile_args(input@.settings).push("--detect-missing-libraries"@)
                } else {
                    self@.compile_args(input@.settings)
                },
                current_dir: self@.base_path,
            }),
    {
        let mut cmd = Command::new(self.zksolc.as_str());
        let ghost mut expected: Seq<Seq<char>> = Seq::empty();
        if let Some(base_path) = &self.base_path {
            cmd.current_dir(base_path.as_str());
            cmd.arg("--base-path");
            cmd.arg(base_path.as_str());
            proof {
                expected = expected + seq!["--base-path"@, base_path@];
            }
        }
        if input.settings.system_mode {
            cmd.arg("--system-mode");
            proof {
                expected = expected + seq!["--system-mode"@];
            }
        }
        if input.settings.force_evmla {
            cmd.arg("--force-evmla");
            proof {
                expected = expected + seq!["--force-evmla"@];
            }
        }
        if input.settings.detect_missing_libraries {
            cmd.arg("--detect-missing-libraries");
            proof {
                expected = expected + seq!["--detect-missing-libraries"@];
            }
        }
        assert(cmd@.args =~= expected);
        if let Some(solc) = &input.settings.solc {
            cmd.arg("--solc");
            cmd.arg(solc.as_str());
            proof {
                expected = expected + seq!["--solc"@, solc@];
            }
        } else if let Some(solc) = &self.solc {
            cmd.arg("--solc");
            cmd.arg(solc.as_str());
            proof {
                expected = expected + seq!["--solc"@, solc@];
            }
        }
        assert(cmd@.args =~= expected);
        let ghost before = cmd@;
        let ghost all = self@.args;
        let mut i: usize = 0;
        assert(all.len() == self.args.len());
        while i < self.args.len()
            invariant
                all == text::texts(self.args@),
                all.len() == self.args.len(),
                i <= all.len(),
                cmd@.program == before.program,
                cmd@.current_dir == before.current_dir,
                cmd@.args =~= before.args + all.take(i as int),
            decreases all.len() - i,
        {
            assert(all[i as int] == self.args@[i as int]@);
            cmd.arg(self.args[i].as_str());
            i = i + 1;
        }
        assert(all.take(i as int) =~= all);
        cmd.arg("--standard-json");
        assert(cmd@.args =~= self@.compile_args(input@.settings));
        if again {
            cmd.arg("--detect-missing-libraries");
        }
        cmd
    }

    /// What follows on the first run of the compiler: another one, if it failed for a library
    /// that was not found
    pub fn after_first_run(output: Output) -> (res: FirstRun)
        ensures
            match res {
                FirstRun::Again => misses_library(output),
                FirstRun::Ended(ended) => !misses_library(output) && is_written(
                    ended,
                    output,
                    false,
                ),
            },
    {
        if !output.success && find_bytes(&output.stderr, &ascii_bytes("not found in the project")) {
            FirstRun::Again
        } else {
            FirstRun::Ended(compile_output(output, false))
        }
    }

    /// What comes of the second run of the compiler
    pub fn after_second_run(output: Output) -> (res: Result<(Vec<u8>, bool), SolcError>)
        ensures
            is_written(res, output, true),
    {
        compile_output(output, true)
    }

    /// The version without pre-release and build metadata
    pub fn version_short(version: &Version) -> (res: Version)
        ensures
            res@ == version::release(version@.major, version@.minor, version@.patch),
    {
        Version::new(version.major, version.minor, version.patch)
    }

    /// The command that asks `zksolc` for its version
    pub fn version_command(&self) -> (res: Command)
        ensures
            res@ == (CommandView {
                program: self@.zksolc,
                args: seq!["--version"@],
                current_dir: None,
            }),
    {
        let mut cmd = Command::new(self.zksolc.as_str());
        cmd.arg("--version");
        assert(cmd@.args =~= seq!["--version"@]);
        cmd
    }

    /// The error of a failed attempt to run the compiler
    pub fn map_io_err(&self, message: &str) -> (res: SolcError)
        ensures
            res@ == (SolcErrorView::Io { message: message@, path: self@.zksolc }),
    {
        SolcError::io(message, self.zksolc.as_str())
    }

    /// The directory of the compilers
    pub fn compilers_dir(host: &Host) -> (res: Result<String, SolcError>)
        ensures
            match host.home {
                Some(home) => res matches Ok(dir) && dir@ == zksolc::compilers_dir(home@),
                None => res matches Err(error) && error@ == zksolc::no_home(),
            },
    {
        match &host.home {
            Some(home) => Ok(path::join(home.as_str(), ".zksync")),
            None => Err(SolcError::msg("Could not build SolcManager - homedir not found")),
        }
    }

    /// The path of `zksolc`
    pub fn compiler_path(host: &Host, version: &Version) -> (res: Result<String, SolcError>)
        ensures
            is_path(res, *host, |os: ZkSolcOS| zksolc_file_name(os, version@)),
    {
        let os = match get_operating_system(host.os.as_str(), host.arch.as_str()) {
            Ok(os) => os,
            Err(error) => {
                return Err(error);
            },
        };
        let dir = match ZkSolc::compilers_dir(host) {
            Ok(dir) => dir,
            Err(error) => {
                return Err(error);
            },
        };
        let mut name: String = os.get_compiler().to_string();
        name.append("v");
        name.append(version.to_text().as_str());
        Ok(path::join(dir.as_str(), name.as_str()))
    }

    /// The path of `solc`
    pub fn solc_path(host: &Host, version_str: &str) -> (res: Result<String, SolcError>)
        ensures
            is_path(res, *host, |os: ZkSolcOS| solc_file_name(os, version_str@)),
    {
        let os = match get_operating_system(host.os.as_str(), host.arch.as_str()) {
            Ok(os) => os,
            Err(error) => {
                return Err(error);
            },
        };
        let dir = match ZkSolc::compilers_dir(host) {
            Ok(dir) => dir,
            Err(error) => {
                return Err(error);
            },
        };
        let mut name: String = os.get_solc_prefix().to_string();
        name.append(version_str);
        name.append("-");
        name.append(zksync_solc_release().to_text().as_str());
        Ok(path::join(dir.as_str(), name.as_str()))
    }

    /// How to install a zksolc version
    pub fn blocking_install(host: &Host, version: &Version) -> (res: Result<Install, SolcError>)
        ensures
            is_install(
                res,
                *host,
                |os: ZkSolcOS, home: Seq<char>| zksolc_install(os, home, version@),
            ),
    {
        let os = match get_operating_system(host.os.as_str(), host.arch.as_str()) {
            Ok(os) => os,
            Err(error) => {
                return Err(error);
            },
        };
        let written = version.to_text();
        let mut download_url: String =
            "https://github.com/matter-labs/zksolc-bin/releases/download/v".to_string();
        download_url.append(written.as_str());
        download_url.append("/zksolc-");
        download_url.append(os.get_download_uri());
        download_url.append("-v");
        download_url.append(written.as_str());
        let compiler_path = match ZkSolc::compiler_path(host, version) {
            Ok(path) => path,
            Err(error) => {
                return Err(error);
            },
        };
        match ZkSolc::compilers_dir(host) {
            Ok(dir) => Ok(Install { compilers_dir: dir, compiler_path, download_url }),
            Err(error) => Err(error),
        }
    }

    /// How to install a zksync solc version
    pub fn solc_blocking_install(host: &Host, version_str: &str) -> (res: Result<
        Install,
        SolcError,
    >)
        ensures
            is_install(
                res,
                *host,
                |os: ZkSolcOS, home: Seq<char>| solc_install(os, home, version_str@),
            ),
    {
        let os = match get_operating_system(host.os.as_str(), host.arch.as_str()) {
            Ok(os) => os,
            Err(error) => {
                return Err(error);
            },
        };
        let release = zksync_solc_release().to_text();
        let mut download_url: String =
            "https://github.com/matter-labs/era-solidity/releases/download/".to_string();
        download_url.append(version_str);
        download_url.append("-");
        download_url.append(release.as_str());
        download_url.append("/");
        download_url.append(os.get_solc_prefix());
        download_url.append(version_str);
        download_url.append("-");
        download_url.append(release.as_str());
        let compiler_path = match ZkSolc::solc_path(host, version_str) {
            Ok(path) => path,
            Err(error) => {
                return Err(error);
            },
        };
        match ZkSolc::compilers_dir(host) {
            Ok(dir) => Ok(Install { compilers_dir: dir, compiler_path, download_url }),
            Err(error) => Err(error),
        }
    }

    /// An installed zksolc version
    ///
    /// `path` is the version's [`Self::compiler_path()`], `is_file` whether there is a file.
    pub fn find_installed_version(path: String, is_file: bool) -> (res: Option<Self>)
        ensures
            match res {
                Some(zksolc) => is_file && zksolc@ == plain(path@),
                None => !is_file,
            },
    {
        if !is_file {
            return None;
        }
        Some(ZkSolc::new(path))
    }

    /// The path of an installed solc version
    ///
    /// `path` is the version's [`Self::solc_path()`], `is_file` whether there is a file.
    pub fn find_solc_installed_version(path: String, is_file: bool) -> (res: Option<String>)
        ensures
            res == (if is_file {
                Some(path)
            } else {
                None
            }),
    {
        if !is_file {
            return None;
        }
        Some(path)
    }
}

} // verus!
