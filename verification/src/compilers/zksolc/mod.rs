//! The `zksolc` compiler, and the ZKsync fork of `solc` that it works with.
use crate::compilers::solc::{copy_paths, SolcCompiler};
use crate::error::{SolcError, SolcErrorView};
use crate::maps::PathSet;
use crate::path;
use crate::process;
use crate::process::{read_lossy, read_utf8, Command, CommandView, Output};
use crate::text;
use crate::text::Separator;
use crate::version;
use crate::version::{
    sort_by_version, CompilerVersion, CompilerVersionView, Version, VersionView, Versioned,
};
use crate::zksync::artifacts::CompilerOutput;
use crate::zksync::compilers::zksolc::input;
use crate::zksync::compilers::zksolc::input::ZkSolcInput;
use vstd::prelude::*;
use vstd::string::*;
use vstd::utf8;

pub mod call_laws;
pub mod command_laws;
pub mod install;
pub mod laws;
pub mod version_laws;

verus! {

/// The name of the `zksolc` executable.
pub const ZKSOLC: &'static str = "zksolc";

/// The release of the ZKsync fork of `solc`.
pub open spec fn solc_release() -> VersionView {
    version::release(1, 0, 1)
}

/// The release of the ZKsync fork of `solc`
pub fn zksync_solc_release() -> (res: Version)
    ensures
        res@ == solc_release(),
{
    Version::new(1, 0, 1)
}

/// The version of `zksolc` that is used by default
pub fn zksolc_version() -> (res: Version)
    ensures
        res@ == version::release(1, 5, 7),
{
    Version::new(1, 5, 7)
}

/// The machine that compilers run on.
#[derive(Debug)]
pub struct Host {
    /// The name of the operating system
    pub os: String,
    /// The name of the processor architecture
    pub arch: String,
    /// The home directory of the user, if it is known
    pub home: Option<String>,
}

/// The systems that there are compilers for.
#[derive(Debug, Clone, Copy, PartialEq, Eq, Structural)]
pub enum ZkSolcOS {
    LinuxAMD64,
    LinuxARM64,
    MacAMD,
    MacARM,
}

/// The system by its names.
pub open spec fn system(os: Seq<char>, arch: Seq<char>) -> Option<ZkSolcOS> {
    if os == "linux"@ {
        Some(
            if arch == "aarch64"@ {
                ZkSolcOS::LinuxARM64
            } else {
                ZkSolcOS::LinuxAMD64
            },
        )
    } else if os == "macos"@ || os == "darwin"@ {
        Some(
            if arch == "aarch64"@ {
                ZkSolcOS::MacARM
            } else {
                ZkSolcOS::MacAMD
            },
        )
    } else {
        None
    }
}

/// What is said of a system that there are no compilers for.
pub open spec fn unsupported_system(os: Seq<char>) -> SolcErrorView {
    SolcErrorView::Message("Unsupported operating system "@ + os)
}

/// Returns the system that compilers are to be run on
pub fn get_operating_system(os: &str, arch: &str) -> (res: Result<ZkSolcOS, SolcError>)
    ensures
        match res {
            Ok(found) => system(os@, arch@) == Some(found),
            Err(error) => system(os@, arch@) is None && error@ == unsupported_system(os@),
        },
{
    if text::equal(os, "linux") {
        if text::equal(arch, "aarch64") {
            Ok(ZkSolcOS::LinuxARM64)
        } else {
            Ok(ZkSolcOS::LinuxAMD64)
        }
    } else if text::equal(os, "macos") || text::equal(os, "darwin") {
        if text::equal(arch, "aarch64") {
            Ok(ZkSolcOS::MacARM)
        } else {
            Ok(ZkSolcOS::MacAMD)
        }
    } else {
        let mut message: String = "Unsupported operating system ".to_string();
        message.append(os);
        Err(SolcError::Message(message))
    }
}

impl ZkSolcOS {
    /// What the file names of `zksolc` begin with.
    pub open spec fn zksolc_prefix(self) -> Seq<char> {
        match self {
            ZkSolcOS::LinuxAMD64 => "zksolc-linux-amd64-musl-"@,
            ZkSolcOS::LinuxARM64 => "zksolc-linux-arm64-musl-"@,
            ZkSolcOS::MacAMD => "zksolc-macosx-amd64-"@,
            ZkSolcOS::MacARM => "zksolc-macosx-arm64-"@,
        }
    }

    /// What the file names of `solc` begin with.
    pub open spec fn solc_prefix(self) -> Seq<char> {
        match self {
            ZkSolcOS::LinuxAMD64 => "solc-linux-amd64-"@,
            ZkSolcOS::LinuxARM64 => "solc-linux-arm64-"@,
            ZkSolcOS::MacAMD => "solc-macosx-amd64-"@,
            ZkSolcOS::MacARM => "solc-macosx-arm64-"@,
        }
    }

    pub fn get_zksolc_prefix(&self) -> (res: &'static str)
        ensures
            res@ == self.zksolc_prefix(),
    {
        match self {
            ZkSolcOS::LinuxAMD64 => "zksolc-linux-amd64-musl-",
            ZkSolcOS::LinuxARM64 => "zksolc-linux-arm64-musl-",
            ZkSolcOS::MacAMD => "zksolc-macosx-amd64-",
            ZkSolcOS::MacARM => "zksolc-macosx-arm64-",
        }
    }

    pub fn get_solc_prefix(&self) -> (res: &'static str)
        ensures
            res@ == self.solc_prefix(),
    {
        match self {
            ZkSolcOS::LinuxAMD64 => "solc-linux-amd64-",
            ZkSolcOS::LinuxARM64 => "solc-linux-arm64-",
            ZkSolcOS::MacAMD => "solc-macosx-amd64-",
            ZkSolcOS::MacARM => "solc-macosx-arm64-",
        }
    }
}

/// The lines of a text that hold more than white space.
pub open spec fn filled_lines(s: Seq<char>) -> Seq<Seq<char>> {
    text::lines(s).filter(|line: Seq<char>| text::trim(line).len() > 0)
}

/// The lines of a text that hold more than white space
pub fn split_filled_lines(s: &str) -> (res: Vec<String>)
    ensures
        text::texts(res@) == filled_lines(s@),
{
    let all = text::split_lines(s);
    let ghost lines = text::lines(s@);
    let ghost keep = |line: Seq<char>| text::trim(line).len() > 0;
    let mut res: Vec<String> = Vec::new();
    assert(lines.len() == all.len());
    assert(text::texts(res@) =~= lines.take(0).filter(keep)) by {
        reveal(Seq::filter);
    }
    for line in it: all
        invariant
            text::texts(it.seq()) == lines,
            lines.len() == it.seq().len(),
            keep == (|line: Seq<char>| text::trim(line).len() > 0),
            text::texts(res@) == lines.take(it.index() as int).filter(keep),
    {
        let ghost i = it.index() as int;
        assert(lines[i] == line@);
        assert(lines.take(i + 1).drop_last() =~= lines.take(i));
        assert(lines.take(i + 1).filter(keep) == (if keep(line@) {
            lines.take(i).filter(keep).push(line@)
        } else {
            lines.take(i).filter(keep)
        })) by {
            reveal(Seq::filter);
        }
        if !text::trimmed(line.as_str()).as_str().is_empty() {
            let ghost before = text::texts(res@);
            res.push(line);
            assert(text::texts(res@) =~= before.push(line@));
        }
    }
    assert(lines.take(lines.len() as int) =~= lines);
    res
}

/// Version metadata. Will include `zksync_version` if compiler is zksync solc.
#[derive(Debug)]
pub struct SolcVersionInfo {
    /// The solc compiler version (e.g: 0.8.20)
    pub version: Version,
    /// The full zksync solc compiler version (e.g: 0.8.20-1.0.1)
    pub zksync_version: Option<Version>,
}

/// What a [`SolcVersionInfo`] holds.
#[verifier::ext_equal]
pub struct SolcVersionInfoView {
    pub version: VersionView,
    pub zksync_version: Option<VersionView>,
}

/// What an optional version is.
pub open spec fn opt_version(version: Option<Version>) -> Option<VersionView> {
    match version {
        Some(v) => Some(v@),
        None => None,
    }
}

impl View for SolcVersionInfo {
    type V = SolcVersionInfoView;

    open spec fn view(&self) -> SolcVersionInfoView {
        SolcVersionInfoView {
            version: self.version@,
            zksync_version: opt_version(self.zksync_version),
        }
    }
}

/// The version on the second line of what `solc --version` says.
pub open spec fn solc_version_text(line: Seq<char>) -> Seq<char> {
    text::replaced(text::without_prefixes(line, "Version: "@), ".g++"@, ".gcc"@)
}

/// The ZKsync version on the last line of what `solc --version` says, if it has one.
pub open spec fn zksync_version_on(line: Seq<char>) -> Option<VersionView> {
    if text::starts_with(line, "ZKsync"@) {
        version::version_of_text(text::trim(text::without_prefixes(line, "ZKsync:"@)))
    } else {
        None
    }
}

/// The versions that `solc --version` tells.
pub open spec fn told_versions(said: Seq<char>) -> Result<SolcVersionInfoView, SolcErrorView> {
    let lines = filled_lines(said);
    if lines.len() < 2 {
        Err(SolcErrorView::Message("Version not found in Solc output"@))
    } else {
        let written = solc_version_text(lines[1]);
        match version::version_of_text(written) {
            Some(version) => Ok(
                SolcVersionInfoView { version, zksync_version: zksync_version_on(lines.last()) },
            ),
            None => Err(SolcErrorView::Semver(version::parse_error(written))),
        }
    }
}

/// Whether a result is the one that is told.
pub open spec fn is_info(
    res: Result<SolcVersionInfo, SolcError>,
    told: Result<SolcVersionInfoView, SolcErrorView>,
) -> bool {
    match res {
        Ok(info) => told == Ok::<SolcVersionInfoView, SolcErrorView>(info@),
        Err(error) => told == Err::<SolcVersionInfoView, SolcErrorView>(error@),
    }
}

/// Reads both the solc semver and the optional ZKsync version out of what `solc --version` says
pub fn read_solc_version_info(said: &str) -> (res: Result<SolcVersionInfo, SolcError>)
    ensures
        is_info(res, told_versions(said@)),
{
    let lines = split_filled_lines(said);
    let ghost all = filled_lines(said@);
    assert(all.len() == lines.len());
    if lines.len() < 2 {
        return Err(SolcError::msg("Version not found in Solc output"));
    }
    assert(all[1] == lines@[1]@ && all.last() == lines@[lines.len() - 1]@);
    proof {
        reveal_strlit(".g++");
    }
    let written = text::replace_all(
        text::strip_prefixes(lines[1].as_str(), "Version: ").as_str(),
        ".g++",
        ".gcc",
    );
    let version = match Version::parse(written.as_str()) {
        Ok(version) => version,
        Err(message) => {
            return Err(SolcError::Semver(message));
        },
    };
    let last = lines[lines.len() - 1].as_str();
    let zksync_version = if text::has_prefix(last, "ZKsync") {
        let rest = text::strip_prefixes(last, "ZKsync:");
        match Version::parse(text::trimmed(rest.as_str()).as_str()) {
            Ok(version) => Some(version),
            Err(_) => None,
        }
    } else {
        None
    };
    Ok(SolcVersionInfo { version, zksync_version })
}

/// The error of a program that failed.
pub open spec fn failed(output: Output) -> SolcErrorView {
    SolcErrorView::SolcOutput {
        success: output.success,
        stdout: output.stdout@,
        stderr: output.stderr@,
    }
}

/// Given the output of `solc --version`, get both the solc semver and optional zkSync version.
pub fn get_solc_version_info(output: Output) -> (res: Result<SolcVersionInfo, SolcError>)
    ensures
        is_info(
            res,
            if output.success {
                told_versions(process::utf8_lossy(output.stdout@))
            } else {
                Err(failed(output))
            },
        ),
{
    if !output.success {
        return Err(SolcError::SolcOutput(output));
    }
    read_solc_version_info(read_lossy(&output.stdout).as_str())
}

/// The first version among words, where a `v` in front does not count.
pub open spec fn first_version(words: Seq<Seq<char>>) -> Option<VersionView>
    decreases words.len(),
{
    if words.len() == 0 {
        None
    } else {
        match version::version_of_text(text::without_prefixes(words[0], "v"@)) {
            Some(v) => Some(v),
            None => first_version(words.drop_first()),
        }
    }
}

/// The version that `zksolc --version` tells: the first one on the last line.
pub open spec fn told_version(said: Seq<char>) -> Result<VersionView, SolcErrorView> {
    let lines = filled_lines(said);
    if lines.len() == 0 {
        Err(SolcErrorView::Message("Version not found in zksolc output"@))
    } else {
        match first_version(text::words(lines.last())) {
            Some(v) => Ok(v),
            None => Err(
                SolcErrorView::Message("Unable to retrieve version from zksolc output"@),
            ),
        }
    }
}

/// Whether a result is the version that is told.
pub open spec fn is_version(
    res: Result<Version, SolcError>,
    told: Result<VersionView, SolcErrorView>,
) -> bool {
    match res {
        Ok(v) => told == Ok::<VersionView, SolcErrorView>(v@),
        Err(error) => told == Err::<VersionView, SolcErrorView>(error@),
    }
}

/// Reads the version out of what `zksolc --version` says
pub fn read_version(said: &str) -> (res: Result<Version, SolcError>)
    ensures
        is_version(res, told_version(said@)),
{
    let lines = split_filled_lines(said);
    let ghost all = filled_lines(said@);
    assert(all.len() == lines.len());
    if lines.len() == 0 {
        return Err(SolcError::msg("Version not found in zksolc output"));
    }
    let last = lines[lines.len() - 1].as_str();
    assert(all.last() == last@) by {
        assert(text::texts(lines@)[lines.len() - 1] == last@);
    }
    proof {
        reveal_strlit("v");
    }
    let words = text::split_words(last);
    let ghost parts = text::words(last@);
    let mut i: usize = 0;
    assert(parts.len() == words.len());
    assert(parts.skip(0) =~= parts);
    while i < words.len()
        invariant
            text::texts(words@) == parts,
            parts.len() == words.len(),
            "v"@.len() > 0,
            i <= words.len(),
            filled_lines(said@) == all,
            all.len() > 0,
            parts == text::words(all.last()),
            first_version(parts.skip(i as int)) == first_version(parts),
        decreases words.len() - i,
    {
        assert(parts.skip(i as int)[0] == words@[i as int]@);
        assert(parts.skip(i as int).drop_first() =~= parts.skip(i + 1));
        let trimmed = text::strip_prefixes(words[i].as_str(), "v");
        if let Ok(version) = Version::parse(trimmed.as_str()) {
            return Ok(version);
        }
        i = i + 1;
    }
    Err(SolcError::msg("Unable to retrieve version from zksolc output"))
}

/// Parses the output of `zksolc --version` as a SemVer [`Version`].
pub fn version_from_output(output: Output) -> (res: Result<Version, SolcError>)
    ensures
        is_version(
            res,
            if output.success {
                told_version(process::utf8_lossy(output.stdout@))
            } else {
                Err(failed(output))
            },
        ),
{
    if output.success {
        read_version(read_lossy(&output.stdout).as_str())
    } else {
        Err(SolcError::SolcOutput(output))
    }
}

/// Returns what the compiler wrote, or the error if it failed
pub fn compile_output(output: Output) -> (res: Result<Vec<u8>, SolcError>)
    ensures
        match res {
            Ok(written) => output.success && written == output.stdout,
            Err(error) => !output.success && error@ == failed(output),
        },
{
    if output.success {
        Ok(output.stdout)
    } else {
        Err(SolcError::SolcOutput(output))
    }
}

/// The error of a failed attempt to run a compiler
pub fn map_io_err(zksolc_path: &str, message: &str) -> (res: SolcError)
    ensures
        res@ == (SolcErrorView::Io { message: message@, path: zksolc_path@ }),
{
    SolcError::io(message, zksolc_path)
}

/// The version of `solc` that a file in the compilers directory is, if it is one.
pub open spec fn installed_version(os: ZkSolcOS, file: Seq<char>) -> Option<VersionView> {
    let prefix = os.solc_prefix();
    if text::ends_with(file, version::version_text(solc_release())) && text::starts_with(
        file,
        prefix,
    ) {
        version::version_of_text(
            text::pieces(file.skip(prefix.len() as int), Separator::Char('-'))[0],
        )
    } else {
        None
    }
}

/// The versions of `solc` among files.
pub open spec fn installed_versions(os: ZkSolcOS, files: Seq<Seq<char>>) -> Seq<VersionView>
    decreases files.len(),
{
    if files.len() == 0 {
        Seq::empty()
    } else {
        let before = installed_versions(os, files.drop_last());
        match installed_version(os, files.last()) {
            Some(v) => before.push(v),
            None => before,
        }
    }
}

/// The releases of a minor version with the given patch numbers.
pub open spec fn patches(minor: u64, min: u64, max: u64) -> Seq<VersionView> {
    Seq::new((max - min + 1) as nat, |i: int| version::release(0, minor, (min + i) as u64))
}

/// The versions of `solc` that can be installed.
pub open spec fn available_releases() -> Seq<VersionView> {
    patches(4, 12, 26) + patches(5, 0, 17) + patches(6, 0, 12) + patches(7, 0, 6) + patches(
        8,
        0,
        28,
    )
}

fn push_patches(res: &mut Vec<Version>, minor: u64, min: u64, max: u64)
    requires
        min <= max < u64::MAX,
    ensures
        version::views(final(res)@) == version::views(old(res)@) + patches(minor, min, max),
{
    let ghost before = version::views(res@);
    let mut i: u64 = min;
    assert(version::views(res@) =~= before + patches(minor, min, max).take(0));
    while i <= max
        invariant
            before == version::views(old(res)@),
            min <= i <= max + 1,
            max < u64::MAX,
            version::views(res@) =~= before + patches(minor, min, max).take(i - min),
        decreases max + 1 - i,
    {
        let ghost was = res@;
        let version = Version::new(0, minor, i);
        res.push(version);
        assert(version::views(res@) =~= version::views(was).push(version@));
        i = i + 1;
    }
    assert(patches(minor, min, max).take(i - min) =~= patches(minor, min, max));
}

/// Whether a version has the same numbers as one of a list.
pub open spec fn has_numbers(list: Seq<VersionView>, v: VersionView) -> bool {
    exists|i: int|
        0 <= i < list.len() && (#[trigger] list[i]).major == v.major && list[i].minor == v.minor
            && list[i].patch == v.patch
}

fn find_numbers(list: &Vec<Version>, v: &Version) -> (res: bool)
    ensures
        res == has_numbers(version::views(list@), v@),
{
    let ghost all = version::views(list@);
    let mut i: usize = 0;
    while i < list.len()
        invariant
            all == version::views(list@),
            i <= list.len(),
            forall|j: int|
                0 <= j < i ==> !((#[trigger] all[j]).major == v@.major && all[j].minor == v@.minor
                    && all[j].patch == v@.patch),
        decreases list.len() - i,
    {
        assert(all[i as int] == list@[i as int]@);
        if list[i].major == v.major && list[i].minor == v.minor && list[i].patch == v.patch {
            return true;
        }
        i = i + 1;
    }
    false
}

/// The versions that are not among those of a list.
pub open spec fn not_among(versions: Seq<VersionView>, list: Seq<VersionView>) -> Seq<
    VersionView,
> {
    versions.filter(|v: VersionView| !has_numbers(list, v))
}

/// The versions of `solc` that are installed, and all others that can be.
pub open spec fn known_versions(installed: Seq<VersionView>) -> Seq<CompilerVersionView> {
    installed.map_values(|v: VersionView| CompilerVersionView::Installed(v)) + not_among(
        available_releases(),
        installed,
    ).map_values(|v: VersionView| CompilerVersionView::Remote(v))
}

/// The paths of a set, in their order.
pub open spec fn path_list(paths: Seq<(Seq<char>, ())>) -> Seq<Seq<char>> {
    paths.map_values(|entry: (Seq<char>, ())| entry.0)
}

/// The paths of a set, in their order
fn list_paths(paths: &PathSet) -> (res: Vec<String>)
    ensures
        text::texts(res@) == path_list(paths@),
{
    let ghost all = path_list(paths@);
    let mut res: Vec<String> = Vec::new();
    let mut i: usize = 0;
    while i < paths.len()
        invariant
            all == path_list(paths@),
            i <= paths@.len(),
            text::texts(res@) =~= all.take(i as int),
        decreases paths@.len() - i,
    {
        let ghost before = text::texts(res@);
        let path: String = paths.key_at(i).clone();
        res.push(path);
        assert(text::texts(res@) =~= before.push(path@));
        i = i + 1;
    }
    assert(all.take(i as int) =~= all);
    res
}

/// Abstraction over `zksolc` command line utility: the executable, the `solc` that it works with,
/// and the paths that it is called with
pub struct ZkSolc {
    /// Path to the `zksolc` executable
    pub zksolc: String,
    /// Value for --base path
    pub base_path: Option<String>,
    /// Value for --allow-paths arg.
    pub allow_paths: PathSet,
    /// Value for --include-paths arg.
    pub include_paths: PathSet,
    /// Value for --solc arg
    pub solc: Option<String>,
    /// Version data for solc
    pub solc_version_info: SolcVersionInfo,
}

/// The arguments that name paths to look for imports in, all but the base path.
pub open spec fn include_args(paths: Seq<Seq<char>>, base: Seq<char>) -> Seq<Seq<char>>
    decreases paths.len(),
{
    if paths.len() == 0 {
        Seq::empty()
    } else {
        let before = include_args(paths.drop_last(), base);
        if path::same_path(paths.last(), base) {
            before
        } else {
            before.push("--include-path"@).push(paths.last())
        }
    }
}

impl ZkSolc {
    /// The arguments of a compiler run.
    pub open spec fn compile_args(self, yul: bool) -> Seq<Seq<char>> {
        (if self.allow_paths@.len() > 0 {
            seq!["--allow-paths"@, text::joined(path_list(self.allow_paths@), ","@)]
        } else {
            Seq::empty()
        }) + (match self.base_path {
            Some(base) => include_args(path_list(self.include_paths@), base@) + seq![
                "--base-path"@,
                base@,
            ],
            None => Seq::empty(),
        }) + (match self.solc {
            Some(solc) => if yul {
                Seq::empty()
            } else {
                seq!["--solc"@, solc@]
            },
            None => Seq::empty(),
        }) + seq!["--standard-json"@]
    }

    /// The path of the `solc` whose version has to be known for [`Self::new()`]
    pub fn solc_to_ask(solc: &Option<String>) -> (res: String)
        ensures
            res@ == (match *solc {
                Some(path) => path@,
                None => "solc"@,
            }),
    {
        match solc {
            Some(path) => path.clone(),
            None => "solc".to_string(),
        }
    }

    /// A new instance which points to `zksolc`
    ///
    /// `solc_version_info` is what is known of the given `solc`, or of `solc` if none is given.
    pub fn new(path: String, solc: Option<String>, solc_version_info: SolcVersionInfo) -> (res:
        Self)
        ensures
            res.zksolc == path,
            res.base_path is None,
            res.allow_paths@.len() == 0,
            res.include_paths@.len() == 0,
            res.solc == solc,
            res.solc_version_info == solc_version_info,
    {
        ZkSolc {
            zksolc: path,
            base_path: None,
            allow_paths: PathSet::new(),
            include_paths: PathSet::new(),
            solc,
            solc_version_info,
        }
    }

    /// Sets zksolc's base path
    pub fn with_base_path(self, base_path: String) -> (res: Self)
        ensures
            res == (ZkSolc { base_path: Some(base_path), ..self }),
    {
        let mut res = self;
        res.base_path = Some(base_path);
        res
    }

    /// The command that asks a compiler for its version
    pub fn version_command(path: &str) -> (res: Command)
        ensures
            res@ == (CommandView {
                program: path@,
                args: seq!["--version"@],
                current_dir: None,
            }),
    {
        let mut cmd = Command::new(path);
        cmd.arg("--version");
        assert(cmd@.args =~= seq!["--version"@]);
        cmd
    }

    /// The command that compiles with `--standard-json`
    pub fn compile_command(&self, input: &ZkSolcInput) -> (res: Command)
        ensures
            res@ == (CommandView {
                program: self.zksolc@,
                args: self.compile_args(input@.language == input::yul()),
                current_dir: text::opt_text(self.base_path),
            }),
    {
        let mut cmd = Command::new(self.zksolc.as_str());
        let ghost mut expected: Seq<Seq<char>> = Seq::empty();
        if self.allow_paths.len() > 0 {
            cmd.arg("--allow-paths");
            cmd.arg(text::join(&list_paths(&self.allow_paths), ",").as_str());
            proof {
                expected = expected + seq![
                    "--allow-paths"@,
                    text::joined(path_list(self.allow_paths@), ","@),
                ];
            }
        }
        assert(cmd@.args =~= expected);
        if let Some(base_path) = &self.base_path {
            let base = base_path.as_str();
            let paths = list_paths(&self.include_paths);
            let ghost all = path_list(self.include_paths@);
            let ghost before = cmd@;
            assert(all.len() == paths.len());
            assert(all.take(0) =~= Seq::<Seq<char>>::empty());
            let mut i: usize = 0;
            while i < paths.len()
                invariant
                    text::texts(paths@) == all,
                    all.len() == paths.len(),
                    i <= paths.len(),
                    cmd@.args =~= before.args + include_args(all.take(i as int), base@),
                    cmd@.program == before.program,
                    cmd@.current_dir == before.current_dir,
                decreases paths.len() - i,
            {
                assert(all.take(i + 1).drop_last() =~= all.take(i as int));
                assert(all.take(i + 1).last() == paths@[i as int]@);
                if !path::same(paths[i].as_str(), base) {
                    cmd.arg("--include-path");
                    cmd.arg(paths[i].as_str());
                }
                i = i + 1;
            }
            assert(all.take(i as int) =~= all);
            cmd.arg("--base-path");
            cmd.arg(base);
            cmd.current_dir(base);
            proof {
                expected = expected + (include_args(all, base@) + seq!["--base-path"@, base@]);
            }
        } else {
            proof {
                expected = expected + Seq::empty();
            }
        }
        assert(cmd@.args =~= expected);
        // don't pass solc argument in yul mode (avoid verification)
        if !input.is_yul() {
            if let Some(solc) = &self.solc {
                cmd.arg("--solc");
                cmd.arg(solc.as_str());
                proof {
                    expected = expected + seq!["--solc"@, solc@];
                }
            }
        }
        assert(cmd@.args =~= expected);
        cmd.arg("--standard-json");
        assert(cmd@.args =~= self.compile_args(input@.language == input::yul()));
        cmd
    }

    /// Reads what the compiler wrote as text
    pub fn read_output(written: &Vec<u8>) -> (res: Result<String, SolcError>)
        ensures
            match res {
                Ok(output) => utf8::valid_utf8(written@) && output@ == utf8::decode_utf8(written@),
                Err(error) => !utf8::valid_utf8(written@) && error@ == SolcErrorView::InvalidUtf8,
            },
    {
        match read_utf8(written) {
            Some(output) => Ok(output),
            None => Err(SolcError::InvalidUtf8),
        }
    }

    /// Adds the zksync version to an output so that there's some way to identify if zksync solc
    /// was used by looking at build info
    pub fn compile(&self, compiler_output: CompilerOutput) -> (res: CompilerOutput)
        ensures
            res == (CompilerOutput {
                zksync_solc_version: self.solc_version_info.zksync_version,
                ..compiler_output
            }),
    {
        let mut res = compiler_output;
        res.zksync_solc_version = match &self.solc_version_info.zksync_version {
            Some(version) => Some(version.clone()),
            None => None,
        };
        res
    }

    /// The versions of `solc` among the files of the compilers directory, in ascending order
    pub fn installed_versions_in(os: ZkSolcOS, files: &Vec<String>) -> (res: Vec<Version>)
        ensures
            version::views(res@).to_multiset() == installed_versions(
                os,
                text::texts(files@),
            ).to_multiset(),
            version::sorted_by_version::<Version>(version::views(res@)),
            version::all_valid::<Version>(version::views(res@)),
    {
        let ghost all = text::texts(files@);
        let prefix = os.get_solc_prefix();
        let release = zksync_solc_release().to_text();
        let mut versions: Vec<Version> = Vec::new();
        let mut i: usize = 0;
        assert(all.len() == files.len());
        assert(all.take(0) =~= Seq::<Seq<char>>::empty());
        assert(version::views(versions@) =~= installed_versions(os, all.take(0)));
        while i < files.len()
            invariant
                all == text::texts(files@),
                all.len() == files.len(),
                i <= files.len(),
                prefix@ == os.solc_prefix(),
                release@ == version::version_text(solc_release()),
                version::views(versions@) == installed_versions(os, all.take(i as int)),
                version::all_valid::<Version>(version::views(versions@)),
            decreases files.len() - i,
        {
            let file = files[i].as_str();
            assert(all.take(i + 1).drop_last() =~= all.take(i as int));
            assert(all.take(i + 1).last() == file@) by {
                assert(text::texts(files@)[i as int] == file@);
            }
            if text::has_suffix(file, release.as_str()) {
                if let Some(rest) = text::without_prefix(file, prefix) {
                    let parts = text::split(rest.as_str(), Separator::Char('-'));
                    proof {
                        text::lemma_pieces_not_empty(rest@, Separator::Char('-'));
                        assert(text::texts(parts@).len() == parts.len());
                        assert(text::texts(parts@)[0] == parts@[0]@);
                    }
                    if let Ok(version) = Version::parse(parts[0].as_str()) {
                        let ghost before = version::views(versions@);
                        versions.push(version);
                        assert(version::views(versions@) =~= before.push(version@));
                    }
                }
            }
            i = i + 1;
        }
        assert(all.take(i as int) =~= all);
        sort_by_version(versions)
    }

    /// The versions of `solc` that are installed, in ascending order
    ///
    /// `files` are the names of the files in the compilers directory. There are no versions
    /// without a home directory.
    pub fn solc_installed_versions(host: &Host, files: &Vec<String>) -> (res: Vec<Version>)
        requires
            host.home is Some ==> system(host.os@, host.arch@) is Some,
        ensures
            version::views(res@).to_multiset() == (match (
                host.home,
                system(host.os@, host.arch@),
            ) {
                (Some(_), Some(os)) => installed_versions(os, text::texts(files@)),
                _ => Seq::empty(),
            }).to_multiset(),
            version::sorted_by_version::<Version>(version::views(res@)),
            version::all_valid::<Version>(version::views(res@)),
    {
        if host.home.is_some() {
            if let Ok(os) = get_operating_system(host.os.as_str(), host.arch.as_str()) {
                return ZkSolc::installed_versions_in(os, files);
            }
        }
        let res: Vec<Version> = Vec::new();
        assert(version::views(res@) =~= Seq::<VersionView>::empty());
        res
    }

    /// The versions of `solc` that can be installed
    pub fn solc_available_versions() -> (res: Vec<Version>)
        ensures
            version::views(res@) == available_releases(),
            version::all_valid::<Version>(version::views(res@)),
    {
        let mut ret: Vec<Version> = Vec::new();
        push_patches(&mut ret, 4, 12, 26);
        push_patches(&mut ret, 5, 0, 17);
        push_patches(&mut ret, 6, 0, 12);
        push_patches(&mut ret, 7, 0, 6);
        push_patches(&mut ret, 8, 0, 28);
        assert(version::views(ret@) =~= available_releases());
        proof {
            laws::lemma_available_valid();
        }
        ret
    }
}

/// What is said where the home directory is not known.
pub open spec fn no_home() -> SolcErrorView {
    SolcErrorView::Message("Could not build SolcManager - homedir not found"@)
}

/// The directory of the compilers.
pub open spec fn compilers_dir(home: Seq<char>) -> Seq<char> {
    path::join_path(home, ".zksync"@)
}

/// The file name of `zksolc`.
pub open spec fn zksolc_file_name(os: ZkSolcOS, v: VersionView) -> Seq<char> {
    os.zksolc_prefix() + "v"@ + version::version_text(v)
}

/// The file name of `solc`.
pub open spec fn solc_file_name(os: ZkSolcOS, version: Seq<char>) -> Seq<char> {
    os.solc_prefix() + version + "-"@ + version::version_text(solc_release())
}

/// The file name of a lock.
pub open spec fn lock_file_name(compiler: Seq<char>, version: Seq<char>) -> Seq<char> {
    ".lock-"@ + compiler + "-"@ + version
}

/// Whether a result is a path in the compilers directory: it takes a system that there are
/// compilers for and a home directory.
pub open spec fn is_path(
    res: Result<String, SolcError>,
    host: Host,
    file_name: spec_fn(ZkSolcOS) -> Seq<char>,
) -> bool {
    match (system(host.os@, host.arch@), host.home) {
        (Some(os), Some(home)) => res matches Ok(found) && found@ == path::join_path(
            compilers_dir(home@),
            file_name(os),
        ),
        (Some(_), None) => res matches Err(error) && error@ == no_home(),
        (None, _) => res matches Err(error) && error@ == unsupported_system(host.os@),
    }
}

/// Where `zksolc` can be downloaded from. Pre-releases are in a place of their own.
pub open spec fn zksolc_url(os: ZkSolcOS, v: VersionView) -> Seq<char> {
    if v.pre.len() == 0 {
        "https://github.com/matter-labs/zksolc-bin/releases/download/v"@ + version::version_text(v)
            + "/"@ + os.zksolc_prefix() + "v"@ + version::version_text(v)
    } else {
        "https://github.com/matter-labs/era-compiler-solidity/releases/download/"@ + v.pre
            + "/zksolc-"@ + os.zksolc_prefix() + "v"@ + version::release_text(v)
    }
}

/// Where `solc` can be downloaded from.
pub open spec fn solc_url(os: ZkSolcOS, version: Seq<char>) -> Seq<char> {
    let release = version::version_text(solc_release());
    "https://github.com/matter-labs/era-solidity/releases/download/"@ + version + "-"@ + release
        + "/"@ + os.solc_prefix() + version + "-"@ + release
}

/// What has to be known to install a compiler.
#[derive(Debug)]
pub struct Install {
    /// The directory of the compilers, to be created if it does not exist
    pub compilers_dir: String,
    /// Where the compiler is to be written
    pub compiler_path: String,
    /// The file to be locked meanwhile
    pub lock_path: String,
    /// Where the compiler is to be downloaded from
    pub download_url: String,
    /// How the compiler is called in messages
    pub label: String,
}

/// What an [`Install`] holds.
#[verifier::ext_equal]
pub struct InstallView {
    pub compilers_dir: Seq<char>,
    pub compiler_path: Seq<char>,
    pub lock_path: Seq<char>,
    pub download_url: Seq<char>,
    pub label: Seq<char>,
}

impl View for Install {
    type V = InstallView;

    open spec fn view(&self) -> InstallView {
        InstallView {
            compilers_dir: self.compilers_dir@,
            compiler_path: self.compiler_path@,
            lock_path: self.lock_path@,
            download_url: self.download_url@,
            label: self.label@,
        }
    }
}

/// How `zksolc` is installed.
pub open spec fn zksolc_install(os: ZkSolcOS, home: Seq<char>, v: VersionView) -> InstallView {
    let dir = compilers_dir(home);
    InstallView {
        compilers_dir: dir,
        compiler_path: path::join_path(dir, zksolc_file_name(os, v)),
        lock_path: path::join_path(dir, lock_file_name("zksolc"@, version::version_text(v))),
        download_url: zksolc_url(os, v),
        label: "zksolc-"@ + version::version_text(v),
    }
}

/// How `solc` is installed.
pub open spec fn solc_install(os: ZkSolcOS, home: Seq<char>, version: Seq<char>) -> InstallView {
    let dir = compilers_dir(home);
    InstallView {
        compilers_dir: dir,
        compiler_path: path::join_path(dir, solc_file_name(os, version)),
        lock_path: path::join_path(dir, lock_file_name("solc"@, version)),
        download_url: solc_url(os, version),
        label: "solc-"@ + version,
    }
}

/// Whether a result is an installation: it takes a system that there are compilers for and a
/// home directory.
pub open spec fn is_install(
    res: Result<Install, SolcError>,
    host: Host,
    install: spec_fn(ZkSolcOS, Seq<char>) -> InstallView,
) -> bool {
    match (system(host.os@, host.arch@), host.home) {
        (Some(os), Some(home)) => res matches Ok(found) && found@ == install(os, home@),
        (Some(_), None) => res matches Err(error) && error@ == no_home(),
        (None, _) => res matches Err(error) && error@ == unsupported_system(host.os@),
    }
}

/// Returns the lockfile to use for a specific file
pub fn lock_file_path(compilers_dir: &str, compiler: &str, version: &str) -> (res: String)
    ensures
        res@ == path::join_path(compilers_dir@, lock_file_name(compiler@, version@)),
{
    let mut name: String = ".lock-".to_string();
    name.append(compiler);
    name.append("-");
    name.append(version);
    path::join(compilers_dir, name.as_str())
}

/// The error of a failed attempt to create the directory of the compilers
pub fn compilers_dir_failed(reason: &str) -> (res: SolcError)
    ensures
        res@ == SolcErrorView::Message("Could not create compilers path: "@ + reason@),
{
    let mut message: String = "Could not create compilers path: ".to_string();
    message.append(reason);
    SolcError::Message(message)
}

impl ZkSolc {
    /// The directory of the compilers
    pub fn compilers_dir(host: &Host) -> (res: Result<String, SolcError>)
        ensures
            match host.home {
                Some(home) => res matches Ok(dir) && dir@ == compilers_dir(home@),
                None => res matches Err(error) && error@ == no_home(),
            },
    {
        match &host.home {
            Some(home) => Ok(path::join(home.as_str(), ".zksync")),
            None => Err(SolcError::msg("Could not build SolcManager - homedir not found")),
        }
    }

    /// The path of `zksolc`
    pub fn compiler_path(host: &Host, version: &Version) -> (res: Result<String, SolcError>)
        ensures
            is_path(res, *host, |os: ZkSolcOS| zksolc_file_name(os, version@)),
    {
        let os = match get_operating_system(host.os.as_str(), host.arch.as_str()) {
            Ok(os) => os,
            Err(error) => {
                return Err(error);
            },
        };
        let dir = match ZkSolc::compilers_dir(host) {
            Ok(dir) => dir,
            Err(error) => {
                return Err(error);
            },
        };
        let mut name: String = os.get_zksolc_prefix().to_string();
        name.append("v");
        name.append(version.to_text().as_str());
        Ok(path::join(dir.as_str(), name.as_str()))
    }

    /// The path of `solc`
    pub fn solc_path(host: &Host, version_str: &str) -> (res: Result<String, SolcError>)
        ensures
            is_path(res, *host, |os: ZkSolcOS| solc_file_name(os, version_str@)),
    {
        let os = match get_operating_system(host.os.as_str(), host.arch.as_str()) {
            Ok(os) => os,
            Err(error) => {
                return Err(error);
            },
        };
        let dir = match ZkSolc::compilers_dir(host) {
            Ok(dir) => dir,
            Err(error) => {
                return Err(error);
            },
        };
        let mut name: String = os.get_solc_prefix().to_string();
        name.append(version_str);
        name.append("-");
        name.append(zksync_solc_release().to_text().as_str());
        Ok(path::join(dir.as_str(), name.as_str()))
    }

    /// How to install a zksolc version
    pub fn blocking_install(host: &Host, version: &Version) -> (res: Result<Install, SolcError>)
        ensures
            is_install(
                res,
                *host,
                |os: ZkSolcOS, home: Seq<char>| zksolc_install(os, home, version@),
            ),
    {
        let os = match get_operating_system(host.os.as_str(), host.arch.as_str()) {
            Ok(os) => os,
            Err(error) => {
                return Err(error);
            },
        };
        let prefix = os.get_zksolc_prefix();
        let written = version.to_text();
        let mut download_url: String;
        if version.pre.as_str().is_empty() {
            download_url =
            "https://github.com/matter-labs/zksolc-bin/releases/download/v".to_string();
            download_url.append(written.as_str());
            download_url.append("/");
            download_url.append(prefix);
            download_url.append("v");
            download_url.append(written.as_str());
        } else {
            // pre-releases are in another repository, named without pre-release and build metadata
            download_url =
            "https://github.com/matter-labs/era-compiler-solidity/releases/download/".to_string();
            download_url.append(version.pre.as_str());
            download_url.append("/zksolc-");
            download_url.append(prefix);
            download_url.append("v");
            download_url.append(version.release_string().as_str());
        }
        assert(download_url@ == zksolc_url(os, version@));
        let dir = match ZkSolc::compilers_dir(host) {
            Ok(dir) => dir,
            Err(error) => {
                return Err(error);
            },
        };
        let compiler_path = match ZkSolc::compiler_path(host, version) {
            Ok(path) => path,
            Err(error) => {
                return Err(error);
            },
        };
        let lock_path = lock_file_path(dir.as_str(), "zksolc", written.as_str());
        let mut label: String = "zksolc-".to_string();
        label.append(written.as_str());
        Ok(Install { compilers_dir: dir, compiler_path, lock_path, download_url, label })
    }

    /// How to install a zksync solc version
    pub fn solc_blocking_install(host: &Host, version_str: &str) -> (res: Result<
        Install,
        SolcError,
    >)
        ensures
            is_install(
                res,
                *host,
                |os: ZkSolcOS, home: Seq<char>| solc_install(os, home, version_str@),
            ),
    {
        let os = match get_operating_system(host.os.as_str(), host.arch.as_str()) {
            Ok(os) => os,
            Err(error) => {
                return Err(error);
            },
        };
        let release = zksync_solc_release().to_text();
        let mut download_url: String =
            "https://github.com/matter-labs/era-solidity/releases/download/".to_string();
        download_url.append(version_str);
        download_url.append("-");
        download_url.append(release.as_str());
        download_url.append("/");
        download_url.append(os.get_solc_prefix());
        download_url.append(version_str);
        download_url.append("-");
        download_url.append(release.as_str());
        let dir = match ZkSolc::compilers_dir(host) {
            Ok(dir) => dir,
            Err(error) => {
                return Err(error);
            },
        };
        let compiler_path = match ZkSolc::solc_path(host, version_str) {
            Ok(path) => path,
            Err(error) => {
                return Err(error);
            },
        };
        let lock_path = lock_file_path(dir.as_str(), "solc", version_str);
        let mut label: String = "solc-".to_string();
        label.append(version_str);
        Ok(Install { compilers_dir: dir, compiler_path, lock_path, download_url, label })
    }

    /// The path of an installed zksolc version
    ///
    /// `path` is the version's [`Self::compiler_path()`], `is_file` whether there is a file.
    pub fn find_installed_version(path: String, is_file: bool) -> (res: Option<String>)
        ensures
            res == (if is_file {
                Some(path)
            } else {
                None
            }),
    {
        if !is_file {
            return None;
        }
        Some(path)
    }

    /// The path of an installed solc version
    ///
    /// `path` is the version's [`Self::solc_path()`], `is_file` whether there is a file.
    pub fn find_solc_installed_version(path: String, is_file: bool) -> (res: Option<String>)
        ensures
            res == (if is_file {
                Some(path)
            } else {
                None
            }),
    {
        if !is_file {
            return None;
        }
        Some(path)
    }
}

/// The arguments of a compiler run that come from its caller.
pub struct CliSettings {
    pub base_path: Option<String>,
    pub allow_paths: PathSet,
    pub include_paths: PathSet,
}

/// An input and the version of `solc` that it is for.
pub struct ZkSolcVersionedInput {
    pub input: ZkSolcInput,
    pub solc_version: Version,
    pub cli_settings: CliSettings,
}

/// `zksolc` and which `solc` it works with.
pub struct ZkSolcCompiler {
    pub zksolc: String,
    pub solc: SolcCompiler,
}

/// What is known of the compiler to work with.
pub enum SolcEvent {
    /// Nothing yet
    Wanted,
    /// It was looked for, and may have been found
    Searched(Option<String>),
    /// It was installed
    Installed(String),
}

/// What is to be done about the compiler to work with.
#[derive(Debug)]
pub enum SolcStep {
    /// Look for an installed version
    Search(String),
    /// Install a version
    Install(String),
    /// Work with the one at this path
    Use(String),
}

/// Whether a step is the one to take: the wanted version is looked for first, it is installed just
/// where it was not found, and what was found or installed is worked with.
pub open spec fn is_solc_step(step: SolcStep, wanted: Seq<char>, event: SolcEvent) -> bool {
    match event {
        SolcEvent::Wanted => step matches SolcStep::Search(v) && v@ == wanted,
        SolcEvent::Searched(Some(path)) => step == SolcStep::Use(path),
        SolcEvent::Searched(None) => step matches SolcStep::Install(v) && v@ == wanted,
        SolcEvent::Installed(path) => step == SolcStep::Use(path),
    }
}

impl SolcEvent {
    /// What is to be done next to get the wanted version
    pub fn next(self, wanted: String) -> (res: SolcStep)
        ensures
            is_solc_step(res, wanted@, self),
    {
        match self {
            SolcEvent::Wanted => SolcStep::Search(wanted),
            SolcEvent::Searched(Some(path)) => SolcStep::Use(path),
            SolcEvent::Searched(None) => SolcStep::Install(wanted),
            SolcEvent::Installed(path) => SolcStep::Use(path),
        }
    }
}

impl ZkSolc {
    /// What is to be done next to get the path of a `zksolc` version, which is installed if it is
    /// missing
    pub fn get_path_for_version(version: &Version, event: SolcEvent) -> (res: SolcStep)
        ensures
            is_solc_step(res, version::version_text(version@), event),
    {
        event.next(version.to_text())
    }
}

impl ZkSolcCompiler {
    /// The versions of `solc` to choose from
    ///
    /// `installed` are the versions that are installed. Other versions that can be installed are
    /// added; all are in ascending order.
    pub fn available_versions(&self, installed: Vec<Version>) -> (res: Vec<CompilerVersion>)
        requires
            version::all_valid::<Version>(version::views(installed@)),
        ensures
            version::views(res@).to_multiset() == (match self.solc {
                SolcCompiler::Specific(solc) => seq![
                    CompilerVersionView::Installed(
                        version::release(
                            solc.version.major,
                            solc.version.minor,
                            solc.version.patch,
                        ),
                    ),
                ],
                SolcCompiler::AutoDetect => known_versions(version::views(installed@)),
            }).to_multiset(),
            version::sorted_by_version::<CompilerVersion>(version::views(res@)),
    {
        match &self.solc {
            SolcCompiler::Specific(solc) => {
                let mut res: Vec<CompilerVersion> = Vec::new();
                res.push(
                    CompilerVersion::Installed(
                        Version::new(
                            solc.version.major,
                            solc.version.minor,
                            solc.version.patch,
                        ),
                    ),
                );
                assert(version::views(res@) =~= seq![
                    CompilerVersionView::Installed(
                        version::release(
                            solc.version.major,
                            solc.version.minor,
                            solc.version.patch,
                        ),
                    ),
                ]);
                res
            },
            SolcCompiler::AutoDetect => {
                let all = merge_versions(installed, ZkSolc::solc_available_versions());
                sort_by_version(all)
            },
        }
    }

    /// What is to be done next to get the `solc` to work with
    pub fn next_solc_step(&self, input: &ZkSolcVersionedInput, event: SolcEvent) -> (res: SolcStep)
        ensures
            match self.solc {
                SolcCompiler::Specific(solc) => res == SolcStep::Use(solc.solc),
                SolcCompiler::AutoDetect => is_solc_step(
                    res,
                    version::release_text(input.solc_version@),
                    event,
                ),
            },
    {
        match &self.solc {
            SolcCompiler::Specific(solc) => SolcStep::Use(solc.solc.clone()),
            SolcCompiler::AutoDetect => event.next(input.solc_version.release_string()),
        }
    }

    /// The `zksolc` to compile an input with
    ///
    /// `solc` is the path of the `solc` to work with, `solc_version_info` what is known of it.
    pub fn zksolc(
        &self,
        input: &ZkSolcVersionedInput,
        solc: String,
        solc_version_info: SolcVersionInfo,
    ) -> (res: ZkSolc)
        ensures
            res.zksolc == self.zksolc,
            res.base_path == input.cli_settings.base_path,
            res.allow_paths@ == input.cli_settings.allow_paths@,
            res.include_paths@ == input.cli_settings.include_paths@,
            res.solc == Some(solc),
            res.solc_version_info == solc_version_info,
    {
        let mut zksolc = ZkSolc::new(self.zksolc.clone(), Some(solc), solc_version_info);
        zksolc.base_path = text::copy_option(&input.cli_settings.base_path);
        zksolc.allow_paths = copy_paths(&input.cli_settings.allow_paths);
        zksolc.include_paths = copy_paths(&input.cli_settings.include_paths);
        zksolc
    }
}

/// Puts installed and other versions into one list.
fn merge_versions(installed: Vec<Version>, available: Vec<Version>) -> (res: Vec<CompilerVersion>)
    requires
        version::all_valid::<Version>(version::views(installed@)),
        version::all_valid::<Version>(version::views(available@)),
    ensures
        version::views(res@) == version::views(installed@).map_values(
            |v: VersionView| CompilerVersionView::Installed(v),
        ) + not_among(version::views(available@), version::views(installed@)).map_values(
            |v: VersionView| CompilerVersionView::Remote(v),
        ),
        version::all_valid::<CompilerVersion>(version::views(res@)),
{
    let ghost local = version::views(installed@);
    let ghost remote = version::views(available@);
    let ghost is_new = |v: VersionView| !has_numbers(local, v);
    let ghost to_remote = |v: VersionView| CompilerVersionView::Remote(v);
    let mut others: Vec<Version> = Vec::new();
    assert(remote.len() == available.len());
    assert(version::views(others@) =~= remote.take(0).filter(is_new)) by {
        reveal(Seq::filter);
    }
    for version in it: available
        invariant
            local == version::views(installed@),
            version::views(it.seq()) == remote,
            remote.len() == it.seq().len(),
            is_new == (|v: VersionView| !has_numbers(local, v)),
            version::all_valid::<Version>(remote),
            version::all_valid::<Version>(version::views(others@)),
            version::views(others@) == remote.take(it.index() as int).filter(is_new),
    {
        let ghost i = it.index() as int;
        assert(remote[i] == version@);
        assert(remote.take(i + 1).drop_last() =~= remote.take(i));
        assert(remote.take(i + 1).filter(is_new) == (if is_new(version@) {
            remote.take(i).filter(is_new).push(version@)
        } else {
            remote.take(i).filter(is_new)
        })) by {
            reveal(Seq::filter);
        }
        if !find_numbers(&installed, &version) {
            let ghost before = version::views(others@);
            others.push(version);
            assert(version::views(others@) =~= before.push(version@));
        }
    }
    assert(remote.take(remote.len() as int) =~= remote);
    let ghost news = version::views(others@);
    let ghost first = local.map_values(|v: VersionView| CompilerVersionView::Installed(v));
    let mut res: Vec<CompilerVersion> = Vec::new();
    for version in it: installed
        invariant
            version::views(it.seq()) == local,
            local.len() == it.seq().len(),
            version::all_valid::<Version>(local),
            first == local.map_values(|v: VersionView| CompilerVersionView::Installed(v)),
            version::views(res@) =~= first.take(it.index() as int),
            version::all_valid::<CompilerVersion>(version::views(res@)),
    {
        let ghost before = version::views(res@);
        let ghost i = it.index() as int;
        assert(local[i] == version@);
        assert(Version::version_of(local[i]).valid());
        let item = CompilerVersion::Installed(version);
        res.push(item);
        assert(version::views(res@) =~= before.push(item@));
    }
    assert(first.take(local.len() as int) =~= first);
    let ghost second = news.map_values(to_remote);
    for version in it: others
        invariant
            version::views(it.seq()) == news,
            news.len() == it.seq().len(),
            version::all_valid::<Version>(news),
            to_remote == (|v: VersionView| CompilerVersionView::Remote(v)),
            second == news.map_values(to_remote),
            version::views(res@) =~= first + second.take(it.index() as int),
            version::all_valid::<CompilerVersion>(version::views(res@)),
    {
        let ghost before = version::views(res@);
        let ghost i = it.index() as int;
        assert(news[i] == version@);
        assert(Version::version_of(news[i]).valid());
        let item = CompilerVersion::Remote(version);
        res.push(item);
        assert(version::views(res@) =~= before.push(item@));
    }
    assert(second.take(news.len() as int) =~= second);
    res
}

} // verus!
