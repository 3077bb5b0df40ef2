//! What holds of the versions and the files of compilers.
use crate::compilers::zksolc;
use crate::compilers::zksolc::{Host, Install, InstallView, SolcEvent, SolcStep, ZkSolcOS};
use crate::error::{SolcError, SolcErrorView};
use crate::path;
use crate::text;
use crate::text::Separator;
use crate::version;
use crate::version::{CompilerVersionView, Version, VersionView, Versioned};
use vstd::prelude::*;
use vstd::string::*;

verus! {

/// All versions of `solc` that can be installed are valid.
pub proof fn lemma_available_valid()
    ensures
        version::all_valid::<Version>(zksolc::available_releases()),
{
    let all = zksolc::available_releases();
    assert forall|i: int| 0 <= i < all.len() implies Version::version_of(
        #[trigger] all[i],
    ).valid() by {
        lemma_release_valid(all[i].major, all[i].minor, all[i].patch);
    }
}

proof fn lemma_release_valid(major: u64, minor: u64, patch: u64)
    ensures
        version::release(major, minor, patch).valid(),
{
}

/// Just these versions of `solc` can be installed: 0.4.12 to 0.4.26, 0.5.0 to 0.5.17, 0.6.0 to
/// 0.6.12, 0.7.0 to 0.7.6 and 0.8.0 to 0.8.28.
pub proof fn law_available_releases(v: VersionView)
    ensures
        zksolc::available_releases().contains(v) <==> {
            &&& v == version::release(0, v.minor, v.patch)
            &&& {
                ||| v.minor == 4 && 12 <= v.patch <= 26
                ||| v.minor == 5 && v.patch <= 17
                ||| v.minor == 6 && v.patch <= 12
                ||| v.minor == 7 && v.patch <= 6
                ||| v.minor == 8 && v.patch <= 28
            }
        },
{
    let all = zksolc::available_releases();
    if all.contains(v) {
        let i = all.index_of(v);
        assert(all[i] == v);
    } else if v == version::release(0, v.minor, v.patch) {
        if v.minor == 4 && 12 <= v.patch <= 26 {
            assert(all[v.patch - 12] == v);
        } else if v.minor == 5 && v.patch <= 17 {
            assert(all[v.patch + 15] == v);
        } else if v.minor == 6 && v.patch <= 12 {
            assert(all[v.patch + 33] == v);
        } else if v.minor == 7 && v.patch <= 6 {
            assert(all[v.patch + 46] == v);
        } else if v.minor == 8 && v.patch <= 28 {
            assert(all[v.patch + 53] == v);
        }
    }
}

/// The versions of `solc` that can be installed are listed in ascending order, each once.
pub proof fn law_available_releases_ascend(i: int, j: int)
    requires
        0 <= i < j < zksolc::available_releases().len(),
    ensures
        ({
            let (a, b) = (zksolc::available_releases()[i], zksolc::available_releases()[j]);
            a != b && version::numbers_up_to(a, b)
        }),
{
}

/// A version of `solc` is among those to choose from just where it is installed, or where it
/// can be installed and no version with the same numbers is.
pub proof fn law_known_versions(installed: Seq<VersionView>, known: CompilerVersionView)
    ensures
        zksolc::known_versions(installed).contains(known) <==> match known {
            CompilerVersionView::Installed(v) => installed.contains(v),
            CompilerVersionView::Remote(v) => {
                &&& zksolc::available_releases().contains(v)
                &&& !zksolc::has_numbers(installed, v)
            },
        },
{
    let all = zksolc::known_versions(installed);
    let releases = zksolc::available_releases();
    let is_new = |v: VersionView| !zksolc::has_numbers(installed, v);
    let others = zksolc::not_among(releases, installed);
    let n = installed.len() as int;
    match known {
        CompilerVersionView::Installed(v) => {
            if installed.contains(v) {
                let i = installed.index_of(v);
                assert(all[i] == known);
            }
            if all.contains(known) {
                let i = all.index_of(known);
                if i < n {
                    assert(all[i] == CompilerVersionView::Installed(installed[i]));
                } else {
                    assert(all[i] == CompilerVersionView::Remote(others[i - n]));
                }
            }
        },
        CompilerVersionView::Remote(v) => {
            if releases.contains(v) && is_new(v) {
                let i = releases.index_of(v);
                releases.lemma_filter_contains(is_new, i);
                let k = others.index_of(v);
                assert(all[n + k] == known);
            }
            if all.contains(known) {
                let i = all.index_of(known);
                if i < n {
                    assert(all[i] == CompilerVersionView::Installed(installed[i]));
                } else {
                    assert(all[i] == CompilerVersionView::Remote(others[i - n]));
                    releases.lemma_filter_pred(is_new, i - n);
                    assert(others.contains(v));
                    releases.lemma_filter_contains_rev(is_new, v);
                }
            }
        },
    }
}

/// The file that a release of `solc` is installed to is recognised as that release.
pub proof fn law_installed_file_is_recognised(os: ZkSolcOS, v: VersionView)
    requires
        v == version::release(v.major, v.minor, v.patch),
    ensures
        zksolc::installed_version(os, zksolc::solc_file_name(os, version::version_text(v)))
            == Some(v),
{
    let hyphen = Separator::Char('-');
    let release = version::version_text(zksolc::solc_release());
    let written = version::version_text(v);
    let file = zksolc::solc_file_name(os, written);
    let prefix = os.solc_prefix();
    let rest = file.skip(prefix.len() as int);
    reveal_strlit("-");
    assert(version::metadata_text(v) =~= Seq::<char>::empty());
    assert(written =~= version::release_text(v));
    assert(file.take(prefix.len() as int) =~= prefix);
    assert(file.skip(file.len() - release.len()) =~= release);
    assert(rest =~= written + seq!['-'] + release);
    assert forall|i: int| 0 <= i < written.len() implies !hyphen.holds(
        #[trigger] written[i],
    ) by {
        version::lemma_release_char(v, i);
    }
    text::lemma_pieces_of_joined(written, '-', release, hyphen);
    text::lemma_pieces_of_one(written, hyphen);
    assert(rest =~= written.push('-') + release);
    assert(text::pieces(rest, hyphen)[0] == written);
    version::law_version_of_text(v);
}

/// A file name in the compilers directory is the last component of its path.
proof fn lemma_file_in_dir(home: Seq<char>, name: Seq<char>)
    requires
        name.len() > 2,
        path::has_no_separator(name),
    ensures
        ({
            let dir = zksolc::compilers_dir(home);
            path::components(path::join_path(dir, name)) == path::components(dir).push(name)
        }),
{
    reveal_strlit(".zksync");
    let dir = zksolc::compilers_dir(home);
    assert(path::components(name) == seq![name]) by {
        assert(path::is_name(name)) by {
            assert(path::cur_dir().len() == 1);
        }
        assert(path::are_names(seq![name]));
        path::lemma_components_of_text(seq![name]);
        assert(path::path_text(seq![name]) =~= name) by {
            assert(seq![name].drop_last() =~= Seq::<Seq<char>>::empty());
            assert(path::root_dir().len() == 1);
        }
    }
    assert(name[0] != '/');
    assert(path::names(name) == seq![name]) by {
        assert(path::components(name)[0] == name);
        assert(path::cur_dir().len() == 1);
    }
    assert(dir.len() > 0);
    path::lemma_components_of_join(dir, name);
    assert(path::components(dir) + seq![name] =~= path::components(dir).push(name));
}

/// A version is written without separators.
proof fn lemma_no_separator(v: VersionView)
    requires
        v.valid(),
    ensures
        path::has_no_separator(version::version_text(v)),
{
    let written = version::version_text(v);
    assert forall|i: int| 0 <= i < written.len() implies #[trigger] written[i] != '/' by {
        version::lemma_version_char(v, i);
    }
}

proof fn lemma_prefixes(os: ZkSolcOS)
    ensures
        path::has_no_separator(os.zksolc_prefix()),
        path::has_no_separator(os.solc_prefix()),
        os.zksolc_prefix().len() > 2,
        os.solc_prefix().len() > 2,
{
    reveal_strlit("zksolc-linux-amd64-musl-");
    reveal_strlit("zksolc-linux-arm64-musl-");
    reveal_strlit("zksolc-macosx-amd64-");
    reveal_strlit("zksolc-macosx-arm64-");
    reveal_strlit("solc-linux-amd64-");
    reveal_strlit("solc-linux-arm64-");
    reveal_strlit("solc-macosx-amd64-");
    reveal_strlit("solc-macosx-arm64-");
}

/// Different versions of `zksolc` are installed to different files.
pub proof fn law_compiler_paths_differ(
    os: ZkSolcOS,
    home: Seq<char>,
    a: VersionView,
    b: VersionView,
)
    requires
        a.valid(),
        b.valid(),
        path::same_path(
            zksolc::zksolc_install(os, home, a).compiler_path,
            zksolc::zksolc_install(os, home, b).compiler_path,
        ),
    ensures
        a == b,
{
    let dir = zksolc::compilers_dir(home);
    let (x, y) = (zksolc::zksolc_file_name(os, a), zksolc::zksolc_file_name(os, b));
    lemma_zksolc_name(os, a);
    lemma_zksolc_name(os, b);
    lemma_file_in_dir(home, x);
    lemma_file_in_dir(home, y);
    assert(path::components(dir).push(x).last() == x);
    assert(path::components(dir).push(y).last() == y);
    assert(x == y);
    let n = os.zksolc_prefix().len() + 1;
    reveal_strlit("v");
    assert(x.skip(n as int) =~= version::version_text(a));
    assert(y.skip(n as int) =~= version::version_text(b));
    version::law_version_text_unique(a, b);
}

proof fn lemma_zksolc_name(os: ZkSolcOS, v: VersionView)
    requires
        v.valid(),
    ensures
        path::has_no_separator(zksolc::zksolc_file_name(os, v)),
        zksolc::zksolc_file_name(os, v).len() > 2,
{
    let name = zksolc::zksolc_file_name(os, v);
    let prefix = os.zksolc_prefix();
    let written = version::version_text(v);
    lemma_prefixes(os);
    lemma_no_separator(v);
    reveal_strlit("v");
    assert forall|i: int| 0 <= i < name.len() implies #[trigger] name[i] != '/' by {
        if i < prefix.len() {
            assert(name[i] == prefix[i]);
        } else if i > prefix.len() {
            assert(name[i] == written[i - prefix.len() - 1]);
        }
    }
}

/// Installations that use the same lock are those of the same version of the same compiler.
pub proof fn law_locks_differ(
    home: Seq<char>,
    compiler: Seq<char>,
    version: Seq<char>,
    other_compiler: Seq<char>,
    other_version: Seq<char>,
)
    requires
        compiler == "zksolc"@ || compiler == "solc"@,
        other_compiler == "zksolc"@ || other_compiler == "solc"@,
        path::has_no_separator(version),
        path::has_no_separator(other_version),
        path::same_path(
            path::join_path(
                zksolc::compilers_dir(home),
                zksolc::lock_file_name(compiler, version),
            ),
            path::join_path(
                zksolc::compilers_dir(home),
                zksolc::lock_file_name(other_compiler, other_version),
            ),
        ),
    ensures
        compiler == other_compiler,
        version == other_version,
{
    reveal_strlit("zksolc");
    reveal_strlit("solc");
    reveal_strlit(".lock-");
    reveal_strlit("-");
    let dir = zksolc::compilers_dir(home);
    let x = zksolc::lock_file_name(compiler, version);
    let y = zksolc::lock_file_name(other_compiler, other_version);
    lemma_lock_name(compiler, version);
    lemma_lock_name(other_compiler, other_version);
    lemma_file_in_dir(home, x);
    lemma_file_in_dir(home, y);
    assert(path::components(dir).push(x).last() == x);
    assert(path::components(dir).push(y).last() == y);
    assert(x == y);
    assert(x[6] == compiler[0] && y[6] == other_compiler[0]);
    let n = compiler.len() + 7;
    assert(x.skip(n as int) =~= version);
    assert(y.skip(n as int) =~= other_version);
}

proof fn lemma_lock_name(compiler: Seq<char>, version: Seq<char>)
    requires
        compiler == "zksolc"@ || compiler == "solc"@,
        path::has_no_separator(version),
    ensures
        path::has_no_separator(zksolc::lock_file_name(compiler, version)),
        zksolc::lock_file_name(compiler, version).len() > 2,
{
    reveal_strlit("zksolc");
    reveal_strlit("solc");
    reveal_strlit(".lock-");
    reveal_strlit("-");
    let name = zksolc::lock_file_name(compiler, version);
    let n = compiler.len();
    assert forall|i: int| 0 <= i < name.len() implies #[trigger] name[i] != '/' by {
        if 6 <= i < 6 + n {
            assert(name[i] == compiler[i - 6]);
        } else if i > 6 + n {
            assert(name[i] == version[i - n - 7]);
        }
    }
}

/// The compilers are in the directory `.zksync` of the home directory, under names without
/// separators; so are the locks.
pub proof fn law_installs_are_in_the_home_directory(
    os: ZkSolcOS,
    home: Seq<char>,
    v: VersionView,
    release: Seq<char>,
)
    requires
        v.valid(),
        home.len() > 0,
        path::has_no_separator(release),
    ensures
        ({
            let dir = path::components(home).push(".zksync"@);
            let zk = zksolc::zksolc_install(os, home, v);
            let solc = zksolc::solc_install(os, home, release);
            &&& path::components(zk.compilers_dir) == dir
            &&& path::components(solc.compilers_dir) == dir
            &&& path::components(zk.compiler_path) == dir.push(
                os.zksolc_prefix() + "v"@ + version::version_text(v),
            )
            &&& path::components(solc.compiler_path) == dir.push(
                os.solc_prefix() + release + "-"@ + version::version_text(
                    version::release(1, 0, 1),
                ),
            )
            &&& path::components(zk.lock_path) == dir.push(
                ".lock-zksolc-"@ + version::version_text(v),
            )
            &&& path::components(solc.lock_path) == dir.push(".lock-solc-"@ + release)
        }),
{
    let dir = zksolc::compilers_dir(home);
    let hidden = ".zksync"@;
    reveal_strlit(".zksync");
    reveal_strlit("v");
    reveal_strlit("-");
    reveal_strlit(".lock-");
    reveal_strlit("zksolc");
    reveal_strlit("solc");
    reveal_strlit(".lock-zksolc-");
    reveal_strlit(".lock-solc-");
    lemma_one_component(hidden);
    path::lemma_components_of_join(home, hidden);
    assert(path::components(home) + seq![hidden] =~= path::components(home).push(hidden));
    lemma_zksolc_name(os, v);
    lemma_no_separator(v);
    lemma_prefixes(os);
    lemma_file_in_dir(home, zksolc::zksolc_file_name(os, v));
    let name = zksolc::solc_file_name(os, release);
    let fork = version::version_text(zksolc::solc_release());
    assert(zksolc::solc_release().valid());
    lemma_no_separator(zksolc::solc_release());
    let prefix = os.solc_prefix();
    assert forall|i: int| 0 <= i < name.len() implies #[trigger] name[i] != '/' by {
        let n = prefix.len() + release.len();
        if i < prefix.len() {
            assert(name[i] == prefix[i]);
        } else if i < n {
            assert(name[i] == release[i - prefix.len()]);
        } else if i > n {
            assert(name[i] == fork[i - n - 1]);
        }
    }
    lemma_file_in_dir(home, name);
    lemma_lock_name("zksolc"@, version::version_text(v));
    lemma_lock_name("solc"@, release);
    lemma_file_in_dir(home, zksolc::lock_file_name("zksolc"@, version::version_text(v)));
    lemma_file_in_dir(home, zksolc::lock_file_name("solc"@, release));
    assert(zksolc::lock_file_name("zksolc"@, version::version_text(v)) =~= ".lock-zksolc-"@
        + version::version_text(v));
    assert(zksolc::lock_file_name("solc"@, release) =~= ".lock-solc-"@ + release);
}

proof fn lemma_one_component(name: Seq<char>)
    requires
        name.len() > 2,
        path::has_no_separator(name),
    ensures
        path::components(name) == seq![name],
        path::names(name) == seq![name],
        name[0] != '/',
{
    assert(path::components(name) == seq![name]) by {
        assert(path::is_name(name)) by {
            assert(path::cur_dir().len() == 1);
        }
        assert(path::are_names(seq![name]));
        path::lemma_components_of_text(seq![name]);
        assert(path::path_text(seq![name]) =~= name) by {
            assert(seq![name].drop_last() =~= Seq::<Seq<char>>::empty());
            assert(path::root_dir().len() == 1);
        }
    }
    assert(path::names(name) == seq![name]) by {
        assert(path::components(name)[0] == name);
        assert(path::cur_dir().len() == 1);
    }
}

/// Compilers are downloaded from the releases of their repositories: what is downloaded is named
/// like the file that it is installed to, but that a pre-release of `zksolc` is tagged by its
/// pre-release and has `zksolc-` in front of the name.
pub proof fn law_download_urls(os: ZkSolcOS, home: Seq<char>, v: VersionView, release: Seq<char>)
    ensures
        v.pre.len() == 0 ==> zksolc::zksolc_install(os, home, v).download_url
            == "https://github.com/matter-labs/zksolc-bin/releases/download/v"@
            + version::version_text(v) + "/"@ + zksolc::zksolc_file_name(os, v),
        v.pre.len() > 0 ==> zksolc::zksolc_install(os, home, v).download_url
            == "https://github.com/matter-labs/era-compiler-solidity/releases/download/"@ + v.pre
            + "/zksolc-"@ + zksolc::zksolc_file_name(
            os,
            version::release(v.major, v.minor, v.patch),
        ),
        zksolc::solc_install(os, home, release).download_url
            == "https://github.com/matter-labs/era-solidity/releases/download/"@ + release
            + "-1.0.1/"@ + zksolc::solc_file_name(os, release),
{
    let short = version::release(v.major, v.minor, v.patch);
    let fork = version::version_text(zksolc::solc_release());
    reveal_strlit("-1.0.1/");
    reveal_strlit("-");
    reveal_strlit("/");
    assert(version::metadata_text(short) =~= Seq::<char>::empty());
    assert(version::version_text(short) =~= version::release_text(v));
    assert(zksolc::zksolc_url(os, v) =~= (if v.pre.len() == 0 {
        "https://github.com/matter-labs/zksolc-bin/releases/download/v"@ + version::version_text(v)
            + "/"@ + zksolc::zksolc_file_name(os, v)
    } else {
        "https://github.com/matter-labs/era-compiler-solidity/releases/download/"@ + v.pre
            + "/zksolc-"@ + zksolc::zksolc_file_name(os, short)
    }));
    assert(fork =~= seq!['1', '.', '0', '.', '1']) by {
        assert(version::metadata_text(zksolc::solc_release()) =~= Seq::<char>::empty());
        reveal_with_fuel(text::decimal, 2);
    }
    assert(zksolc::solc_url(os, release)
        =~= "https://github.com/matter-labs/era-solidity/releases/download/"@ + release
        + "-1.0.1/"@ + zksolc::solc_file_name(os, release));
}

/// Installations are called by the compiler and its version.
pub proof fn law_install_labels(os: ZkSolcOS, home: Seq<char>, v: VersionView, release: Seq<char>)
    ensures
        zksolc::zksolc_install(os, home, v).label == "zksolc-"@ + version::version_text(v),
        zksolc::solc_install(os, home, release).label == "solc-"@ + release,
{
}

/// There are compilers for Linux and for macOS, with a processor of their own kind where it is
/// an ARM one.
pub proof fn law_systems(os: Seq<char>, arch: Seq<char>)
    ensures
        zksolc::system(os, arch) is Some <==> os == "linux"@ || os == "macos"@ || os == "darwin"@,
        zksolc::system("linux"@, arch) == Some(
            if arch == "aarch64"@ {
                ZkSolcOS::LinuxARM64
            } else {
                ZkSolcOS::LinuxAMD64
            },
        ),
        zksolc::system("macos"@, arch) == Some(
            if arch == "aarch64"@ {
                ZkSolcOS::MacARM
            } else {
                ZkSolcOS::MacAMD
            },
        ),
        zksolc::system("darwin"@, arch) == zksolc::system("macos"@, arch),
{
    reveal_strlit("linux");
    reveal_strlit("macos");
    reveal_strlit("darwin");
    assert("linux"@[0] != "macos"@[0]);
    assert("linux"@.len() != "darwin"@.len());
}

/// A path of a compiler, or how to install one, is there just where the system and the home
/// directory are known; otherwise it is said which of them is not, the system first.
pub proof fn law_known_hosts(
    path: Result<String, SolcError>,
    install: Result<Install, SolcError>,
    host: Host,
    file_name: spec_fn(ZkSolcOS) -> Seq<char>,
    how: spec_fn(ZkSolcOS, Seq<char>) -> InstallView,
)
    requires
        zksolc::is_path(path, host, file_name),
        zksolc::is_install(install, host, how),
    ensures
        ({
            let known = host.os@ == "linux"@ || host.os@ == "macos"@ || host.os@ == "darwin"@;
            &&& (path is Ok <==> known && host.home is Some)
            &&& (install is Ok <==> known && host.home is Some)
            &&& !known ==> path->Err_0@ == SolcErrorView::Message(
                "Unsupported operating system "@ + host.os@,
            ) && install->Err_0@ == path->Err_0@
            &&& known && host.home is None ==> path->Err_0@ == SolcErrorView::Message(
                "Could not build SolcManager - homedir not found"@,
            ) && install->Err_0@ == path->Err_0@
            &&& path is Ok ==> path->Ok_0@ == path::join_path(
                path::join_path(host.home->0@, ".zksync"@),
                file_name(zksolc::system(host.os@, host.arch@)->0),
            )
            &&& install is Ok ==> install->Ok_0.compilers_dir@ == how(
                zksolc::system(host.os@, host.arch@)->0,
                host.home->0@,
            ).compilers_dir && install->Ok_0.compiler_path@ == how(
                zksolc::system(host.os@, host.arch@)->0,
                host.home->0@,
            ).compiler_path && install->Ok_0.lock_path@ == how(
                zksolc::system(host.os@, host.arch@)->0,
                host.home->0@,
            ).lock_path && install->Ok_0.download_url@ == how(
                zksolc::system(host.os@, host.arch@)->0,
                host.home->0@,
            ).download_url && install->Ok_0.label@ == how(
                zksolc::system(host.os@, host.arch@)->0,
                host.home->0@,
            ).label
        }),
{
    law_systems(host.os@, host.arch@);
}

/// A compiler is looked for first, it is installed just where it was not found, and the one that
/// was found or installed is worked with.
pub proof fn law_solc_steps(step: SolcStep, wanted: Seq<char>, event: SolcEvent)
    requires
        zksolc::is_solc_step(step, wanted, event),
    ensures
        step is Search <==> event is Wanted,
        step is Install <==> event == SolcEvent::Searched(None),
        step matches SolcStep::Search(v) ==> v@ == wanted,
        step matches SolcStep::Install(v) ==> v@ == wanted,
        step matches SolcStep::Use(path) ==> event == SolcEvent::Searched(Some(path)) || event
            == SolcEvent::Installed(path),
{
}

/// A version that can be installed is offered just where no installed version has its three
/// numbers; each installed version is offered as such.
pub proof fn law_offered_versions(installed: Seq<VersionView>, v: VersionView)
    ensures
        zksolc::known_versions(installed).contains(CompilerVersionView::Remote(v)) <==> {
            &&& zksolc::available_releases().contains(v)
            &&& forall|i: int|
                0 <= i < installed.len() ==> !((#[trigger] installed[i]).major == v.major
                    && installed[i].minor == v.minor && installed[i].patch == v.patch)
        },
        zksolc::known_versions(installed).contains(CompilerVersionView::Installed(v))
            <==> installed.contains(v),
{
    law_known_versions(installed, CompilerVersionView::Remote(v));
    law_known_versions(installed, CompilerVersionView::Installed(v));
    if zksolc::has_numbers(installed, v) {
        let i = choose|i: int|
            0 <= i < installed.len() && (#[trigger] installed[i]).major == v.major
                && installed[i].minor == v.minor && installed[i].patch == v.patch;
        assert(installed[i].major == v.major);
    }
}

} // verus!
