//! Where artifacts are written to, and how they are told apart.
use crate::maps;
use crate::maps::{ByPath, ByText, KeyOrder};
use crate::path;
use crate::text;
use crate::version;
use crate::version::{Version, VersionView};
use crate::zksync::artifact_output;
use crate::zksync::artifact_output::files;
use crate::zksync::artifact_output::files::{MappedContract, MappedContractView};
use crate::zksync::artifact_output::zk;
use crate::zksync::artifact_output::zk::ArtifactFileView;
use crate::zksync::artifact_output::{ArtifactId, ArtifactIdView, OutputContext};
use crate::zksync::cache;
use crate::zksync::cache::{CacheEntry, SolFilesCache};
use crate::zksync::compile::output::VersionedSourceFileView;
use vstd::prelude::*;

verus! {

/// The numbers of a version, with dots in between.
pub open spec fn numbers(v: VersionView) -> Seq<char> {
    text::decimal(v.major as nat) + "."@ + text::decimal(v.minor as nat) + "."@ + text::decimal(
        v.patch as nat,
    )
}

/// The artifact of a contract is a file that is named after the contract, in a directory that is
/// named like the contract's file: `Greeter.sol/Greeter.json`.
pub proof fn law_artifact_path(contract_file: Seq<char>, name: Seq<char>)
    requires
        name.len() > 0 ==> name[0] != '/',
    ensures
        path::file_name(contract_file) matches Some(dir) ==> artifact_output::artifact_path(
            contract_file,
            artifact_output::artifact_name(name),
        ) == dir + "/"@ + name + ".json"@,
        path::file_name(contract_file) is None ==> artifact_output::artifact_path(
            contract_file,
            artifact_output::artifact_name(name),
        ) == name + ".json"@,
{
    reveal_strlit(".json");
    reveal_strlit("/");
    let file = artifact_output::artifact_name(name);
    assert(file.len() > 0 && file[0] != '/');
    if let Some(dir) = path::file_name(contract_file) {
        lemma_file_name(contract_file);
        assert(artifact_output::artifact_path(contract_file, file) =~= dir + "/"@ + name
            + ".json"@);
    }
}

/// Where there are several versions of a contract, the version stands behind the contract's name:
/// `Greeter.sol/Greeter.0.8.11.json`.
pub proof fn law_versioned_artifact_path(contract_file: Seq<char>, name: Seq<char>, v: VersionView)
    requires
        name.len() > 0 ==> name[0] != '/',
    ensures
        path::file_name(contract_file) matches Some(dir) ==> artifact_output::artifact_path(
            contract_file,
            artifact_output::artifact_name_versioned(name, v),
        ) == dir + "/"@ + name + "."@ + numbers(v) + ".json"@,
        path::file_name(contract_file) is None ==> artifact_output::artifact_path(
            contract_file,
            artifact_output::artifact_name_versioned(name, v),
        ) == name + "."@ + numbers(v) + ".json"@,
{
    reveal_strlit(".json");
    reveal_strlit("/");
    reveal_strlit(".");
    assert("."@ =~= seq!['.']);
    assert(version::release_text(v) =~= numbers(v));
    let file = artifact_output::artifact_name_versioned(name, v);
    assert(file =~= name + "."@ + numbers(v) + ".json"@);
    assert(file.len() > 0 && file[0] != '/') by {
        if name.len() > 0 {
            assert(file[0] == name[0]);
        } else {
            assert(file[0] == '.');
        }
    }
    if let Some(dir) = path::file_name(contract_file) {
        lemma_file_name(contract_file);
        assert(artifact_output::artifact_path(contract_file, file) =~= dir + "/"@ + name + "."@
            + numbers(v) + ".json"@);
    }
}

/// The file name of a path is not empty, and does not end with a separator.
proof fn lemma_file_name(file: Seq<char>)
    requires
        path::file_name(file) is Some,
    ensures
        path::file_name(file)->0.len() > 0,
        path::file_name(file)->0.last() != '/',
{
    let all = path::components(file);
    let dir = path::file_name(file)->0;
    path::lemma_components(file);
    if path::are_names(all) {
        assert(path::is_name(all[all.len() - 1]));
        assert(dir[dir.len() - 1] != '/');
    } else {
        let rest = all.skip(1);
        if all.len() == 1 {
            assert(dir == all[0]);
        } else {
            assert(dir == rest[rest.len() - 1]);
            assert(path::is_name(rest[rest.len() - 1]));
            assert(dir[dir.len() - 1] != '/');
        }
    }
}

/// The path that an artifact is meant for: that of an earlier run if the cache has one, whatever
/// that is; otherwise the one without a version if there is no other version, and the one with the
/// version if there is.
pub proof fn law_mapped_path(
    ctx: OutputContext<'_>,
    file: Seq<char>,
    name: Seq<char>,
    versions: nat,
    v: VersionView,
)
    ensures
        ctx.existing(file, name, v) matches Some(known) ==> files::mapped_path(
            ctx,
            file,
            name,
            versions,
            v,
        ) == known,
        ctx.existing(file, name, v) is None && versions <= 1 ==> files::mapped_path(
            ctx,
            file,
            name,
            versions,
            v,
        ) == artifact_output::artifact_path(file, artifact_output::artifact_name(name)),
        ctx.existing(file, name, v) is None && versions > 1 ==> files::mapped_path(
            ctx,
            file,
            name,
            versions,
            v,
        ) == artifact_output::artifact_path(file, artifact_output::artifact_name_versioned(name, v)),
        versions <= 1 ==> zk::standalone_path(file, name, versions, v)
            == artifact_output::artifact_path(file, artifact_output::artifact_name(name)),
        versions > 1 ==> zk::standalone_path(file, name, versions, v)
            == artifact_output::artifact_path(
            file,
            artifact_output::artifact_name_versioned(name, v),
        ),
{
}

/// Without a cache no artifact of an earlier run is known.
pub proof fn law_no_cache(
    ctx: OutputContext<'_>,
    file: Seq<char>,
    name: Seq<char>,
    v: VersionView,
)
    requires
        ctx.cache is None,
    ensures
        ctx.existing(file, name, v) is None,
{
}

/// The first path that is listed for a version is the one that is known for it, and where none is
/// listed none is known.
pub proof fn law_path_for_version(list: Seq<(Version, String)>, v: VersionView, i: int)
    ensures
        0 <= i < list.len() && list[i].0@ == v && (forall|j: int|
            0 <= j < i ==> (#[trigger] list[j]).0@ != v) ==> cache::path_for_version(list, v)
            == Some(list[i].1@),
        (forall|j: int| 0 <= j < list.len() ==> (#[trigger] list[j]).0@ != v)
            ==> cache::path_for_version(list, v) is None,
    decreases list.len(),
{
    if list.len() > 0 {
        let rest = list.drop_first();
        law_path_for_version(rest, v, i - 1);
        if 0 < i < list.len() && list[i].0@ == v && (forall|j: int|
            0 <= j < i ==> (#[trigger] list[j]).0@ != v) {
            assert(list[0].0@ != v);
            assert(rest[i - 1] == list[i]);
            assert forall|j: int| 0 <= j < i - 1 implies (#[trigger] rest[j]).0@ != v by {
                assert(rest[j] == list[j + 1]);
            }
        }
        if forall|j: int| 0 <= j < list.len() ==> (#[trigger] list[j]).0@ != v {
            assert(list[0].0@ != v);
            assert forall|j: int| 0 <= j < rest.len() implies (#[trigger] rest[j]).0@ != v by {
                assert(rest[j] == list[j + 1]);
            }
        }
    }
}

/// The artifact of an earlier run is looked up by the path of the contract's file, by the
/// contract's name and by the version.
pub proof fn law_existing_artifact(
    known: SolFilesCache,
    file: Seq<char>,
    name: Seq<char>,
    v: VersionView,
    f: int,
    n: int,
    i: int,
)
    requires
        maps::ordered::<ByPath, CacheEntry>(known.files@),
        0 <= f < known.files@.len(),
        path::same_path(known.files@[f].0, file),
        maps::ordered::<ByText, Vec<(Version, String)>>(known.files@[f].1.artifacts@),
        0 <= n < known.files@[f].1.artifacts@.len(),
        known.files@[f].1.artifacts@[n].0 == name,
        0 <= i < known.files@[f].1.artifacts@[n].1@.len(),
        known.files@[f].1.artifacts@[n].1@[i].0@ == v,
        forall|j: int|
            0 <= j < i ==> (#[trigger] known.files@[f].1.artifacts@[n].1@[j]).0@ != v,
    ensures
        (OutputContext { cache: Some(&known) }).existing(file, name, v) == Some(
            known.files@[f].1.artifacts@[n].1@[i].1@,
        ),
{
    maps::lemma_found::<ByPath, CacheEntry>(known.files@, file, f);
    let entry = known.files@[f].1;
    maps::lemma_found::<ByText, Vec<(Version, String)>>(entry.artifacts@, name, n);
    law_path_for_version(entry.artifacts@[n].1@, v, i);
}

/// A contract whose file or whose name the cache does not have has no artifact of an earlier run.
pub proof fn law_no_existing_artifact(
    known: SolFilesCache,
    file: Seq<char>,
    name: Seq<char>,
    v: VersionView,
)
    requires
        maps::ordered::<ByPath, CacheEntry>(known.files@),
        forall|f: int|
            0 <= f < known.files@.len() ==> maps::ordered::<ByText, Vec<(Version, String)>>(
                (#[trigger] known.files@[f]).1.artifacts@,
            ) && (path::same_path(known.files@[f].0, file) ==> forall|n: int|
                0 <= n < known.files@[f].1.artifacts@.len() ==> (
                #[trigger] known.files@[f].1.artifacts@[n]).0 != name),
    ensures
        (OutputContext { cache: Some(&known) }).existing(file, name, v) is None,
{
    maps::lemma_slot::<ByPath, CacheEntry>(known.files@, file);
    let f = maps::slot::<ByPath, CacheEntry>(known.files@, file);
    if maps::found::<ByPath, CacheEntry>(known.files@, file) is Some {
        let entry = known.files@[f].1;
        maps::lemma_slot::<ByText, Vec<(Version, String)>>(entry.artifacts@, name);
        let n = maps::slot::<ByText, Vec<(Version, String)>>(entry.artifacts@, name);
        if maps::found::<ByText, Vec<(Version, String)>>(entry.artifacts@, name) is Some {
            assert(entry.artifacts@[n].0 == name);
        }
    }
}

/// A path is taken just if one with the same components is.
pub proof fn law_taken(taken: Seq<(Seq<char>, ())>, wanted: Seq<char>)
    ensures
        artifact_output::is_taken(taken, wanted) <==> exists|i: int|
            0 <= i < taken.len() && path::components((#[trigger] taken[i]).0) == path::components(
                wanted,
            ),
{
    if artifact_output::is_taken(taken, wanted) {
        let i = choose|i: int|
            0 <= i < taken.len() && ByPath::key(#[trigger] taken[i].0) == ByPath::key(wanted);
        assert(path::components(taken[i].0) == path::components(wanted));
    }
}

/// A contract's artifact stays at the path that it is meant for if no other contract's is meant
/// for the same, or if the files of all these contracts are deeper. Otherwise it moves.
pub proof fn law_contract_path(
    taken: Seq<(Seq<char>, ())>,
    group: Seq<MappedContractView>,
    at: int,
    folder: Seq<char>,
)
    requires
        0 <= at < group.len(),
    ensures
        (forall|i: int|
            0 <= i < group.len() && i != at ==> path::components(group[at].file).len()
                < path::components((#[trigger] group[i]).file).len()) ==> zk::contract_path(
            taken,
            group,
            at,
            folder,
        ) == Some(group[at].artifact_path),
        (exists|i: int|
            0 <= i < group.len() && i != at && path::components(group[at].file).len()
                >= path::components((#[trigger] group[i]).file).len()) ==> zk::contract_path(
            taken,
            group,
            at,
            folder,
        ) == artifact_output::free_path(taken, group[at].artifact_path, group[at].file, folder),
{
    if group.len() > 1 && !zk::is_top_most(group, at) {
        let i = choose|i: int|
            0 <= i < group.len() && i != at && !(path::components(group[at].file).len()
                < path::components(#[trigger] group[i].file).len());
        assert(path::components(group[i].file).len() <= path::components(group[at].file).len());
    }
    if exists|i: int|
        0 <= i < group.len() && i != at && path::components(group[at].file).len()
            >= path::components((#[trigger] group[i]).file).len() {
        let i = choose|i: int|
            0 <= i < group.len() && i != at && path::components(group[at].file).len()
                >= path::components((#[trigger] group[i]).file).len();
        assert(!(path::components(group[at].file).len() < path::components(group[i].file).len()));
        assert(!zk::is_top_most(group, at));
    }
}

/// The artifact of a source file without contracts stays at its path just if that is not taken.
pub proof fn law_source_path(
    taken: Seq<(Seq<char>, ())>,
    file: Seq<char>,
    name: Seq<char>,
    versions: Seq<VersionedSourceFileView>,
    at: int,
    folder: Seq<char>,
)
    ensures
        ({
            let wanted = zk::standalone_path(file, name, versions.len(), versions[at].version);
            let res = zk::source_path(taken, file, name, versions, at, folder);
            &&& !artifact_output::is_taken(taken, wanted) ==> res == Some(wanted)
            &&& artifact_output::is_taken(taken, wanted) ==> res == artifact_output::free_path(
                taken,
                wanted,
                file,
                folder,
            )
        }),
{
}

/// The path of `count` directories that a file is in, the innermost ones, and of what is in there.
pub open spec fn in_directories(
    dirs: Seq<Seq<char>>,
    count: nat,
    relative: Seq<char>,
) -> Seq<char>
    decreases count,
{
    if count == 0 {
        relative
    } else {
        path::join_path(
            dirs[dirs.len() - count],
            in_directories(dirs, (count - 1) as nat, relative),
        )
    }
}

proof fn lemma_nested(
    taken: Seq<(Seq<char>, ())>,
    folder: Seq<char>,
    dirs: Seq<Seq<char>>,
    done: nat,
    relative: Seq<char>,
    count: nat,
)
    requires
        done < count <= dirs.len(),
        forall|i: int|
            dirs.len() - count <= i < dirs.len() ==> path::is_normal(#[trigger] dirs[i]),
        forall|n: nat|
            1 <= n < count ==> artifact_output::is_taken(
                taken,
                path::join_path(folder, #[trigger] in_directories(dirs, n, relative)),
            ),
        !artifact_output::is_taken(
            taken,
            path::join_path(folder, in_directories(dirs, count, relative)),
        ),
    ensures
        artifact_output::nested_path(
            taken,
            folder,
            dirs.take(dirs.len() - done),
            in_directories(dirs, done, relative),
        ) == Some(path::join_path(folder, in_directories(dirs, count, relative))),
    decreases count - done,
{
    let left = dirs.take(dirs.len() - done);
    let next = (done + 1) as nat;
    assert(left.last() == dirs[dirs.len() - next]);
    assert(path::is_normal(left.last()));
    assert(left.drop_last() =~= dirs.take(dirs.len() - next));
    let nested = in_directories(dirs, next, relative);
    assert(nested == path::join_path(left.last(), in_directories(dirs, done, relative)));
    if next < count {
        assert(artifact_output::is_taken(taken, path::join_path(folder, nested)));
        lemma_nested(taken, folder, dirs, next, relative, count);
    }
}

/// In place of a path in conflict stands the one with the fewest directories of the contract's
/// file in front that is free. Here `count` directories are enough, and no fewer are.
pub proof fn law_free_path_nests(
    taken: Seq<(Seq<char>, ())>,
    conflict: Seq<char>,
    contract_file: Seq<char>,
    folder: Seq<char>,
    count: nat,
)
    requires
        1 <= count < path::components(contract_file).len(),
        ({
            let dirs = path::components(contract_file).drop_last();
            let relative = artifact_output::relative_to(conflict, folder);
            &&& forall|i: int|
                dirs.len() - count <= i < dirs.len() ==> path::is_normal(#[trigger] dirs[i])
            &&& forall|n: nat|
                1 <= n < count ==> artifact_output::is_taken(
                    taken,
                    path::join_path(folder, #[trigger] in_directories(dirs, n, relative)),
                )
            &&& !artifact_output::is_taken(
                taken,
                path::join_path(folder, in_directories(dirs, count, relative)),
            )
        }),
    ensures
        artifact_output::free_path(taken, conflict, contract_file, folder) == Some(
            path::join_path(
                folder,
                in_directories(
                    path::components(contract_file).drop_last(),
                    count,
                    artifact_output::relative_to(conflict, folder),
                ),
            ),
        ),
{
    let dirs = path::components(contract_file).drop_last();
    let relative = artifact_output::relative_to(conflict, folder);
    lemma_nested(taken, folder, dirs, 0, relative, count);
    assert(dirs.take(dirs.len() as int) =~= dirs);
}

/// A file that is in no directory has its path in conflict numbered: with the first number that
/// makes it free, behind the first component.
pub proof fn law_free_path_numbers(
    taken: Seq<(Seq<char>, ())>,
    conflict: Seq<char>,
    contract_file: Seq<char>,
    folder: Seq<char>,
    number: nat,
)
    requires
        path::components(contract_file).len() <= 1 || !path::is_normal(
            path::components(contract_file)[path::components(contract_file).len() - 2],
        ),
        path::components(artifact_output::relative_to(conflict, folder)).len() > 0,
        number >= 1,
        !artifact_output::is_taken(
            taken,
            artifact_output::numbered_path(artifact_output::relative_to(conflict, folder), number),
        ),
        forall|n: nat|
            1 <= n < number ==> artifact_output::is_taken(
                taken,
                #[trigger] artifact_output::numbered_path(
                    artifact_output::relative_to(conflict, folder),
                    n,
                ),
            ),
    ensures
        artifact_output::free_path(taken, conflict, contract_file, folder) == Some(
            artifact_output::numbered_path(artifact_output::relative_to(conflict, folder), number),
        ),
{
    let relative = artifact_output::relative_to(conflict, folder);
    assert(artifact_output::is_first_free(taken, relative, number));
    let n = choose|n: nat| artifact_output::is_first_free(taken, relative, n);
    assert(artifact_output::is_first_free(taken, relative, n));
    if n < number {
        assert(artifact_output::is_taken(taken, artifact_output::numbered_path(relative, n)));
    }
    if number < n {
        assert(artifact_output::is_taken(taken, artifact_output::numbered_path(relative, number)));
    }
    let all = path::components(contract_file);
    let dirs = artifact_output::directories(contract_file);
    if all.len() > 1 {
        assert(dirs.last() == all[all.len() - 2]);
    }
}

/// A numbered path has the number behind its first component, parted by `_`, and the same
/// components otherwise.
pub proof fn law_numbered_path(conflict: Seq<char>, number: nat)
    requires
        path::components(conflict).len() > 0,
        path::components(conflict)[0] != path::root_dir(),
    ensures
        path::components(artifact_output::numbered_path(conflict, number)).len()
            == path::components(conflict).len(),
        path::components(artifact_output::numbered_path(conflict, number))[0] == path::components(
            conflict,
        )[0] + seq!['_'] + text::decimal(number),
        forall|i: int|
            1 <= i < path::components(conflict).len() ==> #[trigger] path::components(
                artifact_output::numbered_path(conflict, number),
            )[i] == path::components(conflict)[i],
{
    artifact_output::lemma_numbered_path(conflict, number);
    let all = path::components(conflict);
    let tail = seq!['_'] + text::decimal(number);
    assert(all[0] + tail =~= all[0] + seq!['_'] + text::decimal(number));
}

/// A path is taken relative to a folder that it is in, and as it is otherwise.
pub proof fn law_relative_to(wanted: Seq<char>, folder: Seq<char>)
    ensures
        path::is_under(wanted, folder) ==> path::components(
            artifact_output::relative_to(wanted, folder),
        ).len() + path::components(folder).len() == path::components(wanted).len() && (forall|
            i: int,
        |
            0 <= i < path::components(artifact_output::relative_to(wanted, folder)).len() ==> (
            #[trigger] path::components(artifact_output::relative_to(wanted, folder))[i])
                == path::components(wanted)[path::components(folder).len() + i]),
        !path::is_under(wanted, folder) ==> artifact_output::relative_to(wanted, folder) == wanted,
{
    if path::is_under(wanted, folder) {
        path::lemma_components_of_stripped(wanted, folder);
    }
}

/// The directories of a file are all its components but the last.
pub proof fn law_directories(file: Seq<char>, i: int)
    ensures
        path::components(file).len() > 0 ==> artifact_output::directories(file).len() + 1
            == path::components(file).len(),
        0 <= i < artifact_output::directories(file).len() ==> artifact_output::directories(file)[i]
            == path::components(file)[i],
{
}

/// The identifier of an artifact has the path of its file, the name of that file without its
/// extension, the file of the contract and the version. An artifact whose file has no name has
/// none.
pub proof fn law_identifier(source: Seq<char>, artifact: ArtifactFileView, windows: bool)
    ensures
        ({
            let ids = artifact_output::list_ids(source, seq![artifact], windows);
            &&& path::file_stem(artifact.file) is None ==> ids.len() == 0
            &&& path::file_stem(artifact.file) matches Some(name) ==> {
                &&& ids.len() == 1
                &&& ids[0].0.name == name
                &&& ids[0].0.version == artifact.version
                &&& ids[0].1 == artifact.artifact
                &&& !windows ==> ids[0].0.path == artifact.file && ids[0].0.source == source
                &&& windows ==> ids[0].0.path == path::slashed(artifact.file) && ids[0].0.source
                    == path::slashed(source)
            }
        }),
{
    let list = seq![artifact];
    assert(list.drop_last() =~= Seq::<ArtifactFileView>::empty());
    assert(list.last() == artifact);
    reveal_with_fuel(artifact_output::list_ids, 2);
}

/// The identifiers of artifacts come one after the other, as the artifacts do.
pub proof fn law_identifiers_of_lists(
    source: Seq<char>,
    a: Seq<ArtifactFileView>,
    b: Seq<ArtifactFileView>,
    windows: bool,
)
    ensures
        artifact_output::list_ids(source, a + b, windows) == artifact_output::list_ids(
            source,
            a,
            windows,
        ) + artifact_output::list_ids(source, b, windows),
    decreases b.len(),
{
    if b.len() == 0 {
        assert(a + b =~= a);
        assert(artifact_output::list_ids(source, a, windows) =~= artifact_output::list_ids(
            source,
            a,
            windows,
        ) + artifact_output::list_ids(source, b, windows));
    } else {
        law_identifiers_of_lists(source, a, b.drop_last(), windows);
        assert((a + b).drop_last() =~= a + b.drop_last());
        assert((a + b).last() == b.last());
        assert(artifact_output::list_ids(source, a + b, windows) =~= artifact_output::list_ids(
            source,
            a,
            windows,
        ) + artifact_output::list_ids(source, b, windows));
    }
}

/// The identifiers of a file's contracts come name by name, those of one name as its artifacts do.
pub proof fn law_identifiers_of_names(
    source: Seq<char>,
    a: Seq<(Seq<char>, Seq<ArtifactFileView>)>,
    b: Seq<(Seq<char>, Seq<ArtifactFileView>)>,
    name: Seq<char>,
    list: Seq<ArtifactFileView>,
    windows: bool,
)
    ensures
        artifact_output::file_ids(source, a + b, windows) == artifact_output::file_ids(
            source,
            a,
            windows,
        ) + artifact_output::file_ids(source, b, windows),
        artifact_output::file_ids(source, seq![(name, list)], windows)
            == artifact_output::list_ids(source, list, windows),
    decreases b.len(),
{
    let one = seq![(name, list)];
    assert(one.drop_last() =~= Seq::<(Seq<char>, Seq<ArtifactFileView>)>::empty());
    assert(one.last() == (name, list));
    reveal_with_fuel(artifact_output::file_ids, 2);
    assert(artifact_output::file_ids(source, one, windows) =~= artifact_output::list_ids(
        source,
        list,
        windows,
    ));
    if b.len() == 0 {
        assert(a + b =~= a);
        assert(artifact_output::file_ids(source, a, windows) =~= artifact_output::file_ids(
            source,
            a,
            windows,
        ) + artifact_output::file_ids(source, b, windows));
    } else {
        law_identifiers_of_names(source, a, b.drop_last(), name, list, windows);
        assert((a + b).drop_last() =~= a + b.drop_last());
        assert((a + b).last() == b.last());
        assert(artifact_output::file_ids(source, a + b, windows) =~= artifact_output::file_ids(
            source,
            a,
            windows,
        ) + artifact_output::file_ids(source, b, windows));
    }
}

/// All identifiers come file by file, those of one file as its contracts do.
pub proof fn law_identifiers_of_files(
    a: Seq<(Seq<char>, Seq<(Seq<char>, Seq<ArtifactFileView>)>)>,
    b: Seq<(Seq<char>, Seq<(Seq<char>, Seq<ArtifactFileView>)>)>,
    source: Seq<char>,
    names: Seq<(Seq<char>, Seq<ArtifactFileView>)>,
    windows: bool,
)
    ensures
        artifact_output::all_ids(a + b, windows) == artifact_output::all_ids(a, windows)
            + artifact_output::all_ids(b, windows),
        artifact_output::all_ids(seq![(source, names)], windows) == artifact_output::file_ids(
            source,
            names,
            windows,
        ),
    decreases b.len(),
{
    let one = seq![(source, names)];
    assert(one.drop_last() =~= Seq::<
        (Seq<char>, Seq<(Seq<char>, Seq<ArtifactFileView>)>),
    >::empty());
    assert(one.last() == (source, names));
    reveal_with_fuel(artifact_output::all_ids, 2);
    assert(artifact_output::all_ids(one, windows) =~= artifact_output::file_ids(
        source,
        names,
        windows,
    ));
    if b.len() == 0 {
        assert(a + b =~= a);
        assert(artifact_output::all_ids(a, windows) =~= artifact_output::all_ids(a, windows)
            + artifact_output::all_ids(b, windows));
    } else {
        law_identifiers_of_files(a, b.drop_last(), source, names, windows);
        assert((a + b).drop_last() =~= a + b.drop_last());
        assert((a + b).last() == b.last());
        assert(artifact_output::all_ids(a + b, windows) =~= artifact_output::all_ids(a, windows)
            + artifact_output::all_ids(b, windows));
    }
}

/// Slashing an identifier changes its two paths, and on Windows only.
pub proof fn law_slashed_identifier(id: ArtifactIdView, windows: bool)
    ensures
        id.slashed_on(windows).name == id.name,
        id.slashed_on(windows).version == id.version,
        !windows ==> id.slashed_on(windows).path == id.path && id.slashed_on(windows).source
            == id.source,
        windows ==> id.slashed_on(windows).path == path::slashed(id.path) && id.slashed_on(
            windows,
        ).source == path::slashed(id.source),
{
}

/// Identifiers, and contracts with the paths they are meant for, that are told to hold the same
/// do.
pub proof fn law_views_tell_identifiers_apart(
    a: ArtifactId,
    b: ArtifactId,
    x: MappedContract<'_>,
    y: MappedContract<'_>,
)
    ensures
        a@ == b@ ==> a.path@ == b.path@ && a.name@ == b.name@ && a.source@ == b.source@
            && a.version@ == b.version@,
        x@ == y@ ==> x.file@ == y.file@ && x.name@ == y.name@ && x.contract.contract@
            == y.contract.contract@ && x.contract.version@ == y.contract.version@
            && x.artifact_path@ == y.artifact_path@,
{
}

/// A listed artifact is the one that the list has, under the identifier that the list has.
pub proof fn law_listed_identifiers(
    list: Seq<(ArtifactId, &zk::ZkContractArtifact)>,
    i: int,
)
    requires
        0 <= i < list.len(),
    ensures
        artifact_output::id_views(list).len() == list.len(),
        artifact_output::id_views(list)[i] == (list[i].0@, list[i].1@),
{
}

} // verus!
