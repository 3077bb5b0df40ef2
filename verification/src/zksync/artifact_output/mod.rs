//! Where artifacts are written to, and what they hold.
use crate::maps;
use crate::maps::{ByPath, PathSet, TextMap};
use crate::path;
use crate::text;
use crate::version;
use crate::version::{Version, VersionView};
use crate::zksync::artifacts::{Bytecode, BytecodeObject};
use crate::zksync::cache;
use crate::zksync::artifact_output::zk::{
    ArtifactFile, ArtifactFileView, ArtifactView, Artifacts, ZkContractArtifact,
};
use crate::zksync::cache::SolFilesCache;
use alloy_json_abi::JsonAbi;
use vstd::prelude::*;
use vstd::string::*;

pub mod artifact_laws;
pub mod call_laws;
pub mod conflicts;
pub mod files;
pub mod laws;
pub mod mapping_laws;
pub mod origin_laws;
pub mod path_laws;
pub mod zk;

verus! {

/// What an optional reference refers to.
pub open spec fn value_of<T>(reference: Option<&T>) -> Option<T> {
    match reference {
        Some(value) => Some(*value),
        None => None,
    }
}

/// The ABI and the bytecode of a contract, as far as they are available.
pub struct CompactContractBytecodeCow<'a> {
    pub abi: Option<&'a JsonAbi>,
    pub bytecode: Option<&'a Bytecode>,
}

/// What a contract's artifact can be asked for.
pub trait Artifact {
    spec fn abi_of(&self) -> Option<JsonAbi>;

    spec fn bytecode_of(&self) -> Option<Bytecode>;

    /// Returns the reference to the `bytecode`
    fn get_bytecode(&self) -> (res: Option<&Bytecode>)
        ensures
            value_of(res) == self.bytecode_of(),
    {
        self.get_contract_bytecode().bytecode
    }

    /// Returns the reference to the `bytecode` object
    fn get_bytecode_object(&self) -> (res: Option<&BytecodeObject>)
        ensures
            value_of(res) == (match self.bytecode_of() {
                Some(bytecode) => Some(bytecode.object),
                None => None,
            }),
    {
        match self.get_bytecode() {
            Some(bytecode) => Some(&bytecode.object),
            None => None,
        }
    }

    /// Returns the reference of container type for abi and bytecode if available
    fn get_contract_bytecode(&self) -> (res: CompactContractBytecodeCow<'_>)
        ensures
            value_of(res.abi) == self.abi_of(),
            value_of(res.bytecode) == self.bytecode_of(),
    ;
}

/// Additional context to use when artifacts are made of an output
///
/// Holds the cache file of the project, or nothing if no caching is enabled. It is required
/// for a partially cached recompile with conflicting files, so that the same adjusted output
/// path is used for conflicting files like:
///
/// ```text
/// src
/// ├── a.sol
/// └── inner
///     └── a.sol
/// ```
pub struct OutputContext<'a> {
    pub cache: Option<&'a SolFilesCache>,
}

impl<'a> Default for OutputContext<'a> {
    fn default() -> (res: Self)
        ensures
            res.cache is None,
    {
        OutputContext { cache: None }
    }
}

impl<'a> OutputContext<'a> {
    /// Where the artifact of an earlier run is.
    pub open spec fn existing(
        self,
        file: Seq<char>,
        contract: Seq<char>,
        version: VersionView,
    ) -> Option<Seq<char>> {
        match self.cache {
            Some(cache) => cache.artifact(file, contract, version),
            None => None,
        }
    }

    /// Create a new context with the given cache file
    pub fn new(cache: &'a SolFilesCache) -> (res: Self)
        ensures
            res.cache == Some(cache),
    {
        OutputContext { cache: Some(cache) }
    }

    /// Returns the path of the already existing artifact for the `contract` of the `file` compiled
    /// with the `version`.
    ///
    /// Returns `None` if no file exists
    pub fn existing_artifact(&self, file: &str, contract: &str, version: &Version) -> (res: Option<
        &String,
    >)
        ensures
            cache::opt_path(res) == self.existing(file@, contract@, version@),
    {
        match self.cache {
            Some(cache) => match cache.entry(file) {
                Some(entry) => entry.find_artifact(contract, version),
                None => None,
            },
            None => None,
        }
    }
}

/// The file name of a contract's artifact.
pub open spec fn artifact_name(name: Seq<char>) -> Seq<char> {
    name + ".json"@
}

/// The file name of a contract's artifact for one of several versions.
pub open spec fn artifact_name_versioned(name: Seq<char>, v: VersionView) -> Seq<char> {
    name + "."@ + version::release_text(v) + ".json"@
}

/// The path of an artifact: its file name in a directory that is named like the contract's
/// file.
pub open spec fn artifact_path(contract_file: Seq<char>, artifact: Seq<char>) -> Seq<char> {
    match path::file_name(contract_file) {
        Some(dir) => path::join_path(dir, artifact),
        None => artifact,
    }
}

/// Returns the file name for the contract's artifact
/// `Greeter.json`
pub fn output_file_name(name: &str) -> (res: String)
    ensures
        res@ == artifact_name(name@),
{
    let mut res: String = name.to_string();
    res.append(".json");
    res
}

/// Returns the file name for the contract's artifact and the given version
/// `Greeter.0.8.11.json`
pub fn output_file_name_versioned(name: &str, version: &Version) -> (res: String)
    ensures
        res@ == artifact_name_versioned(name@, version@),
{
    let mut res: String = name.to_string();
    res.append(".");
    res.append(version.release_string().as_str());
    res.append(".json");
    res
}

/// Returns the path to the contract's artifact location based on the contract's file and name
///
/// This returns `contract.sol/contract.json` by default
pub fn output_file(contract_file: &str, name: &str) -> (res: String)
    ensures
        res@ == artifact_path(contract_file@, artifact_name(name@)),
{
    match path::path_file_name(contract_file) {
        Some(dir) => path::join(dir.as_str(), output_file_name(name).as_str()),
        None => output_file_name(name),
    }
}

/// Returns the path to the contract's artifact location based on the contract's file, name and
/// version
///
/// This returns `contract.sol/contract.0.8.11.json` by default
pub fn output_file_versioned(contract_file: &str, name: &str, version: &Version) -> (res: String)
    ensures
        res@ == artifact_path(contract_file@, artifact_name_versioned(name@, version@)),
{
    match path::path_file_name(contract_file) {
        Some(dir) => path::join(
            dir.as_str(),
            output_file_name_versioned(name, version).as_str(),
        ),
        None => output_file_name_versioned(name, version),
    }
}

/// Returns the name of the contract that an artifact's file is named after
pub fn contract_name(file: &str) -> (res: Option<String>)
    ensures
        text::opt_text(res) == path::file_stem(file@),
{
    path::path_file_stem(file)
}

/// The path without the folder, where it is in there.
pub open spec fn relative_to(path: Seq<char>, folder: Seq<char>) -> Seq<char> {
    match path::stripped(path, folder) {
        Some(rest) => rest,
        None => path,
    }
}

/// The directories that a file is in, outermost first.
pub open spec fn directories(file: Seq<char>) -> Seq<Seq<char>> {
    let all = path::components(file);
    if all.len() > 0 {
        all.drop_last()
    } else {
        all
    }
}

/// Whether a path is taken.
pub open spec fn is_taken(taken: Seq<(Seq<char>, ())>, path: Seq<char>) -> bool {
    maps::has::<ByPath, ()>(taken, path)
}

/// The first free path in `folder` that is `candidate` with ever more of the directories in
/// front. Only directories with a name are used.
pub open spec fn nested_path(
    taken: Seq<(Seq<char>, ())>,
    folder: Seq<char>,
    dirs: Seq<Seq<char>>,
    candidate: Seq<char>,
) -> Option<Seq<char>>
    decreases dirs.len(),
{
    if dirs.len() == 0 || !path::is_normal(dirs.last()) {
        None
    } else {
        let nested = path::join_path(dirs.last(), candidate);
        let out = path::join_path(folder, nested);
        if !is_taken(taken, out) {
            Some(out)
        } else {
            nested_path(taken, folder, dirs.drop_last(), nested)
        }
    }
}

/// The path with a number behind its first component.
pub open spec fn numbered_path(path: Seq<char>, number: nat) -> Seq<char> {
    let all = path::components(path);
    text::joined(
        seq![all[0].push('_') + text::decimal(number)] + all.skip(1),
        seq!['/'],
    )
}

/// Whether a number is the first one that makes a path free.
pub open spec fn is_first_free(taken: Seq<(Seq<char>, ())>, path: Seq<char>, number: nat) -> bool {
    &&& number >= 1
    &&& !is_taken(taken, numbered_path(path, number))
    &&& forall|n: nat| 1 <= n < number ==> is_taken(taken, #[trigger] numbered_path(path, n))
}

/// The path that is used in place of one that conflicts with another contract's: with as many
/// of the contract file's directories in front as it takes, or else with a number. There is
/// none where it would take a number and the path is the folder itself.
pub open spec fn free_path(
    taken: Seq<(Seq<char>, ())>,
    conflict: Seq<char>,
    contract_file: Seq<char>,
    folder: Seq<char>,
) -> Option<Seq<char>> {
    let relative = relative_to(conflict, folder);
    match nested_path(taken, folder, directories(contract_file), relative) {
        Some(out) => Some(out),
        None => {
            if path::components(relative).len() > 0 {
                let number = choose|n: nat| is_first_free(taken, relative, n);
                Some(numbered_path(relative, number))
            } else {
                None
            }
        },
    }
}

/// The components of a numbered path.
pub proof fn lemma_numbered_path(path: Seq<char>, number: nat)
    requires
        path::components(path).len() > 0,
    ensures
        ({
            let all = path::components(path);
            let tail = seq!['_'] + text::decimal(number);
            path::components(numbered_path(path, number)) == (if all[0] == path::root_dir() {
                seq![path::root_dir(), tail] + all.skip(1)
            } else {
                seq![all[0] + tail] + all.skip(1)
            })
        }),
{
    let all = path::components(path);
    let tail = seq!['_'] + text::decimal(number);
    let rest = all.skip(1);
    let slash = seq!['/'];
    let first = all[0].push('_') + text::decimal(number);
    let out = numbered_path(path, number);
    assert(first =~= all[0] + tail);
    path::lemma_components(path);
    text::lemma_decimal_digits(number);
    assert(path::has_no_separator(tail)) by {
        assert forall|i: int| 0 <= i < tail.len() implies #[trigger] tail[i] != '/' by {
            if i > 0 {
                assert(text::is_digit(text::decimal(number)[i - 1]));
            }
        }
    }
    assert(tail[0] == '_');
    assert(path::is_name(tail)) by {
        assert(path::cur_dir()[0] == '.');
    }
    assert(path::are_names(rest)) by {
        if path::are_names(all) {
            assert forall|i: int| 0 <= i < rest.len() implies path::is_name(#[trigger] rest[i])
                && path::has_no_separator(rest[i]) by {
                assert(rest[i] == all[i + 1]);
            }
        }
    }
    if all[0] == path::root_dir() {
        let list = seq![path::root_dir(), tail] + rest;
        assert(list.skip(1) =~= seq![tail] + rest);
        assert(path::are_names(list.skip(1))) by {
            assert forall|i: int| 0 <= i < list.skip(1).len() implies path::is_name(
                #[trigger] list.skip(1)[i],
            ) && path::has_no_separator(list.skip(1)[i]) by {
                if i > 0 {
                    assert(list.skip(1)[i] == rest[i - 1]);
                }
            }
        }
        path::lemma_components_of_text(list);
        if rest.len() > 0 {
            path::lemma_joined_first(first, rest);
            path::lemma_joined_first(tail, rest);
        } else {
            assert(seq![first] + rest =~= seq![first]);
            assert(seq![tail] + rest =~= seq![tail]);
        }
        assert(out =~= path::path_text(list));
    } else {
        let list = seq![first] + rest;
        assert(path::has_no_separator(all[0])) by {
            if !path::are_names(all) {
                assert(all[0] == path::cur_dir());
            }
        }
        assert(path::is_name(first) && path::has_no_separator(first)) by {
            assert(first.len() >= 2);
            assert(path::cur_dir().len() == 1);
            assert forall|i: int| 0 <= i < first.len() implies #[trigger] first[i] != '/' by {
                if i < all[0].len() {
                    assert(first[i] == all[0][i]);
                } else {
                    assert(first[i] == tail[i - all[0].len()]);
                }
            }
        }
        assert(path::are_names(list)) by {
            assert forall|i: int| 0 <= i < list.len() implies path::is_name(#[trigger] list[i])
                && path::has_no_separator(list[i]) by {
                if i > 0 {
                    assert(list[i] == rest[i - 1]);
                }
            }
        }
        assert(list[0] != path::root_dir()) by {
            assert(path::root_dir()[0] == '/');
            assert(list[0][0] != '/');
        }
        path::lemma_components_of_text(list);
        assert(path::path_text(list) == out);
    }
}

/// Different numbers give different paths.
pub proof fn lemma_numbered_paths_differ(path: Seq<char>, a: nat, b: nat)
    requires
        path::components(path).len() > 0,
        path::same_path(numbered_path(path, a), numbered_path(path, b)),
    ensures
        a == b,
{
    let all = path::components(path);
    let x = seq!['_'] + text::decimal(a);
    let y = seq!['_'] + text::decimal(b);
    lemma_numbered_path(path, a);
    lemma_numbered_path(path, b);
    let p = path::components(numbered_path(path, a));
    let q = path::components(numbered_path(path, b));
    if all[0] == path::root_dir() {
        assert(p[1] == x && q[1] == y);
    } else {
        assert(p[0] == all[0] + x && q[0] == all[0] + y);
        assert((all[0] + x).skip(all[0].len() as int) =~= x);
        assert((all[0] + y).skip(all[0].len() as int) =~= y);
    }
    assert(x.skip(1) =~= text::decimal(a));
    assert(y.skip(1) =~= text::decimal(b));
    text::lemma_decimal_injective(a, b);
}

/// There are no more different items than the list that holds them all has places.
proof fn lemma_no_more_than_places<A>(items: Seq<A>, places: Seq<A>)
    requires
        items.no_duplicates(),
        forall|i: int| 0 <= i < items.len() ==> places.contains(#[trigger] items[i]),
    ensures
        items.len() <= places.len(),
    decreases items.len(),
{
    if items.len() > 0 {
        let rest = items.drop_last();
        assert(places.contains(items[items.len() - 1]));
        let at = places.index_of(items.last());
        let others = places.remove(at);
        assert forall|i: int| 0 <= i < rest.len() implies others.contains(#[trigger] rest[i]) by {
            assert(places.contains(items[i]));
            let j = places.index_of(items[i]);
            assert(places[j] == items[i] && places[at] == items.last());
            assert(items[i] != items[items.len() - 1]);
            if j < at {
                assert(others[j] == rest[i]);
            } else {
                assert(others[j - 1] == rest[i]);
            }
        }
        lemma_no_more_than_places(rest, others);
    }
}

/// Among one more number than there are paths taken, one makes the path free.
proof fn lemma_some_number_is_free(taken: Seq<(Seq<char>, ())>, path: Seq<char>, count: nat)
    requires
        path::components(path).len() > 0,
        forall|n: nat| 1 <= n <= count ==> is_taken(taken, #[trigger] numbered_path(path, n)),
    ensures
        count <= taken.len(),
{
    let keys = Seq::new(
        count,
        |i: int| path::components(numbered_path(path, (i + 1) as nat)),
    );
    let places = taken.map_values(|e: (Seq<char>, ())| path::components(e.0));
    assert forall|i: int, j: int| 0 <= i < j < keys.len() implies keys[i] != keys[j] by {
        if keys[i] == keys[j] {
            lemma_numbered_paths_differ(path, (i + 1) as nat, (j + 1) as nat);
        }
    }
    assert forall|i: int| 0 <= i < keys.len() implies places.contains(#[trigger] keys[i]) by {
        let p = numbered_path(path, (i + 1) as nat);
        assert(is_taken(taken, p));
        let k = choose|k: int|
            0 <= k < taken.len() && path::components(#[trigger] taken[k].0) == path::components(p);
        assert(places[k] == keys[i]);
    }
    lemma_no_more_than_places(keys, places);
}

/// At most one number is the first one that makes a path free.
proof fn lemma_first_free_is(taken: Seq<(Seq<char>, ())>, path: Seq<char>, number: nat)
    requires
        is_first_free(taken, path, number),
    ensures
        number == (choose|n: nat| is_first_free(taken, path, n)),
{
    let chosen = choose|n: nat| is_first_free(taken, path, n);
    assert(is_first_free(taken, path, chosen));
    if chosen < number {
        assert(is_taken(taken, numbered_path(path, chosen)));
    } else if number < chosen {
        assert(is_taken(taken, numbered_path(path, number)));
    }
}

/// Writes a path with a number behind its first component.
fn number_path(path: &str, number: u128) -> (res: String)
    requires
        path::components(path@).len() > 0,
    ensures
        res@ == numbered_path(path@, number as nat),
{
    let all = path::split_path(path);
    let ghost views = path::components(path@);
    assert(views.len() == all.len());
    proof {
        reveal_strlit("_");
        reveal_strlit("/");
        assert("/"@ =~= seq!['/']);
    }
    let mut first: String = all[0].clone();
    assert(first@ == text::texts(all@)[0]);
    first.append("_");
    first.append(text::decimal_text(number).as_str());
    assert(first@ =~= views[0].push('_') + text::decimal(number as nat));
    let mut list = text::copy_from(&all, 1);
    let ghost rest = list@;
    list.insert(0, first);
    assert(text::texts(list@) =~= seq![first@] + text::texts(rest));
    text::join(&list, "/")
}

/// Finds the path to use in place of one that conflicts with another contract's.
///
/// There is none where a number is needed and the path is the artifacts folder itself.
pub fn alternative_output_file(
    already_taken: &PathSet,
    conflict: &str,
    contract_file: &str,
    artifacts_folder: &str,
) -> (res: Option<String>)
    ensures
        text::opt_text(res) == free_path(
            already_taken@,
            conflict@,
            contract_file@,
            artifacts_folder@,
        ),
{
    let relative: String = match path::strip_prefix(conflict, artifacts_folder) {
        Some(rest) => rest,
        None => conflict.to_string(),
    };
    let ghost taken = already_taken@;
    let ghost folder = artifacts_folder@;
    let ghost dirs = directories(contract_file@);
    assert(relative@ == relative_to(conflict@, folder));
    let mut candidate: String = relative.clone();
    let all = path::split_path(contract_file);
    assert(text::texts(all@).len() == all.len());
    let mut depth: usize = if all.len() > 0 {
        all.len() - 1
    } else {
        0
    };
    assert(dirs.take(depth as int) =~= dirs);
    while depth > 0
        invariant
            taken == already_taken@,
            folder == artifacts_folder@,
            relative@ == relative_to(conflict@, folder),
            dirs == directories(contract_file@),
            text::texts(all@) == path::components(contract_file@),
            depth <= dirs.len(),
            depth < all.len() || depth == 0,
            nested_path(taken, folder, dirs.take(depth as int), candidate@) == nested_path(
                taken,
                folder,
                dirs,
                relative@,
            ),
        ensures
            nested_path(taken, folder, dirs, relative@) is None,
        decreases depth,
    {
        let ghost part = dirs.take(depth as int);
        let dir = all[depth - 1].as_str();
        assert(part.last() == dir@) by {
            assert(text::texts(all@)[depth - 1] == dir@);
        }
        if !path::names_a_file(dir) {
            break;
        }
        let nested = path::join(dir, candidate.as_str());
        let out = path::join(artifacts_folder, nested.as_str());
        if !already_taken.contains(out.as_str()) {
            return Some(out);
        }
        assert(part.drop_last() =~= dirs.take(depth - 1));
        candidate = nested;
        depth = depth - 1;
    }
    if path::split_path(relative.as_str()).len() == 0 {
        assert(path::components(relative@).len() == 0);
        return None;
    }
    assert(path::components(relative@).len() > 0);
    let count: usize = already_taken.len();
    let mut i: usize = 0;
    loop
        invariant
            taken == already_taken@,
            count == taken.len(),
            i <= count,
            folder == artifacts_folder@,
            relative@ == relative_to(conflict@, folder),
            nested_path(taken, folder, directories(contract_file@), relative@) is None,
            path::components(relative@).len() > 0,
            forall|n: nat| 1 <= n <= i ==> is_taken(taken, #[trigger] numbered_path(relative@, n)),
        decreases count - i,
    {
        let ghost number = (i + 1) as nat;
        let out = number_path(relative.as_str(), i as u128 + 1);
        if !already_taken.contains(out.as_str()) {
            proof {
                assert(is_first_free(taken, relative@, number));
                lemma_first_free_is(taken, relative@, number);
            }
            return Some(out);
        }
        proof {
            lemma_some_number_is_free(taken, relative@, number);
        }
        i = i + 1;
    }
}

/// Returns the appropriate file name for the conflicting file.
///
/// The resulting path is conflict free. A conflict is possible if there are two separate
/// contract files (in different folders) that contain the same contract.
pub fn conflict_free_output_file(
    already_taken: &PathSet,
    conflict: &str,
    contract_file: &str,
    artifacts_folder: &str,
) -> (res: String)
    requires
        free_path(already_taken@, conflict@, contract_file@, artifacts_folder@) is Some,
    ensures
        free_path(already_taken@, conflict@, contract_file@, artifacts_folder@) == Some(res@),
        !is_taken(already_taken@, res@),
{
    proof {
        law_free_path_is_free(already_taken@, conflict@, contract_file@, artifacts_folder@);
    }
    match alternative_output_file(already_taken, conflict, contract_file, artifacts_folder) {
        Some(out) => out,
        None => String::new(),
    }
}

proof fn lemma_nested_path_is_free(
    taken: Seq<(Seq<char>, ())>,
    folder: Seq<char>,
    dirs: Seq<Seq<char>>,
    candidate: Seq<char>,
)
    ensures
        nested_path(taken, folder, dirs, candidate) matches Some(out) ==> !is_taken(taken, out),
    decreases dirs.len(),
{
    if dirs.len() > 0 && path::is_normal(dirs.last()) {
        let nested = path::join_path(dirs.last(), candidate);
        lemma_nested_path_is_free(taken, folder, dirs.drop_last(), nested);
    }
}

proof fn lemma_first_free_exists(taken: Seq<(Seq<char>, ())>, path: Seq<char>, from: nat)
    requires
        path::components(path).len() > 0,
        from >= 1,
        forall|n: nat| 1 <= n < from ==> is_taken(taken, #[trigger] numbered_path(path, n)),
    ensures
        exists|n: nat| is_first_free(taken, path, n),
    decreases taken.len() + 1 - from,
{
    if is_taken(taken, numbered_path(path, from)) {
        lemma_some_number_is_free(taken, path, from);
        lemma_first_free_exists(taken, path, from + 1);
    } else {
        assert(is_first_free(taken, path, from));
    }
}

/// The path that is used in place of a conflicting one is not taken itself.
pub proof fn law_free_path_is_free(
    taken: Seq<(Seq<char>, ())>,
    conflict: Seq<char>,
    contract_file: Seq<char>,
    folder: Seq<char>,
)
    ensures
        free_path(taken, conflict, contract_file, folder) matches Some(out) ==> !is_taken(
            taken,
            out,
        ),
{
    let relative = relative_to(conflict, folder);
    lemma_nested_path_is_free(taken, folder, directories(contract_file), relative);
    if path::components(relative).len() > 0 {
        lemma_first_free_exists(taken, relative, 1);
    }
}

/// A path other than the artifacts folder can be replaced, whatever is taken.
pub proof fn law_free_path_exists(
    taken: Seq<(Seq<char>, ())>,
    conflict: Seq<char>,
    contract_file: Seq<char>,
    folder: Seq<char>,
)
    requires
        path::components(conflict).len() > 0,
        !path::same_path(conflict, folder),
    ensures
        free_path(taken, conflict, contract_file, folder) is Some,
{
    if path::is_under(conflict, folder) {
        let all = path::components(conflict);
        let base = path::components(folder);
        let rest = all.skip(base.len() as int);
        if rest.len() == 0 {
            assert(all =~= base);
        }
        path::lemma_components_of_stripped(conflict, folder);
    }
}

/// An artifact's path leads back to the name of its contract.
pub proof fn law_contract_name_of_output_file(contract_file: Seq<char>, name: Seq<char>)
    requires
        name.len() > 0,
        path::has_no_separator(name),
    ensures
        path::file_stem(artifact_path(contract_file, artifact_name(name))) == Some(name),
{
    let file = artifact_name(name);
    reveal_strlit(".json");
    lemma_json_name(name);
    lemma_file_of_artifact(contract_file, file);
}

/// The path of an artifact for one of several versions leads back to the contract's name with
/// the version behind it.
pub proof fn law_contract_name_of_output_file_versioned(
    contract_file: Seq<char>,
    name: Seq<char>,
    v: VersionView,
)
    requires
        path::has_no_separator(name),
    ensures
        path::file_stem(artifact_path(contract_file, artifact_name_versioned(name, v))) == Some(
            name + "."@ + version::release_text(v),
        ),
{
    let full = name + "."@ + version::release_text(v);
    reveal_strlit(".");
    reveal_strlit(".json");
    assert(path::has_no_separator(full)) by {
        let release = version::release_text(v);
        assert forall|i: int| 0 <= i < release.len() implies #[trigger] release[i] != '/' by {
            version::lemma_release_char(v, i);
        }
        assert forall|i: int| 0 <= i < full.len() implies #[trigger] full[i] != '/' by {
            if i < name.len() {
                assert(full[i] == name[i]);
            } else if i > name.len() {
                assert(full[i] == release[i - name.len() - 1]);
            }
        }
    }
    assert(artifact_name_versioned(name, v) =~= artifact_name(full));
    lemma_json_name(full);
    lemma_file_of_artifact(contract_file, artifact_name(full));
}

/// The file name of an artifact is the contract's name with an extension.
proof fn lemma_json_name(name: Seq<char>)
    requires
        name.len() > 0,
        path::has_no_separator(name),
    ensures
        path::stem_of(artifact_name(name)) == name,
        path::has_no_separator(artifact_name(name)),
        path::is_normal(artifact_name(name)),
        path::is_name(artifact_name(name)),
{
    reveal_strlit(".json");
    let file = artifact_name(name);
    let n = name.len() as int;
    assert(file.len() == n + 5);
    assert(path::last_dot(file) == n) by {
        reveal_with_fuel(path::last_dot, 5);
        assert(file.drop_last().last() == 'o');
        assert(file.drop_last().drop_last().last() == 's');
        assert(file.drop_last().drop_last().drop_last().last() == 'j');
        assert(file.drop_last().drop_last().drop_last().drop_last().last() == '.');
    }
    assert(file.take(n) =~= name);
    assert forall|i: int| 0 <= i < file.len() implies #[trigger] file[i] != '/' by {
        if i < n {
            assert(file[i] == name[i]);
        }
    }
    assert(path::root_dir().len() == 1 && path::cur_dir().len() == 1);
    assert(path::parent_dir().len() == 2);
}

/// The path of an artifact ends with its file name.
proof fn lemma_file_of_artifact(contract_file: Seq<char>, file: Seq<char>)
    requires
        path::has_no_separator(file),
        path::is_normal(file),
        path::is_name(file),
    ensures
        path::file_name(artifact_path(contract_file, file)) == Some(file),
{
    assert(path::components(file) == seq![file]) by {
        assert(path::are_names(seq![file]));
        path::lemma_components_of_text(seq![file]);
        assert(path::path_text(seq![file]) =~= file) by {
            assert(seq![file].drop_last() =~= Seq::<Seq<char>>::empty());
        }
    }
    match path::file_name(contract_file) {
        Some(dir) => {
            path::lemma_components(contract_file);
            assert(file.len() > 0 && file[0] != '/');
            assert(path::names(file) == seq![file]) by {
                assert(path::components(file)[0] == file);
            }
            path::lemma_components_of_join(dir, file);
            assert(path::components(path::join_path(dir, file)).last() == file);
        },
        None => {},
    }
}

/// What tells an artifact apart from others.
#[derive(Debug)]
pub struct ArtifactId {
    /// The path of the artifact's file
    pub path: String,
    /// The name of the contract
    pub name: String,
    /// The path of the contract's file
    pub source: String,
    /// The version that the contract was compiled with
    pub version: Version,
}

/// What an [`ArtifactId`] holds.
#[verifier::ext_equal]
pub struct ArtifactIdView {
    pub path: Seq<char>,
    pub name: Seq<char>,
    pub source: Seq<char>,
    pub version: VersionView,
}

impl View for ArtifactId {
    type V = ArtifactIdView;

    open spec fn view(&self) -> ArtifactIdView {
        ArtifactIdView {
            path: self.path@,
            name: self.name@,
            source: self.source@,
            version: self.version@,
        }
    }
}

impl ArtifactIdView {
    /// The identifier with `/` in place of each `\\` of its paths.
    pub open spec fn slashed(self) -> ArtifactIdView {
        ArtifactIdView {
            path: path::slashed(self.path),
            source: path::slashed(self.source),
            ..self
        }
    }

    /// The identifier as it is handed out: with `/` in place of each `\\` on Windows.
    pub open spec fn slashed_on(self, windows: bool) -> ArtifactIdView {
        if windows {
            self.slashed()
        } else {
            self
        }
    }
}

impl ArtifactId {
    /// Converts all `\\` separators of the paths to `/`
    ///
    /// `windows` tells whether the paths are those of Windows. Elsewhere a `\\` is no separator,
    /// and the paths stay as they are.
    pub fn with_slashed_paths(self, windows: bool) -> (res: Self)
        ensures
            res@ == self@.slashed_on(windows),
    {
        if !windows {
            return self;
        }
        ArtifactId {
            path: path::slash(self.path.as_str()),
            name: self.name,
            source: path::slash(self.source.as_str()),
            version: self.version,
        }
    }
}

/// The identifiers and artifacts of a list; those whose files have no name are left out.
pub open spec fn list_ids(
    source: Seq<char>,
    list: Seq<ArtifactFileView>,
    windows: bool,
) -> Seq<(ArtifactIdView, ArtifactView)>
    decreases list.len(),
{
    if list.len() == 0 {
        Seq::empty()
    } else {
        let before = list_ids(source, list.drop_last(), windows);
        let last = list.last();
        match path::file_stem(last.file) {
            Some(name) => before.push(
                (
                    (ArtifactIdView {
                        path: last.file,
                        name,
                        source,
                        version: last.version,
                    }).slashed_on(windows),
                    last.artifact,
                ),
            ),
            None => before,
        }
    }
}

/// The identifiers and artifacts of a file's contracts, name by name.
pub open spec fn file_ids(
    source: Seq<char>,
    names: Seq<(Seq<char>, Seq<ArtifactFileView>)>,
    windows: bool,
) -> Seq<(ArtifactIdView, ArtifactView)>
    decreases names.len(),
{
    if names.len() == 0 {
        Seq::empty()
    } else {
        file_ids(source, names.drop_last(), windows) + list_ids(source, names.last().1, windows)
    }
}

/// The identifiers and artifacts of all contracts, file by file.
pub open spec fn all_ids(
    all: Seq<(Seq<char>, Seq<(Seq<char>, Seq<ArtifactFileView>)>)>,
    windows: bool,
) -> Seq<(ArtifactIdView, ArtifactView)>
    decreases all.len(),
{
    if all.len() == 0 {
        Seq::empty()
    } else {
        all_ids(all.drop_last(), windows) + file_ids(all.last().0, all.last().1, windows)
    }
}

/// What identifiers and artifacts hold.
pub open spec fn id_views(list: Seq<(ArtifactId, &ZkContractArtifact)>) -> Seq<
    (ArtifactIdView, ArtifactView),
> {
    list.map_values(|item: (ArtifactId, &ZkContractArtifact)| (item.0@, item.1@))
}

fn push_list_ids<'a>(
    res: &mut Vec<(ArtifactId, &'a ZkContractArtifact)>,
    source: &str,
    list: &'a Vec<ArtifactFile>,
    windows: bool,
)
    ensures
        id_views(final(res)@) == id_views(old(res)@) + list_ids(
            source@,
            list@.map_values(|item: ArtifactFile| item@),
            windows,
        ),
{
    let ghost before = id_views(res@);
    let ghost all = list@.map_values(|item: ArtifactFile| item@);
    let mut i: usize = 0;
    assert(all.take(0) =~= Seq::<ArtifactFileView>::empty());
    assert(id_views(res@) =~= before + list_ids(source@, all.take(0), windows));
    while i < list.len()
        invariant
            before == id_views(old(res)@),
            all == list@.map_values(|item: ArtifactFile| item@),
            i <= list.len(),
            id_views(res@) == before + list_ids(source@, all.take(i as int), windows),
        decreases list.len() - i,
    {
        let artifact = &list[i];
        assert(all.take(i + 1).drop_last() =~= all.take(i as int));
        assert(all.take(i + 1).last() == artifact@);
        if let Some(name) = contract_name(artifact.file.as_str()) {
            let ghost was = res@;
            let id = ArtifactId {
                path: artifact.file.clone(),
                name,
                source: source.to_string(),
                version: artifact.version.clone(),
            }.with_slashed_paths(windows);
            let ghost item = (id@, artifact.artifact@);
            res.push((id, &artifact.artifact));
            assert(id_views(res@) =~= id_views(was).push(item));
            assert(id_views(res@) =~= before + list_ids(source@, all.take(i + 1), windows));
        }
        i = i + 1;
    }
    assert(all.take(i as int) =~= all);
}

fn push_file_ids<'a>(
    res: &mut Vec<(ArtifactId, &'a ZkContractArtifact)>,
    source: &str,
    names: &'a TextMap<Vec<ArtifactFile>>,
    windows: bool,
)
    ensures
        id_views(final(res)@) == id_views(old(res)@) + file_ids(
            source@,
            zk::names_view(*names),
            windows,
        ),
{
    let ghost before = id_views(res@);
    let ghost all = zk::names_view(*names);
    let mut i: usize = 0;
    assert(all.take(0) =~= Seq::<(Seq<char>, Seq<ArtifactFileView>)>::empty());
    assert(id_views(res@) =~= before + file_ids(source@, all.take(0), windows));
    assert(all.len() == names@.len());
    while i < names.len()
        invariant
            before == id_views(old(res)@),
            all == zk::names_view(*names),
            all.len() == names@.len(),
            i <= names@.len(),
            id_views(res@) == before + file_ids(source@, all.take(i as int), windows),
        decreases names@.len() - i,
    {
        let list = names.value_at(i);
        assert(all.take(i + 1).drop_last() =~= all.take(i as int));
        assert(all.take(i + 1).last().1 == list@.map_values(|item: ArtifactFile| item@));
        push_list_ids(res, source, list, windows);
        assert(id_views(res@) =~= before + file_ids(source@, all.take(i + 1), windows));
        i = i + 1;
    }
    assert(all.take(i as int) =~= all);
}

/// Returns _all_ artifacts with their identifiers, by `<file name:contract name>`.
///
/// `windows` tells whether the paths are those of Windows, so that `\\` is to be written as `/`.
pub fn artifacts_artifacts(artifacts: &Artifacts, windows: bool) -> (res: Vec<
    (ArtifactId, &ZkContractArtifact),
>)
    ensures
        id_views(res@) == all_ids(artifacts@, windows),
{
    let ghost all = artifacts@;
    let mut res: Vec<(ArtifactId, &ZkContractArtifact)> = Vec::new();
    let mut i: usize = 0;
    assert(all.take(0) =~= Seq::<
        (Seq<char>, Seq<(Seq<char>, Seq<ArtifactFileView>)>),
    >::empty());
    assert(id_views(res@) =~= all_ids(all.take(0), windows));
    assert(all.len() == artifacts.0@.len());
    while i < artifacts.0.len()
        invariant
            all == artifacts@,
            all.len() == artifacts.0@.len(),
            i <= all.len(),
            id_views(res@) == all_ids(all.take(i as int), windows),
        decreases all.len() - i,
    {
        let source = artifacts.0.key_at(i).as_str();
        let names = artifacts.0.value_at(i);
        assert(all.take(i + 1).drop_last() =~= all.take(i as int));
        assert(all.take(i + 1).last() == (source@, zk::names_view(*names)));
        push_file_ids(&mut res, source, names, windows);
        i = i + 1;
    }
    assert(all.take(i as int) =~= all);
    res
}

} // verus!
