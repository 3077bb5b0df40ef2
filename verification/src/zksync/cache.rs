//! What is known of the artifacts of earlier runs.
use crate::maps;
use crate::maps::{ByPath, ByText, PathMap, TextMap};
use crate::version::{Version, VersionView};
use vstd::prelude::*;

verus! {

/// The artifacts of a source file.
pub struct CacheEntry {
    /// The paths of the artifacts by the names of their contracts, each for the version that
    /// it was compiled with
    pub artifacts: TextMap<Vec<(Version, String)>>,
}

/// The artifacts of all source files, by the paths of these.
pub struct SolFilesCache {
    pub files: PathMap<CacheEntry>,
}

/// The first path that is listed for a version.
pub open spec fn path_for_version(
    list: Seq<(Version, String)>,
    version: VersionView,
) -> Option<Seq<char>>
    decreases list.len(),
{
    if list.len() == 0 {
        None
    } else if list[0].0@ == version {
        Some(list[0].1@)
    } else {
        path_for_version(list.drop_first(), version)
    }
}

/// What an optional path is.
pub open spec fn opt_path(path: Option<&String>) -> Option<Seq<char>> {
    match path {
        Some(p) => Some(p@),
        None => None,
    }
}

impl CacheEntry {
    /// The path of the artifact of a contract for a version.
    pub open spec fn artifact(self, contract: Seq<char>, version: VersionView) -> Option<
        Seq<char>,
    > {
        match maps::found::<ByText, Vec<(Version, String)>>(self.artifacts@, contract) {
            Some(list) => path_for_version(list@, version),
            None => None,
        }
    }

    /// Returns the artifact path for the contract and version
    pub fn find_artifact(&self, contract: &str, version: &Version) -> (res: Option<&String>)
        ensures
            opt_path(res) == self.artifact(contract@, version@),
    {
        match self.artifacts.get(contract) {
            Some(list) => {
                let mut i: usize = 0;
                assert(list@.skip(0) =~= list@);
                while i < list.len()
                    invariant
                        i <= list.len(),
                        path_for_version(list@.skip(i as int), version@) == self.artifact(
                            contract@,
                            version@,
                        ),
                    decreases list.len() - i,
                {
                    if list[i].0.same(version) {
                        return Some(&list[i].1);
                    }
                    assert(list@.skip(i as int).drop_first() =~= list@.skip(i + 1));
                    i = i + 1;
                }
                None
            },
            None => None,
        }
    }
}

impl SolFilesCache {
    /// The path of the artifact of a file's contract for a version.
    pub open spec fn artifact(
        self,
        file: Seq<char>,
        contract: Seq<char>,
        version: VersionView,
    ) -> Option<Seq<char>> {
        match maps::found::<ByPath, CacheEntry>(self.files@, file) {
            Some(entry) => entry.artifact(contract, version),
            None => None,
        }
    }

    /// Returns the entry for the file
    pub fn entry(&self, file: &str) -> (res: Option<&CacheEntry>)
        ensures
            match res {
                Some(entry) => maps::found::<ByPath, CacheEntry>(self.files@, file@) == Some(
                    *entry,
                ),
                None => maps::found::<ByPath, CacheEntry>(self.files@, file@) is None,
            },
    {
        self.files.get(file)
    }
}

} // verus!
