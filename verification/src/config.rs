//! Where the parts of a project are.
use crate::maps::PathSet;
use crate::path;
use crate::text;
use vstd::prelude::*;

verus! {

/// A rule that replaces a part of an import path.
#[derive(Debug)]
pub struct Remapping {
    /// The files that the rule is for, all of them if there is none
    pub context: Option<String>,
    pub name: String,
    pub path: String,
}

/// What a [`Remapping`] holds.
#[verifier::ext_equal]
pub struct RemappingView {
    pub context: Option<Seq<char>>,
    pub name: Seq<char>,
    pub path: Seq<char>,
}

impl View for Remapping {
    type V = RemappingView;

    open spec fn view(&self) -> RemappingView {
        RemappingView {
            context: text::opt_text(self.context),
            name: self.name@,
            path: self.path@,
        }
    }
}

/// What remappings hold.
pub open spec fn remapping_views(list: Seq<Remapping>) -> Seq<RemappingView> {
    list.map_values(|remapping: Remapping| remapping@)
}

/// The path without what it begins with, where it does.
pub open spec fn without_base(path: Seq<char>, base: Seq<char>) -> Seq<char> {
    match path::stripped(path, base) {
        Some(rest) => rest,
        None => path,
    }
}

/// The remappings without what their paths begin with.
pub open spec fn stripped_remappings(list: Seq<RemappingView>, base: Seq<char>) -> Seq<
    RemappingView,
> {
    list.map_values(
        |remapping: RemappingView|
            (RemappingView { path: without_base(remapping.path, base), ..remapping }),
    )
}

/// Removes the `base` path from the paths of remappings
pub fn strip_remappings(list: Vec<Remapping>, base: &str) -> (res: Vec<Remapping>)
    ensures
        remapping_views(res@) == stripped_remappings(remapping_views(list@), base@),
{
    let ghost all = list@;
    let ghost wanted = stripped_remappings(remapping_views(all), base@);
    let mut res: Vec<Remapping> = Vec::new();
    for remapping in it: list
        invariant
            it.seq() == all,
            wanted == stripped_remappings(remapping_views(all), base@),
            remapping_views(res@) =~= wanted.take(it.index() as int),
    {
        let ghost i = it.index() as int;
        let ghost before = remapping_views(res@);
        let path: String = match path::strip_prefix(remapping.path.as_str(), base) {
            Some(rest) => rest,
            None => remapping.path,
        };
        let stripped = Remapping { context: remapping.context, name: remapping.name, path };
        assert(wanted[i] == stripped@);
        res.push(stripped);
        assert(remapping_views(res@) =~= before.push(stripped@));
    }
    assert(wanted.take(all.len() as int) =~= wanted);
    res
}

impl Clone for Remapping {
    fn clone(&self) -> (res: Self)
        ensures
            res == *self,
    {
        let context = text::copy_option(&self.context);
        Remapping { context, name: self.name.clone(), path: self.path.clone() }
    }
}

/// Copies a list of remappings.
pub fn copy_remappings(list: &Vec<Remapping>) -> (res: Vec<Remapping>)
    ensures
        res@ == list@,
{
    let mut res: Vec<Remapping> = Vec::new();
    let mut i: usize = 0;
    while i < list.len()
        invariant
            i <= list.len(),
            res@ =~= list@.take(i as int),
        decreases list.len() - i,
    {
        res.push(list[i].clone());
        i = i + 1;
    }
    assert(list@.take(i as int) =~= list@);
    res
}

/// The paths of a project.
pub struct ProjectPathsConfig {
    /// The root of the project
    pub root: String,
    /// Where the artifacts are
    pub zksync_artifacts: String,
    /// Where the cache file is
    pub zksync_cache: String,
    /// Where imports are looked for
    pub include_paths: PathSet,
    /// Where files may be read from
    pub allowed_paths: PathSet,
    pub remappings: Vec<Remapping>,
}

} // verus!
