//! How contracts are compiled.
use crate::config;
use crate::config::{copy_remappings, strip_remappings, Remapping, RemappingView};
use crate::maps;
use crate::maps::{copy_texts, ByPath, PathMap, TextMap};
use crate::text;
use serde_json::Value;
use vstd::prelude::*;
use vstd::string::*;

verus! {

/// How contracts are compiled.
pub struct ZkSolcSettings {
    pub remappings: Vec<Remapping>,
    /// The addresses of libraries by the paths of their files and by their names
    pub libraries: PathMap<TextMap<String>>,
    pub evm_version: Option<String>,
    pub system_mode: bool,
    pub force_evmla: bool,
    pub detect_missing_libraries: bool,
    /// The path of `solc`
    pub solc: Option<String>,
    /// All other settings, as JSON
    pub other: Option<Value>,
}

/// What the libraries of a file hold.
pub open spec fn libraries_view(libraries: Seq<(Seq<char>, TextMap<String>)>) -> Seq<
    (Seq<char>, Seq<(Seq<char>, Seq<char>)>),
> {
    maps::map_entries(libraries, |names: TextMap<String>| maps::text_entries(names@))
}

/// What [`ZkSolcSettings`] hold.
#[verifier::ext_equal]
pub struct ZkSolcSettingsView {
    pub remappings: Seq<RemappingView>,
    pub libraries: Seq<(Seq<char>, Seq<(Seq<char>, Seq<char>)>)>,
    pub evm_version: Option<Seq<char>>,
    pub system_mode: bool,
    pub force_evmla: bool,
    pub detect_missing_libraries: bool,
    pub solc: Option<Seq<char>>,
    pub other: Option<Value>,
}

impl View for ZkSolcSettings {
    type V = ZkSolcSettingsView;

    open spec fn view(&self) -> ZkSolcSettingsView {
        ZkSolcSettingsView {
            remappings: config::remapping_views(self.remappings@),
            libraries: libraries_view(self.libraries@),
            evm_version: text::opt_text(self.evm_version),
            system_mode: self.system_mode,
            force_evmla: self.force_evmla,
            detect_missing_libraries: self.detect_missing_libraries,
            solc: text::opt_text(self.solc),
            other: self.other,
        }
    }
}

fn copy_libraries(libraries: &PathMap<TextMap<String>>) -> (res: PathMap<TextMap<String>>)
    ensures
        libraries_view(res@) == libraries_view(libraries@),
{
    proof {
        use_type_invariant(libraries);
    }
    let ghost all = libraries@;
    let mut res: Vec<(String, TextMap<String>)> = Vec::new();
    let mut i: usize = 0;
    while i < libraries.len()
        invariant
            all == libraries@,
            i <= all.len(),
            res.len() == i,
            forall|j: int|
                #![trigger res[j]]
                0 <= j < i ==> res[j].0@ == all[j].0 && maps::text_entries(res[j].1@)
                    == maps::text_entries(all[j].1@),
        decreases all.len() - i,
    {
        let key: String = libraries.key_at(i).clone();
        let names = copy_texts(libraries.value_at(i));
        res.push((key, names));
        i = i + 1;
    }
    let ghost views = maps::entry_views(res@);
    proof {
        assert forall|j: int| 0 <= j < all.len() implies (#[trigger] views[j]).0 == all[j].0 by {
            assert(views[j].0 == res[j].0@);
        }
        maps::lemma_same_keys::<ByPath, TextMap<String>, TextMap<String>>(all, views);
    }
    let map = PathMap::from_entries(res);
    assert(libraries_view(map@) =~= libraries_view(all)) by {
        assert forall|j: int| 0 <= j < all.len() implies libraries_view(map@)[j]
            == libraries_view(all)[j] by {
            assert(map@[j] == (res[j].0@, res[j].1));
        }
    }
    map
}

impl Clone for ZkSolcSettings {
    fn clone(&self) -> (res: Self)
        ensures
            res@ == self@,
    {
        ZkSolcSettings {
            remappings: copy_remappings(&self.remappings),
            libraries: copy_libraries(&self.libraries),
            evm_version: text::copy_option(&self.evm_version),
            system_mode: self.system_mode,
            force_evmla: self.force_evmla,
            detect_missing_libraries: self.detect_missing_libraries,
            solc: text::copy_option(&self.solc),
            other: match &self.other {
                Some(other) => Some(other.clone()),
                None => None,
            },
        }
    }
}

/// The settings without what the paths of remappings and libraries begin with.
pub open spec fn stripped_settings(settings: ZkSolcSettingsView, base: Seq<char>) -> ZkSolcSettingsView {
    ZkSolcSettingsView {
        remappings: config::stripped_remappings(settings.remappings, base),
        libraries: maps::stripped_keys(settings.libraries, base),
        ..settings
    }
}

impl Default for ZkSolcSettings {
    fn default() -> (res: Self)
        ensures
            res@ == (ZkSolcSettingsView {
                remappings: Seq::empty(),
                libraries: Seq::empty(),
                evm_version: None,
                system_mode: false,
                force_evmla: false,
                detect_missing_libraries: false,
                solc: None,
                other: None,
            }),
    {
        let res = ZkSolcSettings {
            remappings: Vec::new(),
            libraries: PathMap::new(),
            evm_version: None,
            system_mode: false,
            force_evmla: false,
            detect_missing_libraries: false,
            solc: None,
            other: None,
        };
        assert(res@.remappings =~= Seq::empty());
        assert(res@.libraries =~= Seq::empty());
        res
    }
}

impl ZkSolcSettings {
    /// Removes the `base` path from the remappings and the files of libraries
    pub fn strip_prefix(&mut self, base: &str)
        ensures
            final(self)@ == stripped_settings(old(self)@, base@),
    {
        let mut remappings: Vec<Remapping> = Vec::new();
        std::mem::swap(&mut remappings, &mut self.remappings);
        let mut libraries: PathMap<TextMap<String>> = PathMap::new();
        std::mem::swap(&mut libraries, &mut self.libraries);
        proof {
            maps::lemma_map_stripped_keys(
                libraries@,
                |names: TextMap<String>| maps::text_entries(names@),
                base@,
            );
        }
        self.remappings = strip_remappings(remappings, base);
        self.libraries = maps::strip_keys(libraries, base);
    }
}

} // verus!
