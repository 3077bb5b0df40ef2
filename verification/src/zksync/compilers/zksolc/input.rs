//! The input of `zksolc`.
use crate::config;
use crate::config::{Remapping, RemappingView};
use crate::maps;
use crate::maps::{ByPath, KeyOrder, PathMap};
use crate::path;
use crate::text;
use crate::zksync::compilers::zksolc::settings;
use crate::zksync::compilers::zksolc::settings::{ZkSolcSettings, ZkSolcSettingsView};
use vstd::prelude::*;
use vstd::string::*;

verus! {

/// The text of a source file.
#[derive(Debug)]
pub struct Source {
    pub content: String,
}

/// The source files by their paths.
pub type Sources = PathMap<Source>;

/// Input type `solc` expects.
pub struct ZkSolcInput {
    pub language: String,
    pub sources: Sources,
    pub settings: ZkSolcSettings,
}

/// What a [`ZkSolcInput`] holds.
#[verifier::ext_equal]
pub struct ZkSolcInputView {
    pub language: Seq<char>,
    pub sources: Seq<(Seq<char>, Source)>,
    pub settings: ZkSolcSettingsView,
}

impl View for ZkSolcInput {
    type V = ZkSolcInputView;

    open spec fn view(&self) -> ZkSolcInputView {
        ZkSolcInputView {
            language: self.language@,
            sources: self.sources@,
            settings: self.settings@,
        }
    }
}

/// The language of Solidity files.
pub open spec fn solidity() -> Seq<char> {
    "Solidity"@
}

/// The language of Yul files.
pub open spec fn yul() -> Seq<char> {
    "Yul"@
}

/// Whether a path is that of a Yul file.
pub open spec fn is_yul_path(path: Seq<char>) -> bool {
    path::extension(path) == Some("yul"@)
}

/// The Yul files, or all others.
pub open spec fn files_of(sources: Seq<(Seq<char>, Source)>, yul: bool) -> Seq<
    (Seq<char>, Source),
> {
    sources.filter(|entry: (Seq<char>, Source)| is_yul_path(entry.0) == yul)
}

/// The inputs for source files: one for those that are not Yul files and one for those that
/// are, without remappings. There is none without files.
pub open spec fn inputs_for(
    sources: Seq<(Seq<char>, Source)>,
    settings: ZkSolcSettingsView,
) -> Seq<ZkSolcInputView> {
    let others = files_of(sources, false);
    let yuls = files_of(sources, true);
    (if others.len() > 0 {
        seq![ZkSolcInputView { language: solidity(), sources: others, settings }]
    } else {
        Seq::empty()
    }) + (if yuls.len() > 0 {
        seq![
            ZkSolcInputView {
                language: yul(),
                sources: yuls,
                settings: ZkSolcSettingsView { remappings: Seq::empty(), ..settings },
            },
        ]
    } else {
        Seq::empty()
    })
}

/// What inputs hold.
pub open spec fn input_views(inputs: Seq<ZkSolcInput>) -> Seq<ZkSolcInputView> {
    inputs.map_values(|input: ZkSolcInput| input@)
}

/// The settings with the EVM version that `solc` supports in place of the one that is set.
pub open spec fn with_evm_version(
    settings: ZkSolcSettingsView,
    normalized: Option<Seq<char>>,
) -> ZkSolcSettingsView {
    if settings.evm_version is Some {
        ZkSolcSettingsView { evm_version: normalized, ..settings }
    } else {
        settings
    }
}

/// The input without what the paths of source files, remappings and libraries begin with.
pub open spec fn stripped_input(input: ZkSolcInputView, base: Seq<char>) -> ZkSolcInputView {
    ZkSolcInputView {
        sources: maps::stripped_keys(input.sources, base),
        settings: settings::stripped_settings(input.settings, base),
        ..input
    }
}

/// The input with other remappings, unless it is one for Yul.
pub open spec fn remapped_input(
    input: ZkSolcInputView,
    remappings: Seq<RemappingView>,
) -> ZkSolcInputView {
    if input.language == yul() {
        input
    } else {
        ZkSolcInputView {
            settings: ZkSolcSettingsView { remappings, ..input.settings },
            ..input
        }
    }
}

/// Default `language` field is set to `"Solidity"`.
impl Default for ZkSolcInput {
    fn default() -> (res: Self)
        ensures
            res.language@ == solidity(),
            res.sources@.len() == 0,
            res.settings@ == (ZkSolcSettingsView {
                remappings: Seq::empty(),
                libraries: Seq::empty(),
                evm_version: None,
                system_mode: false,
                force_evmla: false,
                detect_missing_libraries: false,
                solc: None,
                other: None,
            }),
    {
        ZkSolcInput {
            language: "Solidity".to_string(),
            sources: PathMap::new(),
            settings: ZkSolcSettings::default(),
        }
    }
}

impl ZkSolcInput {
    /// Removes the `base` path from all source files
    pub fn strip_prefix(&mut self, base: &str)
        ensures
            final(self)@ == stripped_input(old(self)@, base@),
    {
        let mut sources: Sources = PathMap::new();
        std::mem::swap(&mut sources, &mut self.sources);
        self.sources = maps::strip_keys(sources, base);
        self.settings.strip_prefix(base);
    }

    /// The flag indicating whether the current input is constructed for the yul sources
    pub fn is_yul(&self) -> (res: bool)
        ensures
            res == (self@.language == yul()),
    {
        text::equal(self.language.as_str(), "Yul")
    }

    /// Creates new inputs with the given settings and sources
    ///
    /// An input expects a language setting, supported by solc are solidity or yul. In case the
    /// `sources` is a mix of solidity and yul files, 2 inputs are returned.
    ///
    /// `evm_version` is what the version of `solc` makes of the EVM version that is set.
    pub fn build(sources: Sources, settings: ZkSolcSettings, evm_version: Option<String>) -> (res:
        Vec<ZkSolcInput>)
        ensures
            input_views(res@) == inputs_for(
                sources@,
                with_evm_version(settings@, text::opt_text(evm_version)),
            ),
    {
        let ghost all = sources@;
        let mut settings = settings;
        if settings.evm_version.is_some() {
            settings.evm_version = evm_version;
        }
        let ghost given = settings@;
        proof {
            use_type_invariant(&sources);
            maps::lemma_filtered_ordered::<ByPath, Source>(
                all,
                |entry: (Seq<char>, Source)| is_yul_path(entry.0) == false,
            );
            maps::lemma_filtered_ordered::<ByPath, Source>(
                all,
                |entry: (Seq<char>, Source)| is_yul_path(entry.0) == true,
            );
        }
        let mut solidity_sources: Sources = PathMap::new();
        let mut yul_sources: Sources = PathMap::new();
        let list = sources.into_entries();
        assert(all.len() == list.len());
        assert(files_of(all.take(0), true) =~= Seq::<(Seq<char>, Source)>::empty()) by {
            reveal(Seq::filter);
        }
        assert(files_of(all.take(0), false) =~= Seq::<(Seq<char>, Source)>::empty()) by {
            reveal(Seq::filter);
        }
        for entry in it: list
            invariant
                maps::entry_views(it.seq()) == all,
                all.len() == it.seq().len(),
                maps::ordered::<ByPath, Source>(all),
                solidity_sources@ == files_of(all.take(it.index() as int), false),
                yul_sources@ == files_of(all.take(it.index() as int), true),
        {
            let ghost i = it.index() as int;
            assert(all[i] == (entry.0@, entry.1));
            proof {
                lemma_next_file(all, i);
            }
            let is_yul = match path::path_extension(entry.0.as_str()) {
                Some(extension) => text::equal(extension.as_str(), "yul"),
                None => false,
            };
            if is_yul {
                yul_sources.insert(entry.0, entry.1);
            } else {
                solidity_sources.insert(entry.0, entry.1);
            }
        }
        assert(all.take(all.len() as int) =~= all);
        let mut res: Vec<ZkSolcInput> = Vec::new();
        if solidity_sources.len() > 0 {
            res.push(
                ZkSolcInput {
                    language: "Solidity".to_string(),
                    sources: solidity_sources,
                    settings: settings.clone(),
                },
            );
        }
        if yul_sources.len() > 0 {
            if settings.remappings.len() > 0 {
                settings.remappings = Vec::new();
            }
            assert(settings@.remappings =~= Seq::empty());
            res.push(
                ZkSolcInput { language: "Yul".to_string(), sources: yul_sources, settings },
            );
        }
        assert(input_views(res@) =~= inputs_for(all, given));
        res
    }

    /// The source files
    pub fn sources(&self) -> (res: &Sources)
        ensures
            *res == self.sources,
    {
        &self.sources
    }

    /// Sets the remappings; an input for yul sources is left as it is
    pub fn with_remappings(self, remappings: Vec<Remapping>) -> (res: Self)
        ensures
            res@ == remapped_input(self@, config::remapping_views(remappings@)),
    {
        let mut res = self;
        if !res.is_yul() {
            res.settings.remappings = remappings;
        }
        res
    }

    /// The name of the compiler that the input is for
    pub fn compiler_name(&self) -> (res: String)
        ensures
            res@ == "Solc"@,
    {
        "Solc".to_string()
    }
}

/// What one more source file adds to the Yul files or to the others.
proof fn lemma_next_file(all: Seq<(Seq<char>, Source)>, i: int)
    requires
        0 <= i < all.len(),
        maps::ordered::<ByPath, Source>(all),
    ensures
        ({
            let (key, source) = all[i];
            let yul = is_yul_path(key);
            &&& files_of(all.take(i + 1), !yul) == files_of(all.take(i), !yul)
            &&& files_of(all.take(i + 1), yul) == maps::inserted::<ByPath, Source>(
                files_of(all.take(i), yul),
                key,
                source,
            )
        }),
{
    reveal(Seq::filter);
    let (key, source) = all[i];
    let yul = is_yul_path(key);
    let more = all.take(i + 1);
    assert(more.drop_last() =~= all.take(i));
    assert(more.last() == all[i]);
    assert forall|a: int, b: int|
        #![trigger more[a], more[b]]
        0 <= a < b < more.len() implies maps::precedes(
        ByPath::rank(ByPath::key(more[a].0)),
        ByPath::rank(ByPath::key(more[b].0)),
    ) by {
        assert(more[a] == all[a] && more[b] == all[b]);
    }
    maps::lemma_filtered_ordered::<ByPath, Source>(
        more,
        |entry: (Seq<char>, Source)| is_yul_path(entry.0) == yul,
    );
    assert(files_of(more, yul) == files_of(all.take(i), yul).push((key, source)));
    maps::lemma_inserted_last::<ByPath, Source>(files_of(all.take(i), yul), key, source);
}

/// Every source file is in just one input: a Yul file in the one for Yul, every other file in
/// the one for Solidity.
pub proof fn law_inputs_hold_all_sources(
    sources: Seq<(Seq<char>, Source)>,
    settings: ZkSolcSettingsView,
    i: int,
)
    requires
        0 <= i < sources.len(),
    ensures
        exists|k: int|
            {
                &&& 0 <= k < inputs_for(sources, settings).len()
                &&& (#[trigger] inputs_for(sources, settings)[k]).sources.contains(sources[i])
                &&& inputs_for(sources, settings)[k].language == (if is_yul_path(sources[i].0) {
                    yul()
                } else {
                    solidity()
                })
            },
        forall|k: int|
            0 <= k < inputs_for(sources, settings).len() && (#[trigger] inputs_for(
                sources,
                settings,
            )[k]).sources.contains(sources[i]) ==> inputs_for(sources, settings)[k].language == (
            if is_yul_path(sources[i].0) {
                yul()
            } else {
                solidity()
            }),
{
    let inputs = inputs_for(sources, settings);
    let entry = sources[i];
    let others = files_of(sources, false);
    let yuls = files_of(sources, true);
    let is_other = |entry: (Seq<char>, Source)| is_yul_path(entry.0) == false;
    let is_yul = |entry: (Seq<char>, Source)| is_yul_path(entry.0) == true;
    if is_yul_path(entry.0) {
        sources.lemma_filter_contains(is_yul, i);
        assert(yuls.contains(entry));
        let k = if others.len() > 0 {
            1int
        } else {
            0int
        };
        assert(inputs[k].sources == yuls);
    } else {
        sources.lemma_filter_contains(is_other, i);
        assert(others.contains(entry));
        assert(inputs[0].sources == others);
    }
    assert forall|k: int| 0 <= k < inputs.len() && (#[trigger] inputs[k]).sources.contains(
        entry,
    ) implies inputs[k].language == (if is_yul_path(entry.0) {
        yul()
    } else {
        solidity()
    }) by {
        let at = inputs[k].sources.index_of(entry);
        if inputs[k].sources == others && inputs[k].language == solidity() {
            sources.lemma_filter_pred(is_other, at);
        } else {
            sources.lemma_filter_pred(is_yul, at);
        }
    }
}

/// No input for Yul has remappings; every input for Solidity has those that were given.
pub proof fn law_yul_inputs_have_no_remappings(
    sources: Seq<(Seq<char>, Source)>,
    settings: ZkSolcSettingsView,
    k: int,
)
    requires
        0 <= k < inputs_for(sources, settings).len(),
    ensures
        inputs_for(sources, settings)[k].settings.remappings == (if inputs_for(
            sources,
            settings,
        )[k].language == yul() {
            Seq::empty()
        } else {
            settings.remappings
        }),
{
    reveal_strlit("Yul");
    reveal_strlit("Solidity");
    assert(yul().len() == 3 && solidity().len() == 8);
}

/// A mix of Yul files and others gives two inputs, files of one kind give one, and no files
/// give none.
pub proof fn law_number_of_inputs(
    sources: Seq<(Seq<char>, Source)>,
    settings: ZkSolcSettingsView,
)
    ensures
        ({
            let yuls = exists|i: int|
                0 <= i < sources.len() && is_yul_path(#[trigger] sources[i].0);
            let others = exists|i: int|
                0 <= i < sources.len() && !is_yul_path(#[trigger] sources[i].0);
            inputs_for(sources, settings).len() == (if yuls && others {
                2int
            } else if yuls || others {
                1
            } else {
                0
            })
        }),
{
    let is_other = |entry: (Seq<char>, Source)| is_yul_path(entry.0) == false;
    let is_yul = |entry: (Seq<char>, Source)| is_yul_path(entry.0) == true;
    let others = files_of(sources, false);
    let yuls = files_of(sources, true);
    if exists|i: int| 0 <= i < sources.len() && is_yul_path(#[trigger] sources[i].0) {
        let i = choose|i: int| 0 <= i < sources.len() && is_yul_path(#[trigger] sources[i].0);
        sources.lemma_filter_contains(is_yul, i);
        assert(yuls.contains(sources[i]));
    } else if yuls.len() > 0 {
        sources.lemma_filter_pred(is_yul, 0);
        assert(yuls.contains(yuls[0]));
        sources.lemma_filter_contains_rev(is_yul, yuls[0]);
        let k = sources.index_of(yuls[0]);
        assert(is_yul_path(sources[k].0));
    }
    if exists|i: int| 0 <= i < sources.len() && !is_yul_path(#[trigger] sources[i].0) {
        let i = choose|i: int| 0 <= i < sources.len() && !is_yul_path(#[trigger] sources[i].0);
        sources.lemma_filter_contains(is_other, i);
        assert(others.contains(sources[i]));
    } else if others.len() > 0 {
        sources.lemma_filter_pred(is_other, 0);
        assert(others.contains(others[0]));
        sources.lemma_filter_contains_rev(is_other, others[0]);
        let k = sources.index_of(others[0]);
        assert(!is_yul_path(sources[k].0));
    }
}

} // verus!
