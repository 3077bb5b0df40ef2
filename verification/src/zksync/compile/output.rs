//! The outputs of several runs of the compiler.
use crate::maps;
use crate::maps::{ByText, TextMap};
use crate::version::{Version, VersionView};
use crate::zksync::artifacts::{
    CompilerOutput, Contract, ContractView, Error, SourceFile, SourceFileView,
};
use vstd::prelude::*;
use vstd::string::*;

verus! {

/// A source file and the version it was compiled with.
pub struct VersionedSourceFile {
    pub source_file: SourceFile,
    pub version: Version,
}

/// What a [`VersionedSourceFile`] holds.
#[verifier::ext_equal]
pub struct VersionedSourceFileView {
    pub source_file: SourceFileView,
    pub version: VersionView,
}

impl View for VersionedSourceFile {
    type V = VersionedSourceFileView;

    open spec fn view(&self) -> VersionedSourceFileView {
        VersionedSourceFileView { source_file: self.source_file@, version: self.version@ }
    }
}

/// The source files by their paths.
pub struct VersionedSourceFiles(pub TextMap<Vec<VersionedSourceFile>>);

impl View for VersionedSourceFiles {
    type V = Seq<(Seq<char>, Seq<VersionedSourceFileView>)>;

    open spec fn view(&self) -> Seq<(Seq<char>, Seq<VersionedSourceFileView>)> {
        maps::item_views(maps::lists(self.0@))
    }
}

/// The first of the source files that was compiled with a version.
pub open spec fn source_for_version(
    list: Seq<VersionedSourceFileView>,
    version: VersionView,
) -> Option<SourceFileView>
    decreases list.len(),
{
    if list.len() == 0 {
        None
    } else if list[0].version == version {
        Some(list[0].source_file)
    } else {
        source_for_version(list.drop_first(), version)
    }
}

/// The source file at a path that was compiled with a version.
pub open spec fn find_source(
    sources: Seq<(Seq<char>, Seq<VersionedSourceFileView>)>,
    file: Seq<char>,
    version: VersionView,
) -> Option<SourceFileView> {
    source_for_version(maps::list_of::<ByText, VersionedSourceFileView>(sources, file), version)
}

impl VersionedSourceFiles {
    /// Looks up the list of a file.
    proof fn lemma_list(&self, file: Seq<char>)
        requires
            maps::ordered::<ByText, Vec<VersionedSourceFile>>(self.0@),
        ensures
            maps::list_of::<ByText, VersionedSourceFileView>(self@, file) == (match maps::found::<
                ByText,
                Vec<VersionedSourceFile>,
            >(self.0@, file) {
                Some(list) => list@.map_values(|item: VersionedSourceFile| item@),
                None => Seq::empty(),
            }),
    {
        let entries = self.0@;
        let outer = |list: Seq<VersionedSourceFile>|
            list.map_values(|item: VersionedSourceFile| item@);
        let inner = |list: Vec<VersionedSourceFile>| list@;
        maps::lemma_map_found::<ByText, Vec<VersionedSourceFile>, Seq<VersionedSourceFile>>(
            entries,
            inner,
            file,
        );
        maps::lemma_map_found::<ByText, Seq<VersionedSourceFile>, Seq<VersionedSourceFileView>>(
            maps::lists(entries),
            outer,
            file,
        );
    }

    /// Finds the source file with the given path and version
    pub fn find_file_and_version(&self, path: &str, version: &Version) -> (res: Option<&SourceFile>)
        ensures
            match res {
                Some(file) => find_source(self@, path@, version@) == Some(file@),
                None => find_source(self@, path@, version@) is None,
            },
    {
        proof {
            use_type_invariant(&self.0);
            self.lemma_list(path@);
        }
        match self.0.get(path) {
            Some(list) => {
                let ghost all = list@.map_values(|item: VersionedSourceFile| item@);
                let mut i: usize = 0;
                assert(all.skip(0) =~= all);
                while i < list.len()
                    invariant
                        i <= list.len(),
                        all == list@.map_values(|item: VersionedSourceFile| item@),
                        source_for_version(all.skip(i as int), version@) == find_source(
                            self@,
                            path@,
                            version@,
                        ),
                    decreases list.len() - i,
                {
                    assert(all.skip(i as int)[0] == list@[i as int]@);
                    if list[i].version.same(version) {
                        return Some(&list[i].source_file);
                    }
                    assert(all.skip(i as int).drop_first() =~= all.skip(i + 1));
                    i = i + 1;
                }
                None
            },
            None => None,
        }
    }
}

/// A contract and the version it was compiled with.
pub struct VersionedContract {
    pub contract: Contract,
    pub version: Version,
}

/// What a [`VersionedContract`] holds.
#[verifier::ext_equal]
pub struct VersionedContractView {
    pub contract: ContractView,
    pub version: VersionView,
}

impl View for VersionedContract {
    type V = VersionedContractView;

    open spec fn view(&self) -> VersionedContractView {
        VersionedContractView { contract: self.contract@, version: self.version@ }
    }
}

/// The contracts by the paths of their files and by their names.
pub struct VersionedContracts(pub TextMap<TextMap<Vec<VersionedContract>>>);

/// What the contracts of a file hold.
pub open spec fn contracts_view(names: TextMap<Vec<VersionedContract>>) -> Seq<
    (Seq<char>, Seq<VersionedContractView>),
> {
    maps::item_views(maps::lists(names@))
}

impl View for VersionedContracts {
    type V = Seq<(Seq<char>, Seq<(Seq<char>, Seq<VersionedContractView>)>)>;

    open spec fn view(&self) -> Seq<(Seq<char>, Seq<(Seq<char>, Seq<VersionedContractView>)>)> {
        all_contracts_view(self.0@)
    }
}

/// What the contracts of all files hold.
pub open spec fn all_contracts_view(
    files: Seq<(Seq<char>, TextMap<Vec<VersionedContract>>)>,
) -> Seq<(Seq<char>, Seq<(Seq<char>, Seq<VersionedContractView>)>)> {
    maps::map_entries(files, |names: TextMap<Vec<VersionedContract>>| contracts_view(names))
}

/// The source files with those of another run.
pub open spec fn with_sources(
    sources: Seq<(Seq<char>, Seq<VersionedSourceFileView>)>,
    more: Seq<(Seq<char>, SourceFile)>,
    version: VersionView,
) -> Seq<(Seq<char>, Seq<VersionedSourceFileView>)>
    decreases more.len(),
{
    if more.len() == 0 {
        sources
    } else {
        maps::pushed::<ByText, VersionedSourceFileView>(
            with_sources(sources, more.drop_last(), version),
            more.last().0,
            VersionedSourceFileView { source_file: more.last().1@, version },
        )
    }
}

/// The contracts of a file with those of another run.
pub open spec fn with_names(
    names: Seq<(Seq<char>, Seq<VersionedContractView>)>,
    more: Seq<(Seq<char>, Contract)>,
    version: VersionView,
) -> Seq<(Seq<char>, Seq<VersionedContractView>)>
    decreases more.len(),
{
    if more.len() == 0 {
        names
    } else {
        maps::pushed::<ByText, VersionedContractView>(
            with_names(names, more.drop_last(), version),
            more.last().0,
            VersionedContractView { contract: more.last().1@, version },
        )
    }
}

/// The contracts of a file.
pub open spec fn contracts_of_file(
    contracts: Seq<(Seq<char>, Seq<(Seq<char>, Seq<VersionedContractView>)>)>,
    file: Seq<char>,
) -> Seq<(Seq<char>, Seq<VersionedContractView>)> {
    match maps::found::<ByText, Seq<(Seq<char>, Seq<VersionedContractView>)>>(contracts, file) {
        Some(names) => names,
        None => Seq::empty(),
    }
}

/// The contracts with those of another run.
pub open spec fn with_contracts(
    contracts: Seq<(Seq<char>, Seq<(Seq<char>, Seq<VersionedContractView>)>)>,
    more: Seq<(Seq<char>, TextMap<Contract>)>,
    version: VersionView,
) -> Seq<(Seq<char>, Seq<(Seq<char>, Seq<VersionedContractView>)>)>
    decreases more.len(),
{
    if more.len() == 0 {
        contracts
    } else {
        let before = with_contracts(contracts, more.drop_last(), version);
        maps::inserted::<ByText, Seq<(Seq<char>, Seq<VersionedContractView>)>>(
            before,
            more.last().0,
            with_names(contracts_of_file(before, more.last().0), more.last().1@, version),
        )
    }
}

impl VersionedSourceFiles {
    fn push(&mut self, path: &str, source: VersionedSourceFile)
        ensures
            final(self)@ == maps::pushed::<ByText, VersionedSourceFileView>(
                old(self)@,
                path@,
                source@,
            ),
    {
        proof {
            use_type_invariant(&self.0);
            maps::lemma_map_found::<ByText, Vec<VersionedSourceFile>, Seq<VersionedSourceFile>>(
                self.0@,
                |list: Vec<VersionedSourceFile>| list@,
                path@,
            );
            maps::lemma_item_views::<ByText, VersionedSourceFile>(
                maps::lists(self.0@),
                path@,
                source,
            );
        }
        maps::push_value(&mut self.0, path, source);
    }

    /// Adds the source files of a run with a version
    pub fn extend(&mut self, version: &Version, sources: TextMap<SourceFile>)
        ensures
            final(self)@ == with_sources(old(self)@, sources@, version@),
    {
        let ghost before = self@;
        let ghost all = sources@;
        let list = sources.into_entries();
        assert(all.len() == list.len());
        assert(all.take(0) =~= Seq::<(Seq<char>, SourceFile)>::empty());
        for entry in it: list
            invariant
                maps::entry_views(it.seq()) == all,
                all.len() == it.seq().len(),
                self@ == with_sources(before, all.take(it.index() as int), version@),
        {
            let ghost i = it.index() as int;
            assert(all[i] == (entry.0@, entry.1));
            assert(all.take(i + 1).drop_last() =~= all.take(i));
            self.push(
                entry.0.as_str(),
                VersionedSourceFile { source_file: entry.1, version: version.clone() },
            );
        }
        assert(all.take(all.len() as int) =~= all);
    }
}

fn push_contract(names: &mut TextMap<Vec<VersionedContract>>, name: &str, contract: VersionedContract)
    ensures
        contracts_view(*final(names)) == maps::pushed::<ByText, VersionedContractView>(
            contracts_view(*old(names)),
            name@,
            contract@,
        ),
{
    proof {
        use_type_invariant(&*names);
        maps::lemma_map_found::<ByText, Vec<VersionedContract>, Seq<VersionedContract>>(
            names@,
            |list: Vec<VersionedContract>| list@,
            name@,
        );
        maps::lemma_item_views::<ByText, VersionedContract>(
            maps::lists(names@),
            name@,
            contract,
        );
    }
    maps::push_value(names, name, contract);
}

fn extend_names(
    names: &mut TextMap<Vec<VersionedContract>>,
    version: &Version,
    contracts: TextMap<Contract>,
)
    ensures
        contracts_view(*final(names)) == with_names(
            contracts_view(*old(names)),
            contracts@,
            version@,
        ),
{
    let ghost before = contracts_view(*names);
    let ghost all = contracts@;
    let list = contracts.into_entries();
    assert(all.len() == list.len());
    assert(all.take(0) =~= Seq::<(Seq<char>, Contract)>::empty());
    for entry in it: list
        invariant
            maps::entry_views(it.seq()) == all,
            all.len() == it.seq().len(),
            contracts_view(*names) == with_names(before, all.take(it.index() as int), version@),
    {
        let ghost i = it.index() as int;
        assert(all[i] == (entry.0@, entry.1));
        assert(all.take(i + 1).drop_last() =~= all.take(i));
        push_contract(
            names,
            entry.0.as_str(),
            VersionedContract { contract: entry.1, version: version.clone() },
        );
    }
    assert(all.take(all.len() as int) =~= all);
}

impl VersionedContracts {
    fn extend_file(&mut self, file: &str, version: &Version, contracts: TextMap<Contract>)
        ensures
            final(self)@ == maps::inserted::<ByText, Seq<(Seq<char>, Seq<VersionedContractView>)>>(
                old(self)@,
                file@,
                with_names(contracts_of_file(old(self)@, file@), contracts@, version@),
            ),
    {
        let ghost view = |names: TextMap<Vec<VersionedContract>>| contracts_view(names);
        let ghost before = self.0@;
        proof {
            use_type_invariant(&self.0);
            maps::lemma_map_found::<
                ByText,
                TextMap<Vec<VersionedContract>>,
                Seq<(Seq<char>, Seq<VersionedContractView>)>,
            >(before, view, file@);
        }
        let nothing: TextMap<Vec<VersionedContract>> = TextMap::new();
        let ghost empty = nothing;
        let mut names: TextMap<Vec<VersionedContract>> = match self.0.insert(
            file.to_string(),
            nothing,
        ) {
            Some(names) => names,
            None => TextMap::new(),
        };
        assert(contracts_view(names) =~= contracts_of_file(all_contracts_view(before), file@));
        extend_names(&mut names, version, contracts);
        proof {
            maps::law_inserted_twice::<ByText, TextMap<Vec<VersionedContract>>>(
                before,
                file@,
                empty,
                names,
            );
            maps::lemma_map_inserted::<
                ByText,
                TextMap<Vec<VersionedContract>>,
                Seq<(Seq<char>, Seq<VersionedContractView>)>,
            >(before, view, file@, names);
        }
        self.0.insert(file.to_string(), names);
    }

    /// Adds the contracts of a run with a version
    pub fn extend(&mut self, version: &Version, contracts: TextMap<TextMap<Contract>>)
        ensures
            final(self)@ == with_contracts(old(self)@, contracts@, version@),
    {
        let ghost before = self@;
        let ghost all = contracts@;
        let list = contracts.into_entries();
        assert(all.len() == list.len());
        assert(all.take(0) =~= Seq::<(Seq<char>, TextMap<Contract>)>::empty());
        for entry in it: list
            invariant
                maps::entry_views(it.seq()) == all,
                all.len() == it.seq().len(),
                self@ == with_contracts(before, all.take(it.index() as int), version@),
        {
            let ghost i = it.index() as int;
            assert(all[i] == (entry.0@, entry.1));
            assert(all.take(i + 1).drop_last() =~= all.take(i));
            self.extend_file(entry.0.as_str(), version, entry.1);
        }
        assert(all.take(all.len() as int) =~= all);
    }
}

/// What all runs of the compiler emit.
pub struct AggregatedCompilerOutput {
    /// All messages
    pub errors: Vec<Error>,
    /// All source files, with the versions they were compiled with
    pub sources: VersionedSourceFiles,
    /// All contracts, with the versions they were compiled with
    pub contracts: VersionedContracts,
    /// Whether a run was repeated with missing libraries detection
    pub recompiled_with_detect_missing_libraries: bool,
}

/// What an [`AggregatedCompilerOutput`] holds.
#[verifier::ext_equal]
pub struct AggregatedCompilerOutputView {
    pub errors: Seq<Error>,
    pub sources: Seq<(Seq<char>, Seq<VersionedSourceFileView>)>,
    pub contracts: Seq<(Seq<char>, Seq<(Seq<char>, Seq<VersionedContractView>)>)>,
    pub recompiled_with_detect_missing_libraries: bool,
}

impl View for AggregatedCompilerOutput {
    type V = AggregatedCompilerOutputView;

    open spec fn view(&self) -> AggregatedCompilerOutputView {
        AggregatedCompilerOutputView {
            errors: self.errors@,
            sources: self.sources@,
            contracts: self.contracts@,
            recompiled_with_detect_missing_libraries:
                self.recompiled_with_detect_missing_libraries,
        }
    }
}

/// The output with the paths of all files joined to a path.
pub open spec fn joined_output(
    output: AggregatedCompilerOutputView,
    root: Seq<char>,
) -> AggregatedCompilerOutputView {
    AggregatedCompilerOutputView {
        sources: maps::joined_keys(output.sources, root),
        contracts: maps::joined_keys(output.contracts, root),
        ..output
    }
}

/// The output with `/` in place of each `\\` in the paths of all files.
pub open spec fn slashed_output(
    output: AggregatedCompilerOutputView,
) -> AggregatedCompilerOutputView {
    AggregatedCompilerOutputView {
        sources: maps::slashed_keys::<ByText, Seq<VersionedSourceFileView>>(output.sources),
        contracts: maps::slashed_keys::<ByText, Seq<(Seq<char>, Seq<VersionedContractView>)>>(
            output.contracts,
        ),
        ..output
    }
}

impl Default for AggregatedCompilerOutput {
    fn default() -> (res: Self)
        ensures
            res.errors@.len() == 0,
            res.sources@.len() == 0,
            res.contracts@.len() == 0,
            !res.recompiled_with_detect_missing_libraries,
    {
        AggregatedCompilerOutput {
            errors: Vec::new(),
            sources: VersionedSourceFiles(TextMap::new()),
            contracts: VersionedContracts(TextMap::new()),
            recompiled_with_detect_missing_libraries: false,
        }
    }
}

impl AggregatedCompilerOutput {
    /// Adds the output of a run with a version
    pub fn extend(&mut self, version: Version, output: CompilerOutput)
        ensures
            final(self).errors@ == old(self).errors@ + output.errors@,
            final(self).sources@ == with_sources(old(self).sources@, output.sources@, version@),
            final(self).contracts@ == with_contracts(
                old(self).contracts@,
                output.contracts@,
                version@,
            ),
            final(self).recompiled_with_detect_missing_libraries == old(
                self,
            ).recompiled_with_detect_missing_libraries,
    {
        let mut errors = output.errors;
        self.errors.append(&mut errors);
        self.sources.extend(&version, output.sources);
        self.contracts.extend(&version, output.contracts);
    }

    /// Joins the paths of all files to a path
    pub fn join_all(self, root: &str) -> (res: Self)
        ensures
            res@ == joined_output(self@, root@),
    {
        proof {
            maps::lemma_map_joined_keys(
                self.sources.0@,
                |list: Vec<VersionedSourceFile>| list@,
                root@,
            );
            maps::lemma_map_joined_keys(
                maps::lists(self.sources.0@),
                |list: Seq<VersionedSourceFile>| list.map_values(|item: VersionedSourceFile| item@),
                root@,
            );
            maps::lemma_map_joined_keys(
                self.contracts.0@,
                |names: TextMap<Vec<VersionedContract>>| contracts_view(names),
                root@,
            );
        }
        AggregatedCompilerOutput {
            errors: self.errors,
            sources: VersionedSourceFiles(maps::join_keys(self.sources.0, root)),
            contracts: VersionedContracts(maps::join_keys(self.contracts.0, root)),
            recompiled_with_detect_missing_libraries:
                self.recompiled_with_detect_missing_libraries,
        }
    }

    /// Converts all `\\` separators in the paths of all files to `/`
    ///
    /// `windows` tells whether the paths are those of Windows. Elsewhere a `\\` is no separator,
    /// and the paths stay as they are.
    pub fn slash_paths(self, windows: bool) -> (res: Self)
        ensures
            res@ == (if windows {
                slashed_output(self@)
            } else {
                self@
            }),
    {
        if !windows {
            return self;
        }
        proof {
            maps::lemma_map_slashed_keys::<
                ByText,
                Vec<VersionedSourceFile>,
                Seq<VersionedSourceFile>,
            >(self.sources.0@, |list: Vec<VersionedSourceFile>| list@);
            maps::lemma_map_slashed_keys::<
                ByText,
                Seq<VersionedSourceFile>,
                Seq<VersionedSourceFileView>,
            >(
                maps::lists(self.sources.0@),
                |list: Seq<VersionedSourceFile>| list.map_values(|item: VersionedSourceFile| item@),
            );
            maps::lemma_map_slashed_keys::<
                ByText,
                TextMap<Vec<VersionedContract>>,
                Seq<(Seq<char>, Seq<VersionedContractView>)>,
            >(
                self.contracts.0@,
                |names: TextMap<Vec<VersionedContract>>| contracts_view(names),
            );
        }
        AggregatedCompilerOutput {
            errors: self.errors,
            sources: VersionedSourceFiles(maps::slash_keys(self.sources.0)),
            contracts: VersionedContracts(maps::slash_keys(self.contracts.0)),
            recompiled_with_detect_missing_libraries:
                self.recompiled_with_detect_missing_libraries,
        }
    }
}

} // verus!
