//! The paths that artifacts are meant for.
use crate::maps;
use crate::maps::{ByPath, PathMap, TextMap};
use crate::version::VersionView;
use crate::zksync::artifacts::ContractView;
use crate::zksync::artifact_output;
use crate::zksync::artifact_output::{output_file, output_file_versioned, OutputContext};
use crate::zksync::compile::output;
use crate::zksync::compile::output::{
    VersionedContract, VersionedContractView, VersionedContracts,
};
use vstd::prelude::*;
use vstd::string::*;

verus! {

/// A contract and the path that its artifact is meant for.
pub struct MappedContract<'a> {
    /// The path of the contract's file
    pub file: &'a str,
    /// The name of the contract
    pub name: &'a str,
    pub contract: &'a VersionedContract,
    pub artifact_path: String,
}

/// What a [`MappedContract`] holds.
#[verifier::ext_equal]
pub struct MappedContractView {
    pub file: Seq<char>,
    pub name: Seq<char>,
    pub contract: ContractView,
    pub version: VersionView,
    pub artifact_path: Seq<char>,
}

impl<'a> View for MappedContract<'a> {
    type V = MappedContractView;

    open spec fn view(&self) -> MappedContractView {
        MappedContractView {
            file: self.file@,
            name: self.name@,
            contract: self.contract.contract@,
            version: self.contract.version@,
            artifact_path: self.artifact_path@,
        }
    }
}

/// The contracts by the paths that their artifacts are meant for.
pub struct MappedArtifactFiles<'a> {
    pub files: PathMap<Vec<MappedContract<'a>>>,
}

/// The path that the artifact of a contract is meant for: that of an earlier run if there is
/// one, otherwise one that holds the version where there are several.
pub open spec fn mapped_path(
    ctx: OutputContext,
    file: Seq<char>,
    name: Seq<char>,
    versions: nat,
    version: VersionView,
) -> Seq<char> {
    match ctx.existing(file, name, version) {
        Some(path) => path,
        None => artifact_output::artifact_path(
            file,
            if versions > 1 {
                artifact_output::artifact_name_versioned(name, version)
            } else {
                artifact_output::artifact_name(name)
            },
        ),
    }
}

/// The contracts by path after the first versions of a contract.
pub open spec fn with_versions(
    files: Seq<(Seq<char>, Seq<MappedContractView>)>,
    ctx: OutputContext,
    file: Seq<char>,
    name: Seq<char>,
    versions: Seq<VersionedContractView>,
    count: nat,
) -> Seq<(Seq<char>, Seq<MappedContractView>)>
    decreases count,
{
    if count == 0 {
        files
    } else {
        let contract = versions[count - 1];
        let artifact_path = mapped_path(ctx, file, name, versions.len(), contract.version);
        maps::pushed::<ByPath, MappedContractView>(
            with_versions(files, ctx, file, name, versions, (count - 1) as nat),
            artifact_path,
            MappedContractView {
                file,
                name,
                contract: contract.contract,
                version: contract.version,
                artifact_path,
            },
        )
    }
}

/// The contracts by path after all contracts of a file.
pub open spec fn with_names(
    files: Seq<(Seq<char>, Seq<MappedContractView>)>,
    ctx: OutputContext,
    file: Seq<char>,
    names: Seq<(Seq<char>, Seq<VersionedContractView>)>,
) -> Seq<(Seq<char>, Seq<MappedContractView>)>
    decreases names.len(),
{
    if names.len() == 0 {
        files
    } else {
        with_versions(
            with_names(files, ctx, file, names.drop_last()),
            ctx,
            file,
            names.last().0,
            names.last().1,
            names.last().1.len(),
        )
    }
}

/// The contracts by the paths that their artifacts are meant for.
pub open spec fn mapped_files(
    ctx: OutputContext,
    contracts: Seq<(Seq<char>, Seq<(Seq<char>, Seq<VersionedContractView>)>)>,
) -> Seq<(Seq<char>, Seq<MappedContractView>)>
    decreases contracts.len(),
{
    if contracts.len() == 0 {
        Seq::empty()
    } else {
        with_names(
            mapped_files(ctx, contracts.drop_last()),
            ctx,
            contracts.last().0,
            contracts.last().1,
        )
    }
}

impl<'a> View for MappedArtifactFiles<'a> {
    type V = Seq<(Seq<char>, Seq<MappedContractView>)>;

    open spec fn view(&self) -> Seq<(Seq<char>, Seq<MappedContractView>)> {
        maps::item_views(maps::lists(self.files@))
    }
}

impl<'a> MappedArtifactFiles<'a> {
    fn push(&mut self, mapped: MappedContract<'a>)
        ensures
            final(self)@ == maps::pushed::<ByPath, MappedContractView>(
                old(self)@,
                mapped@.artifact_path,
                mapped@,
            ),
    {
        let path: String = mapped.artifact_path.clone();
        proof {
            use_type_invariant(&self.files);
            maps::lemma_map_found::<ByPath, Vec<MappedContract<'a>>, Seq<MappedContract<'a>>>(
                self.files@,
                |list: Vec<MappedContract<'a>>| list@,
                path@,
            );
            maps::lemma_item_views::<ByPath, MappedContract<'a>>(
                maps::lists(self.files@),
                path@,
                mapped,
            );
        }
        maps::push_value(&mut self.files, path.as_str(), mapped);
    }

    fn push_versions(
        &mut self,
        ctx: &OutputContext,
        file: &'a str,
        name: &'a str,
        versions: &'a Vec<VersionedContract>,
    )
        ensures
            final(self)@ == with_versions(
                old(self)@,
                *ctx,
                file@,
                name@,
                versions@.map_values(|item: VersionedContract| item@),
                versions@.len(),
            ),
    {
        let ghost before = self@;
        let ghost all = versions@.map_values(|item: VersionedContract| item@);
        let mut i: usize = 0;
        while i < versions.len()
            invariant
                before == old(self)@,
                all == versions@.map_values(|item: VersionedContract| item@),
                i <= versions.len(),
                self@ == with_versions(before, *ctx, file@, name@, all, i as nat),
            decreases versions.len() - i,
        {
            let contract = &versions[i];
            assert(all[i as int] == contract@);
            let artifact_path: String = match ctx.existing_artifact(file, name, &contract.version) {
                Some(existing) => existing.clone(),
                None => if versions.len() > 1 {
                    output_file_versioned(file, name, &contract.version)
                } else {
                    output_file(file, name)
                },
            };
            self.push(MappedContract { file, name, contract, artifact_path });
            i = i + 1;
        }
    }

    fn push_names(
        &mut self,
        ctx: &OutputContext,
        file: &'a str,
        names: &'a TextMap<Vec<VersionedContract>>,
    )
        ensures
            final(self)@ == with_names(old(self)@, *ctx, file@, output::contracts_view(*names)),
    {
        let ghost before = self@;
        let ghost all = output::contracts_view(*names);
        let mut i: usize = 0;
        assert(all.take(0) =~= Seq::<(Seq<char>, Seq<VersionedContractView>)>::empty());
        assert(all.len() == names@.len());
        while i < names.len()
            invariant
                before == old(self)@,
                all == output::contracts_view(*names),
                all.len() == names@.len(),
                i <= names@.len(),
                self@ == with_names(before, *ctx, file@, all.take(i as int)),
            decreases names@.len() - i,
        {
            let name = names.key_at(i).as_str();
            let versions = names.value_at(i);
            assert(all.take(i + 1).drop_last() =~= all.take(i as int));
            assert(all[i as int] == (
                name@,
                versions@.map_values(|item: VersionedContract| item@),
            ));
            self.push_versions(ctx, file, name, versions);
            i = i + 1;
        }
        assert(all.take(i as int) =~= all);
    }
}

impl VersionedContracts {
    /// Returns all the output files and the contracts that they are meant for
    pub fn artifact_files<'a>(&'a self, ctx: &OutputContext) -> (res: MappedArtifactFiles<'a>)
        ensures
            res@ == mapped_files(*ctx, self@),
    {
        let ghost all = self@;
        let mut res = MappedArtifactFiles { files: PathMap::new() };
        assert(res@ =~= Seq::<(Seq<char>, Seq<MappedContractView>)>::empty());
        assert(all.take(0) =~= Seq::<
            (Seq<char>, Seq<(Seq<char>, Seq<VersionedContractView>)>),
        >::empty());
        assert(all.len() == self.0@.len());
        let mut i: usize = 0;
        while i < self.0.len()
            invariant
                all == self@,
                all.len() == self.0@.len(),
                i <= all.len(),
                res@ == mapped_files(*ctx, all.take(i as int)),
            decreases all.len() - i,
        {
            let file = self.0.key_at(i).as_str();
            let names = self.0.value_at(i);
            assert(all.take(i + 1).drop_last() =~= all.take(i as int));
            assert(all[i as int] == (file@, output::contracts_view(*names)));
            res.push_names(ctx, file, names);
            i = i + 1;
        }
        assert(all.take(i as int) =~= all);
        res
    }
}

} // verus!
