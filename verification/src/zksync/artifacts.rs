//! What the compiler says of contracts and source files.
use crate::maps;
use crate::maps::{copy_texts, ByText, KeyOrder, TextMap};
use crate::text;
use crate::version::Version;
use alloy_json_abi::JsonAbi;
use serde_json::Value;
use vstd::prelude::*;
use vstd::string::*;

verus! {

/// The ABI of a contract, as `alloy_json_abi` has it.
#[verifier::external_type_specification]
#[verifier::external_body]
pub struct ExJsonAbi(alloy_json_abi::JsonAbi);

/// A JSON value, as `serde_json` has it.
#[verifier::external_type_specification]
#[verifier::external_body]
pub struct ExValue(serde_json::Value);

/// The items of an ABI in the order of `JsonAbi::items`, each as its JSON text.
pub uninterp spec fn abi_items(abi: JsonAbi) -> Seq<Seq<char>>;

/// What an optional ABI holds.
pub open spec fn abi_view(abi: Option<JsonAbi>) -> Option<Seq<Seq<char>>> {
    match abi {
        Some(abi) => Some(abi_items(abi)),
        None => None,
    }
}

/// Creates an ABI with `JsonAbi::default`: it has no items.
#[verifier::external_body]
pub(crate) fn empty_abi() -> (res: JsonAbi)
    ensures
        abi_items(res) == Seq::<Seq<char>>::empty(),
{
    JsonAbi::default()
}

/// `<JsonAbi as Clone>::clone`: a copy is the same ABI.
pub assume_specification[ <JsonAbi as Clone>::clone ](abi: &JsonAbi) -> (res: JsonAbi)
    ensures
        res == *abi,
;

/// `<serde_json::Value as Clone>::clone`: a copy is the same value.
pub assume_specification[ <Value as Clone>::clone ](value: &Value) -> (res: Value)
    ensures
        res == *value,
;

/// Bytes, or text with placeholders for the libraries that are yet to be linked.
pub enum BytecodeObject {
    Bytecode(Vec<u8>),
    Unlinked(String),
}

/// What a [`BytecodeObject`] holds.
#[verifier::ext_equal]
pub enum BytecodeObjectView {
    Bytecode(Seq<u8>),
    Unlinked(Seq<char>),
}

impl View for BytecodeObject {
    type V = BytecodeObjectView;

    open spec fn view(&self) -> BytecodeObjectView {
        match self {
            BytecodeObject::Bytecode(bytes) => BytecodeObjectView::Bytecode(bytes@),
            BytecodeObject::Unlinked(code) => BytecodeObjectView::Unlinked(code@),
        }
    }
}

impl Clone for BytecodeObject {
    fn clone(&self) -> (res: Self)
        ensures
            res@ == self@,
    {
        match self {
            BytecodeObject::Bytecode(bytes) => {
                let copy = bytes.clone();
                assert(copy@ =~= bytes@);
                BytecodeObject::Bytecode(copy)
            },
            BytecodeObject::Unlinked(code) => BytecodeObject::Unlinked(code.clone()),
        }
    }
}

/// The bytecode of a contract.
pub struct Bytecode {
    pub object: BytecodeObject,
}

impl View for Bytecode {
    type V = BytecodeObjectView;

    open spec fn view(&self) -> BytecodeObjectView {
        self.object@
    }
}

impl Clone for Bytecode {
    fn clone(&self) -> (res: Self)
        ensures
            res@ == self@,
    {
        Bytecode { object: self.object.clone() }
    }
}

/// What an optional bytecode holds.
pub open spec fn bytecode_view(bytecode: Option<Bytecode>) -> Option<BytecodeObjectView> {
    match bytecode {
        Some(b) => Some(b@),
        None => None,
    }
}

/// Where the state variables of a contract are stored, as JSON.
#[derive(Debug)]
pub struct StorageLayout {
    pub json: String,
}

/// The documentation for users, as JSON.
#[derive(Debug)]
pub struct UserDoc {
    pub json: String,
}

/// The documentation for developers, as JSON.
#[derive(Debug)]
pub struct DevDoc {
    pub json: String,
}

/// What the compiler emits for the virtual machine.
pub struct Evm {
    pub assembly: Option<String>,
    pub legacy_assembly: Option<Value>,
    pub bytecode: Option<Bytecode>,
    /// The function selectors by signature
    pub method_identifiers: TextMap<String>,
    /// Metadata that is not part of the output of `solc`, as JSON
    pub extra_metadata: Option<Value>,
}

/// What an [`Evm`] holds.
#[verifier::ext_equal]
pub struct EvmView {
    pub assembly: Option<Seq<char>>,
    pub legacy_assembly: Option<Value>,
    pub bytecode: Option<BytecodeObjectView>,
    pub method_identifiers: Seq<(Seq<char>, Seq<char>)>,
    pub extra_metadata: Option<Value>,
}

impl View for Evm {
    type V = EvmView;

    open spec fn view(&self) -> EvmView {
        EvmView {
            assembly: text::opt_text(self.assembly),
            legacy_assembly: self.legacy_assembly,
            bytecode: bytecode_view(self.bytecode),
            method_identifiers: maps::text_entries(self.method_identifiers@),
            extra_metadata: self.extra_metadata,
        }
    }
}

fn copy_bytecode(bytecode: &Option<Bytecode>) -> (res: Option<Bytecode>)
    ensures
        bytecode_view(res) == bytecode_view(*bytecode),
{
    match bytecode {
        Some(b) => Some(b.clone()),
        None => None,
    }
}

fn copy_value(value: &Option<Value>) -> (res: Option<Value>)
    ensures
        res == *value,
{
    match value {
        Some(v) => Some(v.clone()),
        None => None,
    }
}

impl Clone for Evm {
    fn clone(&self) -> (res: Self)
        ensures
            res@ == self@,
    {
        Evm {
            assembly: text::copy_option(&self.assembly),
            legacy_assembly: copy_value(&self.legacy_assembly),
            bytecode: copy_bytecode(&self.bytecode),
            method_identifiers: copy_texts(&self.method_identifiers),
            extra_metadata: copy_value(&self.extra_metadata),
        }
    }
}

/// What an optional [`Evm`] holds.
pub open spec fn evm_view(evm: Option<Evm>) -> Option<EvmView> {
    match evm {
        Some(e) => Some(e@),
        None => None,
    }
}

/// What an optional map from texts to texts holds.
pub open spec fn map_view(map: Option<TextMap<String>>) -> Option<Seq<(Seq<char>, Seq<char>)>> {
    match map {
        Some(m) => Some(maps::text_entries(m@)),
        None => None,
    }
}

/// What an optional list of texts holds.
pub open spec fn list_view(list: Option<Vec<String>>) -> Option<Seq<Seq<char>>> {
    match list {
        Some(l) => Some(text::texts(l@)),
        None => None,
    }
}

/// What the compiler emits for a contract.
pub struct Contract {
    pub abi: Option<JsonAbi>,
    pub metadata: Option<Value>,
    pub userdoc: UserDoc,
    pub devdoc: DevDoc,
    pub ir_optimized: Option<String>,
    pub storage_layout: StorageLayout,
    pub evm: Option<Evm>,
    /// The hash of the bytecode
    pub hash: Option<String>,
    /// The contracts that this one can deploy, by the hash of their bytecode
    pub factory_dependencies: Option<TextMap<String>>,
    /// The libraries that were not given
    pub missing_libraries: Option<Vec<String>>,
}

/// What a [`Contract`] holds.
#[verifier::ext_equal]
pub struct ContractView {
    pub abi: Option<Seq<Seq<char>>>,
    pub metadata: Option<Value>,
    pub userdoc: Seq<char>,
    pub devdoc: Seq<char>,
    pub ir_optimized: Option<Seq<char>>,
    pub storage_layout: Seq<char>,
    pub evm: Option<EvmView>,
    pub hash: Option<Seq<char>>,
    pub factory_dependencies: Option<Seq<(Seq<char>, Seq<char>)>>,
    pub missing_libraries: Option<Seq<Seq<char>>>,
}

impl View for Contract {
    type V = ContractView;

    open spec fn view(&self) -> ContractView {
        ContractView {
            abi: abi_view(self.abi),
            metadata: self.metadata,
            userdoc: self.userdoc.json@,
            devdoc: self.devdoc.json@,
            ir_optimized: text::opt_text(self.ir_optimized),
            storage_layout: self.storage_layout.json@,
            evm: evm_view(self.evm),
            hash: text::opt_text(self.hash),
            factory_dependencies: map_view(self.factory_dependencies),
            missing_libraries: list_view(self.missing_libraries),
        }
    }
}

impl Clone for Contract {
    fn clone(&self) -> (res: Self)
        ensures
            res@ == self@,
    {
        let abi = match &self.abi {
            Some(abi) => Some(abi.clone()),
            None => None,
        };
        let evm = match &self.evm {
            Some(evm) => Some(evm.clone()),
            None => None,
        };
        let factory_dependencies = match &self.factory_dependencies {
            Some(map) => Some(copy_texts(map)),
            None => None,
        };
        let missing_libraries = match &self.missing_libraries {
            Some(list) => Some(text::copy_from(list, 0)),
            None => None,
        };
        proof {
            if let Some(list) = &self.missing_libraries {
                assert(text::texts(list@).skip(0) =~= text::texts(list@));
            }
        }
        Contract {
            abi,
            metadata: copy_value(&self.metadata),
            userdoc: UserDoc { json: self.userdoc.json.clone() },
            devdoc: DevDoc { json: self.devdoc.json.clone() },
            ir_optimized: text::copy_option(&self.ir_optimized),
            storage_layout: StorageLayout { json: self.storage_layout.json.clone() },
            evm,
            hash: text::copy_option(&self.hash),
            factory_dependencies,
            missing_libraries,
        }
    }
}

/// The syntax tree of a source file.
pub struct Ast {
    /// The types of the nodes at its top
    pub node_types: Vec<String>,
}

/// What the compiler says of a source file.
pub struct SourceFile {
    pub id: u32,
    pub ast: Option<Ast>,
}

/// What a [`SourceFile`] holds.
#[verifier::ext_equal]
pub struct SourceFileView {
    pub id: u32,
    pub ast: Option<Seq<Seq<char>>>,
}

impl View for SourceFile {
    type V = SourceFileView;

    open spec fn view(&self) -> SourceFileView {
        SourceFileView {
            id: self.id,
            ast: match self.ast {
                Some(ast) => Some(text::texts(ast.node_types@)),
                None => None,
            },
        }
    }
}

/// The type of the node that defines a contract.
pub open spec fn contract_definition() -> Seq<char> {
    "ContractDefinition"@
}

impl SourceFileView {
    /// Whether the file defines a contract.
    pub open spec fn defines_contract(self) -> bool {
        match self.ast {
            Some(nodes) => nodes.contains(contract_definition()),
            None => false,
        }
    }
}

impl SourceFile {
    /// Returns `true` if the source file contains at least 1 `ContractDefinition`
    pub fn contains_contract_definition(&self) -> (res: bool)
        ensures
            res == self@.defines_contract(),
    {
        match &self.ast {
            Some(ast) => {
                let ghost nodes = text::texts(ast.node_types@);
                let mut i: usize = 0;
                assert(nodes.len() == ast.node_types.len());
                while i < ast.node_types.len()
                    invariant
                        nodes == text::texts(ast.node_types@),
                        nodes.len() == ast.node_types.len(),
                        i <= nodes.len(),
                        forall|j: int| 0 <= j < i ==> nodes[j] != contract_definition(),
                        self@.ast == Some(nodes),
                    decreases nodes.len() - i,
                {
                    assert(nodes[i as int] == ast.node_types@[i as int]@);
                    if text::equal(ast.node_types[i].as_str(), "ContractDefinition") {
                        return true;
                    }
                    i = i + 1;
                }
                false
            },
            None => false,
        }
    }
}

/// How grave a message of the compiler is.
#[derive(Debug, Clone, Copy, PartialEq, Eq, Structural)]
pub enum Severity {
    Error,
    Warning,
    Info,
}

impl Severity {
    pub fn is_warning(&self) -> (res: bool)
        ensures
            res == (*self is Warning),
    {
        match self {
            Severity::Warning => true,
            _ => false,
        }
    }

    pub fn is_error(&self) -> (res: bool)
        ensures
            res == (*self is Error),
    {
        match self {
            Severity::Error => true,
            _ => false,
        }
    }
}

/// The part of a source file that a message is about.
#[derive(Debug)]
pub struct SourceLocation {
    pub file: String,
    pub start: i32,
    pub end: i32,
}

impl Clone for SourceLocation {
    fn clone(&self) -> (res: Self)
        ensures
            res == *self,
    {
        SourceLocation { file: self.file.clone(), start: self.start, end: self.end }
    }
}

/// A message of the compiler.
#[derive(Debug)]
pub struct Error {
    pub source_location: Option<SourceLocation>,
    pub severity: Severity,
    pub error_code: Option<u64>,
    pub message: String,
}

/// What can be asked of a message of the compiler.
impl Error {
    pub fn is_warning(&self) -> (res: bool)
        ensures
            res == (self.severity is Warning),
    {
        self.severity.is_warning()
    }

    pub fn is_error(&self) -> (res: bool)
        ensures
            res == (self.severity is Error),
    {
        self.severity.is_error()
    }

    pub fn source_location(&self) -> (res: Option<SourceLocation>)
        ensures
            res == self.source_location,
    {
        match &self.source_location {
            Some(location) => Some(location.clone()),
            None => None,
        }
    }

    pub fn severity(&self) -> (res: Severity)
        ensures
            res == self.severity,
    {
        self.severity
    }

    pub fn error_code(&self) -> (res: Option<u64>)
        ensures
            res == self.error_code,
    {
        self.error_code
    }
}

/// What one run of the compiler emits.
pub struct CompilerOutput {
    pub errors: Vec<Error>,
    /// The source files by their paths
    pub sources: TextMap<SourceFile>,
    /// The contracts by the paths of their files and by their names
    pub contracts: TextMap<TextMap<Contract>>,
    /// The version of the ZKsync fork of `solc`, where that was used
    pub zksync_solc_version: Option<Version>,
}

impl Default for CompilerOutput {
    fn default() -> (res: Self)
        ensures
            res.errors@.len() == 0,
            res.sources@.len() == 0,
            res.contracts@.len() == 0,
            res.zksync_solc_version is None,
    {
        CompilerOutput {
            errors: Vec::new(),
            sources: TextMap::new(),
            contracts: TextMap::new(),
            zksync_solc_version: None,
        }
    }
}

/// Whether a text is one of a list.
fn is_listed(name: &str, list: &Vec<String>) -> (res: bool)
    ensures
        res == text::texts(list@).contains(name@),
{
    let ghost all = text::texts(list@);
    let mut i: usize = 0;
    assert(all.len() == list.len());
    while i < list.len()
        invariant
            all == text::texts(list@),
            all.len() == list.len(),
            i <= list.len(),
            forall|j: int| 0 <= j < i ==> all[j] != name@,
        decreases list.len() - i,
    {
        assert(all[i as int] == list@[i as int]@);
        if text::equal(list[i].as_str(), name) {
            return true;
        }
        i = i + 1;
    }
    false
}

/// The entries whose keys are listed.
pub open spec fn kept<V>(
    entries: Seq<(Seq<char>, V)>,
    files: Seq<Seq<char>>,
) -> Seq<(Seq<char>, V)>
    decreases entries.len(),
{
    if entries.len() == 0 {
        Seq::empty()
    } else if files.contains(entries.last().0) {
        maps::inserted::<ByText, V>(
            kept(entries.drop_last(), files),
            entries.last().0,
            entries.last().1,
        )
    } else {
        kept(entries.drop_last(), files)
    }
}

/// Of the files of an output, just those that are listed are retained, each with what it had.
pub proof fn law_retained_files<V>(
    entries: Seq<(Seq<char>, V)>,
    files: Seq<Seq<char>>,
    file: Seq<char>,
)
    requires
        maps::ordered::<ByText, V>(entries),
    ensures
        maps::ordered::<ByText, V>(kept(entries, files)),
        maps::found::<ByText, V>(kept(entries, files), file) == (if files.contains(file) {
            maps::found::<ByText, V>(entries, file)
        } else {
            None
        }),
    decreases entries.len(),
{
    if entries.len() > 0 {
        let rest = entries.drop_last();
        let last = entries.last();
        let n = rest.len() as int;
        assert forall|i: int, j: int|
            #![trigger rest[i], rest[j]]
            0 <= i < j < rest.len() implies maps::precedes(
            ByText::rank(ByText::key(rest[i].0)),
            ByText::rank(ByText::key(rest[j].0)),
        ) by {
            assert(rest[i] == entries[i] && rest[j] == entries[j]);
        }
        law_retained_files(rest, files, file);
        let before = kept(rest, files);
        maps::law_inserted::<ByText, V>(before, last.0, last.1, file);
        if last.0 == file {
            maps::lemma_found::<ByText, V>(entries, file, n);
        } else {
            maps::lemma_slot::<ByText, V>(entries, file);
            maps::lemma_slot::<ByText, V>(rest, file);
            maps::lemma_has::<ByText, V>(entries, file);
            maps::lemma_has::<ByText, V>(rest, file);
            if maps::has::<ByText, V>(entries, file) {
                let i = choose|i: int|
                    0 <= i < entries.len() && ByText::key(#[trigger] entries[i].0) == ByText::key(
                        file,
                    );
                assert(rest[i] == entries[i]);
                maps::lemma_found::<ByText, V>(entries, file, i);
                maps::lemma_found::<ByText, V>(rest, file, i);
            } else if maps::has::<ByText, V>(rest, file) {
                let i = choose|i: int|
                    0 <= i < rest.len() && ByText::key(#[trigger] rest[i].0) == ByText::key(file);
                assert(rest[i] == entries[i]);
            }
        }
    }
}

fn keep<V>(map: TextMap<V>, files: &Vec<String>) -> (res: TextMap<V>)
    ensures
        res@ == kept(map@, text::texts(files@)),
{
    let ghost all = map@;
    let list = map.into_entries();
    assert(all.len() == list.len());
    let mut res: TextMap<V> = TextMap::new();
    assert(all.take(0) =~= Seq::<(Seq<char>, V)>::empty());
    for entry in it: list
        invariant
            maps::entry_views(it.seq()) == all,
            all.len() == it.seq().len(),
            res@ == kept(all.take(it.index() as int), text::texts(files@)),
    {
        let ghost i = it.index() as int;
        assert(all[i] == (entry.0@, entry.1));
        assert(all.take(i + 1).drop_last() =~= all.take(i));
        if is_listed(entry.0.as_str(), files) {
            res.insert(entry.0, entry.1);
        }
    }
    assert(all.take(all.len() as int) =~= all);
    res
}

impl CompilerOutput {
    /// Adds the output of another run. Where both have the same source file or contracts of
    /// the same file, those of the other run stay.
    pub fn merge(&mut self, other: CompilerOutput)
        ensures
            final(self).errors@ == old(self).errors@ + other.errors@,
            final(self).sources@ == maps::extended::<ByText, SourceFile>(
                old(self).sources@,
                other.sources@,
            ),
            final(self).contracts@ == maps::extended::<ByText, TextMap<Contract>>(
                old(self).contracts@,
                other.contracts@,
            ),
            final(self).zksync_solc_version == old(self).zksync_solc_version,
    {
        let mut errors = other.errors;
        self.errors.append(&mut errors);
        maps::extend(&mut self.sources, other.sources);
        maps::extend(&mut self.contracts, other.contracts);
    }

    /// Retains only those files the given list contains
    pub fn retain_files(self, files: &Vec<String>) -> (res: CompilerOutput)
        ensures
            res.sources@ == kept(self.sources@, text::texts(files@)),
            res.contracts@ == kept(self.contracts@, text::texts(files@)),
            res.errors == self.errors,
            res.zksync_solc_version == self.zksync_solc_version,
    {
        CompilerOutput {
            errors: self.errors,
            sources: keep(self.sources, files),
            contracts: keep(self.contracts, files),
            zksync_solc_version: self.zksync_solc_version,
        }
    }

    /// Joins the paths of all files to a path
    pub fn join_all(self, root: &str) -> (res: CompilerOutput)
        ensures
            res.sources@ == maps::joined_keys(self.sources@, root@),
            res.contracts@ == maps::joined_keys(self.contracts@, root@),
            res.errors == self.errors,
            res.zksync_solc_version == self.zksync_solc_version,
    {
        CompilerOutput {
            errors: self.errors,
            sources: maps::join_keys(self.sources, root),
            contracts: maps::join_keys(self.contracts, root),
            zksync_solc_version: self.zksync_solc_version,
        }
    }
}

} // verus!
