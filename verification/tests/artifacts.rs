use alloy_json_abi::JsonAbi;
use foundry_compilers::config::ProjectPathsConfig;
use foundry_compilers::maps::{PathMap, PathSet, TextMap};
use foundry_compilers::version::Version;
use foundry_compilers::zksync::artifact_output::files::MappedContract;
use foundry_compilers::zksync::artifact_output::zk::{Artifacts, ZkArtifactOutput, ZkContractArtifact};
use foundry_compilers::zksync::artifact_output::{
    alternative_output_file, artifacts_artifacts, conflict_free_output_file, contract_name,
    output_file, output_file_name, output_file_name_versioned, output_file_versioned, Artifact,
    OutputContext,
};
use foundry_compilers::zksync::artifacts::{
    Ast, Bytecode, BytecodeObject, Contract, DevDoc, Evm, SourceFile, StorageLayout, UserDoc,
};
use foundry_compilers::zksync::cache::{CacheEntry, SolFilesCache};
use foundry_compilers::zksync::compile::output::{
    VersionedContract, VersionedContracts, VersionedSourceFile, VersionedSourceFiles,
};
use std::collections::HashSet;
use std::path::{Path, PathBuf};

fn version(text: &str) -> Version {
    Version::parse(text).unwrap()
}

fn taken(list: &[&str]) -> PathSet {
    let mut set = PathSet::new();
    for p in list {
        set.insert(p.to_string(), ());
    }
    set
}

fn abi() -> JsonAbi {
    serde_json::from_str(
        r#"[{"type":"function","name":"f","inputs":[],"outputs":[],"stateMutability":"view"}]"#,
    )
    .unwrap()
}

fn contract(hash: &str) -> Contract {
    let mut identifiers: TextMap<String> = TextMap::new();
    identifiers.insert("f()".to_string(), "26121ff0".to_string());
    let mut dependencies: TextMap<String> = TextMap::new();
    dependencies.insert("01".to_string(), "lib/L.sol:L".to_string());
    Contract {
        abi: Some(abi()),
        metadata: Some(serde_json::Value::from("meta")),
        userdoc: UserDoc { json: "{\"u\":1}".to_string() },
        devdoc: DevDoc { json: "{\"d\":1}".to_string() },
        ir_optimized: Some("ir".to_string()),
        storage_layout: StorageLayout { json: "{\"s\":1}".to_string() },
        evm: Some(Evm {
            assembly: Some("asm".to_string()),
            legacy_assembly: None,
            bytecode: Some(Bytecode { object: BytecodeObject::Bytecode(vec![1, 2, 3]) }),
            method_identifiers: identifiers,
            extra_metadata: None,
        }),
        hash: Some(hash.to_string()),
        factory_dependencies: Some(dependencies),
        missing_libraries: Some(vec!["L".to_string()]),
    }
}

fn bare_contract() -> Contract {
    Contract {
        abi: None,
        metadata: None,
        userdoc: UserDoc { json: String::new() },
        devdoc: DevDoc { json: String::new() },
        ir_optimized: None,
        storage_layout: StorageLayout { json: String::new() },
        evm: None,
        hash: None,
        factory_dependencies: None,
        missing_libraries: None,
    }
}

fn layout() -> ProjectPathsConfig {
    ProjectPathsConfig {
        root: "/root".to_string(),
        zksync_artifacts: "/root/zkout".to_string(),
        zksync_cache: "/root/cache/zksync.json".to_string(),
        include_paths: PathSet::new(),
        allowed_paths: PathSet::new(),
        remappings: Vec::new(),
    }
}

fn contracts(list: Vec<(&str, &str, &str, Contract)>) -> VersionedContracts {
    let mut files: TextMap<TextMap<Vec<VersionedContract>>> = TextMap::new();
    for (file, name, v, contract) in list {
        let mut names = files.insert(file.to_string(), TextMap::new()).unwrap_or_else(TextMap::new);
        let mut versions = names.insert(name.to_string(), Vec::new()).unwrap_or_default();
        versions.push(VersionedContract { contract, version: version(v) });
        names.insert(name.to_string(), versions);
        files.insert(file.to_string(), names);
    }
    VersionedContracts(files)
}

fn sources(list: Vec<(&str, u32, Option<Vec<&str>>, &str)>) -> VersionedSourceFiles {
    let mut files: TextMap<Vec<VersionedSourceFile>> = TextMap::new();
    for (file, id, ast, v) in list {
        let mut versions = files.insert(file.to_string(), Vec::new()).unwrap_or_default();
        let ast = ast.map(|nodes| Ast { node_types: nodes.iter().map(|n| n.to_string()).collect() });
        versions.push(VersionedSourceFile {
            source_file: SourceFile { id, ast },
            version: version(v),
        });
        files.insert(file.to_string(), versions);
    }
    VersionedSourceFiles(files)
}

/// `file:name -> path version` of all artifacts, in order.
fn listed(artifacts: &Artifacts) -> Vec<String> {
    let mut res = Vec::new();
    for i in 0..artifacts.0.len() {
        let names = artifacts.0.value_at(i);
        for k in 0..names.len() {
            for a in names.value_at(k) {
                res.push(format!(
                    "{}:{} -> {} {}",
                    artifacts.0.key_at(i),
                    names.key_at(k),
                    a.file,
                    a.version.to_text()
                ));
            }
        }
    }
    res
}

#[test]
fn artifacts_are_named_after_contracts() {
    assert_eq!(output_file_name("Greeter"), "Greeter.json");
    assert_eq!(output_file_name_versioned("Greeter", &version("0.8.11+x")), "Greeter.0.8.11.json");
    assert_eq!(output_file("src/Greeter.sol", "Greeter"), "Greeter.sol/Greeter.json");
    assert_eq!(output_file("/", "Greeter"), "Greeter.json");
    assert_eq!(output_file("src/..", "Greeter"), "Greeter.json");
    assert_eq!(
        output_file_versioned("src/Greeter.sol", "Greeter", &version("0.8.11")),
        "Greeter.sol/Greeter.0.8.11.json"
    );
    assert_eq!(
        output_file_versioned("", "Greeter", &version("0.8.11")),
        "Greeter.0.8.11.json"
    );
}

#[test]
fn contract_names_are_found_in_output_files() {
    for file in ["src/a.sol", "a.sol", "", "/", "x/.."] {
        for name in ["Greeter", "a.b", ".hidden", "..", "x y"] {
            assert_eq!(contract_name(&output_file(file, name)), Some(name.to_string()));
            assert_eq!(
                contract_name(&output_file_versioned(file, name, &version("0.8.11"))),
                Some(format!("{name}.0.8.11"))
            );
        }
    }
    assert_eq!(contract_name("a.sol/A.json"), Some("A".to_string()));
    assert_eq!(contract_name(".json"), Some(".json".to_string()));
    assert_eq!(contract_name("/"), None);
    assert_eq!(contract_name(".."), None);
}

/// The search for a free path, on the paths of the standard library.
fn free_path(taken: &HashSet<PathBuf>, conflict: &str, file: &str, folder: &str) -> Option<PathBuf> {
    let folder = Path::new(folder);
    let relative = match Path::new(conflict).strip_prefix(folder) {
        Ok(rest) => rest.to_path_buf(),
        Err(_) => PathBuf::from(conflict),
    };
    let mut candidate = relative.clone();
    let mut parent = Path::new(file).parent();
    while let Some(name) = parent.and_then(|p| p.file_name()) {
        candidate = Path::new(name).join(&candidate);
        let out = folder.join(&candidate);
        if !taken.contains(&out) {
            return Some(out);
        }
        parent = parent.and_then(|p| p.parent());
    }
    for number in 1..100 {
        let mut components = relative.components();
        let mut first = components.next()?.as_os_str().to_os_string();
        first.push(format!("_{number}"));
        let mut out = PathBuf::from(first);
        for c in components {
            out.push(c);
        }
        if !taken.contains(&out) {
            return Some(out);
        }
    }
    None
}

#[test]
fn conflicting_paths_are_replaced_by_free_ones() {
    let files = [
        "src/inner/a.sol", "/root/src/a.sol", "a.sol", "../src/a.sol", "./a.sol", "/a.sol", "",
        "x/../src/a.sol", "src//inner/./a.sol",
    ];
    let conflicts = [
        "a.sol/A.json", "/root/zkout/a.sol/A.json", "/root/zkout", "/other/A.json", "../A.json",
        "./A.json", "", "zkout/A.json", "A.json", "/root/zkout//x/./a.sol//A.json", "x//A.json/.",
    ];
    let folders = ["/root/zkout", "zkout", ""];
    for folder in folders {
        for file in files {
            for conflict in conflicts {
                let mut set = HashSet::new();
                let mut list = PathSet::new();
                for _ in 0..8 {
                    let expected = free_path(&set, conflict, file, folder);
                    let out = alternative_output_file(&list, conflict, file, folder);
                    let expected = expected.map(|p| p.to_str().unwrap().to_string());
                    assert_eq!(out, expected, "{folder} {file} {conflict}");
                    let Some(out) = out else { break };
                    assert!(!list.contains(&out));
                    assert_eq!(
                        conflict_free_output_file(&list, conflict, file, folder),
                        out
                    );
                    set.insert(PathBuf::from(&out));
                    list.insert(out, ());
                }
            }
        }
    }
}

#[test]
fn directories_come_before_numbers() {
    let free = |list: &[&str]| {
        conflict_free_output_file(&taken(list), "a.sol/A.json", "src/inner/a.sol", "/out")
    };
    assert_eq!(free(&["a.sol/A.json"]), "/out/inner/a.sol/A.json");
    assert_eq!(free(&["/out/inner/a.sol/A.json"]), "/out/src/inner/a.sol/A.json");
    let both = ["/out/inner/a.sol/A.json", "/out/src/inner/a.sol/A.json"];
    assert_eq!(free(&both), "a.sol_1/A.json");
    let more = [both[0], both[1], "a.sol_1/A.json", "a.sol_2/A.json", "a.sol_4/A.json"];
    assert_eq!(free(&more), "a.sol_3/A.json");
    // the artifacts folder itself cannot be numbered
    assert_eq!(alternative_output_file(&taken(&[]), "/out", "a.sol", "/out"), None);
}

#[test]
fn artifacts_hold_what_was_emitted() {
    let handler = ZkArtifactOutput();
    let source = SourceFile { id: 7, ast: None };
    let artifact = handler.contract_to_artifact("a.sol", "A", contract("h"), Some(&source));
    assert_eq!(artifact.abi, Some(abi()));
    assert_eq!(artifact.hash, Some("h".to_string()));
    assert_eq!(artifact.assembly, Some("asm".to_string()));
    assert_eq!(artifact.ir_optimized, Some("ir".to_string()));
    assert_eq!(artifact.metadata, Some(serde_json::Value::from("meta")));
    assert_eq!(artifact.id, Some(7));
    assert_eq!(artifact.userdoc.as_ref().unwrap().json, "{\"u\":1}");
    assert_eq!(artifact.devdoc.as_ref().unwrap().json, "{\"d\":1}");
    assert_eq!(artifact.storage_layout.as_ref().unwrap().json, "{\"s\":1}");
    assert_eq!(artifact.missing_libraries, Some(vec!["L".to_string()]));
    let ids = artifact.method_identifiers.as_ref().unwrap();
    assert_eq!(ids.get("f()"), Some(&"26121ff0".to_string()));
    let dependencies = artifact.factory_dependencies.as_ref().unwrap();
    assert_eq!(dependencies.get("01"), Some(&"lib/L.sol:L".to_string()));
    match artifact.get_bytecode_object() {
        Some(BytecodeObject::Bytecode(bytes)) => assert_eq!(*bytes, vec![1, 2, 3]),
        _ => panic!("no bytecode"),
    }
    assert!(artifact.get_bytecode().is_some());
    assert_eq!(artifact.get_contract_bytecode().abi, Some(&abi()));

    let artifact = handler.contract_to_artifact("a.sol", "A", bare_contract(), None);
    assert!(artifact.bytecode.is_none() && artifact.method_identifiers.is_none());
    assert!(artifact.assembly.is_none() && artifact.id.is_none() && artifact.abi.is_none());
    assert!(artifact.storage_layout.is_some() && artifact.userdoc.is_some());
    assert!(artifact.get_bytecode_object().is_none());

    let artifact = ZkContractArtifact::default();
    assert!(artifact.userdoc.is_none() && artifact.devdoc.is_none());
}

#[test]
fn copies_of_contracts_hold_the_same() {
    let copy = contract("h").clone();
    let evm = copy.evm.unwrap();
    assert_eq!(copy.abi, Some(abi()));
    assert_eq!(copy.metadata, Some(serde_json::Value::from("meta")));
    assert_eq!(evm.method_identifiers.get("f()"), Some(&"26121ff0".to_string()));
    assert_eq!(copy.missing_libraries, Some(vec!["L".to_string()]));
    match evm.bytecode.unwrap().object {
        BytecodeObject::Bytecode(bytes) => assert_eq!(bytes, vec![1, 2, 3]),
        BytecodeObject::Unlinked(_) => panic!("unlinked"),
    }
    let unlinked = Bytecode { object: BytecodeObject::Unlinked("__L__".to_string()) };
    match unlinked.clone().object {
        BytecodeObject::Unlinked(code) => assert_eq!(code, "__L__"),
        BytecodeObject::Bytecode(_) => panic!("linked"),
    }
}

#[test]
fn contracts_get_the_artifact_of_their_file() {
    let handler = ZkArtifactOutput();
    let all = contracts(vec![
        ("src/a.sol", "A", "0.8.20", contract("1")),
        ("src/a.sol", "B", "0.8.20", contract("2")),
        ("src/b.sol", "B", "0.8.20", contract("3")),
        ("src/b.sol", "B", "0.8.21", contract("4")),
    ]);
    let files = sources(vec![("src/a.sol", 3, Some(vec!["ContractDefinition"]), "0.8.20")]);
    let artifacts = handler.output_to_artifacts(&all, &files, OutputContext::default(), &layout());
    assert_eq!(
        listed(&artifacts),
        vec![
            "src/a.sol:A -> a.sol/A.json 0.8.20",
            "src/a.sol:B -> a.sol/B.json 0.8.20",
            "src/b.sol:B -> b.sol/B.0.8.20.json 0.8.20",
            "src/b.sol:B -> b.sol/B.0.8.21.json 0.8.21",
        ]
    );
    let first = &artifacts.0.get("src/a.sol").unwrap().get("A").unwrap()[0];
    assert_eq!(first.artifact.id, Some(3));
    assert_eq!(first.artifact.hash, Some("1".to_string()));
    let last = &artifacts.0.get("src/b.sol").unwrap().get("B").unwrap()[1];
    assert_eq!(last.artifact.id, None);
    let written = handler.on_output(&all, &files, &layout(), OutputContext::default());
    assert_eq!(listed(&written)[0], "src/a.sol:A -> /root/zkout/a.sol/A.json 0.8.20");
}

#[test]
fn the_top_most_of_conflicting_files_keeps_its_path() {
    let handler = ZkArtifactOutput();
    let all = contracts(vec![
        ("src/a.sol", "A", "0.8.20", contract("1")),
        ("src/inner/a.sol", "A", "0.8.20", contract("2")),
        ("src/other/a.sol", "A", "0.8.20", contract("3")),
    ]);
    let artifacts = handler.output_to_artifacts(
        &all,
        &sources(vec![]),
        OutputContext::default(),
        &layout(),
    );
    assert_eq!(
        listed(&artifacts),
        vec![
            "src/a.sol:A -> a.sol/A.json 0.8.20",
            "src/inner/a.sol:A -> /root/zkout/inner/a.sol/A.json 0.8.20",
            "src/other/a.sol:A -> /root/zkout/other/a.sol/A.json 0.8.20",
        ]
    );
    // files of the same depth are all moved
    let all = contracts(vec![
        ("src/x/a.sol", "A", "0.8.20", contract("1")),
        ("src/y/a.sol", "A", "0.8.20", contract("2")),
    ]);
    let artifacts = handler.output_to_artifacts(
        &all,
        &sources(vec![]),
        OutputContext::default(),
        &layout(),
    );
    assert_eq!(
        listed(&artifacts),
        vec![
            "src/x/a.sol:A -> /root/zkout/x/a.sol/A.json 0.8.20",
            "src/y/a.sol:A -> /root/zkout/y/a.sol/A.json 0.8.20",
        ]
    );
}

#[test]
fn the_path_of_an_earlier_run_is_used_again() {
    let mut artifacts: TextMap<Vec<(Version, String)>> = TextMap::new();
    artifacts.insert(
        "A".to_string(),
        vec![
            (version("0.8.19"), "old.json".to_string()),
            (version("0.8.20"), "inner/a.sol/A.json".to_string()),
        ],
    );
    let mut files: PathMap<CacheEntry> = PathMap::new();
    files.insert("src/inner/a.sol".to_string(), CacheEntry { artifacts });
    let cache = SolFilesCache { files };
    let ctx = OutputContext::new(&cache);
    assert_eq!(
        ctx.existing_artifact("src/./inner/a.sol", "A", &version("0.8.20")),
        Some(&"inner/a.sol/A.json".to_string())
    );
    assert_eq!(ctx.existing_artifact("src/inner/a.sol", "A", &version("0.8.21")), None);
    assert_eq!(ctx.existing_artifact("src/inner/a.sol", "B", &version("0.8.20")), None);
    assert_eq!(ctx.existing_artifact("src/a.sol", "A", &version("0.8.20")), None);
    assert_eq!(
        OutputContext::default().existing_artifact("src/inner/a.sol", "A", &version("0.8.20")),
        None
    );
    let all = contracts(vec![
        ("src/a.sol", "A", "0.8.20", contract("1")),
        ("src/inner/a.sol", "A", "0.8.20", contract("2")),
    ]);
    let artifacts = ZkArtifactOutput().output_to_artifacts(&all, &sources(vec![]), ctx, &layout());
    assert_eq!(
        listed(&artifacts),
        vec![
            "src/a.sol:A -> a.sol/A.json 0.8.20",
            "src/inner/a.sol:A -> inner/a.sol/A.json 0.8.20",
        ]
    );
}

#[test]
fn files_without_contracts_get_artifacts_of_their_own() {
    let handler = ZkArtifactOutput();
    let all = contracts(vec![("src/a.sol", "A", "0.8.20", contract("1"))]);
    let nodes = || Some(vec!["PragmaDirective", "StructDefinition"]);
    let files = sources(vec![
        ("src/a.sol", 0, Some(vec!["ContractDefinition"]), "0.8.20"),
        ("src/types.sol", 1, nodes(), "0.8.20"),
        ("src/two.sol", 2, nodes(), "0.8.20"),
        ("src/two.sol", 3, nodes(), "0.8.21"),
        ("src/defines.sol", 4, Some(vec!["ImportDirective", "ContractDefinition"]), "0.8.20"),
        ("src/no_ast.sol", 5, None, "0.8.20"),
        ("..", 6, nodes(), "0.8.20"),
    ]);
    let artifacts = handler.output_to_artifacts(&all, &files, OutputContext::default(), &layout());
    assert_eq!(
        listed(&artifacts),
        vec![
            "src/a.sol:A -> a.sol/A.json 0.8.20",
            "src/two.sol:two -> two.sol/two.0.8.20.json 0.8.20",
            "src/two.sol:two -> two.sol/two.0.8.21.json 0.8.21",
            "src/types.sol:types -> types.sol/types.json 0.8.20",
        ]
    );
    let types = &artifacts.0.get("src/types.sol").unwrap().get("types").unwrap()[0];
    assert_eq!(types.artifact.abi, Some(JsonAbi::default()));
    assert_eq!(types.artifact.id, Some(1));
    assert!(types.artifact.bytecode.is_none() && types.artifact.userdoc.is_none());
}

#[test]
fn files_without_contracts_give_way_to_contracts() {
    let handler = ZkArtifactOutput();
    // the contract is named like the file that holds no contract
    let all = contracts(vec![("x/types.sol", "types", "0.8.20", contract("1"))]);
    let files = sources(vec![
        ("lib/types.sol", 1, Some(vec!["StructDefinition"]), "0.8.20"),
        ("x/types.sol", 0, Some(vec!["ContractDefinition"]), "0.8.20"),
    ]);
    let artifacts = handler.output_to_artifacts(&all, &files, OutputContext::default(), &layout());
    assert_eq!(
        listed(&artifacts),
        vec![
            "lib/types.sol:types -> /root/zkout/lib/types.sol/types.json 0.8.20",
            "x/types.sol:types -> types.sol/types.json 0.8.20",
        ]
    );
    // one artifact for each version is enough
    let all = contracts(vec![("types.sol", "types", "0.8.20", contract("1"))]);
    let files = sources(vec![("types.sol", 1, Some(vec!["StructDefinition"]), "0.8.20")]);
    let mut other = sources(vec![("types.sol", 2, Some(vec!["StructDefinition"]), "0.8.20")]);
    let artifacts = handler.output_to_artifacts(&all, &files, OutputContext::default(), &layout());
    assert_eq!(listed(&artifacts).len(), 1);
    other.0.insert(
        "types.sol".to_string(),
        vec![
            VersionedSourceFile {
                source_file: SourceFile { id: 2, ast: None },
                version: version("0.8.20"),
            },
            VersionedSourceFile {
                source_file: SourceFile { id: 3, ast: Some(Ast { node_types: vec![] }) },
                version: version("0.8.20"),
            },
        ],
    );
    let artifacts = handler.output_to_artifacts(&all, &other, OutputContext::default(), &layout());
    assert_eq!(listed(&artifacts), vec!["types.sol:types -> types.sol/types.json 0.8.20"]);
}

#[test]
fn a_path_that_cannot_be_replaced_is_reported() {
    let one = VersionedContract { contract: contract("1"), version: version("0.8.20") };
    let mapped = |file: &'static str| MappedContract {
        file,
        name: "A",
        contract: &one,
        artifact_path: "/root/zkout".to_string(),
    };
    let handler = ZkArtifactOutput();
    let groups = vec![vec![mapped("a.sol"), mapped("b.sol")]];
    assert!(handler.groups_to_artifacts(&groups, &sources(vec![]), "/root/zkout").is_none());
    let groups = vec![vec![mapped("a.sol")], vec![mapped("b.sol")]];
    assert!(handler.groups_to_artifacts(&groups, &sources(vec![]), "/root/zkout").is_some());
    let none = contracts(vec![]);
    let done = handler.try_output_to_artifacts(
        &none,
        &sources(vec![]),
        OutputContext::default(),
        &layout(),
    );
    assert_eq!(listed(&done.unwrap()).len(), 0);
}

#[test]
fn artifacts_are_listed_with_their_identifiers() {
    let handler = ZkArtifactOutput();
    let all = contracts(vec![
        ("src/a.sol", "A", "0.8.20", contract("1")),
        ("src/b.sol", "B", "0.8.21", contract("2")),
    ]);
    let mut artifacts = handler.output_to_artifacts(
        &all,
        &sources(vec![]),
        OutputContext::default(),
        &layout(),
    );
    let nameless = handler.contract_to_artifact("c.sol", "C", bare_contract(), None);
    artifacts.push(
        "src/c.sol",
        "C",
        foundry_compilers::zksync::artifact_output::zk::ArtifactFile {
            artifact: nameless,
            file: "/".to_string(),
            version: version("0.8.20"),
        },
    );
    let ids = artifacts_artifacts(&artifacts, false);
    assert_eq!(ids.len(), 2);
    assert_eq!(ids[0].0.name, "A");
    assert_eq!(ids[0].0.path, "a.sol/A.json");
    assert_eq!(ids[0].0.source, "src/a.sol");
    assert_eq!(ids[0].0.version, version("0.8.20"));
    assert_eq!(ids[1].0.name, "B");
    assert_eq!(ids[1].1.hash, Some("2".to_string()));
}

#[test]
fn identifiers_hold_slashed_paths_on_windows() {
    let handler = ZkArtifactOutput();
    let all = contracts(vec![("src\\a.sol", "A", "0.8.20", contract("1"))]);
    let artifacts = handler.output_to_artifacts(
        &all,
        &sources(vec![]),
        OutputContext::default(),
        &layout(),
    );
    let ids = artifacts_artifacts(&artifacts, true);
    assert_eq!(ids.len(), 1);
    assert_eq!(ids[0].0.name, "A");
    assert_eq!(ids[0].0.path, "src/a.sol/A.json");
    assert_eq!(ids[0].0.source, "src/a.sol");
    // a `\\` is no separator elsewhere than on Windows
    let ids = artifacts_artifacts(&artifacts, false);
    assert_eq!(ids[0].0.path, "src\\a.sol/A.json");
    assert_eq!(ids[0].0.source, "src\\a.sol");
    let kept = artifacts.slash_paths(false);
    assert_eq!(listed(&kept), vec!["src\\a.sol:A -> src\\a.sol/A.json 0.8.20"]);
    let slashed = kept.slash_paths(true);
    assert_eq!(listed(&slashed), vec!["src/a.sol:A -> src/a.sol/A.json 0.8.20"]);
}
