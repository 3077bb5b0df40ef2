use foundry_compilers::config::Remapping;
use foundry_compilers::maps::{PathMap, TextMap};
use foundry_compilers::zksync::compilers::zksolc::input::{Source, Sources, ZkSolcInput};
use foundry_compilers::zksync::compilers::zksolc::settings::ZkSolcSettings;
use foundry_compilers::zksync::config::ZkSolcConfig;

fn sources(list: &[&str]) -> Sources {
    let mut map: Sources = PathMap::new();
    for p in list {
        map.insert(p.to_string(), Source { content: format!("// {p}") });
    }
    map
}

fn keys(sources: &Sources) -> Vec<String> {
    (0..sources.len()).map(|i| sources.key_at(i).clone()).collect()
}

fn remapping(path: &str) -> Remapping {
    Remapping { context: None, name: "lib/".to_string(), path: path.to_string() }
}

fn settings() -> ZkSolcSettings {
    let mut settings = ZkSolcSettings::default();
    settings.remappings.push(remapping("/root/lib/x"));
    settings.evm_version = Some("shanghai".to_string());
    settings
}

#[test]
fn the_default_language_is_solidity() {
    let input = ZkSolcInput::default();
    assert_eq!(input.language, "Solidity");
    assert!(!input.is_yul());
    assert_eq!(input.sources().len(), 0);
    assert_eq!(input.compiler_name(), "Solc");
}

#[test]
fn sources_are_parted_by_language() {
    let list = ["src/b.sol", "src/a.yul", "src/c.YUL", "yul", "src/.yul", "z/d.yul"];
    let inputs = ZkSolcInput::build(sources(&list), settings(), Some("paris".to_string()));
    assert_eq!(inputs.len(), 2);
    assert_eq!(inputs[0].language, "Solidity");
    assert_eq!(keys(&inputs[0].sources), vec!["src/.yul", "src/b.sol", "src/c.YUL", "yul"]);
    assert_eq!(inputs[0].settings.remappings.len(), 1);
    assert_eq!(inputs[0].settings.evm_version, Some("paris".to_string()));
    assert_eq!(inputs[1].language, "Yul");
    assert!(inputs[1].is_yul());
    assert_eq!(keys(&inputs[1].sources), vec!["src/a.yul", "z/d.yul"]);
    assert!(inputs[1].settings.remappings.is_empty());
    assert_eq!(inputs[1].sources.get("z/d.yul").unwrap().content, "// z/d.yul");
}

#[test]
fn there_is_no_input_without_sources() {
    assert!(ZkSolcInput::build(sources(&[]), settings(), None).is_empty());
    let inputs = ZkSolcInput::build(sources(&["a.sol"]), settings(), None);
    assert_eq!(inputs.len(), 1);
    // an EVM version that is not supported is left out, one that is not set stays so
    assert_eq!(inputs[0].settings.evm_version, None);
    let mut unset = settings();
    unset.evm_version = None;
    let inputs = ZkSolcInput::build(sources(&["a.yul"]), unset, Some("paris".to_string()));
    assert_eq!(inputs.len(), 1);
    assert!(inputs[0].is_yul());
    assert_eq!(inputs[0].settings.evm_version, None);
}

#[test]
fn yul_inputs_take_no_remappings() {
    let mut input = ZkSolcInput::default();
    input = input.with_remappings(vec![remapping("a"), remapping("b")]);
    assert_eq!(input.settings.remappings.len(), 2);
    input.language = "Yul".to_string();
    input = input.with_remappings(vec![]);
    assert_eq!(input.settings.remappings.len(), 2);
}

#[test]
fn the_base_path_is_removed_from_all_files() {
    let mut input = ZkSolcInput::default();
    input.sources = sources(&["/root/src/a.sol", "/other/b.sol", "src/c.sol"]);
    input.settings = settings();
    let mut names: TextMap<String> = TextMap::new();
    names.insert("L".to_string(), "0x01".to_string());
    input.settings.libraries.insert("/root/lib/L.sol".to_string(), names);
    input.strip_prefix("/root");
    assert_eq!(keys(&input.sources), vec!["/other/b.sol", "src/a.sol", "src/c.sol"]);
    assert_eq!(input.settings.remappings[0].path, "lib/x");
    assert_eq!(input.settings.libraries.key_at(0), "lib/L.sol");
    assert_eq!(input.settings.evm_version, Some("shanghai".to_string()));
}

#[test]
fn copies_of_settings_hold_the_same() {
    let mut all = settings();
    let mut names: TextMap<String> = TextMap::new();
    names.insert("L".to_string(), "0x01".to_string());
    all.libraries.insert("lib/L.sol".to_string(), names);
    all.system_mode = true;
    all.other = Some(serde_json::Value::from(true));
    let copy = all.clone();
    assert_eq!(copy.remappings[0].path, "/root/lib/x");
    assert_eq!(copy.libraries.get("lib/L.sol").unwrap().get("L"), Some(&"0x01".to_string()));
    assert!(copy.system_mode && !copy.force_evmla);
    assert_eq!(copy.other, Some(serde_json::Value::from(true)));
    let config = ZkSolcConfig { settings: copy };
    let settings: ZkSolcSettings = config.into();
    assert!(settings.system_mode);
    assert!(!ZkSolcConfig::default().settings.system_mode);
}
