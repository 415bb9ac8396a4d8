use reflections::commands::{Collect, Generate, Init, Serve};
use reflections::config::{
    default_openzeppelin_version, default_zksync_os_url, ConfigLocation, Paths, ReflectionsConfig,
};
use reflections::errors::{ConfigError, ReflectionsError};
use reflections::parser::{contracts_in_source, sort_contracts_by_name};

#[test]
fn test_paths_join_under_root() {
    let paths = Paths::new("/work/project");
    assert_eq!(paths.root, "/work/project");
    assert_eq!(paths.config, "/work/project/foundry.toml");
    assert_eq!(paths.remappings, "/work/project/remappings.txt");
}

#[test]
fn test_paths_with_explicit_config_location() {
    let paths = Paths::with_root_and_config("/r", Some(ConfigLocation::Reflections));
    assert_eq!(paths.config, "/r/reflections.toml");
    let defaulted = Paths::with_root_and_config("/r/", None);
    assert_eq!(defaulted.config, "/r/foundry.toml");
}

#[test]
fn test_config_location_parse() {
    assert_eq!("foundry".parse::<ConfigLocation>().unwrap(), ConfigLocation::Foundry);
    assert_eq!("Reflections".parse::<ConfigLocation>().unwrap(), ConfigLocation::Reflections);
    assert_eq!("FOUNDRY".parse::<ConfigLocation>().unwrap(), ConfigLocation::Foundry);
    match "elsewhere".parse::<ConfigLocation>() {
        Err(ConfigError::InvalidLocation(s)) => assert_eq!(s, "elsewhere"),
        _ => panic!("an unknown location must be rejected"),
    }
}

#[test]
fn test_config_defaults() {
    let config = ReflectionsConfig::default();
    assert_eq!(config.openzeppelin_version, "v5.1.0");
    assert_eq!(config.zksync_os_url, "https://github.com/matter-labs/zksync-os");
    assert_eq!(default_openzeppelin_version(), "v5.1.0");
    assert_eq!(default_zksync_os_url(), "https://github.com/matter-labs/zksync-os");
}

#[test]
fn test_command_defaults() {
    let collect = Collect::default();
    assert_eq!(collect.artifacts_dir, "out");
    assert_eq!(collect.output, "abis.json");
    assert_eq!(collect.tag, "@custom:swagger");

    let generate = Generate::default();
    assert_eq!(generate.contracts_dir, "src");
    assert_eq!(generate.output, "scripts/reflections/di/libraries/Sources.s.sol");
    assert_eq!(generate.library_name, "Sources");
    assert_eq!(generate.license, "MIT");
    assert_eq!(generate.solidity_version, "^0.8.24");

    let init = Init::default();
    assert!(!init.clean);
    assert_eq!(init.openzeppelin_version, "v5.1.0");

    let serve = Serve::default();
    assert_eq!(serve.input, "abis.json");
    assert_eq!(serve.port, 3000);
    assert_eq!(serve.host, "127.0.0.1");
}

#[test]
fn test_error_messages() {
    let e = ReflectionsError::NotFound("out".to_string());
    assert_eq!(e.message(), "not found: out");
    let e = ReflectionsError::InvalidData("bad".to_string());
    assert_eq!(e.message(), "invalid data: bad");
    let e = ConfigError::InvalidLocation("x".to_string());
    assert_eq!(e.message(), "invalid config location: x");
}

#[test]
fn test_contracts_in_source_finds_declarations() {
    let source = "// SPDX-License-Identifier: MIT\npragma solidity ^0.8.0;\n\ncontract First {}\n  library SafeMath {\n}\ninterface IToken { }\n";
    let found = contracts_in_source(source, "src/Mixed.sol", "src/Mixed.sol");
    assert_eq!(found.len(), 3);
    assert_eq!(found[0].name, "First");
    assert!(!found[0].is_library && !found[0].is_interface);
    assert_eq!(found[1].name, "SafeMath");
    assert!(found[1].is_library);
    assert_eq!(found[2].name, "IToken");
    assert!(found[2].is_interface);
    assert_eq!(found[2].path, "src/Mixed.sol");
}

#[test]
fn test_contracts_in_source_ignores_mid_line_keywords() {
    let source = "uint contract_count = 1; // a contract Foo mention\nstring s;\n";
    assert!(contracts_in_source(source, "a.sol", "a.sol").is_empty());
    let source2 = "contractFoo x;\ncontract 9Bad {}\n";
    assert!(contracts_in_source(source2, "a.sol", "a.sol").is_empty());
}

#[test]
fn test_sort_contracts_by_name() {
    let source = "contract Zeta {}\ncontract Alpha {}\ncontract Midway {}\n";
    let found = contracts_in_source(source, "a.sol", "a.sol");
    let sorted = sort_contracts_by_name(found);
    assert_eq!(sorted.len(), 3);
    assert_eq!(sorted[0].name, "Alpha");
    assert_eq!(sorted[1].name, "Midway");
    assert_eq!(sorted[2].name, "Zeta");
}
