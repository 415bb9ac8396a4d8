use reflections::collect::{
    collect_from_files, collection_from_json, collection_to_json, is_artifact_path,
    is_valid_artifact, parse_collection, ArtifactFile, CollectedABI,
};
use reflections::config::updated_gitignore;
use reflections::errors::ReflectionsError;
use reflections::metadata::extract_group_from_metadata;

fn artifact(full_path: &str, path: &str, content: &str) -> ArtifactFile {
    ArtifactFile {
        full_path: full_path.to_string(),
        path: path.to_string(),
        content: content.to_string(),
    }
}

const COUNTER: &str = r#"{
    "abi": [
        {"type": "function", "name": "increment", "inputs": [], "outputs": [], "stateMutability": "nonpayable"},
        {"type": "function", "name": "count", "inputs": [], "outputs": [{"type": "uint256", "name": "", "internalType": "uint256"}], "stateMutability": "view"}
    ],
    "metadata": "{\"compiler\":{\"version\":\"0.8.0\"},\"output\":{\"devdoc\":{\"custom\":{\"swagger\":\"Core\"}},\"userdoc\":{}}}"
}"#;

const UNGROUPED: &str = r#"{
    "abi": [{"type": "function", "name": "doSomething", "inputs": [], "outputs": [], "stateMutability": "nonpayable"}],
    "metadata": "{\"output\":{\"devdoc\":{},\"userdoc\":{}}}"
}"#;

#[test]
fn test_is_artifact_path_filters() {
    assert!(is_artifact_path("out/Counter.sol/Counter.json"));
    assert!(!is_artifact_path("out/build-info/abc.json"));
    assert!(!is_artifact_path("out/Counter.sol/Counter.sol"));
    assert!(!is_artifact_path("out/.json"));
    assert!(!is_artifact_path("out/readme"));
}

#[test]
fn test_is_valid_artifact_accepts_contract_artifacts() {
    let abi = is_valid_artifact(COUNTER).unwrap();
    assert_eq!(abi.len(), 2);
}

#[test]
fn test_is_valid_artifact_rejects_empty_or_absent_abi() {
    assert!(is_valid_artifact(r#"{"abi": [], "metadata": "{}"}"#).is_none());
    assert!(is_valid_artifact(r#"{"metadata": "{}"}"#).is_none());
    assert!(is_valid_artifact(r#"{"abi": 5}"#).is_none());
    assert!(is_valid_artifact("not valid json").is_none());
}

#[test]
fn test_extract_group_custom_tag() {
    assert_eq!(
        extract_group_from_metadata(COUNTER, "@custom:swagger").as_deref(),
        Some("Core")
    );
    assert!(extract_group_from_metadata(COUNTER, "@custom:other").is_none());
    assert!(extract_group_from_metadata(COUNTER, "@title").is_none());
    assert!(extract_group_from_metadata(COUNTER, "unsupported").is_none());
}

#[test]
fn test_extract_group_title_and_notice() {
    let with_title = r#"{
        "abi": [{"type": "constructor"}],
        "metadata": "{\"output\":{\"devdoc\":{\"title\":\"MyToken\"},\"userdoc\":{}}}"
    }"#;
    assert_eq!(extract_group_from_metadata(with_title, "@title").as_deref(), Some("MyToken"));

    let with_notice = r#"{
        "abi": [{"type": "constructor"}],
        "metadata": "{\"output\":{\"devdoc\":{},\"userdoc\":{\"notice\":\"A note\"}}}"
    }"#;
    assert_eq!(extract_group_from_metadata(with_notice, "@notice").as_deref(), Some("A note"));
}

#[test]
fn test_extract_group_devdoc_wins_over_userdoc() {
    let both = r#"{
        "abi": [{"type": "constructor"}],
        "metadata": "{\"output\":{\"devdoc\":{\"title\":\"FromDev\"},\"userdoc\":{\"title\":\"FromUser\"}}}"
    }"#;
    assert_eq!(extract_group_from_metadata(both, "@title").as_deref(), Some("FromDev"));
}

#[test]
fn test_extract_group_non_string_value_is_absent() {
    let bad = r#"{
        "abi": [{"type": "constructor"}],
        "metadata": "{\"output\":{\"devdoc\":{\"title\":42},\"userdoc\":{}}}"
    }"#;
    assert!(extract_group_from_metadata(bad, "@title").is_none());
}

#[test]
fn test_extract_group_userdoc_fallback() {
    let userdoc_only = r#"{
        "abi": [{"type": "constructor"}],
        "metadata": "{\"output\":{\"devdoc\":{},\"userdoc\":{\"custom\":{\"swagger\":\"FromUser\"}}}}"
    }"#;
    assert_eq!(
        extract_group_from_metadata(userdoc_only, "@custom:swagger").as_deref(),
        Some("FromUser")
    );
}

#[test]
fn test_extract_group_handles_malformed_metadata() {
    let bad_meta = r#"{
        "abi": [{"type": "constructor"}],
        "metadata": "this is not json"
    }"#;
    assert!(extract_group_from_metadata(bad_meta, "@custom:swagger").is_none());

    let meta_not_string = r#"{
        "abi": [{"type": "constructor"}],
        "metadata": {"output": {}}
    }"#;
    assert!(extract_group_from_metadata(meta_not_string, "@custom:swagger").is_none());

    let no_output = r#"{
        "abi": [{"type": "constructor"}],
        "metadata": "{\"compiler\":{}}"
    }"#;
    assert!(extract_group_from_metadata(no_output, "@custom:swagger").is_none());
}

#[test]
fn test_collect_groups_and_names() {
    let files = vec![
        artifact("out/Counter.sol/Counter.json", "Counter.sol/Counter.json", COUNTER),
        artifact("out/Simple.sol/Simple.json", "Simple.sol/Simple.json", UNGROUPED),
    ];
    let col = collect_from_files(&files, "@custom:swagger");

    assert_eq!(col.grouped.len(), 1);
    assert_eq!(col.grouped[0].0, "Core");
    assert_eq!(col.grouped[0].1.len(), 1);
    let entry: &CollectedABI = &col.grouped[0].1[0];
    assert_eq!(entry.contract_name, "Counter");
    assert_eq!(entry.file_path, "Counter.sol/Counter.json");
    assert_eq!(entry.group.as_deref(), Some("Core"));
    assert_eq!(entry.abi.len(), 2);

    assert_eq!(col.ungrouped.len(), 1);
    assert_eq!(col.ungrouped[0].contract_name, "Simple");
    assert!(col.ungrouped[0].group.is_none());
}

#[test]
fn test_collect_skips_invalid_and_filtered_files() {
    let files = vec![
        artifact("out/build-info/x.json", "build-info/x.json", COUNTER),
        artifact("out/Bad.sol/Bad.json", "Bad.sol/Bad.json", "not json at all"),
        artifact("out/Empty.sol/Empty.json", "Empty.sol/Empty.json", r#"{"abi": []}"#),
        artifact("out/notes.txt", "notes.txt", COUNTER),
    ];
    let col = collect_from_files(&files, "@custom:swagger");
    assert_eq!(col.grouped.len(), 0);
    assert_eq!(col.ungrouped.len(), 0);
}

#[test]
fn test_collect_multiple_contracts_same_group() {
    let token = |name: &str| {
        format!(
            r#"{{
                "abi": [{{"type": "function", "name": "{name}", "inputs": [], "outputs": [], "stateMutability": "nonpayable"}}],
                "metadata": "{{\"output\":{{\"devdoc\":{{\"custom\":{{\"swagger\":\"Tokens\"}}}},\"userdoc\":{{}}}}}}"
            }}"#
        )
    };
    let files = vec![
        artifact("out/TokenA.sol/TokenA.json", "TokenA.sol/TokenA.json", &token("transfer")),
        artifact("out/TokenB.sol/TokenB.json", "TokenB.sol/TokenB.json", &token("mint")),
    ];
    let col = collect_from_files(&files, "@custom:swagger");
    assert_eq!(col.grouped.len(), 1);
    assert_eq!(col.grouped[0].0, "Tokens");
    assert_eq!(col.grouped[0].1.len(), 2);
    assert_eq!(col.grouped[0].1[0].contract_name, "TokenA");
    assert_eq!(col.grouped[0].1[1].contract_name, "TokenB");
}

#[test]
fn test_collect_twice_yields_equal_collections() {
    let files = vec![
        artifact("out/Counter.sol/Counter.json", "Counter.sol/Counter.json", COUNTER),
        artifact("out/Simple.sol/Simple.json", "Simple.sol/Simple.json", UNGROUPED),
    ];
    let first = collect_from_files(&files, "@custom:swagger");
    let second = collect_from_files(&files, "@custom:swagger");

    assert_eq!(first.grouped.len(), second.grouped.len());
    for (a, b) in first.grouped.iter().zip(second.grouped.iter()) {
        assert_eq!(a.0, b.0);
        assert_eq!(a.1.len(), b.1.len());
        for (x, y) in a.1.iter().zip(b.1.iter()) {
            assert_eq!(x.contract_name, y.contract_name);
            assert_eq!(x.file_path, y.file_path);
            assert_eq!(x.group, y.group);
        }
    }
    assert_eq!(first.ungrouped.len(), second.ungrouped.len());
    for (x, y) in first.ungrouped.iter().zip(second.ungrouped.iter()) {
        assert_eq!(x.contract_name, y.contract_name);
        assert_eq!(x.file_path, y.file_path);
        assert_eq!(x.group, y.group);
    }
}

#[test]
fn test_parse_collection_valid_document() {
    let doc = r#"{
        "grouped": {
            "Core": [
                {"contract_name": "Counter", "file_path": "Counter.sol/Counter.json", "abi": [{"type": "function", "name": "count"}], "group": "Core"}
            ]
        },
        "ungrouped": [
            {"contract_name": "Simple", "file_path": "Simple.sol/Simple.json", "abi": [], "group": null}
        ]
    }"#;
    let col = parse_collection(doc).unwrap();
    assert_eq!(col.grouped.len(), 1);
    assert_eq!(col.grouped[0].0, "Core");
    assert_eq!(col.grouped[0].1[0].contract_name, "Counter");
    assert_eq!(col.grouped[0].1[0].group.as_deref(), Some("Core"));
    assert_eq!(col.ungrouped.len(), 1);
    assert!(col.ungrouped[0].group.is_none());
}

#[test]
fn test_parse_collection_group_field_may_be_absent() {
    let doc = r#"{
        "grouped": {},
        "ungrouped": [
            {"contract_name": "Simple", "file_path": "s.json", "abi": []}
        ]
    }"#;
    let col = parse_collection(doc).unwrap();
    assert!(col.ungrouped[0].group.is_none());
}

#[test]
fn test_collection_round_trips_through_its_json_form() {
    let files = vec![
        artifact("out/Counter.sol/Counter.json", "Counter.sol/Counter.json", COUNTER),
        artifact("out/Simple.sol/Simple.json", "Simple.sol/Simple.json", UNGROUPED),
    ];
    let col = collect_from_files(&files, "@custom:swagger");
    let doc = collection_to_json(&col);
    let back = collection_from_json(doc).expect("the canonical form must parse");

    assert_eq!(back.grouped.len(), col.grouped.len());
    assert_eq!(back.grouped[0].0, "Core");
    assert_eq!(back.grouped[0].1[0].contract_name, "Counter");
    assert_eq!(back.grouped[0].1[0].abi.len(), 2);
    assert_eq!(back.grouped[0].1[0].group.as_deref(), Some("Core"));
    assert_eq!(back.ungrouped.len(), 1);
    assert_eq!(back.ungrouped[0].contract_name, "Simple");
    assert!(back.ungrouped[0].group.is_none());
}

#[test]
fn test_updated_gitignore() {
    assert_eq!(updated_gitignore(None, "/scripts/reflections/\n").as_deref(), Some("/scripts/reflections/\n"));

    let untouched = "# Reflections\n/scripts/reflections/\n".to_string();
    assert!(updated_gitignore(Some(&untouched), "template").is_none());

    let existing = "target/\n".to_string();
    assert_eq!(
        updated_gitignore(Some(&existing), "# Reflections\n/scripts/reflections/\n").as_deref(),
        Some("target/\n\n\n# Reflections\n/scripts/reflections/\n")
    );
}

#[test]
fn test_parse_collection_invalid_json_is_fatal() {
    match parse_collection("not valid json") {
        Err(ReflectionsError::InvalidData(_)) => {}
        other => panic!("expected an invalid-data error, got {:?}", other.is_ok()),
    }
}

#[test]
fn test_parse_collection_wrong_shape_is_fatal() {
    assert!(parse_collection(r#"{"grouped": {}}"#).is_err());
    assert!(parse_collection(r#"{"grouped": [], "ungrouped": []}"#).is_err());
    assert!(parse_collection(r#"{"grouped": {}, "ungrouped": [{"contract_name": 7, "file_path": "x", "abi": []}]}"#).is_err());
    assert!(parse_collection(r#"[1, 2, 3]"#).is_err());
}
