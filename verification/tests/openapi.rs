use reflections::collect::{collect_from_files, ArtifactFile};
use reflections::openapi::{
    abi_type_to_openapi_schema, generate_openapi_spec, OpenAPIPath, OpenAPISpec,
};

fn find_path<'a>(spec: &'a OpenAPISpec, path: &str) -> &'a Vec<(String, OpenAPIPath)> {
    &spec.paths.iter().find(|p| p.0 == path).expect("path missing").1
}

fn find_method<'a>(methods: &'a [(String, OpenAPIPath)], method: &str) -> &'a OpenAPIPath {
    &methods.iter().find(|m| m.0 == method).expect("method missing").1
}

#[test]
fn test_schema_uint256_is_integer() {
    let s = abi_type_to_openapi_schema("uint256");
    assert_eq!(s.schema_type, "integer");
    assert!(s.items.is_none());
    assert!(s.properties.is_none());
}

#[test]
fn test_schema_address_is_string() {
    let s = abi_type_to_openapi_schema("address");
    assert_eq!(s.schema_type, "string");
    assert!(s.items.is_none());
}

#[test]
fn test_schema_bool_array_is_array_of_boolean() {
    let s = abi_type_to_openapi_schema("bool[]");
    assert_eq!(s.schema_type, "array");
    let items = s.items.expect("array schema must carry items");
    assert_eq!(items.schema_type, "boolean");
    assert!(items.items.is_none());
}

#[test]
fn test_schema_families_and_fallback() {
    assert_eq!(abi_type_to_openapi_schema("int8").schema_type, "integer");
    assert_eq!(abi_type_to_openapi_schema("bytes32").schema_type, "string");
    assert_eq!(abi_type_to_openapi_schema("string").schema_type, "string");
    assert_eq!(abi_type_to_openapi_schema("tuple").schema_type, "string");
    let nested = abi_type_to_openapi_schema("uint8[][]");
    assert_eq!(nested.schema_type, "array");
    let inner = nested.items.unwrap();
    assert_eq!(inner.schema_type, "array");
    assert_eq!(inner.items.unwrap().schema_type, "integer");
}

const TOKEN: &str = r#"{
    "abi": [
        {"type": "function", "name": "balanceOf", "inputs": [{"name": "owner", "type": "address"}], "outputs": [{"name": "balance", "type": "uint256"}], "stateMutability": "view"},
        {"type": "function", "name": "transfer", "inputs": [{"name": "to", "type": "address"}, {"name": "amount", "type": "uint256"}], "outputs": [{"name": "", "type": "bool"}], "stateMutability": "nonpayable"},
        {"type": "event", "name": "Transfer", "inputs": []}
    ],
    "metadata": "{\"output\":{\"devdoc\":{},\"userdoc\":{}}}"
}"#;

fn token_spec() -> OpenAPISpec {
    let files = vec![ArtifactFile {
        full_path: "out/Token.sol/Token.json".to_string(),
        path: "Token.sol/Token.json".to_string(),
        content: TOKEN.to_string(),
    }];
    let col = collect_from_files(&files, "@custom:swagger");
    generate_openapi_spec(&col)
}

#[test]
fn test_view_function_becomes_get_with_query_parameters() {
    let spec = token_spec();
    let methods = find_path(&spec, "/contracts/Token/balanceOf");
    let op = find_method(methods, "get");

    assert_eq!(op.operation_id, "Token_balanceOf");
    let params = op.parameters.as_ref().expect("get operation carries parameters");
    assert_eq!(params.len(), 1);
    assert_eq!(params[0].name, "owner");
    assert_eq!(params[0].location, "query");
    assert!(params[0].required);
    assert_eq!(params[0].schema.schema_type, "string");
    assert_eq!(params[0].description, "Parameter of type address");
    assert!(op.request_body.is_none());
}

#[test]
fn test_nonpayable_function_becomes_post_with_request_body() {
    let spec = token_spec();
    let methods = find_path(&spec, "/contracts/Token/transfer");
    let op = find_method(methods, "post");

    assert!(op.parameters.is_none());
    let body = op.request_body.as_ref().expect("post operation carries a body");
    assert!(body.required);
    assert_eq!(body.content.len(), 1);
    assert_eq!(body.content[0].0, "application/json");
    let schema = &body.content[0].1.schema;
    assert_eq!(schema.schema_type, "object");
    let props = schema.properties.as_ref().unwrap();
    assert_eq!(props.len(), 2);
    assert_eq!(props[0].0, "to");
    assert_eq!(props[0].1.schema_type, "string");
    assert_eq!(props[1].0, "amount");
    assert_eq!(props[1].1.schema_type, "integer");
}

#[test]
fn test_non_function_entries_synthesize_no_path() {
    let spec = token_spec();
    assert!(spec.paths.iter().all(|p| !p.0.contains("Transfer")));
    assert_eq!(spec.paths.len(), 2);
}

#[test]
fn test_document_level_fields_are_fixed() {
    let spec = token_spec();
    assert_eq!(spec.openapi, "3.0.0");
    assert_eq!(spec.info.title, "Solidity Contracts API");
    assert_eq!(spec.info.version, "1.0.0");
    assert_eq!(
        spec.info.description,
        "Auto-generated API documentation from Solidity contract ABIs"
    );
    assert!(spec.components.schemas.is_empty());
}

#[test]
fn test_empty_output_name_falls_back_to_indexed_name() {
    let spec = token_spec();
    let methods = find_path(&spec, "/contracts/Token/transfer");
    let op = find_method(methods, "post");
    let resp = &op.responses.iter().find(|r| r.0 == "200").unwrap().1;
    let content = resp.content.as_ref().unwrap();
    let props = content[0].1.schema.properties.as_ref().unwrap();
    assert_eq!(props.len(), 1);
    assert_eq!(props[0].0, "output0");
    assert_eq!(props[0].1.schema_type, "boolean");
}

#[test]
fn test_end_to_end_counter_scenario() {
    let counter = r#"{
        "abi": [
            {"type": "function", "name": "increment", "inputs": [], "outputs": [], "stateMutability": "nonpayable"},
            {"type": "function", "name": "count", "inputs": [], "outputs": [{"type": "uint256", "name": ""}], "stateMutability": "view"}
        ],
        "metadata": "{\"output\":{\"devdoc\":{\"custom\":{\"swagger\":\"Core\"}},\"userdoc\":{}}}"
    }"#;
    let files = vec![ArtifactFile {
        full_path: "out/Counter.sol/Counter.json".to_string(),
        path: "Counter.sol/Counter.json".to_string(),
        content: counter.to_string(),
    }];
    let col = collect_from_files(&files, "@custom:swagger");
    let spec = generate_openapi_spec(&col);

    let inc_methods = find_path(&spec, "/contracts/Core/Counter/increment");
    let inc = find_method(inc_methods, "post");
    assert!(inc.request_body.is_none());
    assert!(inc.parameters.is_none());
    let inc_resp = &inc.responses.iter().find(|r| r.0 == "200").unwrap().1;
    assert!(inc_resp.content.is_none());
    assert_eq!(inc_resp.description, "Successful response");

    let count_methods = find_path(&spec, "/contracts/Core/Counter/count");
    let count = find_method(count_methods, "get");
    assert!(count.parameters.is_none());
    assert_eq!(count.operation_id, "Counter_count");
    let count_resp = &count.responses.iter().find(|r| r.0 == "200").unwrap().1;
    let content = count_resp.content.as_ref().unwrap();
    assert_eq!(content.len(), 1);
    assert_eq!(content[0].0, "application/json");
    let schema = &content[0].1.schema;
    assert_eq!(schema.schema_type, "object");
    let props = schema.properties.as_ref().unwrap();
    assert_eq!(props.len(), 1);
    assert_eq!(props[0].0, "output0");
    assert_eq!(props[0].1.schema_type, "integer");
}

#[test]
fn test_colliding_path_and_method_last_contract_wins() {
    let one = r#"{"abi": [{"type": "function", "name": "f", "inputs": [], "outputs": [], "stateMutability": "view"}], "metadata": "{}"}"#;
    let files = vec![
        ArtifactFile {
            full_path: "out/a/Same.json".to_string(),
            path: "a/Same.json".to_string(),
            content: one.to_string(),
        },
        ArtifactFile {
            full_path: "out/b/Same.json".to_string(),
            path: "b/Same.json".to_string(),
            content: one.to_string(),
        },
    ];
    let col = collect_from_files(&files, "@custom:swagger");
    let spec = generate_openapi_spec(&col);
    let methods = find_path(&spec, "/contracts/Same/f");
    assert_eq!(methods.len(), 1);
    assert_eq!(spec.paths.len(), 1);
}
