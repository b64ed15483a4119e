use o2a::document::try_parse_spec;
use o2a::generator::{plan_generated_files, GenerationError};

#[test]
fn plan_places_one_script_per_path_and_method() {
    let spec = try_parse_spec(
        r#"{
            "servers": [{ "url": "https://api.example.com" }],
            "paths": {
                "/v1/users/{user-id}": {
                    "GET": { "parameters": [{ "name": "user-id", "in": "path", "required": true }] },
                    "delete": {}
                }
            }
        }"#,
    )
    .unwrap();
    let plan = plan_generated_files(&spec).unwrap();
    assert_eq!(plan.config, "#!/bin/bash\nBASE_URL=\"https://api.example.com\"\n");
    assert!(plan.invalid_path_item.is_none());
    let files: Vec<(&str, &str)> = plan
        .scripts
        .iter()
        .map(|f| (f.directory.as_str(), f.file_name.as_str()))
        .collect();
    assert_eq!(files, vec![("v1/users/_user-id", "get"), ("v1/users/_user-id", "delete")]);
    assert_eq!(
        plan.scripts[0].contents,
        r#"#!/bin/bash
source "$(dirname "$0")/../../../.config.sh"

USER_ID=""

args=(
  --request GET
  --url "$BASE_URL/v1/users/$USER_ID"
)

curl "${args[@]}""#
    );
}

#[test]
fn plan_needs_a_paths_object() {
    let spec = try_parse_spec(r#"{"openapi": "3.0.0"}"#).unwrap();
    assert_eq!(plan_generated_files(&spec).unwrap_err(), GenerationError::MissingPaths);
}

#[test]
fn plan_stops_at_a_path_item_that_is_not_an_object() {
    let spec = try_parse_spec(r#"{"paths": {"/a": {"get": {}}, "/b": [], "/c": {"get": {}}}}"#).unwrap();
    let plan = plan_generated_files(&spec).unwrap();
    assert_eq!(plan.invalid_path_item.as_deref(), Some("/b"));
    assert_eq!(plan.scripts.len(), 1);
    assert_eq!(plan.scripts[0].directory, "a");
}

#[test]
fn every_header_variable_of_a_script_is_declared_in_the_config() {
    let spec = try_parse_spec(
        r#"{
            "components": {"securitySchemes": {"k": {"type": "apiKey", "name": "X-Key", "in": "header"}}},
            "paths": {
                "/a": {"get": {"parameters": [{"name": "Trace-Id", "in": "header"}]}},
                "/b": {"post": {"parameters": [{"name": "lang", "in": "header"}, {"name": "q", "in": "query"}]}}
            }
        }"#,
    )
    .unwrap();
    let plan = plan_generated_files(&spec).unwrap();
    let mut seen = 0;
    for file in &plan.scripts {
        for line in file.contents.lines() {
            if let Some(rest) = line.strip_prefix("  --header \"") {
                let var = rest.split('$').nth(1).unwrap().trim_end_matches('"');
                assert!(plan.config.contains(&format!("\n{var}=\"\"\n")), "{var} not declared");
                seen += 1;
            }
        }
    }
    assert_eq!(seen, 4);
}
