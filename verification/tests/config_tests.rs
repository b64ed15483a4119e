use o2a::config::{
    bash_variable_name, collect_header_parameters, collect_header_security_schemes,
    generate_config, insert_sorted,
};
use o2a::document::try_parse_spec;
use o2a::json::JsonValue;
use o2a::openapi::{Parameter, ParameterLocation};

fn document(text: &str) -> JsonValue {
    try_parse_spec(text).expect("test documents are valid JSON")
}

#[test]
fn given_name_with_hyphens_when_normalizing_then_uses_uppercase_underscores() {
    assert_eq!(
        bash_variable_name("X-DB-Correlation-Id"),
        "X_DB_CORRELATION_ID"
    );
}

#[test]
fn given_camel_case_name_when_normalizing_then_uppercases_without_extra_underscores() {
    assert_eq!(bash_variable_name("accountFilterId"), "ACCOUNTFILTERID");
}

#[test]
fn given_server_when_generating_config_then_contains_base_url() {
    let spec = document(
        r#"{
            "servers": [
                { "url": "https://api.example.com" }
            ],
            "paths": {}
        }"#,
    );

    let config = generate_config(&spec);

    assert_eq!(
        config,
        r#"#!/bin/bash
BASE_URL="https://api.example.com"
"#
    );
}

#[test]
fn given_operation_header_parameters_when_generating_config_then_contains_empty_variables() {
    let spec = document(
        r#"{
            "paths": {
                "/v1/accounts": {
                    "get": {
                        "parameters": [
                            { "name": "Accept-Language", "in": "header", "required": true},
                            { "name": "X-DB-Correlation-Id", "in": "header", "required": true}
                        ]
                    }
                }
            }
        }"#,
    );

    let config = generate_config(&spec);

    assert_eq!(
        config,
        r#"#!/bin/bash
BASE_URL="https://localhost"
ACCEPT_LANGUAGE=""
X_DB_CORRELATION_ID=""
"#
    );
}

#[test]
fn given_header_api_key_security_scheme_when_generating_config_then_contains_variable() {
    let spec = document(
        r#"{
            "components": {
                "securitySchemes": {
                    "clientIdHeader": {
                        "type": "apiKey",
                        "name": "X-IBM-Client-Id",
                        "in": "header"
                    },
                    "ignoredQueryKey": {
                        "type": "apiKey",
                        "name": "api_key",
                        "in": "query"
                    }
                }
            },
            "paths": {}
        }"#,
    );

    let config = generate_config(&spec);

    assert_eq!(
        config,
        r#"#!/bin/bash
BASE_URL="https://localhost"
X_IBM_CLIENT_ID=""
"#
    );
}

#[test]
fn non_ascii_and_punctuation_become_underscores() {
    assert_eq!(bash_variable_name("größe.x1"), "GR__E_X1");
    assert_eq!(bash_variable_name(""), "");
}

#[test]
fn normalizing_twice_changes_nothing() {
    let once = bash_variable_name("x-Request.id9");
    assert_eq!(bash_variable_name(&once), once);
}

#[test]
fn config_lists_each_variable_once_in_ascending_order() {
    let spec = document(
        r#"{
            "servers": [{ "url": "http://api.test" }],
            "components": {
                "securitySchemes": {
                    "a": { "type": "apiKey", "name": "x-token", "in": "header" }
                }
            },
            "paths": {
                "/b": { "get": { "parameters": [
                    { "name": "X-Token", "in": "header" },
                    { "name": "b", "in": "header" },
                    { "name": "q", "in": "query" }
                ] } },
                "/a": { "post": { "parameters": [
                    { "name": "A-B", "in": "header" },
                    { "name": "b", "in": "header" }
                ] } }
            }
        }"#,
    );

    assert_eq!(
        generate_config(&spec),
        "#!/bin/bash\nBASE_URL=\"https://api.test\"\nA_B=\"\"\nB=\"\"\nX_TOKEN=\"\"\n"
    );
}

#[test]
fn sorted_insertion_keeps_order_and_drops_repeats() {
    let mut v: Vec<String> = Vec::new();
    for name in ["M", "B", "Z", "B", "A1", "A"] {
        insert_sorted(&mut v, name.to_string());
    }
    assert_eq!(v, vec!["A", "A1", "B", "M", "Z"]);
}

#[test]
fn collecting_header_parameters_adds_their_variables() {
    let mut v = vec!["B".to_string()];
    let params = vec![
        Parameter { name: "a-b".to_string(), location: ParameterLocation::Header, required: false },
        Parameter { name: "b".to_string(), location: ParameterLocation::Header, required: true },
    ];
    collect_header_parameters(&params, &mut v);
    assert_eq!(v, vec!["A_B", "B"]);
}

#[test]
fn collecting_security_schemes_skips_non_header_keys() {
    let spec = document(
        r#"{ "components": { "securitySchemes": {
            "h": { "type": "apiKey", "name": "Api-Key", "in": "header" },
            "q": { "type": "apiKey", "name": "key", "in": "query" },
            "bad": { "type": "http", "name": "Other", "in": "header" }
        } } }"#,
    );
    let mut v: Vec<String> = Vec::new();
    collect_header_security_schemes(&spec, &mut v);
    assert_eq!(v, vec!["API_KEY"]);
}
