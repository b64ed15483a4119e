use o2a::document::try_parse_spec;
use o2a::json::JsonValue;
use o2a::openapi::{
    decode_parameter, decode_security_scheme, header_security_schemes, operation_parameters,
    spec_parameters, ParameterLocation, SecuritySchemeType,
};

fn document(text: &str) -> JsonValue {
    try_parse_spec(text).expect("test documents are valid JSON")
}

#[test]
fn given_spec_with_multiple_operations_when_extracting_header_parameters_then_returns_all_headers()
{
    let spec = document(
        r#"{
        "paths": {
            "/v1/users": {
                "get": {
                    "parameters": [
                        { "name": "Accept-Language", "in": "header" },
                        { "name": "limit", "in": "query" }
                    ]
                }
            },
            "/v1/accounts": {
                "get": {
                    "parameters": [
                        { "name": "X-DB-Correlation-Id", "in": "header" }
                    ]
                }
            }
        }
    }"#,
    );

    let parameters = spec_parameters(&spec, ParameterLocation::Header);

    let mut names = parameters
        .into_iter()
        .map(|parameter| parameter.name)
        .collect::<Vec<_>>();
    names.sort();

    assert_eq!(names, vec!["Accept-Language", "X-DB-Correlation-Id"]);
}

#[test]
fn parameter_decoding_follows_the_schema() {
    let p = decode_parameter(&document(r#"{"name": "a", "in": "query", "extra": 1}"#)).unwrap();
    assert_eq!(p.name, "a");
    assert_eq!(p.location, ParameterLocation::Query);
    assert!(!p.required);

    let p = decode_parameter(&document(r#"{"name": "b", "in": {"path": null}, "required": true}"#))
        .unwrap();
    assert_eq!(p.location, ParameterLocation::Path);
    assert!(p.required);

    let p = decode_parameter(&document(r#"["c", "header"]"#)).unwrap();
    assert_eq!((p.name.as_str(), p.location, p.required), ("c", ParameterLocation::Header, false));

    for bad in [
        r#"{"in": "query"}"#,
        r#"{"name": "a"}"#,
        r#"{"name": 1, "in": "query"}"#,
        r#"{"name": "a", "in": "body"}"#,
        r#"{"name": "a", "in": "query", "required": "yes"}"#,
        r#"{"name": "a", "in": "query", "required": null}"#,
        r#"{"name": "a", "in": {"query": 1}}"#,
        r#"["a"]"#,
        r#"["a", "query", true, 1]"#,
        r#""a""#,
        r#"null"#,
    ] {
        assert!(decode_parameter(&document(bad)).is_none(), "{bad} should not decode");
    }
}

#[test]
fn security_scheme_decoding_follows_the_schema() {
    let s = decode_security_scheme(&document(r#"{"type": "apiKey", "name": "k", "in": "header"}"#))
        .unwrap();
    assert_eq!(s.scheme_type, SecuritySchemeType::ApiKey);
    assert_eq!(s.name, "k");
    assert_eq!(s.location, ParameterLocation::Header);
    assert!(decode_security_scheme(&document(r#"["apiKey", "k", "query"]"#)).is_some());
    assert!(decode_security_scheme(&document(r#"{"type": "http", "name": "k", "in": "header"}"#))
        .is_none());
    assert!(decode_security_scheme(&document(r#"{"type": "apiKey", "in": "header"}"#)).is_none());
}

#[test]
fn operation_parameters_keep_order_and_location() {
    let op = document(
        r#"{"parameters": [
            {"name": "h1", "in": "header"},
            {"name": "q1", "in": "query"},
            "junk",
            {"name": "h2", "in": "header", "required": true}
        ]}"#,
    );
    let names: Vec<String> = operation_parameters(&op, ParameterLocation::Header)
        .into_iter()
        .map(|p| p.name)
        .collect();
    assert_eq!(names, vec!["h1", "h2"]);
    assert!(operation_parameters(&document(r#"{"parameters": {}}"#), ParameterLocation::Query)
        .is_empty());
}

#[test]
fn spec_parameters_skip_path_items_that_are_not_objects() {
    let spec = document(
        r#"{"paths": {
            "/a": 5,
            "/b": {"get": {"parameters": [{"name": "x", "in": "path"}]},
                   "put": {"parameters": [{"name": "y", "in": "path"}]}}
        }}"#,
    );
    let names: Vec<String> = spec_parameters(&spec, ParameterLocation::Path)
        .into_iter()
        .map(|p| p.name)
        .collect();
    assert_eq!(names, vec!["x", "y"]);
    assert!(spec_parameters(&document(r#"{"paths": []}"#), ParameterLocation::Path).is_empty());
}

#[test]
fn security_headers_are_required_header_parameters() {
    let spec = document(
        r#"{"components": {"securitySchemes": {
            "b": {"type": "apiKey", "name": "B-Key", "in": "header"},
            "a": {"type": "apiKey", "name": "A-Key", "in": "header"}
        }}}"#,
    );
    let headers = header_security_schemes(&spec);
    let names: Vec<&str> = headers.iter().map(|p| p.name.as_str()).collect();
    assert_eq!(names, vec!["A-Key", "B-Key"]);
    assert!(headers.iter().all(|p| p.required && p.location == ParameterLocation::Header));
    assert!(header_security_schemes(&document(r#"{"components": 1}"#)).is_empty());
}
