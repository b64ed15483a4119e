use o2a::document::{extract_default_server, extract_paths, parse_spec, prefer_https, try_parse_spec};
use o2a::json::JsonValue;
use rand::distr::{Alphanumeric, SampleString};

fn random_base_url(with_https: &bool) -> String {
    let random_string = Alphanumeric.sample_string(&mut rand::rng(), 10);
    let protocol = if *with_https { "https" } else { "http" };
    format!("{}://api-{}.com", protocol, random_string)
}

fn document(text: &str) -> JsonValue {
    try_parse_spec(text).expect("test documents are valid JSON")
}

fn servers_document(url: &str) -> JsonValue {
    document(&format!(r#"{{ "servers": [{{ "url": "{url}" }}] }}"#))
}

#[test]
fn given_spec_with_no_server_when_extracting_default_server_then_localhost() {
    let spec = document("{}");
    assert_eq!(extract_default_server(&spec), "https://localhost")
}

#[test]
fn given_spec_with_http_server_when_extracting_default_server_then_server_with_https() {
    let url = random_base_url(&false);
    let spec = servers_document(&url);
    assert_eq!(extract_default_server(&spec), url.replace("http", "https"));
}

#[test]
fn given_spec_when_extracting_default_server_then_server() {
    let url = random_base_url(&true);
    let spec = servers_document(&url);
    assert_eq!(extract_default_server(&spec), url)
}

#[test]
fn default_server_falls_back_when_the_first_server_has_no_url() {
    assert_eq!(
        extract_default_server(&document(r#"{"servers": [{}, {"url": "https://b"}]}"#)),
        "https://localhost"
    );
    assert_eq!(extract_default_server(&document(r#"{"servers": []}"#)), "https://localhost");
    assert_eq!(extract_default_server(&document(r#"{"servers": {"url": "x"}}"#)), "https://localhost");
    assert_eq!(extract_default_server(&document(r#"[]"#)), "https://localhost");
}

#[test]
fn https_is_preferred_once() {
    assert_eq!(prefer_https("http://a.b/c"), "https://a.b/c");
    assert_eq!(prefer_https("https://a.b"), "https://a.b");
    assert_eq!(prefer_https("ftp://x"), "ftp://x");
    assert_eq!(prefer_https("http:/"), "http:/");
    assert_eq!(prefer_https("HTTP://x"), "HTTP://x");
    let once = prefer_https("http://x");
    assert_eq!(prefer_https(&once), once);
}

#[test]
fn parsing_gives_the_document_structure() {
    match parse_spec(r#"{"b": [1, true, null, "s"], "a": {}}"#) {
        JsonValue::Object(members) => {
            let keys: Vec<&str> = members.iter().map(|(k, _)| k.as_str()).collect();
            assert_eq!(keys, vec!["a", "b"]);
            match &members[1].1 {
                JsonValue::Array(items) => {
                    assert!(matches!(&items[0], JsonValue::Number(n) if n == "1"));
                    assert!(matches!(items[1], JsonValue::Bool(true)));
                    assert!(matches!(items[2], JsonValue::Null));
                    assert!(matches!(&items[3], JsonValue::Str(s) if s == "s"));
                }
                other => panic!("expected an array, got {other:?}"),
            }
        }
        other => panic!("expected an object, got {other:?}"),
    }
    assert!(try_parse_spec("{not json").is_none());
    assert!(try_parse_spec("").is_none());
    assert!(matches!(try_parse_spec("[]"), Some(JsonValue::Array(items)) if items.is_empty()));
}

#[test]
fn paths_object_is_returned_in_key_order() {
    let spec = document(r#"{"paths": {"/b": 1, "/a": {}}}"#);
    let paths = extract_paths(&spec);
    let keys: Vec<&str> = paths.iter().map(|(k, _)| k.as_str()).collect();
    assert_eq!(keys, vec!["/a", "/b"]);
}
