//! Reading an OpenAPI document: parsing it, its default server and its paths.

use vstd::prelude::*;
use crate::json::{JsonValue, parse_json, parsed_json};

verus! {

/// `url` with an `http://` scheme upgraded to `https://`; any other URL unchanged.
pub open spec fn https_preferred(url: Seq<char>) -> Seq<char> {
    if url.len() >= "http://"@.len() && url.take("http://"@.len() as int) == "http://"@ {
        "https://"@ + url.skip("http://"@.len() as int)
    } else {
        url
    }
}

/// Preferring https twice is preferring it once, and the result never starts with
/// `http://`.
pub proof fn lemma_https_preferred_idempotent(url: Seq<char>)
    ensures
        https_preferred(https_preferred(url)) == https_preferred(url),
        !(https_preferred(url).len() >= 7 && https_preferred(url).take(7) == "http://"@),
{
    reveal_strlit("http://");
    reveal_strlit("https://");
    let u = https_preferred(url);
    if u.len() >= 7 && u.take(7) == "http://"@ {
        if url.len() >= 7 && url.take(7) == "http://"@ {
            assert(u[4] == 's');
            assert(u.take(7)[4] == ':');
        } else {
            assert(u == url);
        }
    }
}

/// The server is the first server's `url`, character for character, except that a
/// leading `http://` becomes `https://`.
pub proof fn lemma_default_server_is_first_url(
    document: JsonValue,
    servers: Vec<JsonValue>,
    url: String,
)
    requires
        document.field_of("servers"@) == Some(JsonValue::Array(servers)),
        servers@.len() > 0,
        servers@[0].field_of("url"@) == Some(JsonValue::Str(url)),
    ensures
        url@.len() >= 7 && url@.take(7) == seq!['h', 't', 't', 'p', ':', '/', '/'] ==> default_server_of(
            document,
        ) == seq!['h', 't', 't', 'p', 's', ':', '/', '/'] + url@.skip(7),
        !(url@.len() >= 7 && url@.take(7) == seq!['h', 't', 't', 'p', ':', '/', '/'])
            ==> default_server_of(document) == url@,
{
    reveal_strlit("http://");
    reveal_strlit("https://");
    assert("http://"@ =~= seq!['h', 't', 't', 'p', ':', '/', '/']);
    assert("https://"@ =~= seq!['h', 't', 't', 'p', 's', ':', '/', '/']);
}

/// Without a first server holding a string `url`, the server is `https://localhost`.
pub proof fn lemma_default_server_fallback(document: JsonValue)
    requires
        !(document.field_of("servers"@) matches Some(JsonValue::Array(servers))
            && servers@.len() > 0 && servers@[0].field_of("url"@) matches Some(JsonValue::Str(_))),
    ensures
        default_server_of(document) == seq![
            'h', 't', 't', 'p', 's', ':', '/', '/', 'l', 'o', 'c', 'a', 'l', 'h', 'o', 's', 't',
        ],
{
    reveal_strlit("http://");
    reveal_strlit("https://");
    reveal_strlit("http://localhost");
    assert("http://localhost"@.take(7) =~= "http://"@);
    assert("https://"@ + "http://localhost"@.skip(7) =~= seq![
        'h', 't', 't', 'p', 's', ':', '/', '/', 'l', 'o', 'c', 'a', 'l', 'h', 'o', 's', 't',
    ]);
}

/// The URL of the document's first server, or `http://localhost` when `servers` is not
/// a non-empty array or its first entry has no string `url`.
pub open spec fn first_server_url(document: JsonValue) -> Seq<char> {
    match document.field_of("servers"@) {
        Some(JsonValue::Array(servers)) => {
            if servers@.len() > 0 {
                match servers@[0].field_of("url"@) {
                    Some(JsonValue::Str(url)) => url@,
                    _ => "http://localhost"@,
                }
            } else {
                "http://localhost"@
            }
        },
        _ => "http://localhost"@,
    }
}

/// The server the generated requests go to.
pub open spec fn default_server_of(document: JsonValue) -> Seq<char> {
    https_preferred(first_server_url(document))
}

pub fn prefer_https(url: &str) -> (r: String)
    ensures
        r@ == https_preferred(url@),
{
    proof {
        reveal_strlit("http://");
    }
    let n = url.unicode_len();
    if n >= 7 {
        let head = String::from_str(url.substring_char(0, 7));
        if head == String::from_str("http://") {
            let mut r = String::from_str("https://");
            r.append(url.substring_char(7, n));
            return r;
        }
    }
    String::from_str(url)
}

pub fn extract_default_server(spec: &JsonValue) -> (r: String)
    ensures
        r@ == default_server_of(*spec),
{
    let url: &str = match spec.field("servers") {
        Some(JsonValue::Array(servers)) => {
            if servers.len() > 0 {
                match servers[0].field("url") {
                    Some(JsonValue::Str(u)) => u.as_str(),
                    _ => "http://localhost",
                }
            } else {
                "http://localhost"
            }
        },
        _ => "http://localhost",
    };
    prefer_https(url)
}

/// Parses the text of an OpenAPI document, which must be valid JSON.
pub fn parse_spec(contents: &str) -> (r: JsonValue)
    requires
        parsed_json(contents@) is Some,
    ensures
        parsed_json(contents@) == Some(r),
{
    parse_json(contents).unwrap()
}

/// Parses the text of an OpenAPI document; `None` when it is not valid JSON.
pub fn try_parse_spec(contents: &str) -> (r: Option<JsonValue>)
    ensures
        r == parsed_json(contents@),
{
    match parse_json(contents) {
        Some(_) => Some(parse_spec(contents)),
        None => None,
    }
}

/// The document's `paths` object, which must be there.
pub fn extract_paths(spec: &JsonValue) -> (r: &Vec<(String, JsonValue)>)
    requires
        spec.field_of("paths"@) matches Some(JsonValue::Object(_)),
    ensures
        spec.field_of("paths"@) == Some(JsonValue::Object(*r)),
{
    spec.field("paths").unwrap().as_object().unwrap()
}

} // verus!
