//! The parts of an OpenAPI document the generators read: operation parameters and
//! header API-key security schemes, decoded from the JSON model.

use vstd::prelude::*;
use crate::json::{JsonValue, entries_lookup, deref_opt};

verus! {

/// Where a parameter travels in a request (the `in` member of an OpenAPI parameter).
#[derive(Debug, Clone, Copy, PartialEq, Eq, Structural)]
pub enum ParameterLocation {
    Header,
    Query,
    Path,
}

/// An OpenAPI parameter: `{"name": .., "in": .., "required": ..}`, where `required`
/// defaults to `false`.
#[derive(Debug, Clone)]
pub struct Parameter {
    pub name: String,
    pub location: ParameterLocation,
    pub required: bool,
}

/// The kinds of security scheme the generators understand.
#[derive(Debug, Clone, Copy, PartialEq, Eq, Structural)]
pub enum SecuritySchemeType {
    ApiKey,
}

/// An OpenAPI security scheme: `{"type": "apiKey", "name": .., "in": ..}`.
#[derive(Debug, Clone)]
pub struct SecurityScheme {
    pub scheme_type: SecuritySchemeType,
    pub name: String,
    pub location: ParameterLocation,
}

/// The location a variant name denotes.
pub open spec fn location_named(s: Seq<char>) -> Option<ParameterLocation> {
    if s == "header"@ {
        Some(ParameterLocation::Header)
    } else if s == "query"@ {
        Some(ParameterLocation::Query)
    } else if s == "path"@ {
        Some(ParameterLocation::Path)
    } else {
        None
    }
}

/// The scheme type a variant name denotes.
pub open spec fn scheme_type_named(s: Seq<char>) -> Option<SecuritySchemeType> {
    if s == "apiKey"@ {
        Some(SecuritySchemeType::ApiKey)
    } else {
        None
    }
}

/// The variant name a JSON value spells for a field-less enum: a string, or an object
/// with a single member whose value is `null`.
pub open spec fn unit_variant_name(v: JsonValue) -> Option<Seq<char>> {
    match v {
        JsonValue::Str(s) => Some(s@),
        JsonValue::Object(entries) => {
            if entries@.len() == 1 && entries@[0].1 is Null {
                Some(entries@[0].0@)
            } else {
                None
            }
        },
        _ => None,
    }
}

pub open spec fn location_from_json(v: JsonValue) -> Option<ParameterLocation> {
    match unit_variant_name(v) {
        Some(s) => location_named(s),
        None => None,
    }
}

pub open spec fn scheme_type_from_json(v: JsonValue) -> Option<SecuritySchemeType> {
    match unit_variant_name(v) {
        Some(s) => scheme_type_named(s),
        None => None,
    }
}

/// The boolean a `required` member gives: `false` when absent, the boolean when it is one,
/// nothing (a decoding failure) otherwise.
pub open spec fn required_from_json(v: Option<JsonValue>) -> Option<bool> {
    match v {
        None => Some(false),
        Some(JsonValue::Bool(b)) => Some(b),
        _ => None,
    }
}

/// A parameter from its three decoded parts, when all three decoded.
pub open spec fn parameter_from_parts(
    name: Option<JsonValue>,
    location: Option<JsonValue>,
    required: Option<bool>,
) -> Option<Parameter> {
    match (name, location, required) {
        (Some(JsonValue::Str(n)), Some(l), Some(r)) => match location_from_json(l) {
            Some(loc) => Some(Parameter { name: n, location: loc, required: r }),
            None => None,
        },
        _ => None,
    }
}

/// The parameter a JSON value decodes to. An object needs a string `name` and a valid
/// `in`, and may have a boolean `required` (absent means `false`); other members are
/// ignored. An array is read by position: `[name, in]` or `[name, in, required]`.
/// Anything else decodes to nothing.
pub open spec fn parameter_from_json(v: JsonValue) -> Option<Parameter> {
    match v {
        JsonValue::Object(entries) => parameter_from_parts(
            entries_lookup(entries@, "name"@),
            entries_lookup(entries@, "in"@),
            required_from_json(entries_lookup(entries@, "required"@)),
        ),
        JsonValue::Array(items) => {
            if items@.len() == 2 {
                parameter_from_parts(Some(items@[0]), Some(items@[1]), Some(false))
            } else if items@.len() == 3 {
                parameter_from_parts(
                    Some(items@[0]),
                    Some(items@[1]),
                    required_from_json(Some(items@[2])),
                )
            } else {
                None
            }
        },
        _ => None,
    }
}

/// A security scheme from its three decoded parts, when all three decoded.
pub open spec fn scheme_from_parts(
    scheme_type: Option<JsonValue>,
    name: Option<JsonValue>,
    location: Option<JsonValue>,
) -> Option<SecurityScheme> {
    match (scheme_type, name, location) {
        (Some(t), Some(JsonValue::Str(n)), Some(l)) => match (
            scheme_type_from_json(t),
            location_from_json(l),
        ) {
            (Some(st), Some(loc)) => Some(
                SecurityScheme { scheme_type: st, name: n, location: loc },
            ),
            _ => None,
        },
        _ => None,
    }
}

/// The security scheme a JSON value decodes to: an object with a valid `type`, a string
/// `name` and a valid `in` (other members ignored), or the array `[type, name, in]`.
pub open spec fn scheme_from_json(v: JsonValue) -> Option<SecurityScheme> {
    match v {
        JsonValue::Object(entries) => scheme_from_parts(
            entries_lookup(entries@, "type"@),
            entries_lookup(entries@, "name"@),
            entries_lookup(entries@, "in"@),
        ),
        JsonValue::Array(items) => {
            if items@.len() == 3 {
                scheme_from_parts(Some(items@[0]), Some(items@[1]), Some(items@[2]))
            } else {
                None
            }
        },
        _ => None,
    }
}

/// The variant name spelled by a field-less enum value.
fn variant_name(v: &JsonValue) -> (r: Option<&String>)
    ensures
        match r {
            Some(s) => unit_variant_name(*v) == Some(s@),
            None => unit_variant_name(*v) is None,
        },
{
    match v {
        JsonValue::Str(s) => Some(s),
        JsonValue::Object(entries) => {
            if entries.len() == 1 {
                match &entries[0].1 {
                    JsonValue::Null => Some(&entries[0].0),
                    _ => None,
                }
            } else {
                None
            }
        },
        _ => None,
    }
}

fn decode_location(v: &JsonValue) -> (r: Option<ParameterLocation>)
    ensures
        r == location_from_json(*v),
{
    match variant_name(v) {
        Some(s) => {
            if *s == String::from_str("header") {
                Some(ParameterLocation::Header)
            } else if *s == String::from_str("query") {
                Some(ParameterLocation::Query)
            } else if *s == String::from_str("path") {
                Some(ParameterLocation::Path)
            } else {
                None
            }
        },
        None => None,
    }
}

fn decode_scheme_type(v: &JsonValue) -> (r: Option<SecuritySchemeType>)
    ensures
        r == scheme_type_from_json(*v),
{
    match variant_name(v) {
        Some(s) => {
            if *s == String::from_str("apiKey") {
                Some(SecuritySchemeType::ApiKey)
            } else {
                None
            }
        },
        None => None,
    }
}

fn decode_required(v: Option<&JsonValue>) -> (r: Option<bool>)
    ensures
        r == required_from_json(deref_opt(v)),
{
    match v {
        None => Some(false),
        Some(JsonValue::Bool(b)) => Some(*b),
        Some(_) => None,
    }
}

fn parameter_parts(
    name: Option<&JsonValue>,
    location: Option<&JsonValue>,
    required: Option<bool>,
) -> (r: Option<Parameter>)
    ensures
        r == parameter_from_parts(deref_opt(name), deref_opt(location), required),
{
    match (name, location, required) {
        (Some(JsonValue::Str(n)), Some(l), Some(req)) => match decode_location(l) {
            Some(loc) => Some(Parameter { name: n.clone(), location: loc, required: req }),
            None => None,
        },
        _ => None,
    }
}

/// Decodes one parameter object (or positional array).
pub fn decode_parameter(v: &JsonValue) -> (r: Option<Parameter>)
    ensures
        r == parameter_from_json(*v),
{
    match v {
        JsonValue::Object(_) => parameter_parts(
            v.field("name"),
            v.field("in"),
            decode_required(v.field("required")),
        ),
        JsonValue::Array(items) => {
            if items.len() == 2 {
                parameter_parts(Some(&items[0]), Some(&items[1]), Some(false))
            } else if items.len() == 3 {
                parameter_parts(Some(&items[0]), Some(&items[1]), decode_required(Some(&items[2])))
            } else {
                None
            }
        },
        _ => None,
    }
}

fn scheme_parts(
    scheme_type: Option<&JsonValue>,
    name: Option<&JsonValue>,
    location: Option<&JsonValue>,
) -> (r: Option<SecurityScheme>)
    ensures
        r == scheme_from_parts(deref_opt(scheme_type), deref_opt(name), deref_opt(location)),
{
    match (scheme_type, name, location) {
        (Some(t), Some(JsonValue::Str(n)), Some(l)) => match (decode_scheme_type(t), decode_location(l)) {
            (Some(st), Some(loc)) => Some(SecurityScheme { scheme_type: st, name: n.clone(), location: loc }),
            _ => None,
        },
        _ => None,
    }
}

/// Decodes one security scheme object (or positional array).
pub fn decode_security_scheme(v: &JsonValue) -> (r: Option<SecurityScheme>)
    ensures
        r == scheme_from_json(*v),
{
    match v {
        JsonValue::Object(_) => scheme_parts(v.field("type"), v.field("name"), v.field("in")),
        JsonValue::Array(items) => {
            if items.len() == 3 {
                scheme_parts(Some(&items[0]), Some(&items[1]), Some(&items[2]))
            } else {
                None
            }
        },
        _ => None,
    }
}

/// The decodable parameters among `items` that are in `location`, in order.
pub open spec fn located_parameters(items: Seq<JsonValue>, location: ParameterLocation) -> Seq<
    Parameter,
>
    decreases items.len(),
{
    if items.len() == 0 {
        seq![]
    } else {
        located_parameters(items.drop_last(), location) + match parameter_from_json(items.last()) {
            Some(p) => if p.location == location {
                seq![p]
            } else {
                seq![]
            },
            None => seq![],
        }
    }
}

/// The parameters of an operation object that are in `location`: those of its
/// `parameters` array that decode, in order; none when there is no such array.
pub open spec fn operation_parameters_of(operation: JsonValue, location: ParameterLocation) -> Seq<
    Parameter,
> {
    match operation.field_of("parameters"@) {
        Some(JsonValue::Array(items)) => located_parameters(items@, location),
        _ => seq![],
    }
}

/// The parameters in `location` of the operations of a path item, method by method.
pub open spec fn method_parameters(
    methods: Seq<(String, JsonValue)>,
    location: ParameterLocation,
) -> Seq<Parameter>
    decreases methods.len(),
{
    if methods.len() == 0 {
        seq![]
    } else {
        method_parameters(methods.drop_last(), location) + operation_parameters_of(
            methods.last().1,
            location,
        )
    }
}

/// The parameters in `location` of a path item; a path item that is not an object has
/// none.
pub open spec fn path_item_parameters(item: JsonValue, location: ParameterLocation) -> Seq<
    Parameter,
> {
    match item {
        JsonValue::Object(methods) => method_parameters(methods@, location),
        _ => seq![],
    }
}

/// The parameters in `location` of all path items, path by path.
pub open spec fn paths_parameters(paths: Seq<(String, JsonValue)>, location: ParameterLocation) -> Seq<
    Parameter,
>
    decreases paths.len(),
{
    if paths.len() == 0 {
        seq![]
    } else {
        paths_parameters(paths.drop_last(), location) + path_item_parameters(
            paths.last().1,
            location,
        )
    }
}

/// The parameters in `location` of every operation of the document's `paths` object
/// (none when `paths` is missing or not an object).
pub open spec fn document_parameters(document: JsonValue, location: ParameterLocation) -> Seq<
    Parameter,
> {
    match document.field_of("paths"@) {
        Some(JsonValue::Object(paths)) => paths_parameters(paths@, location),
        _ => seq![],
    }
}

/// The header a security scheme adds to every request: a required header parameter
/// named after the scheme, for an API key sent in a header; nothing otherwise.
pub open spec fn scheme_header(scheme: SecurityScheme) -> Seq<Parameter> {
    if scheme.scheme_type == SecuritySchemeType::ApiKey && scheme.location
        == ParameterLocation::Header {
        seq![Parameter { name: scheme.name, location: scheme.location, required: true }]
    } else {
        seq![]
    }
}

/// The headers of the decodable security schemes among `schemes`, in order.
pub open spec fn schemes_headers(schemes: Seq<(String, JsonValue)>) -> Seq<Parameter>
    decreases schemes.len(),
{
    if schemes.len() == 0 {
        seq![]
    } else {
        schemes_headers(schemes.drop_last()) + match scheme_from_json(schemes.last().1) {
            Some(s) => scheme_header(s),
            None => seq![],
        }
    }
}

/// The headers of the document's `components.securitySchemes` (none when that is
/// missing or not an object).
pub open spec fn document_security_headers(document: JsonValue) -> Seq<Parameter> {
    match document.field_of("components"@) {
        Some(components) => match components.field_of("securitySchemes"@) {
            Some(JsonValue::Object(schemes)) => schemes_headers(schemes@),
            _ => seq![],
        },
        None => seq![],
    }
}

/// A location is spelled `header`, `query` or `path`, as a string or as the only member
/// (with a `null` value) of an object; nothing else spells one.
pub proof fn lemma_location_spelling(v: JsonValue)
    ensures
        location_from_json(v) is Some ==> (v matches JsonValue::Str(_) || (v matches JsonValue::Object(
            entries,
        ) && entries@.len() == 1 && entries@[0].1 is Null)),
        v matches JsonValue::Str(s) ==> {
            &&& (location_from_json(v) == Some(ParameterLocation::Header) <==> s@ == seq![
                'h',
                'e',
                'a',
                'd',
                'e',
                'r',
            ])
            &&& (location_from_json(v) == Some(ParameterLocation::Query) <==> s@ == seq![
                'q',
                'u',
                'e',
                'r',
                'y',
            ])
            &&& (location_from_json(v) == Some(ParameterLocation::Path) <==> s@ == seq![
                'p',
                'a',
                't',
                'h',
            ])
        },
{
    reveal_strlit("header");
    reveal_strlit("query");
    reveal_strlit("path");
    assert("header"@ =~= seq!['h', 'e', 'a', 'd', 'e', 'r']);
    assert("query"@ =~= seq!['q', 'u', 'e', 'r', 'y']);
    assert("path"@ =~= seq!['p', 'a', 't', 'h']);
}

/// A parameter object decodes when its `name` is a string, its `in` a location, and its
/// `required` absent or a boolean; the parameter then carries that name and location and
/// is required exactly when `required` is `true` (an absent `required` means optional).
pub proof fn lemma_parameter_object_decoding(entries: Vec<(String, JsonValue)>)
    ensures
        ({
            let name = entries_lookup(entries@, "name"@);
            let location = entries_lookup(entries@, "in"@);
            let required = entries_lookup(entries@, "required"@);
            let decoded = parameter_from_json(JsonValue::Object(entries));
            &&& decoded is Some <==> ((name matches Some(JsonValue::Str(_))) && (location matches Some(
                l,
            ) && location_from_json(l) is Some) && (required is None || (required matches Some(
                JsonValue::Bool(_),
            ))))
            &&& decoded matches Some(p) ==> {
                &&& name == Some(JsonValue::Str(p.name))
                &&& location_from_json(location->0) == Some(p.location)
                &&& (p.required <==> required == Some(JsonValue::Bool(true)))
            }
        }),
{
}

proof fn lemma_located_in(items: Seq<JsonValue>, location: ParameterLocation)
    ensures
        forall|i: int|
            0 <= i < located_parameters(items, location).len() ==> (#[trigger] located_parameters(
                items,
                location,
            )[i]).location == location,
    decreases items.len(),
{
    if items.len() > 0 {
        lemma_located_in(items.drop_last(), location);
    }
}

proof fn lemma_methods_in(methods: Seq<(String, JsonValue)>, location: ParameterLocation)
    ensures
        forall|i: int|
            0 <= i < method_parameters(methods, location).len() ==> (#[trigger] method_parameters(
                methods,
                location,
            )[i]).location == location,
    decreases methods.len(),
{
    if methods.len() > 0 {
        lemma_methods_in(methods.drop_last(), location);
        let last = methods.last().1;
        if let Some(JsonValue::Array(items)) = last.field_of("parameters"@) {
            lemma_located_in(items@, location);
        }
        let a = method_parameters(methods.drop_last(), location);
        let b = operation_parameters_of(last, location);
        assert forall|i: int| 0 <= i < (a + b).len() implies (#[trigger] (a + b)[i]).location
            == location by {
            if i >= a.len() {
                assert((a + b)[i] == b[i - a.len()]);
            }
        }
    }
}

proof fn lemma_paths_in(paths: Seq<(String, JsonValue)>, location: ParameterLocation)
    ensures
        forall|i: int|
            0 <= i < paths_parameters(paths, location).len() ==> (#[trigger] paths_parameters(
                paths,
                location,
            )[i]).location == location,
    decreases paths.len(),
{
    if paths.len() > 0 {
        lemma_paths_in(paths.drop_last(), location);
        let last = paths.last().1;
        if let JsonValue::Object(methods) = last {
            lemma_methods_in(methods@, location);
        }
        let a = paths_parameters(paths.drop_last(), location);
        let b = path_item_parameters(last, location);
        assert forall|i: int| 0 <= i < (a + b).len() implies (#[trigger] (a + b)[i]).location
            == location by {
            if i >= a.len() {
                assert((a + b)[i] == b[i - a.len()]);
            }
        }
    }
}

/// Every parameter collected from a document's operations for a location is in that
/// location.
pub proof fn lemma_document_parameters_located(document: JsonValue, location: ParameterLocation)
    ensures
        forall|i: int|
            0 <= i < document_parameters(document, location).len() ==> (
            #[trigger] document_parameters(document, location)[i]).location == location,
{
    if let Some(JsonValue::Object(paths)) = document.field_of("paths"@) {
        lemma_paths_in(paths@, location);
    }
}

proof fn lemma_schemes_required_headers(schemes: Seq<(String, JsonValue)>)
    ensures
        forall|i: int|
            0 <= i < schemes_headers(schemes).len() ==> {
                &&& (#[trigger] schemes_headers(schemes)[i]).location == ParameterLocation::Header
                &&& schemes_headers(schemes)[i].required
            },
    decreases schemes.len(),
{
    if schemes.len() > 0 {
        lemma_schemes_required_headers(schemes.drop_last());
        let a = schemes_headers(schemes.drop_last());
        let b = match scheme_from_json(schemes.last().1) {
            Some(sc) => scheme_header(sc),
            None => seq![],
        };
        assert(schemes_headers(schemes) == a + b);
        assert forall|i: int| 0 <= i < (a + b).len() implies {
            &&& (#[trigger] (a + b)[i]).location == ParameterLocation::Header
            &&& (a + b)[i].required
        } by {
            if i >= a.len() {
                assert((a + b)[i] == b[i - a.len()]);
            }
        }
    }
}

/// Every security header is a required header parameter named after an API-key scheme
/// sent in a header.
pub proof fn lemma_security_headers_are_required_headers(document: JsonValue)
    ensures
        forall|i: int|
            0 <= i < document_security_headers(document).len() ==> {
                &&& (#[trigger] document_security_headers(document)[i]).location
                    == ParameterLocation::Header
                &&& document_security_headers(document)[i].required
            },
{
    if let Some(components) = document.field_of("components"@) {
        if let Some(JsonValue::Object(schemes)) = components.field_of("securitySchemes"@) {
            lemma_schemes_required_headers(schemes@);
        }
    }
}

pub fn operation_parameters(operation: &JsonValue, location: ParameterLocation) -> (r: Vec<
    Parameter,
>)
    ensures
        r@ == operation_parameters_of(*operation, location),
{
    let mut r: Vec<Parameter> = Vec::new();
    match operation.field("parameters") {
        Some(JsonValue::Array(items)) => {
            let n = items.len();
            let mut i: usize = 0;
            assert(items@.take(0) =~= Seq::<JsonValue>::empty());
            while i < n
                invariant
                    n == items@.len(),
                    i <= n,
                    r@ == located_parameters(items@.take(i as int), location),
                decreases n - i,
            {
                assert(items@.take(i + 1).drop_last() =~= items@.take(i as int));
                assert(items@.take(i + 1).last() == items@[i as int]);
                match decode_parameter(&items[i]) {
                    Some(p) => {
                        if p.location == location {
                            r.push(p);
                        }
                    },
                    None => {},
                }
                i += 1;
            }
            assert(items@.take(n as int) =~= items@);
        },
        _ => {},
    }
    r
}

fn method_parameters_exec(methods: &Vec<(String, JsonValue)>, location: ParameterLocation) -> (r: Vec<
    Parameter,
>)
    ensures
        r@ == method_parameters(methods@, location),
{
    let mut r: Vec<Parameter> = Vec::new();
    let n = methods.len();
    let mut i: usize = 0;
    assert(methods@.take(0) =~= Seq::<(String, JsonValue)>::empty());
    while i < n
        invariant
            n == methods@.len(),
            i <= n,
            r@ == method_parameters(methods@.take(i as int), location),
        decreases n - i,
    {
        assert(methods@.take(i + 1).drop_last() =~= methods@.take(i as int));
        assert(methods@.take(i + 1).last() == methods@[i as int]);
        let mut found = operation_parameters(&methods[i].1, location);
        r.append(&mut found);
        i += 1;
    }
    assert(methods@.take(n as int) =~= methods@);
    r
}

pub fn spec_parameters(spec: &JsonValue, location: ParameterLocation) -> (r: Vec<Parameter>)
    ensures
        r@ == document_parameters(*spec, location),
{
    let mut r: Vec<Parameter> = Vec::new();
    match spec.field("paths") {
        Some(JsonValue::Object(paths)) => {
            let n = paths.len();
            let mut i: usize = 0;
            assert(paths@.take(0) =~= Seq::<(String, JsonValue)>::empty());
            while i < n
                invariant
                    n == paths@.len(),
                    i <= n,
                    r@ == paths_parameters(paths@.take(i as int), location),
                decreases n - i,
            {
                assert(paths@.take(i + 1).drop_last() =~= paths@.take(i as int));
                assert(paths@.take(i + 1).last() == paths@[i as int]);
                match &paths[i].1 {
                    JsonValue::Object(methods) => {
                        let mut found = method_parameters_exec(methods, location);
                        r.append(&mut found);
                    },
                    _ => {
                        assert(r@ + Seq::<Parameter>::empty() =~= r@);
                    },
                }
                i += 1;
            }
            assert(paths@.take(n as int) =~= paths@);
        },
        _ => {},
    }
    r
}

pub fn header_security_schemes(spec: &JsonValue) -> (r: Vec<Parameter>)
    ensures
        r@ == document_security_headers(*spec),
{
    let mut r: Vec<Parameter> = Vec::new();
    let schemes = match spec.field("components") {
        Some(components) => components.field("securitySchemes"),
        None => None,
    };
    match schemes {
        Some(JsonValue::Object(entries)) => {
            let n = entries.len();
            let mut i: usize = 0;
            assert(entries@.take(0) =~= Seq::<(String, JsonValue)>::empty());
            while i < n
                invariant
                    n == entries@.len(),
                    i <= n,
                    r@ == schemes_headers(entries@.take(i as int)),
                decreases n - i,
            {
                assert(entries@.take(i + 1).drop_last() =~= entries@.take(i as int));
                assert(entries@.take(i + 1).last() == entries@[i as int]);
                match decode_security_scheme(&entries[i].1) {
                    Some(scheme) => {
                        if scheme.scheme_type == SecuritySchemeType::ApiKey && scheme.location
                            == ParameterLocation::Header {
                            r.push(
                                Parameter {
                                    name: scheme.name,
                                    location: scheme.location,
                                    required: true,
                                },
                            );
                        }
                    },
                    None => {},
                }
                i += 1;
            }
            assert(entries@.take(n as int) =~= entries@);
        },
        _ => {},
    }
    r
}

} // verus!
