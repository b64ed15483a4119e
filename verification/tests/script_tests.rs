use o2a::document::try_parse_spec;
use o2a::json::JsonValue;
use o2a::openapi::{Parameter, ParameterLocation};
use o2a::script::{
    generate_script, parameters_to_flags, parameters_to_guards, parameters_to_query_lines,
    parameters_to_variables, render_script, replace_path_params, request_body,
};

fn operation(text: &str) -> JsonValue {
    try_parse_spec(text).expect("test operations are valid JSON")
}

#[test]
fn given_get_operation_with_no_parameters_when_generating_script_then_produces_correct_curl_command() {
        let operation = operation(r#"{}"#);
        let script = generate_script("/users", "get", &operation, "../config.sh", &[]);

        assert_eq!(
            script,
            r#"#!/bin/bash
source "$(dirname "$0")/../config.sh"

args=(
  --request GET
  --url "$BASE_URL/users"
)

curl "${args[@]}""#
        );
    }

#[test]
fn given_operation_with_header_parameter_when_generating_script_then_contains_header() {
        let operation = operation(r#"{
            "parameters": [
                {
                    "name": "X-DB-Correlation-Id",
                    "in": "header",
                    "required": true
                }
            ]
        }"#);
        let script = generate_script("/users", "get", &operation, "../../config.sh", &[]);

        assert_eq!(
            script,
            r#"#!/bin/bash
source "$(dirname "$0")/../../config.sh"

args=(
  --request GET
  --url "$BASE_URL/users"
  --header "X-DB-Correlation-Id: $X_DB_CORRELATION_ID"
)

curl "${args[@]}""#
        );
    }

#[test]
fn given_operation_with_multiple_header_parameter_when_generating_script_then_contains_header() {
        let operation = operation(r#"{
            "parameters": [
                {
                    "name": "Authorization",
                    "in": "header",
                    "required": true
                },
                {
                    "name": "AcceptLanguage",
                    "in": "header",
                    "required": true
                }
            ]
        }"#);
        let script = generate_script("/users", "get", &operation, "../../config.sh", &[]);

        assert_eq!(
            script,
            r#"#!/bin/bash
source "$(dirname "$0")/../../config.sh"

args=(
  --request GET
  --url "$BASE_URL/users"
  --header "Authorization: $AUTHORIZATION"
  --header "AcceptLanguage: $ACCEPTLANGUAGE"
)

curl "${args[@]}""#
        );
    }

#[test]
fn given_operation_with_path_parameter_when_generating_script_then_url_contains_shell_variable() {
        let operation = operation(r#"{
            "parameters": [
                {
                    "name": "account-filter-id",
                    "in": "path",
                    "required": true
                }
            ]
        }"#);
        let script = generate_script(
            "/users/{account-filter-id}",
            "get",
            &operation,
            "../../config.sh",
            &[],
        );

        assert_eq!(
            script,
            r#"#!/bin/bash
source "$(dirname "$0")/../../config.sh"

ACCOUNT_FILTER_ID=""

args=(
  --request GET
  --url "$BASE_URL/users/$ACCOUNT_FILTER_ID"
)

curl "${args[@]}""#
        );
    }

#[test]
fn given_operation_with_query_parameters_when_generating_script_then_contains_query_parameters() {
        let operation = operation(r#"{
            "parameters": [
                {
                    "name": "status",
                    "in": "query",
                    "required": true
                },
                {
                    "name": "limit",
                    "in": "query",
                    "required": true
                }

            ]
        }"#);
        let script = generate_script("/users", "get", &operation, "../../config.sh", &[]);

        assert_eq!(
            script,
            r#"#!/bin/bash
source "$(dirname "$0")/../../config.sh"

STATUS=""
LIMIT=""

: "${STATUS:?STATUS is required}"
: "${LIMIT:?LIMIT is required}"

args=(
  --request GET
  --url "$BASE_URL/users"
)

args+=(--url-query "status=$STATUS")
args+=(--url-query "limit=$LIMIT")

curl "${args[@]}""#
        );
    }

#[test]
fn given_operation_with_required_and_optional_query_parameters_when_generating_script_then_query_parameters() {
        let operation = operation(r#"{
            "parameters": [
                {
                    "name": "status",
                    "in": "query",
                    "required": true
                },
                {
                    "name": "limit",
                    "in": "query",
                    "required": false
                }
            ]
        }"#);
        let script = generate_script("/users", "get", &operation, "../../config.sh", &[]);

        assert_eq!(
            script,
            r#"#!/bin/bash
source "$(dirname "$0")/../../config.sh"

STATUS=""
LIMIT=""

: "${STATUS:?STATUS is required}"

args=(
  --request GET
  --url "$BASE_URL/users"
)

args+=(--url-query "status=$STATUS")
[[ -n "$LIMIT" ]] && args+=(--url-query "limit=$LIMIT")

curl "${args[@]}""#
        );
    }

#[test]
fn given_operation_with_optional_query_parameters_when_generating_script_then_query_parameters() {
        let operation = operation(r#"{
            "parameters": [
                {
                    "name": "limit",
                    "in": "query",
                    "required": false
                }
            ]
        }"#);
        let script = generate_script("/users", "get", &operation, "../../config.sh", &[]);

        assert_eq!(
            script,
            r#"#!/bin/bash
source "$(dirname "$0")/../../config.sh"

LIMIT=""

args=(
  --request GET
  --url "$BASE_URL/users"
)

[[ -n "$LIMIT" ]] && args+=(--url-query "limit=$LIMIT")

curl "${args[@]}""#
        );
    }

#[test]
fn given_operation_with_optional_query_parameters_with_no_required_field_when_generating_script_then_query_parameters() {
        let operation = operation(r#"{
            "parameters": [
                {
                    "name": "limit",
                    "in": "query"
                }
            ]
        }"#);
        let script = generate_script("/users", "get", &operation, "../../config.sh", &[]);

        assert_eq!(
            script,
            r#"#!/bin/bash
source "$(dirname "$0")/../../config.sh"

LIMIT=""

args=(
  --request GET
  --url "$BASE_URL/users"
)

[[ -n "$LIMIT" ]] && args+=(--url-query "limit=$LIMIT")

curl "${args[@]}""#
        );
    }

#[test]
fn given_operation_with_query_and_path_parameters_when_generating_script_then_contains_query_parameters() {
        let operation = operation(r#"{
            "parameters": [
                {
                    "name": "status",
                    "in": "query",
                    "required": true
                },
                {
                    "name": "id",
                    "in": "path",
                    "required": true
                }
            ]
        }"#);
        let script = generate_script("/users/{id}", "get", &operation, "../../config.sh", &[]);

        assert_eq!(
            script,
            r#"#!/bin/bash
source "$(dirname "$0")/../../config.sh"

ID=""
STATUS=""

: "${STATUS:?STATUS is required}"

args=(
  --request GET
  --url "$BASE_URL/users/$ID"
)

args+=(--url-query "status=$STATUS")

curl "${args[@]}""#
        );
    }

#[test]
fn given_security_scheme_header_when_generating_script_then_contains_security_header() {
        let operation = operation(r#"{}"#);

        let security_headers = vec![Parameter {
            name: String::from("X-IBM-Client-Id"),
            location: ParameterLocation::Header,
            required: true,
        }];
        let script = generate_script(
            "/users",
            "get",
            &operation,
            "../.config.sh",
            &security_headers,
        );

        assert_eq!(
            script,
            r#"#!/bin/bash
source "$(dirname "$0")/../.config.sh"

args=(
  --request GET
  --url "$BASE_URL/users"
  --header "X-IBM-Client-Id: $X_IBM_CLIENT_ID"
)

curl "${args[@]}""#
        );
    }

fn param(name: &str, location: ParameterLocation, required: bool) -> Parameter {
    Parameter { name: name.to_string(), location, required }
}

#[test]
fn path_parameters_become_shell_variables_in_the_url() {
    assert_eq!(
        replace_path_params("/users/{user-id}/orders/{orderId}"),
        "/users/$USER_ID/orders/$ORDERID"
    );
    assert_eq!(replace_path_params("/a//{b}/"), "/a//$B/");
    assert_eq!(replace_path_params(""), "");
    assert_eq!(replace_path_params("{x"), "{x");
}

#[test]
fn query_lines_distinguish_required_parameters() {
    let params = vec![
        param("page-size", ParameterLocation::Query, true),
        param("q", ParameterLocation::Query, false),
    ];
    assert_eq!(
        parameters_to_query_lines(&params),
        vec![
            "args+=(--url-query \"page-size=$PAGE_SIZE\")".to_string(),
            "[[ -n \"$Q\" ]] && args+=(--url-query \"q=$Q\")".to_string(),
        ]
    );
}

#[test]
fn only_required_parameters_are_guarded() {
    let params = vec![
        param("a", ParameterLocation::Query, false),
        param("b", ParameterLocation::Query, true),
    ];
    assert_eq!(
        parameters_to_guards(&params),
        vec![": \"${B:?B is required}\"".to_string()]
    );
    assert!(parameters_to_guards(&[]).is_empty());
}

#[test]
fn every_parameter_gets_an_empty_variable() {
    let params = vec![
        param("id", ParameterLocation::Path, true),
        param("x.y", ParameterLocation::Query, false),
    ];
    assert_eq!(
        parameters_to_variables(&params),
        vec!["ID=\"\"".to_string(), "X_Y=\"\"".to_string()]
    );
}

#[test]
fn flags_are_made_by_the_given_formatter() {
    let params = vec![
        param("Accept", ParameterLocation::Header, false),
        param("x-id", ParameterLocation::Header, true),
    ];
    let flags = parameters_to_flags(&params, |name: &str, var: &str| format!("{name}|{var}"));
    assert_eq!(flags, vec!["Accept|ACCEPT".to_string(), "x-id|X_ID".to_string()]);
}

#[test]
fn method_is_upper_cased_in_the_request() {
    let op = operation("{}");
    let script = generate_script("/", "patch", &op, ".config.sh", &[]);
    assert!(script.contains("  --request PATCH\n"));
    let rendered = render_script("patch", "/", &op, ".config.sh", &[]);
    assert!(rendered.contains("  --request patch\n"));
}

#[test]
fn script_with_every_kind_of_parameter() {
    let op = operation(
        r#"{ "parameters": [
            { "name": "q", "in": "query" },
            { "name": "id", "in": "path", "required": true },
            { "name": "Trace", "in": "header" },
            { "name": "broken", "in": "cookie" },
            { "in": "query" },
            ["page", "query", true]
        ] }"#,
    );
    let security = vec![param("Api-Key", ParameterLocation::Header, true)];
    let script = generate_script("/items/{id}", "delete", &op, "../../.config.sh", &security);
    assert_eq!(
        script,
        r#"#!/bin/bash
source "$(dirname "$0")/../../.config.sh"

ID=""
Q=""
PAGE=""

: "${PAGE:?PAGE is required}"

args=(
  --request DELETE
  --url "$BASE_URL/items/$ID"
  --header "Trace: $TRACE"
  --header "Api-Key: $API_KEY"
)

[[ -n "$Q" ]] && args+=(--url-query "q=$Q")
args+=(--url-query "page=$PAGE")

curl "${args[@]}""#
    );
}

#[test]
fn operation_with_request_body_sends_it_as_data() {
    let op = operation(
        r#"{"requestBody": {"content": {"application/json": {"schema": {"type": "object"}}}}}"#,
    );
    let script = generate_script("/items", "post", &op, "../.config.sh", &[]);
    assert_eq!(
        script,
        r#"#!/bin/bash
source "$(dirname "$0")/../.config.sh"

REQUEST_BODY="{}"

args=(
  --request POST
  --url "$BASE_URL/items"
  --data "$REQUEST_BODY"
)

curl "${args[@]}""#
    );
}

#[test]
fn request_body_holds_the_json_example() {
    let op = operation(
        r#"{
            "parameters": [{"name": "id", "in": "path", "required": true}],
            "requestBody": {"content": {"application/json": {
                "example": {"name": "a \"b\"", "tags": ["x", 1, true, null], "cost": "$5"}
            }}}
        }"#,
    );
    assert_eq!(
        request_body(&op).unwrap(),
        r#"{"cost":"$5","name":"a \"b\"","tags":["x",1,true,null]}"#
    );
    let script = generate_script("/items/{id}", "put", &op, ".config.sh", &[]);
    assert_eq!(
        script,
        r#"#!/bin/bash
source "$(dirname "$0")/.config.sh"

ID=""

REQUEST_BODY="{\"cost\":\"\$5\",\"name\":\"a \\\"b\\\"\",\"tags\":[\"x\",1,true,null]}"

args=(
  --request PUT
  --url "$BASE_URL/items/$ID"
  --data "$REQUEST_BODY"
)

curl "${args[@]}""#
    );
}

#[test]
fn request_body_without_json_example_is_an_empty_object() {
    for body in [
        r#"{"requestBody": {}}"#,
        r#"{"requestBody": null}"#,
        r#"{"requestBody": {"content": {"text/plain": {"example": "x"}}}}"#,
    ] {
        assert_eq!(request_body(&operation(body)).as_deref(), Some("{}"), "{body}");
    }
    assert!(request_body(&operation(r#"{"parameters": []}"#)).is_none());
    let script = generate_script("/a", "get", &operation("{}"), ".config.sh", &[]);
    assert!(!script.contains("REQUEST_BODY"));
}

#[test]
fn request_body_example_may_be_any_json_value() {
    let op = operation(r#"{"requestBody": {"content": {"application/json": {"example": "line\nbreak\u0001"}}}}"#);
    assert_eq!(request_body(&op).unwrap(), r#""line\nbreak\u0001""#);
    let op = operation(r#"{"requestBody": {"content": {"application/json": {"example": [[], {}, 2.5]}}}}"#);
    assert_eq!(request_body(&op).unwrap(), "[[],{},2.5]");
}
