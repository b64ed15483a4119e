//! The bash script generated for one operation: shell variables for its path and query
//! parameters, checks that required query parameters are set, and a curl call.

use vstd::prelude::*;
use crate::json::{JsonValue, json_text, push_json};
use crate::openapi::{Parameter, ParameterLocation, operation_parameters, operation_parameters_of};
use crate::config::{bash_name, bash_variable_name, lemma_bash_name_shape};
use crate::text::{
    push_char,
    split_chars, join_chars, views, split_on, join_with, lemma_split_nonempty, lemma_split_pieces_free,
    lemma_split_join,
};

verus! {

/// `--header "<name>: $<var>"`
pub open spec fn header_flag(name: Seq<char>, var: Seq<char>) -> Seq<char> {
    "--header \""@ + name + ": $"@ + var + "\""@
}

/// The line that adds a query parameter to the request: unconditional for a required
/// parameter, only when its variable is non-empty otherwise.
pub open spec fn query_line(p: Parameter) -> Seq<char> {
    let name = p.name@;
    let var = bash_name(p.name@);
    if p.required {
        "args+=(--url-query \""@ + name + "=$"@ + var + "\")"@
    } else {
        "[[ -n \"$"@ + var + "\" ]] && args+=(--url-query \""@ + name + "=$"@ + var + "\")"@
    }
}

/// The line that stops the script when the variable of a required parameter is unset or
/// empty.
pub open spec fn guard_line(var: Seq<char>) -> Seq<char> {
    ": \"${"@ + var + ":?"@ + var + " is required}\""@
}

/// The declaration `<VAR>=""` of a parameter's variable.
pub open spec fn variable_line(p: Parameter) -> Seq<char> {
    bash_name(p.name@) + "=\"\""@
}

pub open spec fn query_lines_of(params: Seq<Parameter>) -> Seq<Seq<char>> {
    params.map_values(|p: Parameter| query_line(p))
}

/// The guard lines of the required parameters, in order.
pub open spec fn guards_of(params: Seq<Parameter>) -> Seq<Seq<char>>
    decreases params.len(),
{
    if params.len() == 0 {
        seq![]
    } else if params.last().required {
        guards_of(params.drop_last()).push(guard_line(bash_name(params.last().name@)))
    } else {
        guards_of(params.drop_last())
    }
}

pub open spec fn variable_lines_of(params: Seq<Parameter>) -> Seq<Seq<char>> {
    params.map_values(|p: Parameter| variable_line(p))
}

pub open spec fn header_flags_of(params: Seq<Parameter>) -> Seq<Seq<char>> {
    params.map_values(|p: Parameter| header_flag(p.name@, bash_name(p.name@)))
}

/// A path segment in the request URL: a parameter segment `{name}` becomes `$NAME`.
pub open spec fn segment_variable(segment: Seq<char>) -> Seq<char> {
    if segment.len() > 0 && segment[0] == '{' && segment.last() == '}' {
        seq!['$'] + bash_name(segment.subrange(1, segment.len() - 1))
    } else {
        segment
    }
}

/// The request path with each parameter segment replaced by its shell variable.
pub open spec fn path_with_variables(path: Seq<char>) -> Seq<char> {
    join_chars(
        split_chars(path, '/').map_values(|seg: Seq<char>| segment_variable(seg)),
        seq!['/'],
    )
}

/// The request URL keeps the shape of the API path: splitting the path with variables at
/// `/` gives, one for one, the path's segments with each parameter segment replaced by
/// its variable.
pub proof fn lemma_url_path_mirrors_path(path: Seq<char>)
    ensures
        split_chars(path_with_variables(path), '/') == split_chars(path, '/').map_values(
            |seg: Seq<char>| segment_variable(seg),
        ),
{
    let segments = split_chars(path, '/');
    let parts = segments.map_values(|seg: Seq<char>| segment_variable(seg));
    lemma_split_nonempty(path, '/');
    lemma_split_pieces_free(path, '/');
    assert forall|i: int| 0 <= i < parts.len() implies !(#[trigger] parts[i]).contains('/') by {
        let seg = segments[i];
        assert(!seg.contains('/'));
        if parts[i].contains('/') {
            let k = choose|k: int| 0 <= k < parts[i].len() && parts[i][k] == '/';
            if seg.len() > 0 && seg[0] == '{' && seg.last() == '}' {
                let inner = seg.subrange(1, seg.len() - 1);
                lemma_bash_name_shape(inner);
                assert(k > 0);
                assert(bash_name(inner)[k - 1] == '/');
            } else {
                assert(seg[k] == '/');
            }
        }
    }
    lemma_split_join(parts, '/');
}

/// The URL path keeps every literal segment of the API path as it is and turns each
/// parameter segment `{name}` into `$` and the shell variable of `name`, segment for
/// segment.
pub proof fn lemma_url_keeps_literal_segments(path: Seq<char>)
    ensures
        split_chars(path_with_variables(path), '/').len() == split_chars(path, '/').len(),
        forall|i: int|
            0 <= i < split_chars(path, '/').len() ==> {
                let seg = split_chars(path, '/')[i];
                #[trigger] split_chars(path_with_variables(path), '/')[i] == if seg.len() > 0
                    && seg[0] == '{' && seg[seg.len() - 1] == '}' {
                    seq!['$'] + bash_name(seg.subrange(1, seg.len() - 1))
                } else {
                    seg
                }
            },
{
    lemma_url_path_mirrors_path(path);
}

pub fn parameters_to_query_lines(params: &[Parameter]) -> (r: Vec<String>)
    ensures
        views(r@) == query_lines_of(params@),
{
    let mut r: Vec<String> = Vec::new();
    let n = params.len();
    let mut i: usize = 0;
    while i < n
        invariant
            n == params@.len(),
            i <= n,
            views(r@) =~= query_lines_of(params@.take(i as int)),
        decreases n - i,
    {
        let p = &params[i];
        let name = p.name.as_str();
        let var = bash_variable_name(name);
        let mut line = if p.required {
            String::from_str("args+=(--url-query \"")
        } else {
            let mut l = String::from_str("[[ -n \"$");
            l.append(var.as_str());
            l.append("\" ]] && args+=(--url-query \"");
            l
        };
        line.append(name);
        line.append("=$");
        line.append(var.as_str());
        line.append("\")");
        let ghost prev = r@;
        r.push(line);
        assert(views(r@) =~= views(prev).push(query_line(params@[i as int])));
        assert(params@.take(i + 1) =~= params@.take(i as int).push(params@[i as int]));
        i += 1;
    }
    assert(params@.take(n as int) =~= params@);
    r
}

pub fn parameters_to_guards(params: &[Parameter]) -> (r: Vec<String>)
    ensures
        views(r@) == guards_of(params@),
{
    let mut r: Vec<String> = Vec::new();
    let n = params.len();
    let mut i: usize = 0;
    assert(params@.take(0) =~= Seq::<Parameter>::empty());
    while i < n
        invariant
            n == params@.len(),
            i <= n,
            views(r@) =~= guards_of(params@.take(i as int)),
        decreases n - i,
    {
        assert(params@.take(i + 1).drop_last() =~= params@.take(i as int));
        assert(params@.take(i + 1).last() == params@[i as int]);
        if params[i].required {
            let var = bash_variable_name(params[i].name.as_str());
            let mut line = String::from_str(": \"${");
            line.append(var.as_str());
            line.append(":?");
            line.append(var.as_str());
            line.append(" is required}\"");
            let ghost prev = r@;
            r.push(line);
            assert(views(r@) =~= views(prev).push(guard_line(var@)));
        }
        i += 1;
    }
    assert(params@.take(n as int) =~= params@);
    r
}

pub fn parameters_to_variables(params: &[Parameter]) -> (r: Vec<String>)
    ensures
        views(r@) == variable_lines_of(params@),
{
    let mut r: Vec<String> = Vec::new();
    let n = params.len();
    let mut i: usize = 0;
    while i < n
        invariant
            n == params@.len(),
            i <= n,
            views(r@) =~= variable_lines_of(params@.take(i as int)),
        decreases n - i,
    {
        let mut line = bash_variable_name(params[i].name.as_str());
        line.append("=\"\"");
        let ghost prev = r@;
        r.push(line);
        assert(views(r@) =~= views(prev).push(variable_line(params@[i as int])));
        assert(params@.take(i + 1) =~= params@.take(i as int).push(params@[i as int]));
        i += 1;
    }
    assert(params@.take(n as int) =~= params@);
    r
}

/// `flag` is a result of `format_fn` on the name of `p` and its shell variable.
pub open spec fn made_from<F: Fn(&str, &str) -> String>(format_fn: F, p: Parameter, flag: String) -> bool {
    exists|name: &str, var: &str|
        #![trigger format_fn.ensures((name, var), flag)]
        name@ == p.name@ && var@ == bash_name(p.name@) && format_fn.ensures((name, var), flag)
}

/// The flag that `format_fn` makes of each parameter's name and shell variable, in order.
pub fn parameters_to_flags<F: Fn(&str, &str) -> String>(params: &[Parameter], format_fn: F) -> (r:
    Vec<String>)
    requires
        forall|name: &str, var: &str| #[trigger] format_fn.requires((name, var)),
    ensures
        r@.len() == params@.len(),
        forall|i: int| 0 <= i < params@.len() ==> made_from(format_fn, params@[i], #[trigger] r@[i]),
{
    let mut r: Vec<String> = Vec::new();
    let n = params.len();
    let mut i: usize = 0;
    while i < n
        invariant
            n == params@.len(),
            i <= n,
            r@.len() == i,
            forall|name: &str, var: &str| #[trigger] format_fn.requires((name, var)),
            forall|k: int| 0 <= k < i ==> made_from(format_fn, params@[k], #[trigger] r@[k]),
        decreases n - i,
    {
        let name = params[i].name.as_str();
        let var_string = bash_variable_name(name);
        let var = var_string.as_str();
        let flag = format_fn(name, var);
        assert(made_from(format_fn, params@[i as int], flag));
        let ghost prev = r@;
        r.push(flag);
        assert forall|k: int| 0 <= k < i + 1 implies made_from(format_fn, params@[k], #[trigger] r@[k]) by {
            if k < i {
                assert(r@[k] == prev[k]);
            }
        }
        i += 1;
    }
    r
}

fn segment_to_variable(segment: &str) -> (r: String)
    ensures
        r@ == segment_variable(segment@),
{
    let n = segment.unicode_len();
    if n > 0 && segment.get_char(0) == '{' && segment.get_char(n - 1) == '}' {
        let mut r = String::from_str("$");
        proof {
            reveal_strlit("$");
        }
        let var = bash_variable_name(segment.substring_char(1, n - 1));
        r.append(var.as_str());
        r
    } else {
        String::from_str(segment)
    }
}

pub fn replace_path_params(path: &str) -> (r: String)
    ensures
        r@ == path_with_variables(path@),
{
    let segments = split_on(path, '/');
    let mut out: Vec<String> = Vec::new();
    let mut i: usize = 0;
    while i < segments.len()
        invariant
            i <= segments@.len(),
            views(out@) =~= views(segments@).take(i as int).map_values(
                |seg: Seq<char>| segment_variable(seg),
            ),
        decreases segments@.len() - i,
    {
        let s = segment_to_variable(segments[i].as_str());
        let ghost prev = out@;
        out.push(s);
        assert(views(out@) =~= views(prev).push(s@));
        assert(views(segments@).take(i + 1) =~= views(segments@).take(i as int).push(
            segments@[i as int]@,
        ));
        i += 1;
    }
    assert(views(segments@).take(segments@.len() as int) =~= views(segments@));
    let r = join_with(&out, "/");
    proof {
        reveal_strlit("/");
        assert("/"@ =~= seq!['/']);
    }
    r
}

/// The example of an operation's request body: the `example` of its
/// `content["application/json"]`, when there is one.
pub open spec fn body_example_of(body: JsonValue) -> Option<JsonValue> {
    match body.field_of("content"@) {
        Some(content) => match content.field_of("application/json"@) {
            Some(media) => media.field_of("example"@),
            None => None,
        },
        None => None,
    }
}

/// The JSON text the script sends as the body of the request: `None` when the operation
/// has no `requestBody`; otherwise the JSON example of its `application/json` content,
/// or `{}` when there is none.
pub open spec fn request_body_of(operation: JsonValue) -> Option<Seq<char>> {
    match operation.field_of("requestBody"@) {
        None => None,
        Some(body) => Some(
            match body_example_of(body) {
                Some(example) => json_text(example),
                None => "{}"@,
            },
        ),
    }
}

/// A character as it is written inside a bash double-quoted string: `\`, `"`, `$` and
/// `` ` `` are preceded by a backslash.
pub open spec fn double_quoted_char(c: char) -> Seq<char> {
    if c == '\\' || c == '"' || c == '$' || c == '`' {
        seq!['\\', c]
    } else {
        seq![c]
    }
}

pub open spec fn double_quoted(s: Seq<char>) -> Seq<char>
    decreases s.len(),
{
    if s.len() == 0 {
        Seq::empty()
    } else {
        double_quoted(s.drop_last()) + double_quoted_char(s.last())
    }
}

/// The block declaring `REQUEST_BODY="<body>"`, for an operation with a request body.
pub open spec fn request_body_block(operation: JsonValue) -> Seq<Seq<char>> {
    match request_body_of(operation) {
        Some(text) => seq!["REQUEST_BODY=\""@ + double_quoted(text) + "\""@],
        None => seq![],
    }
}

/// The curl argument that sends the body, for an operation with a request body.
pub open spec fn data_args(operation: JsonValue) -> Seq<Seq<char>> {
    if request_body_of(operation) is Some {
        seq!["  --data \"$REQUEST_BODY\""@]
    } else {
        seq![]
    }
}

/// A block made of the lines, when there are any.
pub open spec fn nonempty_block(lines: Seq<Seq<char>>) -> Seq<Seq<char>> {
    if lines.len() == 0 {
        seq![]
    } else {
        seq![join_chars(lines, "\n"@)]
    }
}

/// The entries of the curl argument array: the method, the URL on `$BASE_URL`, and a
/// header flag per header parameter.
pub open spec fn curl_args(upper_method: Seq<char>, path: Seq<char>, headers: Seq<Parameter>) -> Seq<
    Seq<char>,
> {
    seq![
        "  --request "@ + upper_method,
        "  --url \""@ + ("$BASE_URL"@ + path_with_variables(path)) + "\""@,
    ] + header_flags_of(headers).map_values(|h: Seq<char>| "  "@ + h)
}

/// The blocks of a script, separated by blank lines in the text: the variable
/// declarations (path parameters, then query parameters), the guards of required query
/// parameters, the request body, the argument array (ending with `--data` when there is
/// a body), the query-parameter lines, and the curl call; the variables, guards, body and
/// query lines only when there are any.
pub open spec fn script_blocks(
    upper_method: Seq<char>,
    path: Seq<char>,
    operation: JsonValue,
    security_headers: Seq<Parameter>,
) -> Seq<Seq<char>> {
    let query = operation_parameters_of(operation, ParameterLocation::Query);
    let headers = operation_parameters_of(operation, ParameterLocation::Header) + security_headers;
    nonempty_block(
        variable_lines_of(operation_parameters_of(operation, ParameterLocation::Path) + query),
    ) + nonempty_block(guards_of(query)) + request_body_block(operation) + seq![
        "args=(\n"@ + join_chars(
            curl_args(upper_method, path, headers) + data_args(operation),
            "\n"@,
        ) + "\n)"@,
    ] + nonempty_block(query_lines_of(query)) + seq!["curl \"${args[@]}\""@]
}

/// The text of the script for one operation, with the method already upper-cased: the
/// shebang, the line sourcing the configuration at `config_path` relative to the script,
/// a blank line, and the blocks.
pub open spec fn script_text(
    upper_method: Seq<char>,
    path: Seq<char>,
    operation: JsonValue,
    config_path: Seq<char>,
    security_headers: Seq<Parameter>,
) -> Seq<char> {
    "#!/bin/bash\nsource \"$(dirname \"$0\")/"@ + config_path + "\"\n\n"@ + join_chars(
        script_blocks(upper_method, path, operation, security_headers),
        "\n\n"@,
    )
}

/// The argument array of a script sends, in this order: the method, the URL on
/// `$BASE_URL`, one header flag per header parameter of the operation and then one per
/// security header, each naming the header and reading its shell variable, and finally
/// the body when the operation has one.
pub proof fn lemma_script_sends_every_header(
    upper_method: Seq<char>,
    path: Seq<char>,
    operation: JsonValue,
    security_headers: Seq<Parameter>,
)
    ensures
        ({
            let h = operation_parameters_of(operation, ParameterLocation::Header) + security_headers;
            exists|lines: Seq<Seq<char>>|
                {
                    &&& script_blocks(upper_method, path, operation, security_headers).contains(
                        "args=(\n"@ + join_chars(lines, "\n"@) + "\n)"@,
                    )
                    &&& lines.len() == 2 + h.len() + if request_body_of(operation) is Some {
                        1int
                    } else {
                        0int
                    }
                    &&& lines[0] == "  --request "@ + upper_method
                    &&& lines[1] == "  --url \"$BASE_URL"@ + path_with_variables(path) + "\""@
                    &&& forall|j: int|
                        0 <= j < h.len() ==> #[trigger] lines[2 + j] == "  --header \""@
                            + h[j].name@ + ": $"@ + bash_name(h[j].name@) + "\""@
                    &&& request_body_of(operation) is Some ==> lines[lines.len() - 1]
                        == "  --data \"$REQUEST_BODY\""@
                }
        }),
{
    let h = operation_parameters_of(operation, ParameterLocation::Header) + security_headers;
    let lines = curl_args(upper_method, path, h) + data_args(operation);
    let query = operation_parameters_of(operation, ParameterLocation::Query);
    let blocks = script_blocks(upper_method, path, operation, security_headers);
    let block = "args=(\n"@ + join_chars(lines, "\n"@) + "\n)"@;
    let before = nonempty_block(
        variable_lines_of(operation_parameters_of(operation, ParameterLocation::Path) + query),
    ) + nonempty_block(guards_of(query)) + request_body_block(operation);
    assert(blocks[before.len() as int] == block);
    reveal_strlit("  --header \"");
    reveal_strlit("--header \"");
    reveal_strlit("  ");
    reveal_strlit("  --url \"$BASE_URL");
    reveal_strlit("  --url \"");
    reveal_strlit("$BASE_URL");
    assert("  "@ + "--header \""@ =~= "  --header \""@);
    assert("  --url \""@ + "$BASE_URL"@ =~= "  --url \"$BASE_URL"@);
    assert(lines[1] =~= "  --url \"$BASE_URL"@ + path_with_variables(path) + "\""@);
    assert forall|j: int| 0 <= j < h.len() implies #[trigger] lines[2 + j] == "  --header \""@
        + h[j].name@ + ": $"@ + bash_name(h[j].name@) + "\""@ by {
        assert(lines[2 + j] == "  "@ + header_flags_of(h)[j]);
        assert(lines[2 + j] =~= "  --header \""@ + h[j].name@ + ": $"@ + bash_name(h[j].name@)
            + "\""@);
    }
    assert(blocks.contains(block));
}

proof fn lemma_guards_are_required_ones(params: Seq<Parameter>)
    ensures
        guards_of(params) == params.filter(|p: Parameter| p.required).map_values(
            |p: Parameter|
                ": \"${"@ + bash_name(p.name@) + ":?"@ + bash_name(p.name@) + " is required}\""@,
        ),
    decreases params.len(),
{
    reveal_with_fuel(Seq::<Parameter>::filter, 1);
    if params.len() > 0 {
        lemma_guards_are_required_ones(params.drop_last());
    }
    assert(guards_of(params) =~= params.filter(|p: Parameter| p.required).map_values(
        |p: Parameter|
            ": \"${"@ + bash_name(p.name@) + ":?"@ + bash_name(p.name@) + " is required}\""@,
    ));
}

/// A script declares every path and query parameter of its operation as an empty shell
/// variable `VAR=""`, path parameters first, in its first block; checks that each required
/// query parameter is set, in order; adds each query parameter to the request, without a
/// check when it is required and only when its variable is non-empty otherwise; and ends
/// with the curl call.
pub proof fn lemma_script_parameter_blocks(
    upper_method: Seq<char>,
    path: Seq<char>,
    operation: JsonValue,
    security_headers: Seq<Parameter>,
)
    ensures
        ({
            let blocks = script_blocks(upper_method, path, operation, security_headers);
            let query = operation_parameters_of(operation, ParameterLocation::Query);
            let declared = operation_parameters_of(operation, ParameterLocation::Path) + query;
            let required = query.filter(|p: Parameter| p.required);
            &&& blocks.last() == "curl \"${args[@]}\""@
            &&& declared.len() > 0 ==> exists|lines: Seq<Seq<char>>|
                {
                    &&& blocks[0] == join_chars(lines, "\n"@)
                    &&& lines.len() == declared.len()
                    &&& forall|j: int|
                        0 <= j < declared.len() ==> #[trigger] lines[j] == bash_name(
                            declared[j].name@,
                        ) + "=\"\""@
                }
            &&& required.len() > 0 ==> exists|lines: Seq<Seq<char>>|
                {
                    &&& blocks.contains(join_chars(lines, "\n"@))
                    &&& lines.len() == required.len()
                    &&& forall|j: int|
                        0 <= j < required.len() ==> #[trigger] lines[j] == ": \"${"@ + bash_name(
                            required[j].name@,
                        ) + ":?"@ + bash_name(required[j].name@) + " is required}\""@
                }
            &&& query.len() > 0 ==> exists|lines: Seq<Seq<char>>|
                {
                    &&& blocks.contains(join_chars(lines, "\n"@))
                    &&& lines.len() == query.len()
                    &&& forall|j: int|
                        0 <= j < query.len() ==> #[trigger] lines[j] == if query[j].required {
                            "args+=(--url-query \""@ + query[j].name@ + "=$"@ + bash_name(
                                query[j].name@,
                            ) + "\")"@
                        } else {
                            "[[ -n \"$"@ + bash_name(query[j].name@) + "\" ]] && args+=(--url-query \""@
                                + query[j].name@ + "=$"@ + bash_name(query[j].name@) + "\")"@
                        }
                }
        }),
{
    let blocks = script_blocks(upper_method, path, operation, security_headers);
    let query = operation_parameters_of(operation, ParameterLocation::Query);
    let declared = operation_parameters_of(operation, ParameterLocation::Path) + query;
    let required = query.filter(|p: Parameter| p.required);
    let v = nonempty_block(variable_lines_of(declared));
    let g = nonempty_block(guards_of(query));
    let rb = request_body_block(operation);
    let h = operation_parameters_of(operation, ParameterLocation::Header) + security_headers;
    let args = seq![
        "args=(\n"@ + join_chars(curl_args(upper_method, path, h) + data_args(operation), "\n"@)
            + "\n)"@,
    ];
    let ql = nonempty_block(query_lines_of(query));
    assert(blocks == v + g + rb + args + ql + seq!["curl \"${args[@]}\""@]);
    if declared.len() > 0 {
        let lines = variable_lines_of(declared);
        assert(blocks[0] == v[0]);
        assert(forall|j: int|
            0 <= j < declared.len() ==> #[trigger] lines[j] == bash_name(declared[j].name@)
                + "=\"\""@);
    }
    lemma_guards_are_required_ones(query);
    if required.len() > 0 {
        let lines = guards_of(query);
        assert(blocks[v.len() as int] == g[0]);
        assert(blocks.contains(join_chars(lines, "\n"@)));
    }
    if query.len() > 0 {
        let lines = query_lines_of(query);
        assert(blocks[(v.len() + g.len() + rb.len() + 1) as int] == ql[0]);
        assert(blocks.contains(join_chars(lines, "\n"@)));
    }
}

/// A script of an operation with a request body declares `REQUEST_BODY` with the body's
/// JSON text, escaped for a double-quoted bash string.
pub proof fn lemma_script_declares_body(
    upper_method: Seq<char>,
    path: Seq<char>,
    operation: JsonValue,
    security_headers: Seq<Parameter>,
)
    ensures
        request_body_of(operation) matches Some(text) ==> script_blocks(
            upper_method,
            path,
            operation,
            security_headers,
        ).contains("REQUEST_BODY=\""@ + double_quoted(text) + "\""@),
{
    let query = operation_parameters_of(operation, ParameterLocation::Query);
    let declared = operation_parameters_of(operation, ParameterLocation::Path) + query;
    let v = nonempty_block(variable_lines_of(declared));
    let g = nonempty_block(guards_of(query));
    if request_body_of(operation) is Some {
        let blocks = script_blocks(upper_method, path, operation, security_headers);
        assert(blocks[(v.len() + g.len()) as int] == request_body_block(operation)[0]);
    }
}

/// The body an operation sends: none without a `requestBody`; with one, the JSON text of
/// the `example` of its `application/json` content, or `{}` when there is no such example.
pub proof fn lemma_request_body_source(operation: JsonValue)
    ensures
        match operation.field_of("requestBody"@) {
            None => request_body_of(operation) is None,
            Some(body) => request_body_of(operation) == Some(
                match body.field_of("content"@) {
                    Some(content) => match content.field_of("application/json"@) {
                        Some(media) => match media.field_of("example"@) {
                            Some(example) => json_text(example),
                            None => seq!['{', '}'],
                        },
                        None => seq!['{', '}'],
                    },
                    None => seq!['{', '}'],
                },
            ),
        },
{
    reveal_strlit("{}");
    assert("{}"@ =~= seq!['{', '}']);
}

/// Text without `\`, `"`, `$` or `` ` `` needs no escaping inside double quotes, and each of
/// those characters is preceded by exactly one backslash.
pub proof fn lemma_double_quoted_plain(text: Seq<char>)
    ensures
        (forall|i: int|
            0 <= i < text.len() ==> #[trigger] text[i] != '\\' && text[i] != '"' && text[i] != '$'
                && text[i] != '`') ==> double_quoted(text) == text,
        double_quoted(text + seq!['"']) == double_quoted(text) + seq!['\\', '"'],
        double_quoted(text + seq!['$']) == double_quoted(text) + seq!['\\', '$'],
    decreases text.len(),
{
    if text.len() > 0 {
        lemma_double_quoted_plain(text.drop_last());
        assert((text + seq!['"']).drop_last() =~= text);
        assert((text + seq!['$']).drop_last() =~= text);
        if forall|i: int|
            0 <= i < text.len() ==> #[trigger] text[i] != '\\' && text[i] != '"' && text[i] != '$'
                && text[i] != '`' {
            assert(forall|i: int|
                0 <= i < text.drop_last().len() ==> #[trigger] text.drop_last()[i] == text[i]);
            assert(text.drop_last().push(text.last()) =~= text);
            assert(text[text.len() - 1] == text.last());
        }
    } else {
        assert((text + seq!['"']).drop_last() =~= text);
        assert((text + seq!['$']).drop_last() =~= text);
        assert(double_quoted(text) =~= text);
    }
}

fn push_double_quoted(out: &mut String, s: &str)
    ensures
        final(out)@ == old(out)@ + double_quoted(s@),
{
    let ghost start = out@;
    let n = s.unicode_len();
    let mut i: usize = 0;
    while i < n
        invariant
            n == s@.len(),
            i <= n,
            out@ =~= start + double_quoted(s@.take(i as int)),
        decreases n - i,
    {
        let c = s.get_char(i);
        if c == '\\' || c == '"' || c == '$' || c == '`' {
            push_char(out, '\\');
        }
        push_char(out, c);
        assert(s@.take(i + 1).drop_last() =~= s@.take(i as int));
        assert(s@.take(i + 1).last() == c);
        i += 1;
    }
    assert(s@.take(n as int) =~= s@);
}

/// The JSON text of the operation's request body, if it has one.
pub fn request_body(operation: &JsonValue) -> (r: Option<String>)
    ensures
        match r {
            Some(text) => request_body_of(*operation) == Some(text@),
            None => request_body_of(*operation) is None,
        },
{
    match operation.field("requestBody") {
        None => None,
        Some(body) => {
            let example = match body.field("content") {
                Some(content) => match content.field("application/json") {
                    Some(media) => media.field("example"),
                    None => None,
                },
                None => None,
            };
            match example {
                Some(ex) => {
                    let mut text = String::new();
                    push_json(&mut text, ex);
                    assert(text@ =~= json_text(*ex));
                    Some(text)
                },
                None => Some(String::from_str("{}")),
            }
        },
    }
}

fn header_flags(params: &[Parameter]) -> (r: Vec<String>)
    ensures
        views(r@) == header_flags_of(params@),
{
    let format_header = |name: &str, var: &str| -> (flag: String)
        ensures
            flag@ == header_flag(name@, var@),
        {
            let mut flag = String::from_str("--header \"");
            flag.append(name);
            flag.append(": $");
            flag.append(var);
            flag.append("\"");
            flag
        };
    let r = parameters_to_flags(params, format_header);
    assert forall|i: int| 0 <= i < r@.len() implies #[trigger] views(r@)[i] == header_flags_of(
        params@,
    )[i] by {
        assert(made_from(format_header, params@[i], r@[i]));
        let (nm, vr) = choose|nm: &str, vr: &str|
            nm@ == params@[i].name@ && vr@ == bash_name(params@[i].name@) && format_header.ensures(
                (nm, vr),
                r@[i],
            );
        assert(r@[i]@ == header_flag(nm@, vr@));
    }
    assert(views(r@) =~= header_flags_of(params@));
    r
}

/// Renders the script of one operation from its upper-cased method.
pub fn render_script(
    upper_method: &str,
    path: &str,
    operation: &JsonValue,
    config_path: &str,
    security_headers: &[Parameter],
) -> (r: String)
    ensures
        r@ == script_text(upper_method@, path@, *operation, config_path@, security_headers@),
{
    let header_parameters = operation_parameters(operation, ParameterLocation::Header);
    let mut path_parameters = operation_parameters(operation, ParameterLocation::Path);
    let mut query_parameters = operation_parameters(operation, ParameterLocation::Query);
    let ghost query = query_parameters@;

    let mut headers = header_flags(header_parameters.as_slice());
    let mut more_headers = header_flags(security_headers);
    let ghost hv = views(headers@);
    let ghost mv = views(more_headers@);
    headers.append(&mut more_headers);
    assert(views(headers@) =~= hv + mv);
    assert(views(headers@) =~= header_flags_of(header_parameters@ + security_headers@));

    let path_with_vars = replace_path_params(path);
    let mut url = String::from_str("$BASE_URL");
    url.append(path_with_vars.as_str());

    let mut args: Vec<String> = Vec::new();
    let mut request = String::from_str("  --request ");
    request.append(upper_method);
    args.push(request);
    let mut url_arg = String::from_str("  --url \"");
    url_arg.append(url.as_str());
    url_arg.append("\"");
    args.push(url_arg);
    let ghost fixed = views(args@);
    let n = headers.len();
    let mut i: usize = 0;
    while i < n
        invariant
            n == headers@.len(),
            i <= n,
            views(args@) =~= fixed + views(headers@).take(i as int).map_values(
                |h: Seq<char>| "  "@ + h,
            ),
        decreases n - i,
    {
        let mut line = String::from_str("  ");
        line.append(headers[i].as_str());
        let ghost prev = args@;
        args.push(line);
        assert(views(args@) =~= views(prev).push("  "@ + headers@[i as int]@));
        assert(views(headers@).take(i + 1) =~= views(headers@).take(i as int).push(
            headers@[i as int]@,
        ));
        i += 1;
    }
    assert(views(headers@).take(n as int) =~= views(headers@));
    assert(views(args@) =~= curl_args(
        upper_method@,
        path@,
        operation_parameters_of(*operation, ParameterLocation::Header) + security_headers@,
    ));
    let body_text = request_body(operation);
    let ghost without_data = views(args@);
    if body_text.is_some() {
        args.push(String::from_str("  --data \"$REQUEST_BODY\""));
    }
    assert(views(args@) =~= without_data + data_args(*operation));

    let query_lines = parameters_to_query_lines(query_parameters.as_slice());
    let guards = parameters_to_guards(query_parameters.as_slice());
    let ghost pp = path_parameters@;
    path_parameters.append(&mut query_parameters);
    let variables = parameters_to_variables(path_parameters.as_slice());
    assert(path_parameters@ =~= pp + query);

    let mut blocks: Vec<String> = Vec::new();
    if variables.len() > 0 {
        blocks.push(join_with(&variables, "\n"));
    }
    let ghost b1 = views(blocks@);
    assert(b1 =~= nonempty_block(variable_lines_of(pp + query)));
    if guards.len() > 0 {
        blocks.push(join_with(&guards, "\n"));
    }
    let ghost b_guards = views(blocks@);
    assert(b_guards =~= b1 + nonempty_block(guards_of(query)));
    match &body_text {
        Some(text) => {
            let mut line = String::from_str("REQUEST_BODY=\"");
            push_double_quoted(&mut line, text.as_str());
            line.append("\"");
            blocks.push(line);
        },
        None => {},
    }
    let ghost b2 = views(blocks@);
    assert(b2 =~= b_guards + request_body_block(*operation));
    let mut args_block = String::from_str("args=(\n");
    args_block.append(join_with(&args, "\n").as_str());
    args_block.append("\n)");
    blocks.push(args_block);
    let ghost b3 = views(blocks@);
    assert(b3 =~= b2 + seq![
        "args=(\n"@ + join_chars(
            curl_args(
                upper_method@,
                path@,
                operation_parameters_of(*operation, ParameterLocation::Header) + security_headers@,
            ) + data_args(*operation),
            "\n"@,
        ) + "\n)"@,
    ]);
    if query_lines.len() > 0 {
        blocks.push(join_with(&query_lines, "\n"));
    }
    let ghost b4 = views(blocks@);
    assert(b4 =~= b3 + nonempty_block(query_lines_of(query)));
    blocks.push(String::from_str("curl \"${args[@]}\""));
    assert(views(blocks@) =~= script_blocks(upper_method@, path@, *operation, security_headers@));
    let body = join_with(&blocks, "\n\n");

    let mut r = String::from_str("#!/bin/bash\nsource \"$(dirname \"$0\")/");
    r.append(config_path);
    r.append("\"\n\n");
    r.append(body.as_str());
    r
}

/// The upper-case form of a string under Unicode's case mapping.
pub uninterp spec fn uppercased(s: Seq<char>) -> Seq<char>;

/// `str::to_uppercase`. Trusted: the result is the Unicode upper-case mapping of the
/// text, a function of the text alone, named by `uppercased`; the mapping itself is not
/// stated.
#[verifier::external_body]
fn to_uppercase(s: &str) -> (r: String)
    ensures
        r@ == uppercased(s@),
{
    s.to_uppercase()
}

/// The script for the operation `method` of `path`, sourcing the configuration at
/// `config_path` and sending the given security headers with every request.
pub fn generate_script(
    path: &str,
    method: &str,
    operation: &JsonValue,
    config_path: &str,
    security_headers: &[Parameter],
) -> (r: String)
    ensures
        r@ == script_text(uppercased(method@), path@, *operation, config_path@, security_headers@),
{
    let upper_method = to_uppercase(method);
    render_script(upper_method.as_str(), path, operation, config_path, security_headers)
}

} // verus!
