//! The shared configuration file: the base URL and one empty variable per header the
//! scripts send.

use vstd::prelude::*;
use crate::json::JsonValue;
use crate::openapi::{
    Parameter, ParameterLocation, document_parameters, document_security_headers, spec_parameters,
    header_security_schemes, paths_parameters, path_item_parameters, method_parameters,
    operation_parameters_of, lemma_document_parameters_located,
    lemma_security_headers_are_required_headers,
};
use crate::document::{default_server_of, extract_default_server};
use crate::text::{join_chars, join_with,
    views, push_char, is_ascii_alphanumeric, ascii_uppercase, is_ascii_alphanumeric_char,
    to_ascii_uppercase_char, chars_lt, strictly_sorted, less_than, lemma_lt_transitive,
    lemma_lt_total,
};

verus! {

/// The character a name character becomes in a shell variable name.
pub open spec fn bash_char(c: char) -> char {
    if is_ascii_alphanumeric(c) {
        ascii_uppercase(c)
    } else {
        '_'
    }
}

/// The shell variable that holds the value of a parameter called `name`: ASCII letters
/// upper-cased, digits kept, every other character replaced by `_`.
pub open spec fn bash_name(name: Seq<char>) -> Seq<char> {
    name.map_values(|c: char| bash_char(c))
}

/// A shell variable name has one character per character of the parameter name, each an
/// upper-case ASCII letter, a digit or `_`.
pub proof fn lemma_bash_name_shape(name: Seq<char>)
    ensures
        bash_name(name).len() == name.len(),
        forall|i: int|
            0 <= i < name.len() ==> {
                let c = #[trigger] bash_name(name)[i];
                ('A' <= c && c <= 'Z') || ('0' <= c && c <= '9') || c == '_'
            },
{
}

/// What each character of a parameter name becomes in its shell variable, position by
/// position: a lower-case ASCII letter its upper-case letter, an upper-case ASCII letter
/// or an ASCII digit itself, and any other character `_`.
pub proof fn lemma_bash_name_chars(name: Seq<char>)
    ensures
        bash_name(name).len() == name.len(),
        forall|i: int|
            0 <= i < name.len() ==> {
                let c = name[i];
                #[trigger] bash_name(name)[i] == if 'a' <= c && c <= 'z' {
                    ((c as int) - ('a' as int) + ('A' as int)) as char
                } else if ('A' <= c && c <= 'Z') || ('0' <= c && c <= '9') {
                    c
                } else {
                    '_'
                }
            },
{
}

/// Normalising a shell variable name again changes nothing.
pub proof fn lemma_bash_name_idempotent(name: Seq<char>)
    ensures
        bash_name(bash_name(name)) == bash_name(name),
{
    assert(bash_name(bash_name(name)) =~= bash_name(name));
}

pub fn bash_variable_name(name: &str) -> (r: String)
    ensures
        r@ == bash_name(name@),
{
    let n = name.unicode_len();
    let mut r = String::new();
    let mut i: usize = 0;
    while i < n
        invariant
            n == name@.len(),
            i <= n,
            r@ =~= bash_name(name@.take(i as int)),
        decreases n - i,
    {
        let c = name.get_char(i);
        let b = if is_ascii_alphanumeric_char(c) {
            to_ascii_uppercase_char(c)
        } else {
            '_'
        };
        push_char(&mut r, b);
        assert(name@.take(i + 1) =~= name@.take(i as int).push(c));
        i += 1;
    }
    assert(name@.take(n as int) =~= name@);
    r
}

/// Adds `s` to a sorted set of names kept in a vector: the vector stays strictly sorted
/// and afterwards holds exactly the names it held and `s`.
pub fn insert_sorted(v: &mut Vec<String>, s: String)
    requires
        strictly_sorted(views(old(v)@)),
    ensures
        strictly_sorted(views(final(v)@)),
        forall|x: Seq<char>|
            views(final(v)@).contains(x) <==> (views(old(v)@).contains(x) || x == s@),
{
    let ghost old_v = views(v@);
    let n = v.len();
    let mut i: usize = 0;
    while i < n && less_than(v[i].as_str(), s.as_str())
        invariant
            n == v@.len(),
            i <= n,
            views(v@) == old_v,
            forall|j: int| 0 <= j < i ==> chars_lt(#[trigger] old_v[j], s@),
        decreases n - i,
    {
        i += 1;
    }
    if i < n && v[i] == s {
        proof {
            assert forall|x: Seq<char>| old_v.contains(x) || x == s@ implies old_v.contains(x) by {
                if x == s@ {
                    assert(old_v[i as int] == x);
                }
            }
        }
        return;
    }
    proof {
        if i < n {
            lemma_lt_total(old_v[i as int], s@);
            assert(chars_lt(s@, old_v[i as int]));
            assert forall|j: int| i <= j < n implies chars_lt(s@, #[trigger] old_v[j]) by {
                if j > i {
                    lemma_lt_transitive(s@, old_v[i as int], old_v[j]);
                }
            }
        }
    }
    let ghost elem = s@;
    v.insert(i, s);
    proof {
        let nv = views(v@);
        assert(nv =~= old_v.insert(i as int, elem));
        assert forall|p: int, q: int| 0 <= p < q < nv.len() implies chars_lt(
            #[trigger] nv[p],
            #[trigger] nv[q],
        ) by {
            if q < i {
            } else if q == i {
            } else if p < i {
                lemma_lt_transitive(nv[p], elem, nv[q]);
            } else if p == i {
            } else {
                assert(nv[p] == old_v[p - 1]);
                assert(nv[q] == old_v[q - 1]);
            }
        }
        assert forall|x: Seq<char>| nv.contains(x) <==> (old_v.contains(x) || x == elem) by {
            if nv.contains(x) {
                let k = choose|k: int| 0 <= k < nv.len() && nv[k] == x;
                if k < i {
                    assert(old_v[k] == x);
                } else if k > i {
                    assert(old_v[k - 1] == x);
                }
            }
            if old_v.contains(x) {
                let k = choose|k: int| 0 <= k < old_v.len() && old_v[k] == x;
                if k < i {
                    assert(nv[k] == x);
                } else {
                    assert(nv[k + 1] == x);
                }
            }
            if x == elem {
                assert(nv[i as int] == x);
            }
        }
    }
}

/// The shell variables of the parameters, in order.
pub open spec fn parameter_variables(parameters: Seq<Parameter>) -> Seq<Seq<char>> {
    parameters.map_values(|p: Parameter| bash_name(p.name@))
}

/// The variables the configuration declares: one per header parameter of any operation
/// and one per header API-key security scheme.
pub open spec fn header_variables(document: JsonValue) -> Seq<Seq<char>> {
    parameter_variables(document_parameters(document, ParameterLocation::Header))
        + parameter_variables(document_security_headers(document))
}

/// The text of the configuration file: the shebang, `BASE_URL="<server>"`, a line
/// `<VAR>=""` for each variable in the given order, and a final line break.
pub open spec fn config_text(server: Seq<char>, variables: Seq<Seq<char>>) -> Seq<char> {
    join_chars(
        seq!["#!/bin/bash"@, "BASE_URL=\""@ + server + "\""@] + variables.map_values(
            |v: Seq<char>| v + "=\"\""@,
        ) + seq![Seq::empty()],
        "\n"@,
    )
}

proof fn lemma_contains_concat<T>(a: Seq<T>, b: Seq<T>, x: T)
    ensures
        (a + b).contains(x) <==> (a.contains(x) || b.contains(x)),
{
    if (a + b).contains(x) {
        let k = choose|k: int| 0 <= k < (a + b).len() && (a + b)[k] == x;
        if k < a.len() {
            assert(a[k] == x);
        } else {
            assert(b[k - a.len()] == x);
        }
    }
    if a.contains(x) {
        let k = choose|k: int| 0 <= k < a.len() && a[k] == x;
        assert((a + b)[k] == x);
    }
    if b.contains(x) {
        let k = choose|k: int| 0 <= k < b.len() && b[k] == x;
        assert((a + b)[k + a.len()] == x);
    }
}

proof fn lemma_method_parameters_cover(
    methods: Seq<(String, JsonValue)>,
    j: int,
    location: ParameterLocation,
    p: Parameter,
)
    requires
        0 <= j < methods.len(),
        operation_parameters_of(methods[j].1, location).contains(p),
    ensures
        method_parameters(methods, location).contains(p),
    decreases methods.len(),
{
    let init = methods.drop_last();
    lemma_contains_concat(
        method_parameters(init, location),
        operation_parameters_of(methods.last().1, location),
        p,
    );
    if j < methods.len() - 1 {
        assert(init[j] == methods[j]);
        lemma_method_parameters_cover(init, j, location, p);
    }
}

proof fn lemma_paths_parameters_cover(
    paths: Seq<(String, JsonValue)>,
    i: int,
    location: ParameterLocation,
    p: Parameter,
)
    requires
        0 <= i < paths.len(),
        path_item_parameters(paths[i].1, location).contains(p),
    ensures
        paths_parameters(paths, location).contains(p),
    decreases paths.len(),
{
    let init = paths.drop_last();
    lemma_contains_concat(
        paths_parameters(init, location),
        path_item_parameters(paths.last().1, location),
        p,
    );
    if i < paths.len() - 1 {
        assert(init[i] == paths[i]);
        lemma_paths_parameters_cover(init, i, location, p);
    }
}

proof fn lemma_variables_cover(parameters: Seq<Parameter>, p: Parameter)
    requires
        parameters.contains(p),
    ensures
        parameter_variables(parameters).contains(bash_name(p.name@)),
{
    let k = choose|k: int| 0 <= k < parameters.len() && parameters[k] == p;
    assert(parameter_variables(parameters)[k] == bash_name(p.name@));
}

/// The configuration declares every variable a script reads in its headers: for any
/// operation of any path item, the variable of each of its header parameters and of each
/// security header is among the configuration's variables.
pub proof fn lemma_script_headers_declared(
    document: JsonValue,
    paths: Seq<(String, JsonValue)>,
    i: int,
    methods: Seq<(String, JsonValue)>,
    j: int,
    p: Parameter,
)
    requires
        document.field_of("paths"@) matches Some(JsonValue::Object(ps)) && ps@ == paths,
        0 <= i < paths.len(),
        paths[i].1 matches JsonValue::Object(ms) && ms@ == methods,
        0 <= j < methods.len(),
        (operation_parameters_of(methods[j].1, ParameterLocation::Header)
            + document_security_headers(document)).contains(p),
    ensures
        header_variables(document).contains(bash_name(p.name@)),
{
    let ops = operation_parameters_of(methods[j].1, ParameterLocation::Header);
    let sec = document_security_headers(document);
    let docp = document_parameters(document, ParameterLocation::Header);
    lemma_contains_concat(ops, sec, p);
    lemma_contains_concat(parameter_variables(docp), parameter_variables(sec), bash_name(p.name@));
    if ops.contains(p) {
        lemma_method_parameters_cover(methods, j, ParameterLocation::Header, p);
        lemma_paths_parameters_cover(paths, i, ParameterLocation::Header, p);
        lemma_variables_cover(docp, p);
    } else {
        lemma_variables_cover(sec, p);
    }
}

/// The configuration is the shebang line, the `BASE_URL` line with the document's
/// server, one `VAR=""` line per header variable in ascending order, each once, and a
/// final line break.
pub proof fn lemma_config_layout(document: JsonValue, text: Seq<char>)
    requires
        is_config_of(document, text),
    ensures
        exists|vars: Seq<Seq<char>>, lines: Seq<Seq<char>>|
            {
                &&& strictly_sorted(vars)
                &&& forall|x: Seq<char>|
                    vars.contains(x) <==> header_variables(document).contains(x)
                &&& lines.len() == vars.len() + 3
                &&& lines[0] == "#!/bin/bash"@
                &&& lines[1] == "BASE_URL=\""@ + default_server_of(document) + "\""@
                &&& forall|j: int| 0 <= j < vars.len() ==> #[trigger] lines[j + 2] == vars[j] + "=\"\""@
                &&& lines[vars.len() + 2int] == Seq::<char>::empty()
                &&& text == join_chars(lines, "\n"@)
            },
{
    let vars = choose|vars: Seq<Seq<char>>|
        {
            &&& strictly_sorted(vars)
            &&& forall|x: Seq<char>| vars.contains(x) <==> header_variables(document).contains(x)
            &&& text == config_text(default_server_of(document), vars)
        };
    let lines = seq!["#!/bin/bash"@, "BASE_URL=\""@ + default_server_of(document) + "\""@]
        + vars.map_values(|v: Seq<char>| v + "=\"\""@) + seq![Seq::<char>::empty()];
    assert(forall|j: int| 0 <= j < vars.len() ==> #[trigger] lines[j + 2] == vars[j] + "=\"\""@);
    assert(text == join_chars(lines, "\n"@));
}

/// The configuration declares nothing but header variables: each of its variables is the
/// shell variable of a header parameter of some operation or of a security header.
pub proof fn lemma_config_variables_are_headers(document: JsonValue, v: Seq<char>)
    requires
        header_variables(document).contains(v),
    ensures
        exists|p: Parameter|
            #![trigger bash_name(p.name@)]
            {
                &&& p.location == ParameterLocation::Header
                &&& v == bash_name(p.name@)
                &&& (document_parameters(document, ParameterLocation::Header).contains(p)
                    || document_security_headers(document).contains(p))
            },
{
    let a = document_parameters(document, ParameterLocation::Header);
    let b = document_security_headers(document);
    lemma_document_parameters_located(document, ParameterLocation::Header);
    lemma_security_headers_are_required_headers(document);
    lemma_contains_concat(parameter_variables(a), parameter_variables(b), v);
    if parameter_variables(a).contains(v) {
        let k = choose|k: int| 0 <= k < parameter_variables(a).len() && parameter_variables(a)[k] == v;
        let p = a[k];
        assert(a.contains(p));
        assert(p.location == ParameterLocation::Header);
        assert(v == bash_name(p.name@));
        assert(p.location == ParameterLocation::Header && v == bash_name(p.name@) && (
        document_parameters(document, ParameterLocation::Header).contains(p)
            || document_security_headers(document).contains(p)));
    } else {
        let k = choose|k: int| 0 <= k < parameter_variables(b).len() && parameter_variables(b)[k] == v;
        let p = b[k];
        assert(b.contains(p));
        assert(p.location == ParameterLocation::Header);
        assert(v == bash_name(p.name@));
        assert(p.location == ParameterLocation::Header && v == bash_name(p.name@) && (
        document_parameters(document, ParameterLocation::Header).contains(p)
            || document_security_headers(document).contains(p)));
    }
}

/// Adds the variable of every parameter to the sorted set `variables`.
pub fn collect_header_parameters(parameters: &[Parameter], variables: &mut Vec<String>)
    requires
        strictly_sorted(views(old(variables)@)),
    ensures
        strictly_sorted(views(final(variables)@)),
        forall|x: Seq<char>|
            #![trigger views(final(variables)@).contains(x)]
            views(final(variables)@).contains(x) <==> (views(old(variables)@).contains(x)
                || parameter_variables(parameters@).contains(x)),
{
    let ghost start = views(variables@);
    assert(start == views(old(variables)@));
    let n = parameters.len();
    let mut i: usize = 0;
    while i < n
        invariant
            n == parameters@.len(),
            i <= n,
            strictly_sorted(views(variables@)),
            forall|x: Seq<char>|
                views(variables@).contains(x) <==> (start.contains(x) || parameter_variables(
                    parameters@.take(i as int),
                ).contains(x)),
        decreases n - i,
    {
        let name = bash_variable_name(parameters[i].name.as_str());
        let ghost prev = parameter_variables(parameters@.take(i as int));
        let ghost added = name@;
        let ghost before = views(variables@);
        assert(forall|x: Seq<char>| before.contains(x) <==> (start.contains(x) || prev.contains(x)));
        insert_sorted(variables, name);
        proof {
            assert(forall|x: Seq<char>|
                views(variables@).contains(x) <==> (before.contains(x) || x == added));
            let next = parameter_variables(parameters@.take(i + 1));
            assert(next =~= prev.push(added));
            assert forall|x: Seq<char>| next.contains(x) <==> (prev.contains(x) || x == added) by {
                if next.contains(x) {
                    let k = choose|k: int| 0 <= k < next.len() && next[k] == x;
                    if k < prev.len() {
                        assert(prev[k] == x);
                    }
                }
                if prev.contains(x) {
                    let k = choose|k: int| 0 <= k < prev.len() && prev[k] == x;
                    assert(next[k] == x);
                }
                if x == added {
                    assert(next[prev.len() as int] == x);
                }
            }
            assert forall|x: Seq<char>|
                views(variables@).contains(x) <==> (start.contains(x) || next.contains(x)) by {
                assert(views(variables@).contains(x) <==> (before.contains(x) || x == added));
                assert(before.contains(x) <==> (start.contains(x) || prev.contains(x)));
            }
        }
        i += 1;
    }
    assert(parameters@.take(n as int) =~= parameters@);
    assert forall|x: Seq<char>|
        views(variables@).contains(x) <==> (views(old(variables)@).contains(x) || parameter_variables(
            parameters@,
        ).contains(x)) by {
        assert(views(variables@).contains(x) <==> (start.contains(x) || parameter_variables(
            parameters@.take(n as int),
        ).contains(x)));
    }
}

/// Adds the variable of every header API-key security scheme of the document to the
/// sorted set `variables`.
pub fn collect_header_security_schemes(spec: &JsonValue, variables: &mut Vec<String>)
    requires
        strictly_sorted(views(old(variables)@)),
    ensures
        strictly_sorted(views(final(variables)@)),
        forall|x: Seq<char>|
            #![trigger views(final(variables)@).contains(x)]
            views(final(variables)@).contains(x) <==> (views(old(variables)@).contains(x)
                || parameter_variables(document_security_headers(*spec)).contains(x)),
{
    let schemes = header_security_schemes(spec);
    let slice = schemes.as_slice();
    assert(slice@ == document_security_headers(*spec));
    collect_header_parameters(slice, variables);
}

/// `text` is the configuration of the document: its header variables listed in
/// ascending order, each once (`lemma_strictly_sorted_unique` shows that listing is
/// unique).
pub open spec fn is_config_of(document: JsonValue, text: Seq<char>) -> bool {
    exists|variables: Seq<Seq<char>>|
        {
            &&& strictly_sorted(variables)
            &&& forall|x: Seq<char>| variables.contains(x) <==> header_variables(document).contains(x)
            &&& text == config_text(default_server_of(document), variables)
        }
}

pub fn generate_config(spec: &JsonValue) -> (r: String)
    ensures
        is_config_of(*spec, r@),
{
    let mut variables: Vec<String> = Vec::new();
    let parameters = spec_parameters(spec, ParameterLocation::Header);
    let slice = parameters.as_slice();
    assert(views(variables@) =~= Seq::<Seq<char>>::empty());
    collect_header_parameters(slice, &mut variables);
    let ghost middle = views(variables@);
    assert(forall|x: Seq<char>|
        middle.contains(x) <==> parameter_variables(
            document_parameters(*spec, ParameterLocation::Header),
        ).contains(x));
    collect_header_security_schemes(spec, &mut variables);
    let ghost vars = views(variables@);
    assert forall|x: Seq<char>| vars.contains(x) <==> header_variables(*spec).contains(x) by {
        assert(vars.contains(x) <==> (middle.contains(x) || parameter_variables(
            document_security_headers(*spec),
        ).contains(x)));
        lemma_contains_concat(
            parameter_variables(document_parameters(*spec, ParameterLocation::Header)),
            parameter_variables(document_security_headers(*spec)),
            x,
        );
    }

    let mut lines: Vec<String> = Vec::new();
    lines.push(String::from_str("#!/bin/bash"));
    let mut base = String::from_str("BASE_URL=\"");
    base.append(extract_default_server(spec).as_str());
    base.append("\"");
    lines.push(base);
    assert(vars.take(0) =~= Seq::<Seq<char>>::empty());
    let n = variables.len();
    let mut i: usize = 0;
    while i < n
        invariant
            n == variables@.len(),
            i <= n,
            views(variables@) == vars,
            views(lines@) =~= seq!["#!/bin/bash"@, "BASE_URL=\""@ + default_server_of(*spec) + "\""@]
                + vars.take(i as int).map_values(|v: Seq<char>| v + "=\"\""@),
        decreases n - i,
    {
        let mut line = variables[i].clone();
        line.append("=\"\"");
        let ghost prev = lines@;
        lines.push(line);
        assert(views(lines@) =~= views(prev).push(vars[i as int] + "=\"\""@));
        assert(vars.take(i + 1) =~= vars.take(i as int).push(vars[i as int]));
        i += 1;
    }
    let ghost before_last = lines@;
    lines.push(String::new());
    assert(views(lines@) =~= views(before_last).push(Seq::<char>::empty()));
    assert(vars.take(n as int) =~= vars);
    assert(views(lines@) =~= seq!["#!/bin/bash"@, "BASE_URL=\""@ + default_server_of(*spec) + "\""@]
        + vars.map_values(|v: Seq<char>| v + "=\"\""@) + seq![Seq::<char>::empty()]);
    let r = join_with(&lines, "\n");
    assert(strictly_sorted(vars) && r@ == config_text(default_server_of(*spec), vars));
    assert(is_config_of(*spec, r@));
    r
}

} // verus!
