//! The JSON document model the generators read, and the parse of JSON text into it.

use vstd::prelude::*;
use crate::text::push_char;

verus! {

#[verifier::external_type_specification]
#[verifier::external_body]
pub struct ExSerdeJsonValue(serde_json::Value);

/// A JSON value. A number is held as serde_json writes it (`1E2` becomes `100.0`); an
/// object keeps its members in the order serde_json gives them (ordered by key).
#[derive(Debug)]
pub enum JsonValue {
    Null,
    Bool(bool),
    Number(String),
    Str(String),
    Array(Vec<JsonValue>),
    Object(Vec<(String, JsonValue)>),
}

/// The value of the first member named `key`.
pub open spec fn entries_lookup(entries: Seq<(String, JsonValue)>, key: Seq<char>) -> Option<
    JsonValue,
>
    decreases entries.len(),
{
    if entries.len() == 0 {
        None
    } else if entries[0].0@ == key {
        Some(entries[0].1)
    } else {
        entries_lookup(entries.drop_first(), key)
    }
}

proof fn lemma_lookup_skip(entries: Seq<(String, JsonValue)>, key: Seq<char>, k: int)
    requires
        0 <= k <= entries.len(),
        forall|j: int| 0 <= j < k ==> entries[j].0@ != key,
    ensures
        entries_lookup(entries, key) == entries_lookup(entries.skip(k), key),
    decreases k,
{
    if k > 0 {
        assert(entries.drop_first().skip(k - 1) =~= entries.skip(k));
        lemma_lookup_skip(entries.drop_first(), key, k - 1);
    } else {
        assert(entries.skip(0) =~= entries);
    }
}

/// The value behind an optional reference.
pub open spec fn deref_opt(o: Option<&JsonValue>) -> Option<JsonValue> {
    match o {
        Some(v) => Some(*v),
        None => None,
    }
}

impl JsonValue {
    /// What indexing a JSON value by `key` finds: the member of an object named `key`;
    /// nothing for other values or a missing member.
    pub open spec fn field_of(self, key: Seq<char>) -> Option<JsonValue> {
        match self {
            JsonValue::Object(entries) => entries_lookup(entries@, key),
            _ => None,
        }
    }

    pub fn is_object(&self) -> (r: bool)
        ensures
            r == (*self is Object),
    {
        match self {
            JsonValue::Object(_) => true,
            _ => false,
        }
    }

    pub fn as_object(&self) -> (r: Option<&Vec<(String, JsonValue)>>)
        ensures
            match r {
                Some(entries) => *self == JsonValue::Object(*entries),
                None => !(*self is Object),
            },
    {
        match self {
            JsonValue::Object(entries) => Some(entries),
            _ => None,
        }
    }

    pub fn field(&self, key: &str) -> (r: Option<&JsonValue>)
        ensures
            deref_opt(r) == self.field_of(key@),
    {
        match self {
            JsonValue::Object(entries) => {
                let wanted = String::from_str(key);
                let n = entries.len();
                let mut i: usize = 0;
                while i < n
                    invariant
                        n == entries@.len(),
                        i <= n,
                        wanted@ == key@,
                        self.field_of(key@) == entries_lookup(entries@, key@),
                        forall|j: int| 0 <= j < i ==> entries@[j].0@ != key@,
                    decreases n - i,
                {
                    if entries[i].0 == wanted {
                        proof {
                            lemma_lookup_skip(entries@, key@, i as int);
                            assert(entries@.skip(i as int)[0] == entries@[i as int]);
                        }
                        return Some(&entries[i].1);
                    }
                    i += 1;
                }
                proof {
                    lemma_lookup_skip(entries@, key@, n as int);
                }
                None
            },
            _ => None,
        }
    }
}

/// The text a character becomes inside a JSON string: `"` and `\` escaped, the common
/// control characters by their short escapes, the other control characters as
/// `\u00xx` with lower-case hex digits; every other character as it is.
pub open spec fn json_char_text(c: char) -> Seq<char> {
    if c == '"' {
        seq!['\\', '"']
    } else if c == '\\' {
        seq!['\\', '\\']
    } else if c == '\n' {
        seq!['\\', 'n']
    } else if c == '\r' {
        seq!['\\', 'r']
    } else if c == '\t' {
        seq!['\\', 't']
    } else if c == '\u{8}' {
        seq!['\\', 'b']
    } else if c == '\u{c}' {
        seq!['\\', 'f']
    } else if (c as int) < 0x20 {
        seq!['\\', 'u', '0', '0', hex_digit((c as int) / 16), hex_digit((c as int) % 16)]
    } else {
        seq![c]
    }
}

/// The lower-case hexadecimal digit of `n` (below 16).
pub open spec fn hex_digit(n: int) -> char {
    if n < 10 {
        (('0' as int) + n) as char
    } else {
        (('a' as int) + n - 10) as char
    }
}

/// The escaped characters of a string's contents.
pub open spec fn json_escaped(s: Seq<char>) -> Seq<char>
    decreases s.len(),
{
    if s.len() == 0 {
        Seq::empty()
    } else {
        json_escaped(s.drop_last()) + json_char_text(s.last())
    }
}

/// A string as a JSON string literal.
pub open spec fn json_string_text(s: Seq<char>) -> Seq<char> {
    seq!['"'] + json_escaped(s) + seq!['"']
}

/// The compact JSON text of a value, as serde_json writes it: no spaces, members and
/// elements separated by `,`, a member's key and value by `:`.
pub open spec fn json_text(v: JsonValue) -> Seq<char>
    decreases v, 0nat,
{
    match v {
        JsonValue::Null => "null"@,
        JsonValue::Bool(b) => if b {
            "true"@
        } else {
            "false"@
        },
        JsonValue::Number(n) => n@,
        JsonValue::Str(s) => json_string_text(s@),
        JsonValue::Array(items) => seq!['['] + json_items_text(items@) + seq![']'],
        JsonValue::Object(entries) => seq!['{'] + json_members_text(entries@) + seq!['}'],
    }
}

/// The elements of an array, each as JSON text, separated by `,`.
pub open spec fn json_items_text(items: Seq<JsonValue>) -> Seq<char>
    decreases items, 1nat,
{
    if items.len() == 0 {
        Seq::empty()
    } else {
        let init = items.subrange(0, items.len() - 1);
        let last = items[items.len() - 1];
        if init.len() == 0 {
            json_text(last)
        } else {
            json_items_text(init) + seq![','] + json_text(last)
        }
    }
}

/// The members of an object as `"key":value`, separated by `,`.
pub open spec fn json_members_text(entries: Seq<(String, JsonValue)>) -> Seq<char>
    decreases entries, 1nat,
{
    if entries.len() == 0 {
        Seq::empty()
    } else {
        let init = entries.subrange(0, entries.len() - 1);
        let last = entries[entries.len() - 1];
        let member = json_string_text(last.0@) + seq![':'] + json_text(last.1);
        if init.len() == 0 {
            member
        } else {
            json_members_text(init) + seq![','] + member
        }
    }
}

fn hex_digit_char(n: u32) -> (r: char)
    requires
        n < 16,
    ensures
        r == hex_digit(n as int),
{
    let b: u8 = n as u8;
    if b < 10 {
        (b + 48) as char
    } else {
        (b + 87) as char
    }
}

fn push_json_char(out: &mut String, c: char)
    ensures
        final(out)@ == old(out)@ + json_char_text(c),
{
    let ghost start = out@;
    if c == '"' {
        push_char(out, '\\');
        push_char(out, '"');
    } else if c == '\\' {
        push_char(out, '\\');
        push_char(out, '\\');
    } else if c == '\n' {
        push_char(out, '\\');
        push_char(out, 'n');
    } else if c == '\r' {
        push_char(out, '\\');
        push_char(out, 'r');
    } else if c == '\t' {
        push_char(out, '\\');
        push_char(out, 't');
    } else if c == '\u{8}' {
        push_char(out, '\\');
        push_char(out, 'b');
    } else if c == '\u{c}' {
        push_char(out, '\\');
        push_char(out, 'f');
    } else if (c as u32) < 0x20 {
        let code = c as u32;
        push_char(out, '\\');
        push_char(out, 'u');
        push_char(out, '0');
        push_char(out, '0');
        push_char(out, hex_digit_char(code / 16));
        push_char(out, hex_digit_char(code % 16));
    } else {
        push_char(out, c);
    }
    assert(out@ =~= start + json_char_text(c));
}

fn push_json_string(out: &mut String, s: &str)
    ensures
        final(out)@ == old(out)@ + json_string_text(s@),
{
    let ghost start = out@;
    push_char(out, '"');
    let n = s.unicode_len();
    let mut i: usize = 0;
    while i < n
        invariant
            n == s@.len(),
            i <= n,
            out@ =~= start + seq!['"'] + json_escaped(s@.take(i as int)),
        decreases n - i,
    {
        let c = s.get_char(i);
        push_json_char(out, c);
        assert(s@.take(i + 1).drop_last() =~= s@.take(i as int));
        assert(s@.take(i + 1).last() == c);
        i += 1;
    }
    assert(s@.take(n as int) =~= s@);
    push_char(out, '"');
}

/// Writes the compact JSON text of `v` after what `out` holds.
pub fn push_json(out: &mut String, v: &JsonValue)
    ensures
        final(out)@ == old(out)@ + json_text(*v),
    decreases *v,
{
    let ghost start = out@;
    match v {
        JsonValue::Null => out.append("null"),
        JsonValue::Bool(b) => {
            if *b {
                out.append("true")
            } else {
                out.append("false")
            }
        },
        JsonValue::Number(n) => out.append(n.as_str()),
        JsonValue::Str(s) => push_json_string(out, s.as_str()),
        JsonValue::Array(items) => {
            push_char(out, '[');
            let n = items.len();
            let mut i: usize = 0;
            assert(items@.subrange(0, 0) =~= Seq::<JsonValue>::empty());
            while i < n
                invariant
                    n == items@.len(),
                    i <= n,
                    *v == JsonValue::Array(*items),
                    out@ =~= start + seq!['['] + json_items_text(items@.subrange(0, i as int)),
                decreases n - i,
            {
                let ghost before = out@;
                if i > 0 {
                    push_char(out, ',');
                }
                assert(decreases_to!(*v => (*v)->Array_0));
                assert(decreases_to!(*items => items@));
                assert(decreases_to!(items@ => items@[i as int]));
                push_json(out, &items[i]);
                let ghost next = items@.subrange(0, i + 1);
                assert(next.subrange(0, next.len() - 1) =~= items@.subrange(0, i as int));
                assert(next[next.len() - 1] == items@[i as int]);
                i += 1;
            }
            assert(items@.subrange(0, n as int) =~= items@);
            push_char(out, ']');
        },
        JsonValue::Object(entries) => {
            push_char(out, '{');
            let n = entries.len();
            let mut i: usize = 0;
            assert(entries@.subrange(0, 0) =~= Seq::<(String, JsonValue)>::empty());
            while i < n
                invariant
                    n == entries@.len(),
                    i <= n,
                    *v == JsonValue::Object(*entries),
                    out@ =~= start + seq!['{'] + json_members_text(entries@.subrange(0, i as int)),
                decreases n - i,
            {
                if i > 0 {
                    push_char(out, ',');
                }
                push_json_string(out, entries[i].0.as_str());
                push_char(out, ':');
                assert(decreases_to!(*v => (*v)->Object_0));
                assert(decreases_to!(*entries => entries@));
                assert(decreases_to!(entries@ => entries@[i as int]));
                assert(decreases_to!(entries@[i as int] => entries@[i as int].1));
                push_json(out, &entries[i].1);
                let ghost next = entries@.subrange(0, i + 1);
                assert(next.subrange(0, next.len() - 1) =~= entries@.subrange(0, i as int));
                assert(next[next.len() - 1] == entries@[i as int]);
                i += 1;
            }
            assert(entries@.subrange(0, n as int) =~= entries@);
            push_char(out, '}');
        },
    }
}

/// The value that JSON text denotes, when it is valid JSON.
pub uninterp spec fn parsed_json(text: Seq<char>) -> Option<JsonValue>;

/// Converts serde_json's value into the library's model, member for member.
#[verifier::external_body]
fn from_serde(v: serde_json::Value) -> JsonValue {
    match v {
        serde_json::Value::Null => JsonValue::Null,
        serde_json::Value::Bool(b) => JsonValue::Bool(b),
        serde_json::Value::Number(n) => JsonValue::Number(n.to_string()),
        serde_json::Value::String(s) => JsonValue::Str(s),
        serde_json::Value::Array(a) => JsonValue::Array(a.into_iter().map(from_serde).collect()),
        serde_json::Value::Object(m) => JsonValue::Object(
            m.into_iter().map(|(k, v)| (k, from_serde(v))).collect(),
        ),
    }
}

/// Parses JSON text with `serde_json::from_str::<serde_json::Value>`. Trusted: the result
/// is `None` exactly when serde_json rejects the text, and otherwise the parsed value;
/// both are named by `parsed_json`, a function of the text alone.
#[verifier::external_body]
pub(crate) fn parse_json(text: &str) -> (r: Option<JsonValue>)
    ensures
        r == parsed_json(text@),
{
    serde_json::from_str::<serde_json::Value>(text).ok().map(from_serde)
}

} // verus!
