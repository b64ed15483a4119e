//! Character-sequence helpers shared by the generators: splitting, joining,
//! ASCII classification and the lexicographic order of strings.

use vstd::prelude::*;

verus! {

/// The pieces of `s` between occurrences of `sep`, as `str::split` yields them for a
/// one-character pattern: empty pieces are kept, and there is always one more piece
/// than there are separators.
pub open spec fn split_chars(s: Seq<char>, sep: char) -> Seq<Seq<char>>
    decreases s.len(),
{
    if s.len() == 0 {
        seq![Seq::empty()]
    } else {
        let init = split_chars(s.drop_last(), sep);
        if s.last() == sep {
            init.push(Seq::empty())
        } else {
            init.update(init.len() - 1, init.last().push(s.last()))
        }
    }
}

/// The pieces joined with `sep` between each two neighbours, as `[String]::join` does.
pub open spec fn join_chars(parts: Seq<Seq<char>>, sep: Seq<char>) -> Seq<char>
    decreases parts.len(),
{
    if parts.len() == 0 {
        Seq::empty()
    } else if parts.len() == 1 {
        parts[0]
    } else {
        join_chars(parts.drop_last(), sep) + sep + parts.last()
    }
}

/// The character views of a vector of strings.
pub open spec fn views(v: Seq<String>) -> Seq<Seq<char>> {
    v.map_values(|s: String| s@)
}

pub proof fn lemma_split_nonempty(s: Seq<char>, sep: char)
    ensures
        split_chars(s, sep).len() >= 1,
    decreases s.len(),
{
    if s.len() > 0 {
        lemma_split_nonempty(s.drop_last(), sep);
    }
}

/// No piece of a split holds the separator.
pub proof fn lemma_split_pieces_free(s: Seq<char>, sep: char)
    ensures
        forall|i: int|
            0 <= i < split_chars(s, sep).len() ==> !(#[trigger] split_chars(s, sep)[i]).contains(
                sep,
            ),
    decreases s.len(),
{
    lemma_split_nonempty(s, sep);
    if s.len() > 0 {
        lemma_split_pieces_free(s.drop_last(), sep);
        lemma_split_nonempty(s.drop_last(), sep);
        let init = split_chars(s.drop_last(), sep);
        if s.last() != sep {
            let last = init.last().push(s.last());
            assert forall|i: int| 0 <= i < split_chars(s, sep).len() implies !(
            #[trigger] split_chars(s, sep)[i]).contains(sep) by {
                if i == init.len() - 1 {
                    assert(!init[i].contains(sep));
                    if last.contains(sep) {
                        let k = choose|k: int| 0 <= k < last.len() && last[k] == sep;
                        if k < init[i].len() {
                            assert(init[i][k] == sep);
                        }
                    }
                }
            }
        } else {
            assert forall|i: int| 0 <= i < split_chars(s, sep).len() implies !(
            #[trigger] split_chars(s, sep)[i]).contains(sep) by {
                if i < init.len() {
                    assert(split_chars(s, sep)[i] == init[i]);
                }
            }
        }
    }
}

proof fn lemma_split_append_free(x: Seq<char>, t: Seq<char>, sep: char)
    requires
        !t.contains(sep),
    ensures
        split_chars(x + t, sep) == split_chars(x, sep).update(
            split_chars(x, sep).len() - 1,
            split_chars(x, sep).last() + t,
        ),
    decreases t.len(),
{
    lemma_split_nonempty(x, sep);
    if t.len() == 0 {
        assert(x + t =~= x);
        assert(split_chars(x, sep).last() + t =~= split_chars(x, sep).last());
        assert(split_chars(x, sep).update(
            split_chars(x, sep).len() - 1,
            split_chars(x, sep).last(),
        ) =~= split_chars(x, sep));
    } else {
        let t0 = t.drop_last();
        assert(!t0.contains(sep)) by {
            if t0.contains(sep) {
                let k = choose|k: int| 0 <= k < t0.len() && t0[k] == sep;
                assert(t[k] == sep);
            }
        }
        assert(t.last() != sep) by {
            assert(t[t.len() - 1] == t.last());
        }
        lemma_split_append_free(x, t0, sep);
        assert((x + t).drop_last() =~= x + t0);
        assert((x + t).last() == t.last());
        assert(split_chars(x, sep).last() + t0 + seq![t.last()] =~= split_chars(x, sep).last() + t);
        let sx = split_chars(x, sep);
        let init = split_chars(x + t0, sep);
        assert(init.len() == sx.len());
        assert(init.last() == sx.last() + t0);
        assert(split_chars(x + t, sep) == init.update(init.len() - 1, init.last().push(t.last())));
        assert(init.last().push(t.last()) =~= sx.last() + t);
        assert(split_chars(x + t, sep) =~= split_chars(x, sep).update(
            split_chars(x, sep).len() - 1,
            split_chars(x, sep).last() + t,
        ));
    }
}

/// Splitting undoes joining: joining pieces that do not hold the separator and splitting
/// the result at it gives the pieces back.
pub proof fn lemma_split_join(parts: Seq<Seq<char>>, sep: char)
    requires
        parts.len() >= 1,
        forall|i: int| 0 <= i < parts.len() ==> !(#[trigger] parts[i]).contains(sep),
    ensures
        split_chars(join_chars(parts, seq![sep]), sep) == parts,
    decreases parts.len(),
{
    if parts.len() == 1 {
        lemma_split_append_free(Seq::empty(), parts[0], sep);
        assert(Seq::<char>::empty() + parts[0] =~= parts[0]);
        assert(split_chars(parts[0], sep) =~= parts);
    } else {
        let init = parts.drop_last();
        lemma_split_join(init, sep);
        let j = join_chars(init, seq![sep]);
        assert((j + seq![sep]).drop_last() =~= j);
        assert(split_chars(j + seq![sep], sep) == split_chars(j, sep).push(Seq::empty()));
        assert(!parts.last().contains(sep)) by {
            assert(parts[parts.len() - 1] == parts.last());
        }
        lemma_split_append_free(j + seq![sep], parts.last(), sep);
        assert(Seq::<char>::empty() + parts.last() =~= parts.last());
        assert(split_chars(join_chars(parts, seq![sep]), sep) =~= parts);
    }
}

/// The first piece of a split starts with the first character, when that is not the
/// separator.
pub proof fn lemma_split_first(s: Seq<char>, sep: char)
    requires
        s.len() > 0,
        s[0] != sep,
    ensures
        split_chars(s, sep)[0].len() > 0,
        split_chars(s, sep)[0][0] == s[0],
    decreases s.len(),
{
    lemma_split_nonempty(s, sep);
    let init = s.drop_last();
    lemma_split_nonempty(init, sep);
    let si = split_chars(init, sep);
    if s.len() == 1 {
        assert(init =~= Seq::<char>::empty());
        assert(si == seq![Seq::<char>::empty()]);
        assert(s.last() == s[0]);
        assert(split_chars(s, sep) == si.update(0, si[0].push(s.last())));
        assert(split_chars(s, sep)[0] =~= seq![s[0]]);
    } else {
        assert(init[0] == s[0]);
        lemma_split_first(init, sep);
        if s.last() == sep {
            assert(split_chars(s, sep) == si.push(Seq::empty()));
            assert(split_chars(s, sep)[0] == si[0]);
        } else {
            let updated = si.update(si.len() - 1, si.last().push(s.last()));
            assert(split_chars(s, sep) == updated);
            if si.len() == 1 {
                assert(updated[0] == si[0].push(s.last()));
                assert(updated[0][0] == si[0][0]);
            } else {
                assert(updated[0] == si[0]);
            }
        }
    }
}

/// A join starts with the first character of its first piece.
pub proof fn lemma_join_first(parts: Seq<Seq<char>>, sep: Seq<char>)
    requires
        parts.len() >= 1,
        parts[0].len() > 0,
    ensures
        join_chars(parts, sep).len() > 0,
        join_chars(parts, sep)[0] == parts[0][0],
    decreases parts.len(),
{
    if parts.len() > 1 {
        let init = parts.drop_last();
        assert(init[0] == parts[0]);
        lemma_join_first(init, sep);
    }
}

/// Appends one character; `String::push` has no specification in vstd.
#[verifier::external_body]
pub(crate) fn push_char(s: &mut String, c: char)
    ensures
        final(s)@ == old(s)@.push(c),
{
    s.push(c);
}

/// Splits `s` at every `sep`.
pub fn split_on(s: &str, sep: char) -> (parts: Vec<String>)
    ensures
        views(parts@) == split_chars(s@, sep),
{
    let n = s.unicode_len();
    let mut parts: Vec<String> = Vec::new();
    let mut current = String::new();
    let mut i: usize = 0;
    proof {
        assert(s@.take(0) =~= Seq::<char>::empty());
        assert(views(parts@).push(current@) =~= seq![Seq::<char>::empty()]);
    }
    while i < n
        invariant
            n == s@.len(),
            i <= n,
            views(parts@).push(current@) == split_chars(s@.take(i as int), sep),
        decreases n - i,
    {
        let c = s.get_char(i);
        let ghost prev_parts = parts@;
        let ghost prev_current = current@;
        proof {
            assert(s@.take(i + 1).drop_last() =~= s@.take(i as int));
            assert(s@.take(i + 1).last() == c);
            lemma_split_nonempty(s@.take(i as int), sep);
        }
        if c == sep {
            parts.push(current);
            current = String::new();
            assert(views(parts@).push(current@) =~= views(prev_parts).push(prev_current).push(
                Seq::empty(),
            ));
        } else {
            push_char(&mut current, c);
            assert(views(parts@).push(current@) =~= views(prev_parts).push(prev_current).update(
                prev_parts.len() as int,
                prev_current.push(c),
            ));
        }
        i += 1;
    }
    assert(s@.take(n as int) =~= s@);
    parts.push(current);
    assert(views(parts@) =~= split_chars(s@, sep));
    parts
}

/// Joins the strings with `sep` between neighbours.
pub fn join_with(parts: &Vec<String>, sep: &str) -> (r: String)
    ensures
        r@ == join_chars(views(parts@), sep@),
{
    let mut r = String::new();
    let n = parts.len();
    let mut i: usize = 0;
    assert(views(parts@).take(0) =~= Seq::<Seq<char>>::empty());
    while i < n
        invariant
            n == parts@.len(),
            i <= n,
            r@ == join_chars(views(parts@).take(i as int), sep@),
        decreases n - i,
    {
        proof {
            assert(views(parts@).take(i + 1).drop_last() =~= views(parts@).take(i as int));
        }
        if i > 0 {
            r.append(sep);
        }
        r.append(parts[i].as_str());
        i += 1;
    }
    assert(views(parts@).take(n as int) =~= views(parts@));
    r
}

/// ASCII letters and digits, as `char::is_ascii_alphanumeric`.
pub open spec fn is_ascii_alphanumeric(c: char) -> bool {
    ('a' <= c && c <= 'z') || ('A' <= c && c <= 'Z') || ('0' <= c && c <= '9')
}

/// `c` with an ASCII lower-case letter made upper-case, as `char::to_ascii_uppercase`.
pub open spec fn ascii_uppercase(c: char) -> char {
    if 'a' <= c && c <= 'z' {
        ((c as int) - 32) as char
    } else {
        c
    }
}

pub fn is_ascii_alphanumeric_char(c: char) -> (r: bool)
    ensures
        r == is_ascii_alphanumeric(c),
{
    ('a' <= c && c <= 'z') || ('A' <= c && c <= 'Z') || ('0' <= c && c <= '9')
}

pub fn to_ascii_uppercase_char(c: char) -> (r: char)
    ensures
        r == ascii_uppercase(c),
{
    if 'a' <= c && c <= 'z' {
        let b: u8 = (c as u8) - 32;
        b as char
    } else {
        c
    }
}

/// The lexicographic order of character sequences, the order `String`'s `Ord` gives
/// (UTF-8 byte order agrees with code point order): a proper prefix comes first.
pub open spec fn chars_lt(a: Seq<char>, b: Seq<char>) -> bool
    decreases a.len(),
{
    if a.len() == 0 {
        b.len() > 0
    } else if b.len() == 0 {
        false
    } else if a[0] != b[0] {
        a[0] < b[0]
    } else {
        chars_lt(a.drop_first(), b.drop_first())
    }
}

/// Every element is before every later element: sorted, and nothing occurs twice.
pub open spec fn strictly_sorted(s: Seq<Seq<char>>) -> bool {
    forall|i: int, j: int| 0 <= i < j < s.len() ==> chars_lt(#[trigger] s[i], #[trigger] s[j])
}

pub proof fn lemma_lt_irreflexive(a: Seq<char>)
    ensures
        !chars_lt(a, a),
    decreases a.len(),
{
    if a.len() > 0 {
        lemma_lt_irreflexive(a.drop_first());
    }
}

pub proof fn lemma_lt_asymmetric(a: Seq<char>, b: Seq<char>)
    ensures
        chars_lt(a, b) ==> !chars_lt(b, a),
    decreases a.len(),
{
    if a.len() > 0 && b.len() > 0 && a[0] == b[0] {
        lemma_lt_asymmetric(a.drop_first(), b.drop_first());
    }
}

pub proof fn lemma_lt_transitive(a: Seq<char>, b: Seq<char>, c: Seq<char>)
    ensures
        chars_lt(a, b) && chars_lt(b, c) ==> chars_lt(a, c),
    decreases a.len(),
{
    if a.len() > 0 && b.len() > 0 && c.len() > 0 {
        lemma_lt_transitive(a.drop_first(), b.drop_first(), c.drop_first());
    }
}

pub proof fn lemma_lt_total(a: Seq<char>, b: Seq<char>)
    ensures
        a != b ==> chars_lt(a, b) || chars_lt(b, a),
    decreases a.len(),
{
    if a.len() > 0 && b.len() > 0 {
        lemma_lt_total(a.drop_first(), b.drop_first());
        if a[0] == b[0] && a.drop_first() == b.drop_first() {
            assert(a =~= seq![a[0]] + a.drop_first());
            assert(b =~= seq![b[0]] + b.drop_first());
        }
    } else if a.len() == 0 && b.len() == 0 {
        assert(a =~= b);
    }
}

proof fn lemma_lt_common_prefix(a: Seq<char>, b: Seq<char>, k: int)
    requires
        0 <= k <= a.len(),
        k <= b.len(),
        a.take(k) == b.take(k),
    ensures
        chars_lt(a, b) == chars_lt(a.skip(k), b.skip(k)),
    decreases k,
{
    if k > 0 {
        assert(a[0] == a.take(k)[0]);
        assert(b[0] == b.take(k)[0]);
        assert(a.drop_first().take(k - 1) =~= a.take(k).drop_first());
        assert(b.drop_first().take(k - 1) =~= b.take(k).drop_first());
        assert(a.drop_first().skip(k - 1) =~= a.skip(k));
        assert(b.drop_first().skip(k - 1) =~= b.skip(k));
        lemma_lt_common_prefix(a.drop_first(), b.drop_first(), k - 1);
    } else {
        assert(a.skip(0) =~= a);
        assert(b.skip(0) =~= b);
    }
}

/// Two strictly sorted sequences that hold the same strings are the same sequence: a
/// set of strings has exactly one strictly sorted listing.
pub proof fn lemma_strictly_sorted_unique(a: Seq<Seq<char>>, b: Seq<Seq<char>>)
    requires
        strictly_sorted(a),
        strictly_sorted(b),
        forall|x: Seq<char>| a.contains(x) <==> b.contains(x),
    ensures
        a == b,
    decreases a.len(),
{
    if a.len() == 0 {
        if b.len() > 0 {
            assert(b.contains(b[0]));
        }
        assert(a =~= b);
    } else {
        assert(a.contains(a[0]));
        let j = choose|j: int| 0 <= j < b.len() && b[j] == a[0];
        assert(b.contains(b[0]));
        let k = choose|k: int| 0 <= k < a.len() && a[k] == b[0];
        if j > 0 {
            assert(chars_lt(b[0], b[j]));
            if k > 0 {
                assert(chars_lt(a[0], a[k]));
                lemma_lt_asymmetric(a[0], b[0]);
            } else {
                lemma_lt_irreflexive(b[0]);
            }
        }
        assert(a[0] == b[0]);
        let ta = a.drop_first();
        let tb = b.drop_first();
        assert forall|x: Seq<char>| ta.contains(x) <==> tb.contains(x) by {
            if ta.contains(x) {
                let p = choose|p: int| 0 <= p < ta.len() && ta[p] == x;
                assert(chars_lt(a[0], a[p + 1]));
                lemma_lt_irreflexive(a[0]);
                assert(b.contains(x));
                let q = choose|q: int| 0 <= q < b.len() && b[q] == x;
                assert(q != 0);
                assert(tb[q - 1] == x);
            }
            if tb.contains(x) {
                let p = choose|p: int| 0 <= p < tb.len() && tb[p] == x;
                assert(chars_lt(b[0], b[p + 1]));
                lemma_lt_irreflexive(b[0]);
                assert(a.contains(x));
                let q = choose|q: int| 0 <= q < a.len() && a[q] == x;
                assert(q != 0);
                assert(ta[q - 1] == x);
            }
        }
        assert forall|p: int, q: int| 0 <= p < q < ta.len() implies chars_lt(
            #[trigger] ta[p],
            #[trigger] ta[q],
        ) by {
            assert(chars_lt(a[p + 1], a[q + 1]));
        }
        assert forall|p: int, q: int| 0 <= p < q < tb.len() implies chars_lt(
            #[trigger] tb[p],
            #[trigger] tb[q],
        ) by {
            assert(chars_lt(b[p + 1], b[q + 1]));
        }
        lemma_strictly_sorted_unique(ta, tb);
        assert(a =~= seq![a[0]] + ta);
        assert(b =~= seq![b[0]] + tb);
    }
}

/// Whether `a` comes before `b`.
pub fn less_than(a: &str, b: &str) -> (r: bool)
    ensures
        r == chars_lt(a@, b@),
{
    let la = a.unicode_len();
    let lb = b.unicode_len();
    let mut i: usize = 0;
    while i < la && i < lb && a.get_char(i) == b.get_char(i)
        invariant
            la == a@.len(),
            lb == b@.len(),
            i <= la,
            i <= lb,
            a@.take(i as int) == b@.take(i as int),
        decreases la - i,
    {
        assert(a@.take(i + 1) =~= a@.take(i as int).push(a@[i as int]));
        assert(b@.take(i + 1) =~= b@.take(i as int).push(b@[i as int]));
        i += 1;
    }
    proof {
        lemma_lt_common_prefix(a@, b@, i as int);
    }
    if i == la {
        i < lb
    } else if i == lb {
        false
    } else {
        a.get_char(i) < b.get_char(i)
    }
}

} // verus!
