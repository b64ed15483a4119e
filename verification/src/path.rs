//! Mapping of API paths onto the directory tree of the generated scripts.

use vstd::prelude::*;
use crate::text::{
    push_char, split_on, join_with, split_chars, join_chars, views, lemma_split_nonempty,
    lemma_split_pieces_free, lemma_split_join, lemma_split_first, lemma_join_first,
};

verus! {

/// The folder name of one path segment: a parameter segment `{name}` becomes `_name`,
/// any other segment stays as it is.
pub open spec fn segment_folder(segment: Seq<char>) -> Seq<char> {
    if segment.len() > 0 && segment[0] == '{' && segment.last() == '}' {
        seq!['_'] + segment.subrange(1, segment.len() - 1)
    } else {
        segment
    }
}

pub fn path_seqment_to_folder(segment: &str) -> (r: String)
    ensures
        r@ == segment_folder(segment@),
{
    let n = segment.unicode_len();
    if n > 0 && segment.get_char(0) == '{' && segment.get_char(n - 1) == '}' {
        let mut r = String::new();
        push_char(&mut r, '_');
        r.append(segment.substring_char(1, n - 1));
        r
    } else {
        String::from_str(segment)
    }
}

/// `s` without its leading run of `c`, as `str::trim_start_matches` with a character.
pub open spec fn trim_leading(s: Seq<char>, c: char) -> Seq<char>
    decreases s.len(),
{
    if s.len() > 0 && s[0] == c {
        trim_leading(s.drop_first(), c)
    } else {
        s
    }
}

/// The folder of an API path: leading slashes dropped, then each `/`-separated segment
/// mapped by `segment_folder`, the segments joined again with `/`.
pub open spec fn path_folders(path: Seq<char>) -> Seq<char> {
    join_chars(
        split_chars(trim_leading(path, '/'), '/').map_values(|seg: Seq<char>| segment_folder(seg)),
        seq!['/'],
    )
}

proof fn lemma_trim_skip(s: Seq<char>, c: char, k: int)
    requires
        0 <= k <= s.len(),
        forall|j: int| 0 <= j < k ==> s[j] == c,
    ensures
        trim_leading(s, c) == trim_leading(s.skip(k), c),
    decreases k,
{
    if k > 0 {
        assert(s.drop_first().skip(k - 1) =~= s.skip(k));
        lemma_trim_skip(s.drop_first(), c, k - 1);
    } else {
        assert(s.skip(0) =~= s);
    }
}

/// The start of `s` after its leading run of `c`.
fn trim_start_index(s: &str, c: char) -> (k: usize)
    ensures
        k <= s@.len(),
        trim_leading(s@, c) == s@.skip(k as int),
{
    let n = s.unicode_len();
    let mut k: usize = 0;
    while k < n && s.get_char(k) == c
        invariant
            n == s@.len(),
            k <= n,
            forall|j: int| 0 <= j < k ==> s@[j] == c,
        decreases n - k,
    {
        k += 1;
    }
    proof {
        lemma_trim_skip(s@, c, k as int);
    }
    k
}

pub fn path_to_folders(path: &str) -> (r: String)
    ensures
        r@ == path_folders(path@),
{
    let k = trim_start_index(path, '/');
    let trimmed = path.substring_char(k, path.unicode_len());
    assert(trimmed@ =~= trim_leading(path@, '/'));
    let segments = split_on(trimmed, '/');
    let mut folders: Vec<String> = Vec::new();
    let mut i: usize = 0;
    while i < segments.len()
        invariant
            i <= segments@.len(),
            views(folders@) =~= views(segments@).take(i as int).map_values(
                |seg: Seq<char>| segment_folder(seg),
            ),
        decreases segments@.len() - i,
    {
        let f = path_seqment_to_folder(segments[i].as_str());
        let ghost prev = folders@;
        folders.push(f);
        assert(views(folders@) =~= views(prev).push(f@));
        assert(views(segments@).take(i + 1) =~= views(segments@).take(i as int).push(segments@[i as int]@));
        i += 1;
    }
    assert(views(segments@).take(segments@.len() as int) =~= views(segments@));
    let r = join_with(&folders, "/");
    proof {
        reveal_strlit("/");
        assert("/"@ =~= seq!['/']);
    }
    r
}

/// The folder tree mirrors the API path: splitting the folder of a path at `/` gives,
/// one for one, the folder names of the path's segments (after its leading slashes).
pub proof fn lemma_folders_mirror_path(path: Seq<char>)
    ensures
        split_chars(path_folders(path), '/') == split_chars(trim_leading(path, '/'), '/').map_values(
            |seg: Seq<char>| segment_folder(seg),
        ),
{
    let segments = split_chars(trim_leading(path, '/'), '/');
    let folders = segments.map_values(|seg: Seq<char>| segment_folder(seg));
    lemma_split_nonempty(trim_leading(path, '/'), '/');
    lemma_split_pieces_free(trim_leading(path, '/'), '/');
    assert forall|i: int| 0 <= i < folders.len() implies !(#[trigger] folders[i]).contains('/') by {
        let seg = segments[i];
        assert(!seg.contains('/'));
        if folders[i].contains('/') {
            let k = choose|k: int| 0 <= k < folders[i].len() && folders[i][k] == '/';
            if seg.len() > 0 && seg[0] == '{' && seg.last() == '}' {
                assert(k > 0);
                assert(seg[k] == '/');
            } else {
                assert(seg[k] == '/');
            }
        }
    }
    lemma_split_join(folders, '/');
}

proof fn lemma_trim_result(s: Seq<char>, c: char)
    ensures
        trim_leading(s, c).len() == 0 || trim_leading(s, c)[0] != c,
    decreases s.len(),
{
    if s.len() > 0 && s[0] == c {
        lemma_trim_result(s.drop_first(), c);
    }
}

/// Converting a path to its folder twice gives the folder once: a folder path has no
/// leading slash, and no folder segment is a parameter segment.
pub proof fn lemma_path_folders_idempotent(path: Seq<char>)
    ensures
        path_folders(path_folders(path)) == path_folders(path),
        path_folders(path).len() == 0 || path_folders(path)[0] != '/',
{
    let t = trim_leading(path, '/');
    let q = path_folders(path);
    let segments = split_chars(t, '/');
    let folders = segments.map_values(|seg: Seq<char>| segment_folder(seg));
    lemma_split_nonempty(t, '/');
    lemma_trim_result(path, '/');
    // the folder path does not start with a slash
    if t.len() > 0 {
        lemma_split_first(t, '/');
        let first = segments[0];
        assert(folders[0].len() > 0 && folders[0][0] != '/') by {
            if first.len() > 0 && first[0] == '{' && first.last() == '}' {
                assert(folders[0][0] == '_');
            } else {
                assert(folders[0] == first);
            }
        }
        lemma_join_first(folders, seq!['/']);
    } else {
        assert(segments =~= seq![Seq::<char>::empty()]);
        assert(folders =~= seq![Seq::<char>::empty()]);
        assert(q =~= Seq::<char>::empty());
    }
    assert(trim_leading(q, '/') == q);
    lemma_folders_mirror_path(path);
    assert(split_chars(q, '/') == folders);
    assert(folders.map_values(|seg: Seq<char>| segment_folder(seg)) =~= folders) by {
        assert forall|i: int| 0 <= i < folders.len() implies segment_folder(folders[i])
            == folders[i] by {
            let seg = segments[i];
            if seg.len() > 0 && seg[0] == '{' && seg.last() == '}' {
                assert(folders[i][0] == '_');
            }
        }
    }
}

/// The folder keeps every literal segment of the path (after its leading slashes) as it
/// is and turns each parameter segment `{name}` into `_name`, segment for segment.
pub proof fn lemma_folders_keep_literal_segments(path: Seq<char>)
    ensures
        split_chars(path_folders(path), '/').len() == split_chars(trim_leading(path, '/'), '/').len(),
        forall|i: int|
            0 <= i < split_chars(trim_leading(path, '/'), '/').len() ==> {
                let seg = split_chars(trim_leading(path, '/'), '/')[i];
                #[trigger] split_chars(path_folders(path), '/')[i] == if seg.len() > 0 && seg[0]
                    == '{' && seg[seg.len() - 1] == '}' {
                    seq!['_'] + seg.subrange(1, seg.len() - 1)
                } else {
                    seg
                }
            },
        path_folders(path).len() == 0 || path_folders(path)[0] != '/',
{
    lemma_folders_mirror_path(path);
    lemma_path_folders_idempotent(path);
}

/// How many of the pieces are not empty.
pub open spec fn count_nonempty(parts: Seq<Seq<char>>) -> nat
    decreases parts.len(),
{
    if parts.len() == 0 {
        0
    } else {
        count_nonempty(parts.drop_last()) + if parts.last().len() > 0 { 1nat } else { 0nat }
    }
}

/// `s` written `n` times in a row.
pub open spec fn repeat_chars(s: Seq<char>, n: nat) -> Seq<char>
    decreases n,
{
    if n == 0 {
        Seq::empty()
    } else {
        repeat_chars(s, (n - 1) as nat) + s
    }
}

/// The path, relative to a script in `folder`, of the shared configuration file at the
/// root of the output tree: one `../` per directory level, then `.config.sh`.
pub open spec fn config_path_from(folder: Seq<char>) -> Seq<char> {
    repeat_chars(seq!['.', '.', '/'], count_nonempty(split_chars(folder, '/')))
        + seq!['.', 'c', 'o', 'n', 'f', 'i', 'g', '.', 's', 'h']
}

pub fn relative_config_path(folder: &str) -> (r: String)
    ensures
        r@ == config_path_from(folder@),
{
    let segments = split_on(folder, '/');
    let mut r = String::new();
    let mut i: usize = 0;
    proof {
        reveal_strlit("../");
        reveal_strlit(".config.sh");
        assert(views(segments@).take(0) =~= Seq::<Seq<char>>::empty());
    }
    while i < segments.len()
        invariant
            i <= segments@.len(),
            r@ == repeat_chars(seq!['.', '.', '/'], count_nonempty(views(segments@).take(i as int))),
        decreases segments@.len() - i,
    {
        proof {
            assert(views(segments@).take(i + 1).drop_last() =~= views(segments@).take(i as int));
            reveal_strlit("../");
        }
        if segments[i].as_str().unicode_len() > 0 {
            r.append("../");
        }
        i += 1;
    }
    assert(views(segments@).take(segments@.len() as int) =~= views(segments@));
    r.append(".config.sh");
    r
}

} // verus!
