//! Planning the output tree: the configuration file and one script per path and method.

use vstd::prelude::*;
use crate::json::JsonValue;
use crate::openapi::{Parameter, header_security_schemes, document_security_headers};
use crate::config::{generate_config, is_config_of};
use crate::document::extract_paths;
use crate::path::{
    path_folders, config_path_from, path_to_folders, relative_config_path, repeat_chars,
    count_nonempty,
};
use crate::text::{split_chars, join_chars};
use crate::script::{script_text, script_blocks, uppercased, generate_script};

verus! {

/// One script to write: `file_name` in `directory`, relative to the output root.
#[derive(Debug)]
pub struct GeneratedFile {
    pub directory: String,
    pub file_name: String,
    pub contents: String,
}

/// Everything to write for a document: the configuration file's text, the scripts in
/// document order and, when the walk met a path item that is not an object, its path
/// (the scripts then stop before it).
#[derive(Debug)]
pub struct GeneratedFiles {
    pub config: String,
    pub scripts: Vec<GeneratedFile>,
    pub invalid_path_item: Option<String>,
}

/// The document has no `paths` object.
#[derive(Debug, Clone, Copy, PartialEq, Eq, Structural)]
pub enum GenerationError {
    MissingPaths,
}

/// The lower-case form of a string under Unicode's case mapping.
pub uninterp spec fn lowercased(s: Seq<char>) -> Seq<char>;

/// `str::to_lowercase`. Trusted: the result is the Unicode lower-case mapping of the
/// text, a function of the text alone, named by `lowercased`; the mapping itself is not
/// stated.
#[verifier::external_body]
fn to_lowercase(s: &str) -> (r: String)
    ensures
        r@ == lowercased(s@),
{
    s.to_lowercase()
}

/// A planned file as (directory, file name, contents).
pub open spec fn file_view(f: GeneratedFile) -> (Seq<char>, Seq<char>, Seq<char>) {
    (f.directory@, f.file_name@, f.contents@)
}

pub open spec fn files_view(fs: Seq<GeneratedFile>) -> Seq<(Seq<char>, Seq<char>, Seq<char>)> {
    fs.map_values(|f: GeneratedFile| file_view(f))
}

/// The script of operation `method` of `path`: in the path's folder, named after the
/// lower-cased method, sourcing the configuration at the root of the output tree.
pub open spec fn script_file(
    path: Seq<char>,
    method: Seq<char>,
    operation: JsonValue,
    security_headers: Seq<Parameter>,
) -> (Seq<char>, Seq<char>, Seq<char>) {
    let folder = path_folders(path);
    (
        folder,
        lowercased(method),
        script_text(uppercased(method), path, operation, config_path_from(folder), security_headers),
    )
}

/// The scripts of the operations of one path item, method by method.
pub open spec fn method_files(
    path: Seq<char>,
    methods: Seq<(String, JsonValue)>,
    security_headers: Seq<Parameter>,
) -> Seq<(Seq<char>, Seq<char>, Seq<char>)> {
    methods.map_values(
        |m: (String, JsonValue)| script_file(path, m.0@, m.1, security_headers),
    )
}

/// The scripts of the path items, path by path; a path item that is not an object
/// contributes none.
pub open spec fn paths_files(
    paths: Seq<(String, JsonValue)>,
    security_headers: Seq<Parameter>,
) -> Seq<(Seq<char>, Seq<char>, Seq<char>)>
    decreases paths.len(),
{
    if paths.len() == 0 {
        seq![]
    } else {
        paths_files(paths.drop_last(), security_headers) + match paths.last().1 {
            JsonValue::Object(methods) => method_files(
                paths.last().0@,
                methods@,
                security_headers,
            ),
            _ => seq![],
        }
    }
}

/// The file lies in the folder of one of the paths, and its text, after the shebang,
/// sources the configuration from that folder: one `../` per directory of the folder,
/// then `.config.sh`.
pub open spec fn sources_own_config(
    paths: Seq<(String, JsonValue)>,
    f: (Seq<char>, Seq<char>, Seq<char>),
) -> bool {
    &&& exists|i: int| 0 <= i < paths.len() && f.0 == path_folders(paths[i].0@)
    &&& exists|rest: Seq<char>|
        f.2 == "#!/bin/bash\nsource \"$(dirname \"$0\")/"@ + repeat_chars(
            seq!['.', '.', '/'],
            count_nonempty(split_chars(f.0, '/')),
        ) + seq!['.', 'c', 'o', 'n', 'f', 'i', 'g', '.', 's', 'h'] + "\"\n\n"@ + rest
}

/// Every planned script lies in the folder of one of the paths and sources the
/// configuration from its own folder.
pub proof fn lemma_scripts_source_their_config(
    paths: Seq<(String, JsonValue)>,
    security_headers: Seq<Parameter>,
)
    ensures
        forall|k: int|
            0 <= k < paths_files(paths, security_headers).len() ==> sources_own_config(
                paths,
                #[trigger] paths_files(paths, security_headers)[k],
            ),
    decreases paths.len(),
{
    if paths.len() > 0 {
        let init = paths.drop_last();
        let last = paths.last();
        lemma_scripts_source_their_config(init, security_headers);
        let a = paths_files(init, security_headers);
        let b = match last.1 {
            JsonValue::Object(methods) => method_files(last.0@, methods@, security_headers),
            _ => seq![],
        };
        assert(paths_files(paths, security_headers) == a + b);
        assert forall|k: int| 0 <= k < paths_files(paths, security_headers).len() implies sources_own_config(
            paths,
            #[trigger] paths_files(paths, security_headers)[k],
        ) by {
            let f = paths_files(paths, security_headers)[k];
            if k < a.len() {
                assert(f == a[k]);
                assert(sources_own_config(init, a[k]));
                let i = choose|i: int| 0 <= i < init.len() && a[k].0 == path_folders(init[i].0@);
                assert(init[i] == paths[i]);
            } else {
                let methods = last.1->Object_0;
                let m = methods@[k - a.len()];
                assert(f == b[k - a.len()]);
                assert(f == script_file(last.0@, m.0@, m.1, security_headers));
                assert(paths[paths.len() - 1] == last);
                let rest = join_chars(
                    script_blocks(uppercased(m.0@), last.0@, m.1, security_headers),
                    "\n\n"@,
                );
                assert(f.2 =~= "#!/bin/bash\nsource \"$(dirname \"$0\")/"@ + repeat_chars(
                    seq!['.', '.', '/'],
                    count_nonempty(split_chars(f.0, '/')),
                ) + seq!['.', 'c', 'o', 'n', 'f', 'i', 'g', '.', 's', 'h'] + "\"\n\n"@ + rest);
            }
        }
    }
}

/// How many path items, from the first, are objects.
pub open spec fn leading_objects(paths: Seq<(String, JsonValue)>) -> nat
    decreases paths.len(),
{
    if paths.len() > 0 && paths[0].1 is Object {
        1 + leading_objects(paths.drop_first())
    } else {
        0
    }
}

proof fn lemma_leading_prefix_objects(paths: Seq<(String, JsonValue)>, i: int)
    requires
        0 <= i < leading_objects(paths),
    ensures
        i < paths.len(),
        paths[i].1 is Object,
    decreases i,
{
    assert(paths.len() > 0 && paths[0].1 is Object);
    if i > 0 {
        lemma_leading_prefix_objects(paths.drop_first(), i - 1);
        assert(paths.drop_first()[i - 1] == paths[i]);
    }
}

proof fn lemma_leading_bound(paths: Seq<(String, JsonValue)>)
    ensures
        leading_objects(paths) <= paths.len(),
    decreases paths.len(),
{
    if paths.len() > 0 {
        lemma_leading_bound(paths.drop_first());
    }
}

proof fn lemma_leading_objects(paths: Seq<(String, JsonValue)>, k: int)
    requires
        0 <= k <= paths.len(),
        forall|j: int| 0 <= j < k ==> paths[j].1 is Object,
        k == paths.len() || !(paths[k].1 is Object),
    ensures
        leading_objects(paths) == k,
    decreases k,
{
    if k > 0 {
        lemma_leading_objects(paths.drop_first(), k - 1);
    }
}

fn count_leading_objects(paths: &Vec<(String, JsonValue)>) -> (k: usize)
    ensures
        k == leading_objects(paths@),
{
    let n = paths.len();
    let mut k: usize = 0;
    while k < n && paths[k].1.is_object()
        invariant
            n == paths@.len(),
            k <= n,
            forall|j: int| 0 <= j < k ==> paths@[j].1 is Object,
        decreases n - k,
    {
        k += 1;
    }
    proof {
        lemma_leading_objects(paths@, k as int);
    }
    k
}

/// Plans the files for a document: `MissingPaths` when it has no `paths` object;
/// otherwise its configuration and the scripts of its path items up to the first one
/// that is not an object, whose path is then reported.
pub fn plan_generated_files(spec: &JsonValue) -> (r: Result<GeneratedFiles, GenerationError>)
    ensures
        match spec.field_of("paths"@) {
            Some(JsonValue::Object(paths)) => match r {
                Ok(files) => {
                    let k = leading_objects(paths@);
                    &&& is_config_of(*spec, files.config@)
                    &&& files_view(files.scripts@) == paths_files(
                        paths@.take(k as int),
                        document_security_headers(*spec),
                    )
                    &&& match files.invalid_path_item {
                        Some(p) => k < paths@.len() && p@ == paths@[k as int].0@,
                        None => k == paths@.len(),
                    }
                },
                Err(_) => false,
            },
            _ => r == Err::<GeneratedFiles, GenerationError>(GenerationError::MissingPaths),
        },
{
    let has_paths = match spec.field("paths") {
        Some(p) => p.is_object(),
        None => false,
    };
    if !has_paths {
        return Err(GenerationError::MissingPaths);
    }
    let paths = extract_paths(spec);
    let security_headers = header_security_schemes(spec);
    let config = generate_config(spec);
    let k = count_leading_objects(paths);
    proof {
        lemma_leading_bound(paths@);
    }
    let ghost sec = document_security_headers(*spec);
    let mut scripts: Vec<GeneratedFile> = Vec::new();
    let mut i: usize = 0;
    assert(paths@.take(0) =~= Seq::<(String, JsonValue)>::empty());
    while i < k
        invariant
            k == leading_objects(paths@),
            k <= paths@.len(),
            i <= k,
            security_headers@ == sec,
            files_view(scripts@) =~= paths_files(paths@.take(i as int), sec),
        decreases k - i,
    {
        assert(paths@.take(i + 1).drop_last() =~= paths@.take(i as int));
        assert(paths@.take(i + 1).last() == paths@[i as int]);
        let path = paths[i].0.as_str();
        match &paths[i].1 {
            JsonValue::Object(methods) => {
                let folder = path_to_folders(path);
                let config_path = relative_config_path(folder.as_str());
                let ghost before = files_view(scripts@);
                let m = methods.len();
                let mut j: usize = 0;
                while j < m
                    invariant
                        m == methods@.len(),
                        j <= m,
                        folder@ == path_folders(path@),
                        config_path@ == config_path_from(folder@),
                        security_headers@ == sec,
                        files_view(scripts@) =~= before + method_files(
                            path@,
                            methods@.take(j as int),
                            sec,
                        ),
                    decreases m - j,
                {
                    let method = methods[j].0.as_str();
                    let contents = generate_script(
                        path,
                        method,
                        &methods[j].1,
                        config_path.as_str(),
                        security_headers.as_slice(),
                    );
                    let file = GeneratedFile {
                        directory: folder.clone(),
                        file_name: to_lowercase(method),
                        contents,
                    };
                    let ghost prev = scripts@;
                    scripts.push(file);
                    assert(files_view(scripts@) =~= files_view(prev).push(
                        script_file(path@, methods@[j as int].0@, methods@[j as int].1, sec),
                    ));
                    assert(methods@.take(j + 1) =~= methods@.take(j as int).push(methods@[j as int]));
                    j += 1;
                }
                assert(methods@.take(m as int) =~= methods@);
            },
            _ => {
                proof {
                    lemma_leading_prefix_objects(paths@, i as int);
                }
            },
        }
        i += 1;
    }
    let invalid_path_item = if k < paths.len() {
        Some(paths[k].0.clone())
    } else {
        None
    };
    Ok(GeneratedFiles { config, scripts, invalid_path_item })
}

} // verus!
