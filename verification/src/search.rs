//! The full-text search index: which files are indexed, where the index of an
//! opened folder lives, the FTS5 queries built from what the user typed, and
//! the merging of file-name and content hits. The SQLite calls are the app's.

use vstd::prelude::*;

use crate::text::{
    append, chars_of, concat, hex_digits, hex_fixed, join, lowercase, string_of, to_lowercase,
    views, words, words_chars,
};
use crate::workspace::str_eq;
use vstd::string::StringSliceAdditionalSpecFns;

verus! {

pub struct SearchHit {
    pub path: String,
    pub snippet: String,
}

pub open spec fn fnv_offset() -> u64 {
    0xcbf29ce484222325
}

pub open spec fn fnv_prime() -> u64 {
    0x100000001b3
}

/// The 64-bit FNV-1a hash of a byte string.
pub open spec fn fnv1a(b: Seq<u8>) -> u64
    decreases b.len(),
{
    if b.len() == 0 {
        fnv_offset()
    } else {
        vstd::wrapping::u64_specs::wrapping_mul(fnv1a(b.drop_last()) ^ (b.last() as u64), fnv_prime())
    }
}

/// FNV-1a of the UTF-8 bytes of `s`.
pub fn fnv(s: &str) -> (r: u64)
    ensures
        r == fnv1a(s.spec_bytes()),
{
    let b = s.as_bytes();
    let mut h: u64 = 0xcbf29ce484222325;
    let mut i: usize = 0;
    while i < b.len()
        invariant
            i <= b@.len(),
            h == fnv1a(b@.take(i as int)),
        decreases b.len() - i,
    {
        assert(b@.take(i + 1).drop_last() =~= b@.take(i as int));
        h = (h ^ b[i] as u64).wrapping_mul(0x100000001b3);
        i = i + 1;
    }
    assert(b@.take(b@.len() as int) =~= b@);
    h
}

/// The file name of the index of an opened folder (one that PugDock does not
/// manage): the folder path's FNV-1a hash in 16 hex digits, `.sqlite`.
pub fn index_file_name(root: &str) -> (r: String)
    ensures
        r@ == hex_digits(fnv1a(root.spec_bytes()) as nat, 16) + ".sqlite"@,
{
    let h = fnv(root);
    let digits = hex_fixed(h, 16);
    let d = string_of(digits.as_slice());
    concat(d.as_str(), ".sqlite")
}

pub open spec fn max_index_bytes() -> u64 {
    2_000_000
}

/// The extensions of files whose text is indexed.
pub open spec fn text_ext(e: Seq<char>) -> bool {
    ||| e == "md"@ ||| e == "txt"@ ||| e == "json"@ ||| e == "yaml"@ ||| e == "yml"@
    ||| e == "toml"@ ||| e == "py"@ ||| e == "js"@ ||| e == "ts"@ ||| e == "tsx"@
    ||| e == "jsx"@ ||| e == "go"@ ||| e == "rs"@ ||| e == "java"@ ||| e == "cs"@
    ||| e == "sql"@ ||| e == "html"@ ||| e == "css"@ ||| e == "log"@ ||| e == "csv"@
    ||| e == "svg"@ ||| e == "sh"@ ||| e == "fish"@ ||| e == "example"@
}

/// A file of at most 2 MB is indexed exactly when its extension (compared
/// after lowercasing) is one of these 24: md, txt, json, yaml, yml, toml,
/// py, js, ts, tsx, jsx, go, rs, java, cs, sql, html, css, log, csv, svg,
/// sh, fish, example.
pub proof fn law_indexed_extensions(e: Seq<char>, path: Seq<char>, size: u64)
    ensures
        max_index_bytes() == 2_000_000,
        indexed(path, size) <==> size <= 2_000_000 && extension_of(path) is Some && seq![
            "md"@, "txt"@, "json"@, "yaml"@, "yml"@, "toml"@, "py"@, "js"@, "ts"@, "tsx"@, "jsx"@, "go"@,
            "rs"@, "java"@, "cs"@, "sql"@, "html"@, "css"@, "log"@, "csv"@, "svg"@, "sh"@, "fish"@,
            "example"@,
        ].contains(lowercase(extension_of(path)->Some_0)),
        text_ext(e) <==> seq![
            "md"@, "txt"@, "json"@, "yaml"@, "yml"@, "toml"@, "py"@, "js"@, "ts"@, "tsx"@, "jsx"@, "go"@,
            "rs"@, "java"@, "cs"@, "sql"@, "html"@, "css"@, "log"@, "csv"@, "svg"@, "sh"@, "fish"@,
            "example"@,
        ].contains(e),
{
    lemma_text_ext_listed(e);
    if extension_of(path) is Some {
        lemma_text_ext_listed(lowercase(extension_of(path)->Some_0));
    }
}

proof fn lemma_text_ext_listed(e: Seq<char>)
    ensures
        text_ext(e) <==> seq![
            "md"@, "txt"@, "json"@, "yaml"@, "yml"@, "toml"@, "py"@, "js"@, "ts"@, "tsx"@, "jsx"@, "go"@,
            "rs"@, "java"@, "cs"@, "sql"@, "html"@, "css"@, "log"@, "csv"@, "svg"@, "sh"@, "fish"@,
            "example"@,
        ].contains(e),
{
    let l = seq![
        "md"@, "txt"@, "json"@, "yaml"@, "yml"@, "toml"@, "py"@, "js"@, "ts"@, "tsx"@, "jsx"@, "go"@,
        "rs"@, "java"@, "cs"@, "sql"@, "html"@, "css"@, "log"@, "csv"@, "svg"@, "sh"@, "fish"@,
        "example"@,
    ];
    if l.contains(e) {
        let k = choose|k: int| 0 <= k < l.len() && l[k] == e;
        assert(0 <= k < 24);
    }
    if text_ext(e) {
        assert(l[0] == "md"@ && l[1] == "txt"@ && l[2] == "json"@ && l[3] == "yaml"@ && l[4] == "yml"@);
        assert(l[5] == "toml"@ && l[6] == "py"@ && l[7] == "js"@ && l[8] == "ts"@ && l[9] == "tsx"@);
        assert(l[10] == "jsx"@ && l[11] == "go"@ && l[12] == "rs"@ && l[13] == "java"@ && l[14] == "cs"@);
        assert(l[15] == "sql"@ && l[16] == "html"@ && l[17] == "css"@ && l[18] == "log"@ && l[19] == "csv"@);
        assert(l[20] == "svg"@ && l[21] == "sh"@ && l[22] == "fish"@ && l[23] == "example"@);
    }
}

fn is_text_ext(e: &str) -> (r: bool)
    ensures
        r == text_ext(e@),
{
    str_eq(e, "md") || str_eq(e, "txt") || str_eq(e, "json") || str_eq(e, "yaml") || str_eq(e, "yml")
        || str_eq(e, "toml") || str_eq(e, "py") || str_eq(e, "js") || str_eq(e, "ts") || str_eq(e, "tsx")
        || str_eq(e, "jsx") || str_eq(e, "go") || str_eq(e, "rs") || str_eq(e, "java") || str_eq(e, "cs")
        || str_eq(e, "sql") || str_eq(e, "html") || str_eq(e, "css") || str_eq(e, "log") || str_eq(e, "csv")
        || str_eq(e, "svg") || str_eq(e, "sh") || str_eq(e, "fish") || str_eq(e, "example")
}

/// What `Path::extension` gives for a path: the part of its file name after
/// the last `.`, if it has one that is not a leading dot.
pub uninterp spec fn extension_of(p: Seq<char>) -> Option<Seq<char>>;

/// Calls `Path::extension` and converts it to a `String`.
#[verifier::external_body]
pub(crate) fn path_extension(p: &str) -> (r: Option<String>)
    ensures
        r is Some <==> extension_of(p@) is Some,
        r is Some ==> r->Some_0@ == extension_of(p@)->Some_0,
{
    std::path::Path::new(p).extension().map(|e| e.to_string_lossy().to_string())
}

/// A file is indexed when it is at most 2 MB and its extension, in lower case,
/// is one of the text extensions.
/// Whether a file is indexed: it is small enough and its extension,
/// lowercased, is a text one.
pub open spec fn indexed(path: Seq<char>, size: u64) -> bool {
    size <= max_index_bytes() && extension_of(path) is Some && text_ext(lowercase(extension_of(path)->Some_0))
}

pub fn indexable(path: &str, size: u64) -> (r: bool)
    ensures
        r == indexed(path@, size),
        r == (size <= max_index_bytes() && extension_of(path@) is Some && text_ext(
            lowercase(extension_of(path@)->Some_0),
        )),
{
    if size > 2_000_000 {
        return false;
    }
    match path_extension(path) {
        Some(e) => {
            let l = to_lowercase(e.as_str());
            is_text_ext(l.as_str())
        },
        None => false,
    }
}

pub open spec fn no_quotes(t: Seq<char>) -> Seq<char>
    decreases t.len(),
{
    if t.len() == 0 {
        seq![]
    } else if t.last() == '"' {
        no_quotes(t.drop_last())
    } else {
        no_quotes(t.drop_last()).push(t.last())
    }
}

/// One search term quoted for FTS5 (its own quotes dropped, so user input
/// cannot break the query syntax), as a prefix match when `prefix` is set.
pub open spec fn fts_term(t: Seq<char>, prefix: bool) -> Seq<char> {
    seq!['"'] + no_quotes(t) + seq!['"'] + if prefix { seq!['*'] } else { seq![] }
}

/// The FTS5 query for `query`: each word quoted, joined by `sep`.
pub open spec fn fts_query_spec(query: Seq<char>, prefix: bool, sep: Seq<char>) -> Seq<char> {
    join(words(query).map_values(|t: Seq<char>| fts_term(t, prefix)), sep)
}

fn quote_term(t: &Vec<char>, prefix: bool) -> (r: Vec<char>)
    ensures
        r@ == fts_term(t@, prefix),
{
    let mut r: Vec<char> = Vec::new();
    r.push('"');
    let mut i: usize = 0;
    while i < t.len()
        invariant
            i <= t@.len(),
            r@ == seq!['"'] + no_quotes(t@.take(i as int)),
        decreases t.len() - i,
    {
        assert(t@.take(i + 1).drop_last() =~= t@.take(i as int));
        if t[i] != '"' {
            r.push(t[i]);
        }
        i = i + 1;
        assert(r@ =~= seq!['"'] + no_quotes(t@.take(i as int)));
    }
    assert(t@.take(t@.len() as int) =~= t@);
    r.push('"');
    if prefix {
        r.push('*');
    }
    assert(r@ =~= fts_term(t@, prefix));
    r
}

fn fts_query(query: &str, prefix: bool, sep: &str) -> (r: String)
    ensures
        r@ == fts_query_spec(query@, prefix, sep@),
{
    let qc = chars_of(query);
    let ws = words_chars(qc.as_slice());
    let sc = chars_of(sep);
    let ghost terms = views(ws@).map_values(|t: Seq<char>| fts_term(t, prefix));
    let mut r: Vec<char> = Vec::new();
    let mut i: usize = 0;
    while i < ws.len()
        invariant
            i <= ws@.len(),
            terms == views(ws@).map_values(|t: Seq<char>| fts_term(t, prefix)),
            r@ == join(terms.take(i as int), sc@),
        decreases ws.len() - i,
    {
        assert(terms.take(i + 1).drop_last() =~= terms.take(i as int));
        if i > 0 {
            append(&mut r, sc.as_slice());
        }
        let q = quote_term(&ws[i], prefix);
        append(&mut r, q.as_slice());
        assert(terms.take(i + 1).last() == fts_term(ws@[i as int]@, prefix));
        assert(r@ =~= join(terms.take(i + 1), sc@));
        i = i + 1;
    }
    assert(terms.take(ws@.len() as int) =~= terms);
    string_of(r.as_slice())
}

/// The FTS5 query of the search box: every word a quoted prefix match.
pub fn search_query(query: &str) -> (r: String)
    ensures
        r@ == fts_query_spec(query@, true, " "@),
{
    fts_query(query, true, " ")
}

/// The FTS5 query of AI context building: any of the quoted words.
pub fn context_query(query: &str) -> (r: String)
    ensures
        r@ == fts_query_spec(query@, false, " OR "@),
{
    fts_query(query, false, " OR ")
}

/// A quoted search term never holds a quote of its own, so user input cannot
/// end a term early.
pub proof fn law_terms_are_quoted(t: Seq<char>, prefix: bool)
    ensures
        !no_quotes(t).contains('"'),
        fts_term(t, prefix)[0] == '"',
    decreases t.len(),
{
    if t.len() > 0 {
        law_terms_are_quoted(t.drop_last(), prefix);
        let p = no_quotes(t.drop_last());
        if no_quotes(t).contains('"') {
            let j = choose|j: int| 0 <= j < no_quotes(t).len() && no_quotes(t)[j] == '"';
            if t.last() != '"' && j == p.len() {
                assert(no_quotes(t)[j] == t.last());
            } else {
                assert(p[j] == '"');
            }
        }
    }
}

pub open spec fn hit_paths(h: Seq<SearchHit>) -> Seq<Seq<char>> {
    h.map_values(|x: SearchHit| x.path@)
}

/// The search results: file-name matches first (with no snippet), then
/// content matches whose path is not listed yet.
pub open spec fn merged_paths(names: Seq<Seq<char>>, content: Seq<Seq<char>>) -> Seq<Seq<char>>
    decreases content.len(),
{
    if content.len() == 0 {
        names
    } else {
        let before = merged_paths(names, content.drop_last());
        if before.contains(content.last()) {
            before
        } else {
            before.push(content.last())
        }
    }
}

pub open spec fn firsts(c: Seq<(Seq<char>, Seq<char>)>) -> Seq<Seq<char>> {
    c.map_values(|x: (Seq<char>, Seq<char>)| x.0)
}

/// The snippets of the merged results: empty for the file-name matches,
/// then each added content match's own snippet.
pub open spec fn merged_snippets(names: Seq<Seq<char>>, content: Seq<(Seq<char>, Seq<char>)>) -> Seq<Seq<char>>
    decreases content.len(),
{
    if content.len() == 0 {
        Seq::new(names.len(), |i: int| Seq::<char>::empty())
    } else {
        let before = merged_snippets(names, content.drop_last());
        if merged_paths(names, firsts(content.drop_last())).contains(content.last().0) {
            before
        } else {
            before.push(content.last().1)
        }
    }
}

pub open spec fn hit_snippets(h: Seq<SearchHit>) -> Seq<Seq<char>> {
    h.map_values(|x: SearchHit| x.snippet@)
}

pub open spec fn pair_views(c: Seq<(String, String)>) -> Seq<(Seq<char>, Seq<char>)> {
    c.map_values(|x: (String, String)| (x.0@, x.1@))
}

pub fn merge_hits(names: Vec<String>, content: Vec<(String, String)>) -> (r: Vec<SearchHit>)
    ensures
        hit_paths(r@) == merged_paths(
            names@.map_values(|s: String| s@),
            content@.map_values(|c: (String, String)| c.0@),
        ),
        hit_snippets(r@) == merged_snippets(names@.map_values(|s: String| s@), pair_views(content@)),
{
    let mut hits: Vec<SearchHit> = Vec::new();
    let mut i: usize = 0;
    while i < names.len()
        invariant
            i <= names@.len(),
            hits@.len() == i,
            hit_paths(hits@) == names@.map_values(|s: String| s@).take(i as int),
            hit_snippets(hits@) == Seq::new(i as nat, |k: int| Seq::<char>::empty()),
        decreases names.len() - i,
    {
        let ghost before = hits@;
        hits.push(SearchHit { path: names[i].clone(), snippet: String::new() });
        i = i + 1;
        assert(hit_paths(hits@) =~= hit_paths(before).push(names@[i - 1]@));
        assert(hit_snippets(hits@) =~= hit_snippets(before).push(Seq::<char>::empty()));
        assert(hit_snippets(hits@) =~= Seq::new(i as nat, |k: int| Seq::<char>::empty()));
        assert(names@.map_values(|s: String| s@).take(i as int) =~= names@.map_values(
            |s: String| s@,
        ).take(i - 1).push(names@[i - 1]@));
    }
    assert(names@.map_values(|s: String| s@).take(names@.len() as int) =~= names@.map_values(|s: String| s@));
    let ghost np = names@.map_values(|s: String| s@);
    let ghost cp = content@.map_values(|c: (String, String)| c.0@);
    let ghost nn = names@.len();
    let ghost cv = pair_views(content@);
    assert(hit_snippets(hits@) =~= merged_snippets(np, cv.take(0)));
    let mut j: usize = 0;
    while j < content.len()
        invariant
            j <= content@.len(),
            np == names@.map_values(|s: String| s@),
            cp == content@.map_values(|c: (String, String)| c.0@),
            nn == names@.len(),
            hits@.len() >= nn,
            hit_paths(hits@) == merged_paths(np, cp.take(j as int)),
            cv == pair_views(content@),
            hit_snippets(hits@) == merged_snippets(np, cv.take(j as int)),
        decreases content.len() - j,
    {
        assert(cp.take(j + 1).drop_last() =~= cp.take(j as int));
        assert(cv.take(j + 1).drop_last() =~= cv.take(j as int));
        assert(firsts(cv.take(j as int)) =~= cp.take(j as int));
        assert(cv.take(j + 1).last() == (content@[j as int].0@, content@[j as int].1@));
        assert(cp.take(j + 1).last() == content@[j as int].0@);
        let p = content[j].0.as_str();
        let mut found = false;
        let mut k: usize = 0;
        while k < hits.len()
            invariant
                k <= hits@.len(),
                found == hit_paths(hits@).take(k as int).contains(p@),
            decreases hits.len() - k,
        {
            let ghost pre = hit_paths(hits@).take(k as int);
            assert(hit_paths(hits@).take(k + 1) =~= pre.push(hits@[k as int].path@));
            if str_eq(hits[k].path.as_str(), p) {
                assert(hit_paths(hits@).take(k + 1)[k as int] == p@);
                found = true;
            } else if found {
                proof {
                    let w = choose|w: int| 0 <= w < pre.len() && pre[w] == p@;
                    assert(hit_paths(hits@).take(k + 1)[w] == p@);
                }
            } else {
                assert(!hit_paths(hits@).take(k + 1).contains(p@)) by {
                    let t = hit_paths(hits@).take(k + 1);
                    if t.contains(p@) {
                        let w = choose|w: int| 0 <= w < t.len() && t[w] == p@;
                        if w < k {
                            assert(pre[w] == p@);
                        }
                    }
                }
            }
            k = k + 1;
        }
        assert(hit_paths(hits@).take(hits@.len() as int) =~= hit_paths(hits@));
        if !found {
            let ghost before = hits@;
            hits.push(SearchHit { path: content[j].0.clone(), snippet: content[j].1.clone() });
            assert(hit_paths(hits@) =~= hit_paths(before).push(p@));
            assert(hit_snippets(hits@) =~= hit_snippets(before).push(content@[j as int].1@));
        }
        j = j + 1;
    }
    assert(cp.take(content@.len() as int) =~= cp);
    assert(cv.take(content@.len() as int) =~= cv);
    hits
}

/// No path is listed twice when the file-name matches are distinct.
pub proof fn law_hits_distinct(names: Seq<Seq<char>>, content: Seq<Seq<char>>)
    requires
        forall|i: int, j: int| 0 <= i < j < names.len() ==> names[i] != names[j],
    ensures
        forall|i: int, j: int|
            0 <= i < j < merged_paths(names, content).len() ==> merged_paths(names, content)[i]
                != merged_paths(names, content)[j],
    decreases content.len(),
{
    if content.len() > 0 {
        law_hits_distinct(names, content.drop_last());
        let before = merged_paths(names, content.drop_last());
        if !before.contains(content.last()) {
            let m = before.push(content.last());
            assert forall|i: int, j: int| 0 <= i < j < m.len() implies m[i] != m[j] by {
                if j == m.len() - 1 {
                    assert(m[i] == before[i]);
                } else {
                    assert(m[i] == before[i] && m[j] == before[j]);
                }
            }
        }
    }
}

} // verus!
