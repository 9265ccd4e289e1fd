//! VSCode color themes: reading JSONC (JSON with comments and trailing
//! commas), resolving paths inside a `.vsix` package, naming imported themes,
//! and merging a theme with the one it includes.

use vstd::prelude::*;

use crate::error::AppError;
use crate::text::{
    append, chars_of, concat, is_whitespace, is_ws, join, join_sep, keep_nonempty, lowercase,
    nonempty, split_chars, split_on, starts_with, string_of, to_lowercase, views,
};
use crate::update::{lemma_lex_total, lemma_lex_trans, lex_le, lex_le_exec};
use crate::workspace::str_eq;
use crate::json::{
    index_pointer, index_ptr, json_array_len, json_bool_at, json_len_at, json_pointer_bool, json_pointer_str,
    json_str_at, opt_view,
};

verus! {

broadcast use vstd::seq_lib::group_to_multiset_ensures;

// ---- JSONC ----

/// Position of the first newline at or after `j` (or the end).
pub open spec fn line_end(b: Seq<char>, j: nat) -> nat
    decreases b.len() - j,
{
    if j >= b.len() {
        b.len()
    } else if b[j as int] == '\n' {
        j
    } else {
        line_end(b, j + 1)
    }
}

/// Position just past the first `*/` at or after `j`; past the end when there
/// is none.
pub open spec fn block_end(b: Seq<char>, j: nat) -> nat
    decreases b.len() - j,
{
    if j + 1 >= b.len() {
        j + 2
    } else if b[j as int] == '*' && b[(j + 1) as int] == '/' {
        j + 2
    } else {
        block_end(b, j + 1)
    }
}

/// Position of the first non-whitespace character at or after `j` (or the
/// end).
pub open spec fn next_solid(b: Seq<char>, j: nat) -> nat
    decreases b.len() - j,
{
    if j >= b.len() {
        b.len()
    } else if is_ws(b[j as int]) {
        next_solid(b, j + 1)
    } else {
        j
    }
}

pub open spec fn clamp(j: nat, n: nat) -> nat {
    if j <= n {
        j
    } else {
        n
    }
}

/// The JSONC reader from character `i` on, `in_str` telling whether it is
/// inside a string literal. Inside strings every character is kept (a
/// backslash keeps the character after it too). Outside, `//` comments run to
/// the end of the line, `/* */` comments to their close, and a comma is
/// dropped when only whitespace stands between it and a `}` or `]`. Every
/// other character is kept as it is.
pub open spec fn jsonc(b: Seq<char>, i: nat, in_str: bool) -> Seq<char>
    decreases b.len() - i,
{
    if i >= b.len() {
        seq![]
    } else {
        let c = b[i as int];
        if in_str {
            if c == '\\' && i + 1 < b.len() {
                seq![c, b[(i + 1) as int]] + jsonc(b, i + 2, true)
            } else if c == '"' {
                seq![c] + jsonc(b, i + 1, false)
            } else {
                seq![c] + jsonc(b, i + 1, true)
            }
        } else if c == '"' {
            seq![c] + jsonc(b, i + 1, true)
        } else if c == '/' && i + 1 < b.len() && b[(i + 1) as int] == '/' {
            proof {
                lemma_line_end_ge(b, i + 2);
            }
            jsonc(b, line_end(b, i + 2), false)
        } else if c == '/' && i + 1 < b.len() && b[(i + 1) as int] == '*' {
            proof {
                lemma_block_end_ge(b, i + 2);
            }
            jsonc(b, clamp(block_end(b, i + 2), b.len()), false)
        } else if c == ',' {
            let k = next_solid(b, i + 1);
            if k < b.len() && (b[k as int] == '}' || b[k as int] == ']') {
                jsonc(b, i + 1, false)
            } else {
                seq![c] + jsonc(b, i + 1, false)
            }
        } else {
            seq![c] + jsonc(b, i + 1, false)
        }
    }
}

pub proof fn lemma_line_end_ge(b: Seq<char>, j: nat)
    ensures
        j <= line_end(b, j) || j > b.len(),
        line_end(b, j) <= b.len(),
    decreases b.len() - j,
{
    if j < b.len() && b[j as int] != '\n' {
        lemma_line_end_ge(b, j + 1);
    }
}

pub proof fn lemma_block_end_ge(b: Seq<char>, j: nat)
    ensures
        j + 2 <= block_end(b, j),
    decreases b.len() - j,
{
    if j + 1 < b.len() && !(b[j as int] == '*' && b[(j + 1) as int] == '/') {
        lemma_block_end_ge(b, j + 1);
    }
}

/// Strip `//` and `/* */` comments (outside strings) and trailing commas from
/// a JSONC text so that a JSON parser accepts it; every other character is
/// kept as it is.
pub fn strip_jsonc(src: &str) -> (r: String)
    ensures
        r@ == jsonc(src@, 0, false),
{
    let b = chars_of(src);
    let n = b.len();
    let mut out: Vec<char> = Vec::new();
    let mut i: usize = 0;
    let mut in_string = false;
    while i < n
        invariant
            n == b@.len(),
            b@ == src@,
            i <= n,
            out@ + jsonc(b@, i as nat, in_string) == jsonc(b@, 0, false),
        decreases n - i,
    {
        let c = b[i];
        if in_string {
            if c == '\\' && i + 1 < n {
                out.push(c);
                out.push(b[i + 1]);
                i = i + 2;
            } else {
                out.push(c);
                if c == '"' {
                    in_string = false;
                }
                i = i + 1;
            }
        } else if c == '"' {
            in_string = true;
            out.push(c);
            i = i + 1;
        } else if c == '/' && i + 1 < n && b[i + 1] == '/' {
            let ghost start = (i + 2) as nat;
            let mut j = i + 2;
            while j < n && b[j] != '\n'
                invariant
                    n == b@.len(),
                    start <= j <= n,
                    line_end(b@, start) == line_end(b@, j as nat),
                decreases n - j,
            {
                j = j + 1;
            }
            i = j;
        } else if c == '/' && i + 1 < n && b[i + 1] == '*' {
            let ghost start = (i + 2) as nat;
            let mut j = i + 2;
            while j < n - 1 && !(b[j] == '*' && b[j + 1] == '/')
                invariant
                    n == b@.len(),
                    n > 0,
                    start <= j <= n,
                    block_end(b@, start) == block_end(b@, j as nat),
                decreases n - j,
            {
                j = j + 1;
            }
            i = if n - j >= 2 { j + 2 } else { n };
        } else if c == ',' {
            let ghost start = (i + 1) as nat;
            let mut j = i + 1;
            while j < n && is_whitespace(b[j])
                invariant
                    n == b@.len(),
                    start <= j <= n,
                    next_solid(b@, start) == next_solid(b@, j as nat),
                decreases n - j,
            {
                j = j + 1;
            }
            if j < n && (b[j] == '}' || b[j] == ']') {
            } else {
                out.push(c);
            }
            i = i + 1;
        } else {
            out.push(c);
            i = i + 1;
        }
    }
    assert(out@ =~= jsonc(b@, 0, false));
    string_of(out.as_slice())
}

/// Without `/` or `,` there is nothing to strip: the text comes through as
/// it was.
pub proof fn law_jsonc_plain_text_unchanged(b: Seq<char>, i: nat, in_str: bool)
    requires
        i <= b.len(),
        forall|k: int| 0 <= k < b.len() ==> b[k] != '/' && b[k] != ',',
    ensures
        jsonc(b, i, in_str) == b.skip(i as int),
    decreases b.len() - i,
{
    if i < b.len() {
        let c = b[i as int];
        if in_str && c == '\\' && i + 1 < b.len() {
            law_jsonc_plain_text_unchanged(b, i + 2, true);
        } else if in_str {
            law_jsonc_plain_text_unchanged(b, i + 1, c != '"');
        } else {
            law_jsonc_plain_text_unchanged(b, i + 1, c == '"');
        }
        assert(jsonc(b, i, in_str) =~= b.skip(i as int));
    } else {
        assert(b.skip(i as int) =~= Seq::<char>::empty());
    }
}

/// Stripping only removes: the result is never longer than the input.
pub proof fn law_jsonc_never_grows(b: Seq<char>, i: nat, in_str: bool)
    ensures
        jsonc(b, i, in_str).len() <= if i <= b.len() { b.len() - i } else { 0 },
    decreases b.len() - i,
{
    if i < b.len() {
        let c = b[i as int];
        if in_str {
            if c == '\\' && i + 1 < b.len() {
                law_jsonc_never_grows(b, i + 2, true);
            } else {
                law_jsonc_never_grows(b, i + 1, c != '"');
            }
        } else if c == '"' {
            law_jsonc_never_grows(b, i + 1, true);
        } else if c == '/' && i + 1 < b.len() && b[(i + 1) as int] == '/' {
            lemma_line_end_ge(b, i + 2);
            law_jsonc_never_grows(b, line_end(b, i + 2), false);
        } else if c == '/' && i + 1 < b.len() && b[(i + 1) as int] == '*' {
            lemma_block_end_ge(b, i + 2);
            law_jsonc_never_grows(b, clamp(block_end(b, i + 2), b.len()), false);
        } else {
            law_jsonc_never_grows(b, i + 1, false);
        }
    }
}

// ---- Naming ----

/// What `char::is_alphanumeric` gives: the Unicode Alphabetic or Numeric property.
pub uninterp spec fn alnum(c: char) -> bool;

/// Calls `char::is_alphanumeric`.
#[verifier::external_body]
pub(crate) fn is_alphanumeric(c: char) -> (r: bool)
    ensures
        r == alnum(c),
{
    c.is_alphanumeric()
}

pub open spec fn dashed(s: Seq<char>) -> Seq<char> {
    s.map_values(|c: char| if alnum(c) { c } else { '-' })
}

/// A theme id: the lowercased name with every run of non-alphanumeric
/// characters turned into one `-`, and none at either end.
pub open spec fn slug(name: Seq<char>) -> Seq<char> {
    join(nonempty(split_on(dashed(lowercase(name)), '-')), seq!['-'])
}

pub fn slugify(name: &str) -> (r: String)
    ensures
        r@ == slug(name@),
{
    let lower = to_lowercase(name);
    let lc = chars_of(lower.as_str());
    let mut d: Vec<char> = Vec::new();
    let mut i: usize = 0;
    while i < lc.len()
        invariant
            i <= lc@.len(),
            d@ == dashed(lc@.take(i as int)),
        decreases lc.len() - i,
    {
        let c = lc[i];
        d.push(if is_alphanumeric(c) { c } else { '-' });
        i = i + 1;
        assert(d@ =~= dashed(lc@.take(i as int)));
    }
    assert(lc@.take(lc@.len() as int) =~= lc@);
    let parts = split_chars(d.as_slice(), '-');
    let kept = keep_nonempty(parts);
    let joined = join_sep(&kept, '-');
    string_of(joined.as_slice())
}

/// A slug never has an empty piece between dashes: no leading, trailing or
/// doubled `-`.
pub proof fn law_slug_has_no_empty_piece(name: Seq<char>)
    ensures
        slug(name).len() == 0 || forall|i: int|
            0 <= i < split_on(slug(name), '-').len() ==> (#[trigger] split_on(slug(name), '-')[i]).len()
                > 0,
{
    let parts = nonempty(split_on(dashed(lowercase(name)), '-'));
    crate::text::lemma_split_pieces(dashed(lowercase(name)), '-');
    crate::text::lemma_nonempty_elems(split_on(dashed(lowercase(name)), '-'), '-');
    if parts.len() > 0 {
        crate::text::lemma_split_join_sep(parts, '-');
    }
}

// ---- Paths inside a package ----

/// One segment of a package path applied to the directory `parts`: empty and
/// `.` segments change nothing, `..` leaves the last directory (if any), a name
/// enters it.
pub open spec fn zj_step(parts: Seq<Seq<char>>, seg: Seq<char>) -> Seq<Seq<char>> {
    if seg.len() == 0 || seg == seq!['.'] {
        parts
    } else if seg == seq!['.', '.'] {
        if parts.len() > 0 {
            parts.drop_last()
        } else {
            parts
        }
    } else {
        parts.push(seg)
    }
}

pub open spec fn zj_fold(parts: Seq<Seq<char>>, segs: Seq<Seq<char>>) -> Seq<Seq<char>>
    decreases segs.len(),
{
    if segs.len() == 0 {
        parts
    } else {
        zj_step(zj_fold(parts, segs.drop_last()), segs.last())
    }
}

/// The components of `rel` resolved against the directory `base_dir`.
pub open spec fn zip_parts(base_dir: Seq<char>, rel: Seq<char>) -> Seq<Seq<char>> {
    zj_fold(nonempty(split_on(base_dir, '/')), split_on(rel, '/'))
}

/// Join package-internal paths, resolving `.` and `..`.
pub fn zip_join(base_dir: &str, rel: &str) -> (r: String)
    ensures
        r@ == join(zip_parts(base_dir@, rel@), seq!['/']),
{
    let bc_ = chars_of(base_dir);
    let rc = chars_of(rel);
    let mut parts = keep_nonempty(split_chars(bc_.as_slice(), '/'));
    let segs = split_chars(rc.as_slice(), '/');
    let ghost start = views(parts@);
    let mut i: usize = 0;
    while i < segs.len()
        invariant
            i <= segs@.len(),
            views(parts@) == zj_fold(start, views(segs@).take(i as int)),
        decreases segs.len() - i,
    {
        assert(views(segs@).take(i + 1).drop_last() =~= views(segs@).take(i as int));
        assert(views(segs@).take(i + 1).last() == segs@[i as int]@);
        let seg = &segs[i];
        let ghost before = parts@;
        if seg.len() == 0 || (seg.len() == 1 && seg[0] == '.') {
            assert(seg@.len() == 1 ==> seg@ =~= seq!['.']);
        } else if seg.len() == 2 && seg[0] == '.' && seg[1] == '.' {
            assert(seg@ =~= seq!['.', '.']);
            if parts.len() > 0 {
                parts.pop();
                assert(views(parts@) =~= views(before).drop_last());
            }
        } else {
            assert(seg@ != seq!['.']) by {
                if seg@ == seq!['.'] {
                    assert(seg@.len() == 1);
                }
            }
            assert(seg@ != seq!['.', '.']) by {
                if seg@ == seq!['.', '.'] {
                    assert(seg@.len() == 2);
                }
            }
            parts.push(copy_all(seg.as_slice()));
            assert(views(parts@) =~= views(before).push(seg@));
        }
        i = i + 1;
    }
    assert(views(segs@).take(segs@.len() as int) =~= views(segs@));
    let joined = join_sep(&parts, '/');
    string_of(joined.as_slice())
}

fn copy_all(s: &[char]) -> (r: Vec<char>)
    ensures
        r@ == s@,
{
    let r = crate::text::copy_range(s, 0, s.len());
    assert(s@.subrange(0, s@.len() as int) =~= s@);
    r
}

/// A component that names a file or directory: not empty, `.` or `..`, and
/// free of `/`.
pub open spec fn normal_component(p: Seq<char>) -> bool {
    p.len() > 0 && p != seq!['.'] && p != seq!['.', '.'] && !p.contains('/')
}

proof fn lemma_zj_fold_normal(parts: Seq<Seq<char>>, segs: Seq<Seq<char>>)
    requires
        forall|i: int| 0 <= i < parts.len() ==> normal_component(#[trigger] parts[i]),
        forall|i: int| 0 <= i < segs.len() ==> !(#[trigger] segs[i]).contains('/'),
    ensures
        forall|i: int| 0 <= i < zj_fold(parts, segs).len() ==> normal_component(
            #[trigger] zj_fold(parts, segs)[i],
        ),
    decreases segs.len(),
{
    if segs.len() > 0 {
        lemma_zj_fold_normal(parts, segs.drop_last());
        let prev = zj_fold(parts, segs.drop_last());
        let cur = zj_fold(parts, segs);
        assert(!segs.last().contains('/'));
        assert forall|i: int| 0 <= i < cur.len() implies normal_component(#[trigger] cur[i]) by {
            if i < prev.len() {
                assert(cur[i] == prev[i]);
            } else {
                assert(cur[i] == segs.last());
            }
        }
    }
}

/// Resolving a path inside a package never leaves `.`, `..` or empty
/// components behind when the base directory has none: every `/`-separated
/// piece of the result names a file or directory.
pub proof fn law_zip_join_normal(base_dir: Seq<char>, rel: Seq<char>)
    requires
        forall|i: int|
            0 <= i < nonempty(split_on(base_dir, '/')).len() ==> #[trigger] nonempty(
                split_on(base_dir, '/'),
            )[i] != seq!['.'] && nonempty(split_on(base_dir, '/'))[i] != seq!['.', '.'],
    ensures
        ({
            let r = join(zip_parts(base_dir, rel), seq!['/']);
            r.len() == 0 || forall|i: int|
                0 <= i < split_on(r, '/').len() ==> normal_component(#[trigger] split_on(r, '/')[i])
        }),
{
    let base = nonempty(split_on(base_dir, '/'));
    crate::text::lemma_split_pieces(base_dir, '/');
    crate::text::lemma_nonempty_elems(split_on(base_dir, '/'), '/');
    crate::text::lemma_split_pieces(rel, '/');
    lemma_zj_fold_normal(base, split_on(rel, '/'));
    let parts = zip_parts(base_dir, rel);
    if parts.len() > 0 {
        crate::text::lemma_split_join_sep(parts, '/');
    }
}

/// A component as resolving keeps it: not empty and free of `/`.
pub open spec fn plain_component(p: Seq<char>) -> bool {
    p.len() > 0 && !p.contains('/')
}

proof fn lemma_zj_fold_plain(parts: Seq<Seq<char>>, segs: Seq<Seq<char>>)
    requires
        forall|i: int| 0 <= i < parts.len() ==> plain_component(#[trigger] parts[i]),
        forall|i: int| 0 <= i < segs.len() ==> !(#[trigger] segs[i]).contains('/'),
    ensures
        forall|i: int| 0 <= i < zj_fold(parts, segs).len() ==> plain_component(#[trigger] zj_fold(parts, segs)[i]),
    decreases segs.len(),
{
    if segs.len() > 0 {
        lemma_zj_fold_plain(parts, segs.drop_last());
        let prev = zj_fold(parts, segs.drop_last());
        let cur = zj_fold(parts, segs);
        assert(!segs.last().contains('/'));
        assert forall|i: int| 0 <= i < cur.len() implies plain_component(#[trigger] cur[i]) by {
            if i < prev.len() {
                assert(cur[i] == prev[i]);
            } else {
                assert(cur[i] == segs.last());
            }
        }
    }
}

proof fn lemma_zj_fold_concat(parts: Seq<Seq<char>>, s1: Seq<Seq<char>>, s2: Seq<Seq<char>>)
    ensures
        zj_fold(parts, s1 + s2) == zj_fold(zj_fold(parts, s1), s2),
    decreases s2.len(),
{
    if s2.len() == 0 {
        assert(s1 + s2 =~= s1);
    } else {
        lemma_zj_fold_concat(parts, s1, s2.drop_last());
        assert((s1 + s2).drop_last() =~= s1 + s2.drop_last());
        assert((s1 + s2).last() == s2.last());
    }
}

proof fn lemma_nonempty_keeps(parts: Seq<Seq<char>>)
    requires
        forall|i: int| 0 <= i < parts.len() ==> (#[trigger] parts[i]).len() > 0,
    ensures
        nonempty(parts) == parts,
    decreases parts.len(),
{
    if parts.len() > 0 {
        lemma_nonempty_keeps(parts.drop_last());
        assert(parts.drop_last().push(parts.last()) =~= parts);
    }
}

/// Resolving a path inside a package in two steps is resolving the joined
/// path: `zip_join(zip_join(a, b), c)` equals `zip_join(a, b + "/" + c)`.
pub proof fn law_zip_join_steps(a: Seq<char>, b: Seq<char>, c: Seq<char>)
    ensures
        join(zip_parts(join(zip_parts(a, b), seq!['/']), c), seq!['/']) == join(
            zip_parts(a, b + seq!['/'] + c),
            seq!['/'],
        ),
{
    let base = nonempty(split_on(a, '/'));
    crate::text::lemma_split_pieces(a, '/');
    crate::text::lemma_nonempty_elems(split_on(a, '/'), '/');
    crate::text::lemma_split_pieces(b, '/');
    lemma_zj_fold_plain(base, split_on(b, '/'));
    let p = zip_parts(a, b);
    if p.len() > 0 {
        crate::text::lemma_split_join_sep(p, '/');
        lemma_nonempty_keeps(p);
    } else {
        let e: Seq<char> = seq![];
        assert(join(p, seq!['/']) =~= e);
        assert(split_on(e, '/') =~= seq![e]);
        assert(seq![e].drop_last() =~= Seq::<Seq<char>>::empty());
        assert(seq![e].last() == e);
        assert(nonempty(Seq::<Seq<char>>::empty()) =~= Seq::<Seq<char>>::empty());
        assert(nonempty(seq![e]) == nonempty(Seq::<Seq<char>>::empty()));
        assert(nonempty(seq![e]) =~= p);
    }
    assert(nonempty(split_on(join(p, seq!['/']), '/')) == p);
    crate::text::lemma_split_concat(b, c, '/');
    lemma_zj_fold_concat(base, split_on(b, '/'), split_on(c, '/'));
}

/// Index of the last `c` in `s`, or -1.
pub open spec fn rfind(s: Seq<char>, c: char) -> int
    decreases s.len(),
{
    if s.len() == 0 {
        -1
    } else if s.last() == c {
        s.len() - 1
    } else {
        rfind(s.drop_last(), c)
    }
}

/// The directory part of a package path: what precedes its last `/`, or
/// nothing when it has none.
pub open spec fn dir_of(p: Seq<char>) -> Seq<char> {
    if rfind(p, '/') >= 0 {
        p.take(rfind(p, '/'))
    } else {
        seq![]
    }
}

/// The package path that a theme at `theme_path` names as its base theme `target`:
/// `target` resolved against the theme's own directory.
pub fn included_path(theme_path: &str, target: &str) -> (r: String)
    ensures
        r@ == join(zip_parts(dir_of(theme_path@), target@), seq!['/']),
{
    let pc = chars_of(theme_path);
    let mut k: usize = pc.len();
    assert(pc@.take(pc@.len() as int) =~= pc@);
    while k > 0 && pc[k - 1] != '/'
        invariant
            k <= pc@.len(),
            rfind(pc@, '/') == rfind(pc@.take(k as int), '/'),
        decreases k,
    {
        assert(pc@.take(k as int).drop_last() =~= pc@.take(k - 1));
        k = k - 1;
    }
    let dir = if k > 0 {
        assert(pc@.take(k as int).last() == '/');
        assert(rfind(pc@, '/') == k - 1);
        crate::text::copy_range(pc.as_slice(), 0, k - 1)
    } else {
        assert(rfind(pc@.take(0), '/') == -1);
        Vec::new()
    };
    assert(dir@ =~= dir_of(theme_path@));
    let ds = string_of(dir.as_slice());
    zip_join(ds.as_str(), target)
}

/// `s` without its leading byte-order marks.
pub open spec fn strip_bom_spec(s: Seq<char>) -> Seq<char>
    decreases s.len(),
{
    if s.len() > 0 && s[0] == '\u{feff}' {
        strip_bom_spec(s.drop_first())
    } else {
        s
    }
}

/// A file of the package as text, without the byte-order marks some editors
/// put in front.
pub fn strip_bom(s: &str) -> (r: String)
    ensures
        r@ == strip_bom_spec(s@),
{
    let c = chars_of(s);
    let mut start: usize = 0;
    assert(c@.skip(0) =~= c@);
    while start < c.len() && c[start] == '\u{feff}'
        invariant
            start <= c@.len(),
            strip_bom_spec(s@) == strip_bom_spec(c@.skip(start as int)),
        decreases c.len() - start,
    {
        assert(c@.skip(start as int).drop_first() =~= c@.skip(start + 1));
        start = start + 1;
    }
    let rest = crate::text::copy_range(c.as_slice(), start, c.len());
    assert(rest@ =~= c@.skip(start as int));
    string_of(rest.as_slice())
}

/// The error for a file that is not a zip package.
pub fn not_a_package() -> (r: AppError)
    ensures
        r is Other && r->Other_0@ == "This file is not a valid .vsix package."@,
{
    AppError::Other("This file is not a valid .vsix package.".to_string())
}

/// The error for a package whose manifest lists no themes.
pub fn no_themes() -> (r: AppError)
    ensures
        r is Other && r->Other_0@ == "This extension contains no color themes."@,
{
    AppError::Other("This extension contains no color themes.".to_string())
}

/// The error for a file the package does not hold.
pub fn missing_in_package(path: &str) -> (r: AppError)
    ensures
        r is Other && r->Other_0@ == "File not found in package: "@ + path@,
{
    AppError::Other(concat("File not found in package: ", path))
}

// ---- Imported themes ----

pub struct ThemeMeta {
    pub id: String,
    pub name: String,
    pub dark: bool,
}

/// The name of an imported theme: the package entry's label, else the theme's
/// own name, else "Imported theme".
pub open spec fn theme_label(label: Option<String>, theme_name: Option<String>) -> Seq<char> {
    match label {
        Some(l) => l@,
        None => match theme_name {
            Some(n) => n@,
            None => "Imported theme"@,
        },
    }
}

/// Whether an imported theme is dark: the entry's `uiTheme` unless it is "vs"
/// (light), else the theme's `type` unless it is "light", else dark.
pub open spec fn theme_is_dark(ui_theme: Option<String>, theme_type: Option<String>) -> bool {
    match ui_theme {
        Some(u) => u@ != "vs"@,
        None => match theme_type {
            Some(t) => t@ != "light"@,
            None => true,
        },
    }
}

/// An imported theme is named by the package entry's label, else by its own
/// name, else "Imported theme". The entry's `uiTheme` decides darkness when
/// it is given: the theme is
/// light exactly for "vs", so "vs-dark" and "hc-black" are dark. Without
/// one, the theme's own `type` decides: light exactly for "light"; with
/// neither, the theme counts as dark.
pub proof fn law_imported_theme_name_and_darkness(u: String, theme_type: Option<String>, t: String)
    ensures
        theme_label(Some(u), theme_type) == u@,
        theme_label(None, Some(t)) == t@,
        theme_label(None, None) == "Imported theme"@,
        theme_is_dark(Some(u), theme_type) == (u@ != "vs"@),
        u@ == "vs-dark"@ || u@ == "hc-black"@ ==> theme_is_dark(Some(u), theme_type),
        theme_is_dark(None, Some(t)) == (t@ != "light"@),
        theme_is_dark(None, None),
{
    reveal_strlit("vs");
    reveal_strlit("vs-dark");
    reveal_strlit("hc-black");
    assert("vs"@.len() == 2 && "vs-dark"@.len() == 7 && "hc-black"@.len() == 8);
}

pub fn theme_meta(
    label: Option<String>,
    theme_name: Option<String>,
    ui_theme: Option<String>,
    theme_type: Option<String>,
) -> (r: ThemeMeta)
    ensures
        r.name@ == theme_label(label, theme_name),
        r.dark == theme_is_dark(ui_theme, theme_type),
        r.id@ == slug(r.name@),
{
    let name = match label {
        Some(l) => l,
        None => match theme_name {
            Some(n) => n,
            None => "Imported theme".to_string(),
        },
    };
    let dark = match &ui_theme {
        Some(u) => !str_eq(u.as_str(), "vs"),
        None => match &theme_type {
            Some(t) => !str_eq(t.as_str(), "light"),
            None => true,
        },
    };
    let id = slugify(name.as_str());
    ThemeMeta { id, name, dark }
}

pub open spec fn ends_with(s: Seq<char>, p: Seq<char>) -> bool {
    p.len() <= s.len() && s.skip(s.len() - p.len()) == p
}

/// Only JSON themes are imported (`.tmTheme` XML themes are out of scope).
pub fn is_json_theme(path: &str) -> (r: bool)
    ensures
        r == ends_with(path@, ".json"@),
{
    let pc = chars_of(path);
    let suffix = chars_of(".json");
    if suffix.len() > pc.len() {
        return false;
    }
    let n = pc.len();
    let off = pc.len() - suffix.len();
    let mut i: usize = 0;
    while i < suffix.len()
        invariant
            n == pc@.len(),
            pc@ == path@,
            suffix@ == ".json"@,
            off + suffix@.len() == pc@.len(),
            i <= suffix@.len(),
            forall|j: int| 0 <= j < i ==> pc@[off + j] == suffix@[j],
        decreases suffix.len() - i,
    {
        if pc[off + i] != suffix[i] {
            assert(pc@.skip(off as int)[i as int] != suffix@[i as int]);
            return false;
        }
        i = i + 1;
    }
    assert(pc@.skip(off as int) =~= suffix@);
    true
}

/// The file that stores the theme with this id: its slug plus `.json`.
pub fn theme_file_name(id: &str) -> (r: String)
    ensures
        r@ == slug(id@) + ".json"@,
{
    let s = slugify(id);
    concat(s.as_str(), ".json")
}

/// The error for a package none of whose themes could be imported.
pub fn imported_or_error(imported: Vec<ThemeMeta>) -> (r: Result<Vec<ThemeMeta>, AppError>)
    ensures
        imported@.len() > 0 ==> r is Ok && r->Ok_0@ == imported@,
        imported@.len() == 0 ==> r is Err && r->Err_0 is Other && r->Err_0->Other_0@
            == "No importable color themes found in this package."@,
{
    if imported.len() == 0 {
        Err(AppError::Other("No importable color themes found in this package.".to_string()))
    } else {
        Ok(imported)
    }
}

/// The listing entry of a stored theme file: its `id` and `name` (empty
/// when missing) and `dark` (dark when missing).
pub fn stored_theme_meta(id: Option<String>, name: Option<String>, dark: Option<bool>) -> (r: ThemeMeta)
    ensures
        r.id@ == (match id {
            Some(x) => x@,
            None => seq![],
        }),
        r.name@ == (match name {
            Some(x) => x@,
            None => seq![],
        }),
        r.dark == (match dark {
            Some(d) => d,
            None => true,
        }),
{
    ThemeMeta {
        id: match id {
            Some(x) => x,
            None => String::new(),
        },
        name: match name {
            Some(x) => x,
            None => String::new(),
        },
        dark: match dark {
            Some(d) => d,
            None => true,
        },
    }
}

/// A name as code points; comparing these compares the names as `String`s
/// do, since UTF-8 keeps code-point order.
pub open spec fn code_points(s: Seq<char>) -> Seq<u32> {
    s.map_values(|c: char| c as u32)
}

/// `a` is listed no later than `b`: by name.
pub open spec fn theme_le(a: ThemeMeta, b: ThemeMeta) -> bool {
    lex_le(code_points(a.name@), code_points(b.name@))
}

pub open spec fn themes_sorted(s: Seq<ThemeMeta>) -> bool {
    forall|i: int, j: int| 0 <= i < j < s.len() ==> theme_le(s[i], s[j])
}

/// `r` holds the themes of `s` in the order `perm` gives: `r[k]` is
/// `s[perm[k]]`, no theme of `s` is used twice, and themes with the same
/// name keep the order they had in `s`.
pub open spec fn stable_theme_order(s: Seq<ThemeMeta>, r: Seq<ThemeMeta>, perm: Seq<int>) -> bool {
    &&& perm.len() == r.len()
    &&& r.len() == s.len()
    &&& forall|k: int| 0 <= k < r.len() ==> 0 <= #[trigger] perm[k] < s.len() && r[k] == s[perm[k]]
    &&& forall|k: int, l: int| 0 <= k < l < r.len() ==> perm[k] != perm[l]
    &&& forall|k: int, l: int| 0 <= k < l < r.len() && theme_le(r[l], r[k]) ==> perm[k] < perm[l]
}

fn code_points_of(s: &str) -> (r: Vec<u32>)
    ensures
        r@ == code_points(s@),
{
    let c = chars_of(s);
    let mut r: Vec<u32> = Vec::new();
    let mut i: usize = 0;
    while i < c.len()
        invariant
            i <= c@.len(),
            r@ == code_points(c@.take(i as int)),
        decreases c.len() - i,
    {
        r.push(c[i] as u32);
        i = i + 1;
        assert(r@ =~= code_points(c@.take(i as int)));
    }
    assert(c@.take(c@.len() as int) =~= c@);
    r
}

/// The imported themes in listing order: by name, themes with equal names
/// keeping their order.
pub fn sort_themes(themes: Vec<ThemeMeta>) -> (r: Vec<ThemeMeta>)
    ensures
        r@.to_multiset() == themes@.to_multiset(),
        themes_sorted(r@),
        exists|perm: Seq<int>| stable_theme_order(themes@, r@, perm),
{
    let ghost all = themes@;
    let mut rest = themes;
    let mut out: Vec<ThemeMeta> = Vec::new();
    let mut keys: Vec<Vec<u32>> = Vec::new();
    let ghost mut perm: Seq<int> = seq![];
    assert(out@.to_multiset().add(rest@.to_multiset()) =~= all.to_multiset());
    assert(all.skip(0) =~= all);
    while rest.len() > 0
        invariant
            out@.to_multiset().add(rest@.to_multiset()) == all.to_multiset(),
            themes_sorted(out@),
            keys@.len() == out@.len(),
            forall|j: int| 0 <= j < keys@.len() ==> (#[trigger] keys@[j])@ == code_points(out@[j].name@),
            out@.len() <= all.len(),
            rest@ == all.skip(out@.len() as int),
            perm.len() == out@.len(),
            forall|k: int|
                0 <= k < out@.len() ==> 0 <= #[trigger] perm[k] < out@.len() && out@[k] == all[perm[k]],
            forall|k: int, l: int| 0 <= k < l < out@.len() ==> perm[k] != perm[l],
            forall|k: int, l: int|
                0 <= k < l < out@.len() && theme_le(out@[l], out@[k]) ==> perm[k] < perm[l],
        decreases rest@.len(),
    {
        let ghost rest0 = rest@;
        let x = rest.remove(0);
        let kx = code_points_of(x.name.as_str());
        let mut pos: usize = 0;
        while pos < out.len()
            invariant
                pos <= out@.len(),
                keys@.len() == out@.len(),
                forall|j: int| 0 <= j < keys@.len() ==> (#[trigger] keys@[j])@ == code_points(out@[j].name@),
                kx@ == code_points(x.name@),
                forall|j: int| 0 <= j < pos ==> theme_le(#[trigger] out@[j], x),
            ensures
                pos <= out@.len(),
                forall|j: int| 0 <= j < pos ==> theme_le(#[trigger] out@[j], x),
                pos < out@.len() ==> !theme_le(out@[pos as int], x),
            decreases out@.len() - pos,
        {
            if !lex_le_exec(&keys[pos], &kx) {
                break;
            }
            pos = pos + 1;
        }
        proof {
            if pos < out@.len() {
                lemma_lex_total(code_points(out@[pos as int].name@), kx@);
                assert forall|j: int| pos <= j < out@.len() implies theme_le(x, #[trigger] out@[j]) by {
                    if j > pos {
                        assert(theme_le(out@[pos as int], out@[j]));
                        lemma_lex_trans(kx@, code_points(out@[pos as int].name@), code_points(out@[j].name@));
                    }
                }
            }
        }
        let ghost out0 = out@;
        let ghost perm0 = perm;
        let ghost n = out0.len() as int;
        assert(x == all[n]) by {
            assert(rest0[0] == all.skip(n)[0]);
        }
        out.insert(pos, x);
        keys.insert(pos, kx);
        proof {
            perm = perm0.insert(pos as int, n);
            assert forall|i: int, j: int| 0 <= i < j < out@.len() implies theme_le(out@[i], out@[j]) by {
                if i < pos && j > pos {
                    lemma_lex_trans(code_points(out0[i].name@), kx@, code_points(out0[j - 1].name@));
                }
            }
            assert forall|k: int| 0 <= k < out@.len() implies 0 <= #[trigger] perm[k] < out@.len()
                && out@[k] == all[perm[k]] by {
                if k < pos {
                    assert(perm[k] == perm0[k]);
                } else if k > pos {
                    assert(perm[k] == perm0[k - 1]);
                }
            }
            assert forall|k: int, l: int| 0 <= k < l < out@.len() implies perm[k] != perm[l] by {
                if k != pos && l != pos {
                    let k0 = if k < pos { k } else { k - 1 };
                    let l0 = if l < pos { l } else { l - 1 };
                    assert(perm[k] == perm0[k0] && perm[l] == perm0[l0]);
                } else if k == pos {
                    assert(perm[l] == perm0[l - 1]);
                } else {
                    assert(perm[k] == perm0[k]);
                }
            }
            assert forall|k: int, l: int|
                0 <= k < l < out@.len() && theme_le(out@[l], out@[k]) implies perm[k] < perm[l] by {
                if k != pos && l != pos {
                    let k0 = if k < pos { k } else { k - 1 };
                    let l0 = if l < pos { l } else { l - 1 };
                    assert(perm[k] == perm0[k0] && perm[l] == perm0[l0]);
                    assert(out@[k] == out0[k0] && out@[l] == out0[l0]);
                } else if l == pos {
                    assert(perm[k] == perm0[k]);
                } else {
                    assert(out0[pos as int] == out@[pos + 1]);
                    if theme_le(out0[l - 1], x) {
                        assert(theme_le(out0[pos as int], out0[l - 1]));
                        lemma_lex_trans(
                            code_points(out0[pos as int].name@),
                            code_points(out0[l - 1].name@),
                            kx@,
                        );
                    }
                }
            }
            assert(rest0.remove(0) == rest@);
            assert(all.skip(n).remove(0) =~= all.skip(n + 1));
            assert(out@.to_multiset().add(rest@.to_multiset()) =~= all.to_multiset());
        }
    }
    assert(rest@.to_multiset() =~= vstd::multiset::Multiset::empty());
    assert(out@.to_multiset() =~= all.to_multiset());
    assert(stable_theme_order(all, out@, perm));
    out
}

// ---- Merging a theme with its base ----

/// The parts of a theme that merging reads: its name and type (kept as JSON),
/// its color table as (key, value) pairs, and its token colors.
pub struct ThemeDoc {
    pub name: serde_json::Value,
    pub kind: serde_json::Value,
    pub kind_is_string: bool,
    pub colors: Vec<(String, serde_json::Value)>,
    pub token_colors: Vec<serde_json::Value>,
}

/// The color table that a list of (key, value) pairs builds when inserted in
/// order: a later pair replaces an earlier one with the same key.
pub open spec fn color_table(pairs: Seq<(String, serde_json::Value)>) -> Map<Seq<char>, serde_json::Value>
    decreases pairs.len(),
{
    if pairs.len() == 0 {
        Map::empty()
    } else {
        color_table(pairs.drop_last()).insert(pairs.last().0@, pairs.last().1)
    }
}

proof fn lemma_color_table_concat(a: Seq<(String, serde_json::Value)>, b: Seq<(String, serde_json::Value)>)
    ensures
        color_table(a + b) == color_table(a).union_prefer_right(color_table(b)),
    decreases b.len(),
{
    if b.len() == 0 {
        assert(a + b =~= a);
        assert(color_table(a).union_prefer_right(color_table(b)) =~= color_table(a));
    } else {
        lemma_color_table_concat(a, b.drop_last());
        assert((a + b).drop_last() =~= a + b.drop_last());
        assert(color_table(a + b) =~= color_table(a).union_prefer_right(color_table(b)));
    }
}

/// Merge a theme over the base theme it names: the theme's colors override the
/// base's, its token colors follow the base's, its name is kept, and its type
/// wins when it is a string.
pub fn merge_theme(base: ThemeDoc, over: ThemeDoc) -> (r: ThemeDoc)
    ensures
        r.name == over.name,
        over.kind_is_string ==> r.kind == over.kind && r.kind_is_string,
        !over.kind_is_string ==> r.kind == base.kind && r.kind_is_string == base.kind_is_string,
        color_table(r.colors@) == color_table(base.colors@).union_prefer_right(
            color_table(over.colors@),
        ),
        r.token_colors@ == base.token_colors@ + over.token_colors@,
{
    let ThemeDoc { name: _, kind: base_kind, kind_is_string: base_is_string, colors: mut colors, token_colors: mut tokens } = base;
    let ThemeDoc { name, kind: over_kind, kind_is_string: over_is_string, colors: mut over_colors, token_colors: mut over_tokens } = over;
    proof {
        lemma_color_table_concat(colors@, over_colors@);
    }
    colors.append(&mut over_colors);
    tokens.append(&mut over_tokens);
    let (kind, kind_is_string) = if over_is_string {
        (over_kind, true)
    } else {
        (base_kind, base_is_string)
    };
    ThemeDoc { name, kind, kind_is_string, colors, token_colors: tokens }
}

// ---- Parsing ----

/// Whether `serde_json` accepts a text as one JSON document.
pub uninterp spec fn json_accepts(s: Seq<char>) -> bool;

/// Calls `serde_json::from_str` for a `Value`; on failure gives the error's
/// message.
#[verifier::external_body]
pub(crate) fn json_from_str(s: &str) -> (r: Result<serde_json::Value, String>)
    ensures
        r is Ok <==> json_accepts(s@),
{
    serde_json::from_str(s).map_err(|e| e.to_string())
}

/// Parse a JSONC text: strip comments and trailing commas, then parse JSON;
/// a failure reads "Theme parse error: ..." with the parser's message.
pub fn parse_jsonc(src: &str) -> (r: Result<serde_json::Value, AppError>)
    ensures
        r is Ok <==> json_accepts(jsonc(src@, 0, false)),
        r is Err ==> r->Err_0 is Other && starts_with(r->Err_0->Other_0@, "Theme parse error: "@),
{
    let stripped = strip_jsonc(src);
    match json_from_str(stripped.as_str()) {
        Ok(v) => Ok(v),
        Err(e) => {
            let m = concat("Theme parse error: ", e.as_str());
            assert(m@.take("Theme parse error: "@.len() as int) =~= "Theme parse error: "@);
            Err(AppError::Other(m))
        },
    }
}

/// The text of a string at a pointer, or the empty text.
pub open spec fn or_empty(o: Option<Seq<char>>) -> Seq<char> {
    match o {
        Some(x) => x,
        None => seq![],
    }
}

/// Reads a stored theme file's listing: `None` when the text is not JSON;
/// else its `id` and `name` (empty when absent) and `dark` (true when
/// absent).
pub fn stored_theme(text: &str) -> (r: Option<ThemeMeta>)
    ensures
        r is Some <==> json_accepts(text@),
        r is Some ==> r->0.id@ == or_empty(json_str_at(text@, "/id"@)),
        r is Some ==> r->0.name@ == or_empty(json_str_at(text@, "/name"@)),
        r is Some ==> r->0.dark == (match json_bool_at(text@, "/dark"@) {
            Some(d) => d,
            None => true,
        }),
{
    match json_from_str(text) {
        Err(_) => None,
        Ok(_) => Some(
            stored_theme_meta(
                json_pointer_str(text, "/id"),
                json_pointer_str(text, "/name"),
                json_pointer_bool(text, "/dark"),
            ),
        ),
    }
}

/// Parses a stored theme file; a text that is not JSON gives `Other` with
/// the parser's message.
pub fn stored_theme_value(text: &str) -> (r: Result<serde_json::Value, AppError>)
    ensures
        r is Ok <==> json_accepts(text@),
        r is Err ==> r->Err_0 is Other,
{
    match json_from_str(text) {
        Ok(v) => Ok(v),
        Err(e) => Err(AppError::Other(e)),
    }
}

/// The theme a theme file includes: its `include` field, read from the
/// text once comments and trailing commas are gone.
pub fn theme_include(src: &str) -> (r: Option<String>)
    ensures
        opt_view(r) == json_str_at(jsonc(src@, 0, false), "/include"@),
{
    let stripped = strip_jsonc(src);
    json_pointer_str(stripped.as_str(), "/include")
}

/// A color theme the package's manifest lists: where its file is in the
/// package, and the manifest's `label` and `uiTheme` for it.
pub struct ThemeEntry {
    pub zip_path: String,
    pub label: Option<String>,
    pub ui_theme: Option<String>,
}

pub open spec fn theme_entry_view(e: ThemeEntry) -> (Seq<char>, Option<Seq<char>>, Option<Seq<char>>) {
    (e.zip_path@, opt_view(e.label), opt_view(e.ui_theme))
}

pub open spec fn manifest_ptr(i: nat, field: Seq<char>) -> Seq<char> {
    index_ptr("/contributes/themes/"@, i, field)
}

/// The `i`-th theme of a manifest, when its `path` is a string that leads
/// to a JSON file in the package.
pub open spec fn manifest_entry(doc: Seq<char>, i: nat) -> Option<(Seq<char>, Option<Seq<char>>, Option<Seq<char>>)> {
    match json_str_at(doc, manifest_ptr(i, "/path"@)) {
        Some(rel) => {
            let zp = join(zip_parts("extension"@, rel), seq!['/']);
            if ends_with(zp, ".json"@) {
                Some((zp, json_str_at(doc, manifest_ptr(i, "/label"@)), json_str_at(doc, manifest_ptr(i, "/uiTheme"@))))
            } else {
                None
            }
        },
        None => None,
    }
}

/// The importable themes among the first `n` a manifest lists, in order.
pub open spec fn manifest_entries(doc: Seq<char>, n: nat) -> Seq<(Seq<char>, Option<Seq<char>>, Option<Seq<char>>)>
    decreases n,
{
    if n == 0 {
        seq![]
    } else {
        let prev = manifest_entries(doc, (n - 1) as nat);
        match manifest_entry(doc, (n - 1) as nat) {
            Some(e) => prev.push(e),
            None => prev,
        }
    }
}

/// Reads an extension's `package.json`: a text that does not parse is a
/// theme parse error; no `contributes.themes` array means the package has
/// no color themes; else the listed themes whose file is JSON, in order
/// (`.tmTheme` files are not imported).
pub fn manifest_themes(src: &str) -> (r: Result<Vec<ThemeEntry>, AppError>)
    ensures
        !json_accepts(jsonc(src@, 0, false)) ==> r is Err && r->Err_0 is Other && starts_with(
            r->Err_0->Other_0@,
            "Theme parse error: "@,
        ),
        json_accepts(jsonc(src@, 0, false)) && json_len_at(jsonc(src@, 0, false), "/contributes/themes"@) is None
            ==> r is Err && r->Err_0 is Other && r->Err_0->Other_0@ == "This extension contains no color themes."@,
        json_accepts(jsonc(src@, 0, false)) && json_len_at(jsonc(src@, 0, false), "/contributes/themes"@) is Some
            ==> r is Ok && r->Ok_0@.map_values(|e: ThemeEntry| theme_entry_view(e)) == manifest_entries(
            jsonc(src@, 0, false),
            json_len_at(jsonc(src@, 0, false), "/contributes/themes"@)->0,
        ),
{
    match parse_jsonc(src) {
        Err(e) => {
            return Err(e);
        },
        Ok(_) => {},
    }
    let stripped = strip_jsonc(src);
    let doc = stripped.as_str();
    let n = match json_array_len(doc, "/contributes/themes") {
        None => {
            return Err(no_themes());
        },
        Some(n) => n,
    };
    let mut out: Vec<ThemeEntry> = Vec::new();
    let mut i: usize = 0;
    while i < n
        invariant
            i <= n,
            doc@ == jsonc(src@, 0, false),
            n == json_len_at(doc@, "/contributes/themes"@)->0,
            out@.map_values(|e: ThemeEntry| theme_entry_view(e)) == manifest_entries(doc@, i as nat),
        decreases n - i,
    {
        let pp = index_pointer("/contributes/themes/", i, "/path");
        match json_pointer_str(doc, pp.as_str()) {
            Some(rel) => {
                let zp = zip_join("extension", rel.as_str());
                proof {
                    reveal_strlit("extension");
                }
                if is_json_theme(zp.as_str()) {
                    let lp = index_pointer("/contributes/themes/", i, "/label");
                    let up = index_pointer("/contributes/themes/", i, "/uiTheme");
                    let e = ThemeEntry {
                        zip_path: zp,
                        label: json_pointer_str(doc, lp.as_str()),
                        ui_theme: json_pointer_str(doc, up.as_str()),
                    };
                    let ghost before = out@;
                    out.push(e);
                    assert(out@.map_values(|e: ThemeEntry| theme_entry_view(e)) =~= before.map_values(
                        |e: ThemeEntry| theme_entry_view(e),
                    ).push(theme_entry_view(e)));
                }
            },
            None => {},
        }
        i = i + 1;
    }
    Ok(out)
}

} // verus!
