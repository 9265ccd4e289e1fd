//! The file tree shown beside the editor: which directory entries it shows,
//! the paths it shows them under, and the order it lists them in; and what a
//! folder chosen as a workspace is found to be.

use vstd::prelude::*;

use crate::text::{chars_of, lowercase, string_of, to_lowercase};
use crate::update::{lemma_lex_total, lemma_lex_trans, lex_le, lex_le_exec};
use crate::workspace::{path_strip_prefix, relative_to, str_eq};

verus! {

broadcast use vstd::seq_lib::group_to_multiset_ensures;

pub struct TreeEntry {
    pub name: String,
    pub path: String,
    pub is_dir: bool,
    pub children: Option<Vec<TreeEntry>>,
}

pub struct FolderInspection {
    pub exists: bool,
    pub is_empty: bool,
    pub is_git_repo: bool,
}

/// What a folder is found to be: a folder that does not exist counts as
/// empty.
pub fn folder_inspection(is_dir: bool, has_entries: bool, has_git_dir: bool) -> (r: FolderInspection)
    ensures
        r.exists == is_dir,
        r.is_empty == (!is_dir || !has_entries),
        r.is_git_repo == has_git_dir,
{
    FolderInspection { exists: is_dir, is_empty: !is_dir || !has_entries, is_git_repo: has_git_dir }
}

// ---- Which entries are shown ----

/// Heavy build and dependency folders, left out of the tree and the search
/// index so that opened code folders stay fast.
pub open spec fn skip_dirs() -> Seq<Seq<char>> {
    seq![
        "node_modules"@,
        "target"@,
        "dist"@,
        "build"@,
        ".next"@,
        ".nuxt"@,
        "__pycache__"@,
        ".venv"@,
        "venv"@,
        ".gradle"@,
        "Pods"@,
        "DerivedData"@,
        "vendor"@,
        ".svelte-kit"@,
    ]
}

/// Hidden entries (`.git`, `.pugdock`, dotfiles) are plumbing, not notes;
/// they are never shown or indexed, and neither are the skipped folders.
pub open spec fn skipped(name: Seq<char>) -> bool {
    (name.len() > 0 && name[0] == '.') || skip_dirs().contains(name)
}

pub fn is_skipped_name(name: &str) -> (r: bool)
    ensures
        r == skipped(name@),
{
    let c = chars_of(name);
    if c.len() > 0 && c[0] == '.' {
        return true;
    }
    let dirs: [&str; 14] = [
        "node_modules",
        "target",
        "dist",
        "build",
        ".next",
        ".nuxt",
        "__pycache__",
        ".venv",
        "venv",
        ".gradle",
        "Pods",
        "DerivedData",
        "vendor",
        ".svelte-kit",
    ];
    assert(dirs@.map_values(|d: &str| d@) =~= skip_dirs());
    let mut i: usize = 0;
    while i < 14
        invariant
            i <= 14,
            dirs@.map_values(|d: &str| d@) == skip_dirs(),
            forall|j: int| 0 <= j < i ==> skip_dirs()[j] != name@,
        decreases 14 - i,
    {
        if str_eq(dirs[i], name) {
            assert(skip_dirs()[i as int] == name@);
            return true;
        }
        i = i + 1;
    }
    false
}

/// `s` with every backslash turned into a slash, so that paths read the
/// same on every platform.
pub open spec fn forward(s: Seq<char>) -> Seq<char> {
    s.map_values(|c: char| if c == '\\' { '/' } else { c })
}

pub fn forward_slashes(s: &str) -> (r: String)
    ensures
        r@ == forward(s@),
{
    let c = chars_of(s);
    let mut v: Vec<char> = Vec::new();
    let mut i: usize = 0;
    while i < c.len()
        invariant
            i <= c@.len(),
            v@ == forward(c@.take(i as int)),
        decreases c.len() - i,
    {
        let x = if c[i] == '\\' {
            '/'
        } else {
            c[i]
        };
        v.push(x);
        i = i + 1;
        assert(v@ =~= forward(c@.take(i as int)));
    }
    assert(c@.take(c@.len() as int) =~= c@);
    string_of(v.as_slice())
}

/// The path an entry is shown under: relative to the workspace root, with
/// forward slashes; none when the entry is not under the root.
pub fn tree_rel_path(path: &str, root: &str) -> (r: Option<String>)
    ensures
        relative_to(path@, root@) is None ==> r is None,
        relative_to(path@, root@) is Some ==> r is Some && r->0@ == forward(
            relative_to(path@, root@)->0,
        ),
{
    match path_strip_prefix(path, root) {
        Some(rel) => Some(forward_slashes(rel.as_str())),
        None => None,
    }
}

// ---- The order of a listing ----

/// The sort key of a name: its lowercase form, as code points. Comparing
/// these compares the lowercase names as `String`s do, since UTF-8 keeps
/// code-point order.
pub open spec fn name_key(name: Seq<char>) -> Seq<u32> {
    lowercase(name).map_values(|c: char| c as u32)
}

/// `a` is listed no later than `b`: folders before files, then by
/// lowercase name.
pub open spec fn entry_le(a: TreeEntry, b: TreeEntry) -> bool {
    (a.is_dir && !b.is_dir) || (a.is_dir == b.is_dir && lex_le(name_key(a.name@), name_key(b.name@)))
}

pub open spec fn tree_sorted(s: Seq<TreeEntry>) -> bool {
    forall|i: int, j: int| 0 <= i < j < s.len() ==> entry_le(s[i], s[j])
}

proof fn lemma_entry_le_total(a: TreeEntry, b: TreeEntry)
    ensures
        entry_le(a, b) || entry_le(b, a),
{
    lemma_lex_total(name_key(a.name@), name_key(b.name@));
}

proof fn lemma_entry_le_trans(a: TreeEntry, b: TreeEntry, c: TreeEntry)
    requires
        entry_le(a, b),
        entry_le(b, c),
    ensures
        entry_le(a, c),
{
    if a.is_dir == b.is_dir && b.is_dir == c.is_dir {
        lemma_lex_trans(name_key(a.name@), name_key(b.name@), name_key(c.name@));
    }
}

fn key_of(name: &str) -> (r: Vec<u32>)
    ensures
        r@ == name_key(name@),
{
    let l = to_lowercase(name);
    let c = chars_of(l.as_str());
    let mut r: Vec<u32> = Vec::new();
    let mut i: usize = 0;
    while i < c.len()
        invariant
            i <= c@.len(),
            r@ == c@.take(i as int).map_values(|x: char| x as u32),
        decreases c.len() - i,
    {
        r.push(c[i] as u32);
        i = i + 1;
        assert(r@ =~= c@.take(i as int).map_values(|x: char| x as u32));
    }
    assert(c@.take(c@.len() as int) =~= c@);
    r
}

/// `r` holds the entries of `s` in the order `perm` gives: `r[k]` is
/// `s[perm[k]]`, no entry of `s` is used twice, and entries with the same
/// sort key keep the order they had in `s`.
pub open spec fn stable_arrangement(s: Seq<TreeEntry>, r: Seq<TreeEntry>, perm: Seq<int>) -> bool {
    &&& perm.len() == r.len()
    &&& r.len() == s.len()
    &&& forall|k: int| 0 <= k < r.len() ==> 0 <= #[trigger] perm[k] < s.len() && r[k] == s[perm[k]]
    &&& forall|k: int, l: int| 0 <= k < l < r.len() ==> perm[k] != perm[l]
    &&& forall|k: int, l: int| 0 <= k < l < r.len() && entry_le(r[l], r[k]) ==> perm[k] < perm[l]
}

/// The entries of one folder in listing order: folders first, then by
/// lowercase name, entries with the same key keeping their order.
pub fn sort_tree(entries: Vec<TreeEntry>) -> (r: Vec<TreeEntry>)
    ensures
        r@.to_multiset() == entries@.to_multiset(),
        tree_sorted(r@),
        exists|perm: Seq<int>| stable_arrangement(entries@, r@, perm),
{
    let ghost all = entries@;
    let mut rest = entries;
    let mut out: Vec<TreeEntry> = Vec::new();
    let mut keys: Vec<Vec<u32>> = Vec::new();
    let ghost mut perm: Seq<int> = seq![];
    assert(out@.to_multiset().add(rest@.to_multiset()) =~= all.to_multiset());
    assert(all.skip(0) =~= all);
    while rest.len() > 0
        invariant
            out@.to_multiset().add(rest@.to_multiset()) == all.to_multiset(),
            tree_sorted(out@),
            out@.len() <= all.len(),
            rest@ == all.skip(out@.len() as int),
            perm.len() == out@.len(),
            forall|k: int|
                0 <= k < out@.len() ==> 0 <= #[trigger] perm[k] < out@.len() && out@[k] == all[perm[k]],
            forall|k: int, l: int| 0 <= k < l < out@.len() ==> perm[k] != perm[l],
            forall|k: int, l: int|
                0 <= k < l < out@.len() && entry_le(out@[l], out@[k]) ==> perm[k] < perm[l],
            keys@.len() == out@.len(),
            forall|j: int| 0 <= j < keys@.len() ==> (#[trigger] keys@[j])@ == name_key(out@[j].name@),
        decreases rest@.len(),
    {
        let ghost rest0 = rest@;
        let x = rest.remove(0);
        let kx = key_of(x.name.as_str());
        let mut pos: usize = 0;
        while pos < out.len()
            invariant
                pos <= out@.len(),
                keys@.len() == out@.len(),
                forall|j: int| 0 <= j < keys@.len() ==> (#[trigger] keys@[j])@ == name_key(out@[j].name@),
                kx@ == name_key(x.name@),
                forall|j: int| 0 <= j < pos ==> entry_le(#[trigger] out@[j], x),
            ensures
                pos <= out@.len(),
                forall|j: int| 0 <= j < pos ==> entry_le(#[trigger] out@[j], x),
                pos < out@.len() ==> !entry_le(out@[pos as int], x),
            decreases out@.len() - pos,
        {
            let le = (out[pos].is_dir && !x.is_dir) || (out[pos].is_dir == x.is_dir && lex_le_exec(
                &keys[pos],
                &kx,
            ));
            if !le {
                break;
            }
            pos = pos + 1;
        }
        proof {
            if pos < out@.len() {
                assert(!entry_le(out@[pos as int], x));
                lemma_entry_le_total(out@[pos as int], x);
                assert forall|j: int| pos <= j < out@.len() implies entry_le(x, #[trigger] out@[j]) by {
                    if j > pos {
                        lemma_entry_le_trans(x, out@[pos as int], out@[j]);
                    }
                }
            }
        }
        let ghost out0 = out@;
        let ghost perm0 = perm;
        let ghost n = out0.len() as int;
        assert(x == all[n]) by {
            assert(rest0[0] == all.skip(n)[0]);
        }
        out.insert(pos, x);
        keys.insert(pos, kx);
        proof {
            perm = perm0.insert(pos as int, n);
            assert forall|i: int, j: int| 0 <= i < j < out@.len() implies entry_le(
                out@[i],
                out@[j],
            ) by {
                if j < pos {
                } else if j == pos {
                } else if i < pos {
                    lemma_entry_le_trans(out0[i], x, out0[j - 1]);
                } else if i == pos {
                } else {
                }
            }
            assert forall|k: int| 0 <= k < out@.len() implies 0 <= #[trigger] perm[k] < out@.len()
                && out@[k] == all[perm[k]] by {
                if k < pos {
                    assert(perm[k] == perm0[k]);
                } else if k > pos {
                    assert(perm[k] == perm0[k - 1]);
                }
            }
            assert forall|k: int, l: int| 0 <= k < l < out@.len() implies perm[k] != perm[l] by {
                if k != pos && l != pos {
                    let k0 = if k < pos { k } else { k - 1 };
                    let l0 = if l < pos { l } else { l - 1 };
                    assert(perm[k] == perm0[k0] && perm[l] == perm0[l0]);
                } else if k == pos {
                    assert(perm[l] == perm0[l - 1]);
                } else {
                    assert(perm[k] == perm0[k]);
                }
            }
            assert forall|k: int, l: int|
                0 <= k < l < out@.len() && entry_le(out@[l], out@[k]) implies perm[k] < perm[l] by {
                if k != pos && l != pos {
                    let k0 = if k < pos { k } else { k - 1 };
                    let l0 = if l < pos { l } else { l - 1 };
                    assert(perm[k] == perm0[k0] && perm[l] == perm0[l0]);
                    assert(out@[k] == out0[k0] && out@[l] == out0[l0]);
                } else if l == pos {
                    assert(perm[k] == perm0[k]);
                } else {
                    assert(out0[pos as int] == out@[pos + 1]);
                    if entry_le(out0[l - 1], x) {
                        lemma_entry_le_trans(out0[pos as int], out0[l - 1], x);
                    }
                }
            }
            assert(rest0.remove(0) == rest@);
            assert(all.skip(n).remove(0) =~= all.skip(n + 1));
            assert(out@.to_multiset().add(rest@.to_multiset()) =~= all.to_multiset());
        }
    }
    assert(rest@.to_multiset() =~= vstd::multiset::Multiset::empty());
    assert(out@.to_multiset() =~= all.to_multiset());
    assert(stable_arrangement(all, out@, perm));
    out
}

} // verus!
