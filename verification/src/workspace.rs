//! Workspaces: the app configuration and its invariants, the sandboxing of
//! UI-supplied paths, the synced workspace registry, and the small encoders the
//! file commands use.

use vstd::prelude::*;

use crate::error::AppError;
use crate::text::{
    append, chars_of, concat, dec_digits, decimal, push_str, split_chars, split_on, starts_with,
    string_of, views,
};
use crate::search::{extension_of, path_extension};
use crate::json::{index_pointer, index_ptr, json_array_len, json_len_at, json_pointer_str, json_str_at};
use crate::tree::{forward, tree_rel_path};

verus! {

// ---- Paths ----

/// `s` without its leading `/` characters, as `trim_start_matches('/')` gives it.
pub open spec fn strip_slashes(s: Seq<char>) -> Seq<char>
    decreases s.len(),
{
    if s.len() > 0 && s[0] == '/' {
        strip_slashes(s.drop_first())
    } else {
        s
    }
}

pub open spec fn dot_dot() -> Seq<char> {
    seq!['.', '.']
}

/// `rel` names a `..` component.
pub open spec fn climbs(rel: Seq<char>) -> bool {
    split_on(rel, '/').contains(dot_dot())
}

/// What `Path::join` gives for `rel` adjoined to `base`.
pub uninterp spec fn joined(base: Seq<char>, rel: Seq<char>) -> Seq<char>;

/// Calls `Path::join`; the result is read back as text, which is lossless
/// since both parts are UTF-8.
#[verifier::external_body]
pub(crate) fn path_join(base: &str, rel: &str) -> (r: String)
    ensures
        r@ == joined(base@, rel@),
{
    std::path::Path::new(base).join(rel).to_string_lossy().into_owned()
}

/// Join a UI-supplied relative path onto the workspace root, rejecting any path
/// that climbs out of it with a `..` component. Leading slashes of `rel` are
/// dropped, so it can never name an absolute path.
pub fn resolve(root: &str, rel: &str) -> (r: Result<String, AppError>)
    ensures
        r is Err <==> climbs(strip_slashes(rel@)),
        r is Err ==> r->Err_0 == AppError::PathOutsideWorkspace,
        r is Ok ==> r->Ok_0@ == joined(root@, strip_slashes(rel@)),
{
    let rc = chars_of(rel);
    let mut start: usize = 0;
    assert(rc@.skip(0) =~= rc@);
    while start < rc.len() && rc[start] == '/'
        invariant
            start <= rc@.len(),
            strip_slashes(rel@) == strip_slashes(rc@.skip(start as int)),
        decreases rc.len() - start,
    {
        assert(rc@.skip(start as int).drop_first() =~= rc@.skip(start + 1));
        start = start + 1;
    }
    let ghost t = rc@.skip(start as int);
    assert(strip_slashes(t) == t);
    let trimmed = copy_tail(rc.as_slice(), start);
    let parts = split_chars(trimmed.as_slice(), '/');
    let mut i: usize = 0;
    while i < parts.len()
        invariant
            i <= parts@.len(),
            views(parts@) == split_on(t, '/'),
            strip_slashes(rel@) == t,
            forall|j: int| 0 <= j < i ==> parts@[j]@ != dot_dot(),
        decreases parts.len() - i,
    {
        let p = &parts[i];
        if p.len() == 2 && p[0] == '.' && p[1] == '.' {
            assert(p@ =~= dot_dot());
            assert(views(parts@)[i as int] == dot_dot());
            assert(split_on(t, '/').contains(dot_dot()));
            return Err(AppError::PathOutsideWorkspace);
        }
        assert(p@ != dot_dot());
        i = i + 1;
    }
    assert(!split_on(t, '/').contains(dot_dot())) by {
        if split_on(t, '/').contains(dot_dot()) {
            let k = choose|k: int| 0 <= k < split_on(t, '/').len() && split_on(t, '/')[k] == dot_dot();
            assert(views(parts@)[k] == parts@[k]@);
        }
    }
    let ts = string_of(trimmed.as_slice());
    Ok(path_join(root, ts.as_str()))
}

fn copy_tail(s: &[char], from: usize) -> (r: Vec<char>)
    requires
        from <= s@.len(),
    ensures
        r@ == s@.skip(from as int),
{
    let mut r: Vec<char> = Vec::new();
    let mut i = from;
    while i < s.len()
        invariant
            from <= i <= s@.len(),
            r@ == s@.subrange(from as int, i as int),
        decreases s.len() - i,
    {
        r.push(s[i]);
        i = i + 1;
        assert(r@ =~= s@.subrange(from as int, i as int));
    }
    assert(s@.subrange(from as int, s@.len() as int) =~= s@.skip(from as int));
    r
}

/// What `resolve` hands to `Path::join` is relative: it does not start
/// with `/`, and none of its components is `..`.
pub proof fn law_resolved_paths_stay_inside(rel: Seq<char>)
    requires
        !climbs(strip_slashes(rel)),
    ensures
        ({
            let t = strip_slashes(rel);
            &&& (t.len() == 0 || t[0] != '/')
            &&& !split_on(t, '/').contains(dot_dot())
        }),
    decreases rel.len(),
{
    if rel.len() > 0 && rel[0] == '/' {
        law_resolved_paths_stay_inside(rel.drop_first());
    }
}

// ---- Base64 ----

/// The character of the standard Base64 alphabet for `i < 64`.
pub open spec fn b64_char(i: nat) -> char {
    if i < 26 {
        ((i + 'A' as nat) as u8) as char
    } else if i < 52 {
        ((i - 26 + 'a' as nat) as u8) as char
    } else if i < 62 {
        ((i - 52 + '0' as nat) as u8) as char
    } else if i == 62 {
        '+'
    } else {
        '/'
    }
}

/// Standard Base64 with `=` padding (RFC 4648): each group of three bytes
/// becomes four characters of six bits each.
pub open spec fn base64(s: Seq<u8>) -> Seq<char>
    decreases s.len(),
{
    if s.len() == 0 {
        seq![]
    } else if s.len() == 1 {
        seq![b64_char(s[0] as nat / 4), b64_char((s[0] as nat % 4) * 16), '=', '=']
    } else if s.len() == 2 {
        seq![
            b64_char(s[0] as nat / 4),
            b64_char((s[0] as nat % 4) * 16 + s[1] as nat / 16),
            b64_char((s[1] as nat % 16) * 4),
            '=',
        ]
    } else {
        seq![
            b64_char(s[0] as nat / 4),
            b64_char((s[0] as nat % 4) * 16 + s[1] as nat / 16),
            b64_char((s[1] as nat % 16) * 4 + s[2] as nat / 64),
            b64_char(s[2] as nat % 64),
        ] + base64(s.skip(3))
    }
}

fn b64_digit(i: u8) -> (c: char)
    requires
        i < 64,
    ensures
        c == b64_char(i as nat),
{
    if i < 26 {
        (i + 65u8) as char
    } else if i < 52 {
        (i - 26 + 97u8) as char
    } else if i < 62 {
        (i - 52 + 48u8) as char
    } else if i == 62 {
        '+'
    } else {
        '/'
    }
}

pub fn base64_encode(data: &[u8]) -> (r: String)
    ensures
        r@ == base64(data@),
{
    let mut out: Vec<char> = Vec::new();
    let mut i: usize = 0;
    assert(data@.skip(0) =~= data@);
    while i < data.len()
        invariant
            i <= data@.len(),
            out@ + base64(data@.skip(i as int)) == base64(data@),
        decreases data.len() - i,
    {
        let rest = data.len() - i;
        let b0 = data[i];
        let ghost before = out@;
        let ghost s = data@.skip(i as int);
        out.push(b64_digit(b0 / 4));
        if rest == 1 {
            out.push(b64_digit((b0 % 4) * 16));
            out.push('=');
            out.push('=');
            assert(out@ =~= before + base64(s));
            assert(data@.skip(data@.len() as int) =~= Seq::<u8>::empty());
            assert(out@ + base64(data@.skip(data@.len() as int)) =~= out@);
            i = data.len();
        } else {
            let b1 = data[i + 1];
            out.push(b64_digit((b0 % 4) * 16 + b1 / 16));
            if rest == 2 {
                out.push(b64_digit((b1 % 16) * 4));
                out.push('=');
                assert(out@ =~= before + base64(s));
                assert(data@.skip(data@.len() as int) =~= Seq::<u8>::empty());
                assert(out@ + base64(data@.skip(data@.len() as int)) =~= out@);
                i = data.len();
            } else {
                let b2 = data[i + 2];
                out.push(b64_digit((b1 % 16) * 4 + b2 / 64));
                out.push(b64_digit(b2 % 64));
                assert(s.skip(3) =~= data@.skip(i + 3));
                assert(out@ + base64(data@.skip(i + 3)) =~= before + base64(s));
                i = i + 3;
            }
        }
    }
    assert(data@.skip(i as int) =~= Seq::<u8>::empty());
    assert(out@ + base64(data@.skip(i as int)) =~= out@);
    string_of(out.as_slice())
}

/// Base64 output is four characters for every started group of three bytes.
pub proof fn law_base64_length(s: Seq<u8>)
    ensures
        base64(s).len() == (s.len() + 2) / 3 * 4,
    decreases s.len(),
{
    if s.len() >= 3 {
        law_base64_length(s.skip(3));
    }
}

/// Encoding is streamable: data cut after a whole number of three-byte groups
/// encodes to the concatenation of the encodings of its parts.
pub proof fn law_base64_concat(a: Seq<u8>, b: Seq<u8>)
    requires
        a.len() % 3 == 0,
    ensures
        base64(a + b) == base64(a) + base64(b),
    decreases a.len(),
{
    if a.len() == 0 {
        assert(a + b =~= b);
    } else {
        law_base64_concat(a.skip(3), b);
        assert((a + b).skip(3) =~= a.skip(3) + b);
        assert(base64(a + b) =~= base64(a) + base64(b));
    }
}

// ---- Configuration ----

#[verifier::external_type_specification]
#[verifier::external_body]
pub struct ExJsonValue(serde_json::Value);

#[derive(Debug, Clone)]
pub struct WorkspaceEntry {
    pub path: String,
    pub name: String,
    pub repo_owner: Option<String>,
    pub repo_name: Option<String>,
    /// true: a PugDock-managed workspace (scaffold, checkpoints, sync);
    /// false: an opened folder whose git and structure PugDock never touches.
    pub managed: bool,
}

/// The app-level configuration. The top-level `workspace_path`, `repo_owner`
/// and `repo_name` mirror the active workspace.
#[derive(Debug)]
pub struct AppConfig {
    pub workspace_path: Option<String>,
    pub repo_owner: Option<String>,
    pub repo_name: Option<String>,
    pub workspaces: Vec<WorkspaceEntry>,
    pub onboarding_done: bool,
    /// Free-form UI settings owned by the frontend, carried through untouched.
    pub settings: serde_json::Value,
}

/// Index of the first entry whose path is `p`, or `ws.len()` when none is.
pub open spec fn index_of_path(ws: Seq<WorkspaceEntry>, p: Seq<char>) -> nat
    decreases ws.len(),
{
    if ws.len() == 0 {
        0
    } else if ws[0].path@ == p {
        0
    } else {
        1 + index_of_path(ws.drop_first(), p)
    }
}

pub proof fn lemma_index_of_path(ws: Seq<WorkspaceEntry>, p: Seq<char>, k: int)
    requires
        0 <= k <= ws.len(),
        forall|j: int| 0 <= j < k ==> ws[j].path@ != p,
        k == ws.len() || ws[k].path@ == p,
    ensures
        index_of_path(ws, p) == k,
    decreases ws.len(),
{
    if ws.len() > 0 && k > 0 {
        lemma_index_of_path(ws.drop_first(), p, k - 1);
    }
}

pub proof fn lemma_index_of_path_bounds(ws: Seq<WorkspaceEntry>, p: Seq<char>)
    ensures
        index_of_path(ws, p) <= ws.len(),
        forall|j: int| 0 <= j < index_of_path(ws, p) ==> ws[j].path@ != p,
        index_of_path(ws, p) < ws.len() ==> ws[index_of_path(ws, p) as int].path@ == p,
    decreases ws.len(),
{
    if ws.len() > 0 && ws[0].path@ != p {
        lemma_index_of_path_bounds(ws.drop_first(), p);
        assert forall|j: int| 0 <= j < index_of_path(ws, p) implies ws[j].path@ != p by {
            if j > 0 {
                assert(ws[j] == ws.drop_first()[j - 1]);
            }
        }
    }
}

pub open spec fn has_path(ws: Seq<WorkspaceEntry>, p: Seq<char>) -> bool {
    exists|j: int| 0 <= j < ws.len() && ws[j].path@ == p
}

/// Position of the first entry with path `p`, or `ws.len()`.
pub fn find_entry(ws: &Vec<WorkspaceEntry>, p: &str) -> (r: usize)
    ensures
        r == index_of_path(ws@, p@),
        r <= ws@.len(),
        r < ws@.len() <==> has_path(ws@, p@),
{
    let mut i: usize = 0;
    while i < ws.len()
        invariant
            i <= ws@.len(),
            forall|j: int| 0 <= j < i ==> ws@[j].path@ != p@,
        decreases ws.len() - i,
    {
        if str_eq(ws[i].path.as_str(), p) {
            proof {
                lemma_index_of_path(ws@, p@, i as int);
            }
            return i;
        }
        i = i + 1;
    }
    proof {
        lemma_index_of_path(ws@, p@, ws@.len() as int);
    }
    i
}

pub fn str_eq(a: &str, b: &str) -> (r: bool)
    ensures
        r == (a@ == b@),
{
    let x = chars_of(a);
    let y = chars_of(b);
    if x.len() != y.len() {
        return false;
    }
    let mut i: usize = 0;
    while i < x.len()
        invariant
            i <= x@.len() == y@.len(),
            x@ == a@,
            y@ == b@,
            forall|j: int| 0 <= j < i ==> x@[j] == y@[j],
        decreases x.len() - i,
    {
        if x[i] != y[i] {
            assert(x@[i as int] != y@[i as int]);
            return false;
        }
        i = i + 1;
    }
    assert(x@ =~= y@);
    true
}

pub fn clone_opt(o: &Option<String>) -> (r: Option<String>)
    ensures
        r == *o,
{
    match o {
        Some(s) => Some(s.clone()),
        None => None,
    }
}

/// What `Path::file_name` gives for a path: its final component, if that is a
/// normal name.
pub uninterp spec fn file_name_of(p: Seq<char>) -> Option<Seq<char>>;

/// Calls `Path::file_name` and converts the name to a `String`.
#[verifier::external_body]
pub(crate) fn path_file_name(p: &str) -> (r: Option<String>)
    ensures
        r is Some <==> file_name_of(p@) is Some,
        r is Some ==> r->Some_0@ == file_name_of(p@)->Some_0,
{
    std::path::Path::new(p).file_name().map(|n| n.to_string_lossy().to_string())
}

/// The number of components `Path::components` yields for a path.
pub uninterp spec fn path_depth(p: Seq<char>) -> nat;

/// Calls `Path::components` and counts them.
#[verifier::external_body]
pub(crate) fn path_component_count(p: &str) -> (r: usize)
    ensures
        r == path_depth(p@),
{
    std::path::Path::new(p).components().count()
}

/// What `Path::starts_with` gives: `base` is a whole-component prefix of `p`.
pub uninterp spec fn path_within(p: Seq<char>, base: Seq<char>) -> bool;

/// Calls `Path::starts_with`.
#[verifier::external_body]
pub(crate) fn path_starts_with(p: &str, base: &str) -> (r: bool)
    ensures
        r == path_within(p@, base@),
{
    std::path::Path::new(p).starts_with(base)
}

/// What `==` on two `Path`s gives: their components are equal.
pub uninterp spec fn same_path(a: Seq<char>, b: Seq<char>) -> bool;

/// Calls `<Path as PartialEq>::eq`.
#[verifier::external_body]
pub(crate) fn path_eq(a: &str, b: &str) -> (r: bool)
    ensures
        r == same_path(a@, b@),
{
    std::path::Path::new(a) == std::path::Path::new(b)
}

/// What `Path::strip_prefix` gives: the rest of `p` after the components of
/// `base`, if `base` is a prefix of it.
pub uninterp spec fn relative_to(p: Seq<char>, base: Seq<char>) -> Option<Seq<char>>;

/// Calls `Path::strip_prefix` and converts the rest to a `String`.
#[verifier::external_body]
pub(crate) fn path_strip_prefix(p: &str, base: &str) -> (r: Option<String>)
    ensures
        r is Some <==> relative_to(p@, base@) is Some,
        r is Some ==> r->Some_0@ == relative_to(p@, base@)->Some_0,
{
    std::path::Path::new(p).strip_prefix(base).ok().map(|r| r.to_string_lossy().to_string())
}

/// The display name of the workspace that a single-workspace configuration
/// migrates into: the repo name, else the folder name, else "Workspace".
pub open spec fn migrated_name(repo_name: Option<String>, path: Seq<char>) -> Seq<char> {
    match repo_name {
        Some(r) => r@,
        None => match file_name_of(path) {
            Some(f) => f,
            None => "Workspace"@,
        },
    }
}

/// What `normalize` does: a configuration with an active path and no
/// workspace list gains one managed entry for that path; then the first entry
/// for the active path takes the top-level repo owner and name. Nothing else
/// changes.
pub open spec fn normalize_post(c: AppConfig, n: AppConfig) -> bool {
    &&& n.workspace_path == c.workspace_path
    &&& n.repo_owner == c.repo_owner
    &&& n.repo_name == c.repo_name
    &&& n.onboarding_done == c.onboarding_done
    &&& n.settings == c.settings
    &&& if c.workspaces@.len() == 0 && c.workspace_path is Some {
        let p = c.workspace_path->Some_0;
        &&& n.workspaces@.len() == 1
        &&& n.workspaces@[0].path == p
        &&& n.workspaces@[0].name@ == migrated_name(c.repo_name, p@)
        &&& n.workspaces@[0].repo_owner == c.repo_owner
        &&& n.workspaces@[0].repo_name == c.repo_name
        &&& n.workspaces@[0].managed
    } else {
        &&& n.workspaces@.len() == c.workspaces@.len()
        &&& forall|j: int|
            0 <= j < c.workspaces@.len() ==> {
                let w = c.workspaces@[j];
                let v = #[trigger] n.workspaces@[j];
                if c.workspace_path is Some && j == index_of_path(
                    c.workspaces@,
                    c.workspace_path->Some_0@,
                ) {
                    v == WorkspaceEntry { repo_owner: c.repo_owner, repo_name: c.repo_name, ..w }
                } else {
                    v == w
                }
            }
    }
}

impl AppConfig {
    /// Migrate a single-workspace configuration into the workspace list and
    /// keep the active entry's repo fields equal to the top-level ones.
    pub fn normalize(&mut self)
        ensures
            normalize_post(*old(self), *final(self)),
    {
        if self.workspaces.len() == 0 {
            if let Some(path) = &self.workspace_path {
                let name = match &self.repo_name {
                    Some(r) => r.clone(),
                    None => match path_file_name(path.as_str()) {
                        Some(f) => f,
                        None => "Workspace".to_string(),
                    },
                };
                let entry = WorkspaceEntry {
                    path: path.clone(),
                    name,
                    repo_owner: clone_opt(&self.repo_owner),
                    repo_name: clone_opt(&self.repo_name),
                    managed: true,
                };
                self.workspaces.push(entry);
                return;
            }
        }
        if let Some(path) = &self.workspace_path {
            let i = find_entry(&self.workspaces, path.as_str());
            if i < self.workspaces.len() {
                let w = &self.workspaces[i];
                let e = WorkspaceEntry {
                    path: w.path.clone(),
                    name: w.name.clone(),
                    repo_owner: clone_opt(&self.repo_owner),
                    repo_name: clone_opt(&self.repo_name),
                    managed: w.managed,
                };
                self.workspaces.set(i, e);
            }
        }
    }
}

/// The top-level repo fields mirror those of the active workspace's entry.
pub open spec fn mirrors_active(c: AppConfig) -> bool {
    c.workspace_path is Some && index_of_path(c.workspaces@, c.workspace_path->Some_0@)
        < c.workspaces@.len() ==> {
        let w = c.workspaces@[index_of_path(c.workspaces@, c.workspace_path->Some_0@) as int];
        w.repo_owner == c.repo_owner && w.repo_name == c.repo_name
    }
}

proof fn lemma_index_of_same_paths(a: Seq<WorkspaceEntry>, b: Seq<WorkspaceEntry>, p: Seq<char>)
    requires
        a.len() == b.len(),
        forall|j: int| 0 <= j < a.len() ==> a[j].path@ == b[j].path@,
    ensures
        index_of_path(a, p) == index_of_path(b, p),
    decreases a.len(),
{
    if a.len() > 0 {
        lemma_index_of_same_paths(a.drop_first(), b.drop_first(), p);
    }
}

/// After `normalize` the top-level repo fields mirror the active workspace.
pub proof fn law_normalize_mirrors_active(c: AppConfig, n: AppConfig)
    requires
        normalize_post(c, n),
    ensures
        mirrors_active(n),
{
    if n.workspace_path is Some {
        let p = n.workspace_path->Some_0@;
        if c.workspaces@.len() == 0 {
            lemma_index_of_path(n.workspaces@, p, 0);
        } else {
            lemma_index_of_same_paths(c.workspaces@, n.workspaces@, p);
        }
    }
}

/// `normalize` is idempotent: normalizing a normalized configuration changes
/// nothing.
pub proof fn law_normalize_idempotent(a: AppConfig, b: AppConfig, c: AppConfig)
    requires
        normalize_post(a, b),
        normalize_post(b, c),
    ensures
        c.workspace_path == b.workspace_path,
        c.repo_owner == b.repo_owner,
        c.repo_name == b.repo_name,
        c.onboarding_done == b.onboarding_done,
        c.settings == b.settings,
        c.workspaces@ == b.workspaces@,
{
    if a.workspaces@.len() == 0 && a.workspace_path is Some {
        let p = a.workspace_path->Some_0@;
        lemma_index_of_path(b.workspaces@, p, 0);
        assert(c.workspaces@ =~= b.workspaces@);
    } else {
        if a.workspace_path is Some {
            lemma_index_of_same_paths(a.workspaces@, b.workspaces@, a.workspace_path->Some_0@);
        }
        assert(c.workspaces@ =~= b.workspaces@);
    }
}

/// What `set_active` does: the first entry with path `p`, if any, becomes the
/// active workspace and its repo fields are mirrored at the top level.
pub open spec fn set_active_post(c: AppConfig, n: AppConfig, p: Seq<char>) -> bool {
    let k = index_of_path(c.workspaces@, p);
    &&& n.workspaces@ == c.workspaces@
    &&& n.onboarding_done == c.onboarding_done
    &&& n.settings == c.settings
    &&& if k < c.workspaces@.len() {
        &&& n.workspace_path == Some(c.workspaces@[k as int].path)
        &&& n.repo_owner == c.workspaces@[k as int].repo_owner
        &&& n.repo_name == c.workspaces@[k as int].repo_name
    } else {
        &&& n.workspace_path == c.workspace_path
        &&& n.repo_owner == c.repo_owner
        &&& n.repo_name == c.repo_name
    }
}

pub fn set_active(cfg: &mut AppConfig, path: &str)
    ensures
        set_active_post(*old(cfg), *final(cfg), path@),
{
    let k = find_entry(&cfg.workspaces, path);
    if k < cfg.workspaces.len() {
        let p = cfg.workspaces[k].path.clone();
        let o = clone_opt(&cfg.workspaces[k].repo_owner);
        let n = clone_opt(&cfg.workspaces[k].repo_name);
        cfg.workspace_path = Some(p);
        cfg.repo_owner = o;
        cfg.repo_name = n;
    }
}

/// Entry `i` is the sync root: the first managed entry of least depth.
pub open spec fn is_sync_root(ws: Seq<WorkspaceEntry>, i: int) -> bool {
    &&& 0 <= i < ws.len()
    &&& ws[i].managed
    &&& forall|j: int|
        0 <= j < ws.len() && ws[j].managed ==> path_depth(ws[i].path@) <= path_depth(
            #[trigger] ws[j].path@,
        )
    &&& forall|j: int|
        0 <= j < i && ws[j].managed ==> path_depth(ws[i].path@) < path_depth(#[trigger] ws[j].path@)
}

pub open spec fn any_managed(ws: Seq<WorkspaceEntry>) -> bool {
    exists|j: int| 0 <= j < ws.len() && ws[j].managed
}

/// The sync root: the topmost managed workspace (where `.git` and the remote
/// live); every other workspace is a folder inside it.
pub fn sync_root(cfg: &AppConfig) -> (r: Option<String>)
    ensures
        r is None <==> !any_managed(cfg.workspaces@),
        r is Some ==> exists|i: int|
            is_sync_root(cfg.workspaces@, i) && r->Some_0 == cfg.workspaces@[i].path,
{
    let ws = &cfg.workspaces;
    let mut best: usize = 0;
    let mut best_depth: usize = 0;
    let mut found = false;
    let mut i: usize = 0;
    while i < ws.len()
        invariant
            i <= ws@.len(),
            found ==> best < i && ws@[best as int].managed && best_depth == path_depth(
                ws@[best as int].path@,
            ),
            found ==> forall|j: int|
                0 <= j < i && ws@[j].managed ==> best_depth <= path_depth(#[trigger] ws@[j].path@),
            found ==> forall|j: int|
                0 <= j < best && ws@[j].managed ==> best_depth < path_depth(#[trigger] ws@[j].path@),
            !found ==> forall|j: int| 0 <= j < i ==> !(#[trigger] ws@[j]).managed,
        decreases ws.len() - i,
    {
        if ws[i].managed {
            let d = path_component_count(ws[i].path.as_str());
            if !found || d < best_depth {
                best = i;
                best_depth = d;
                found = true;
            }
        }
        i = i + 1;
    }
    if found {
        assert(is_sync_root(ws@, best as int));
        Some(ws[best].path.clone())
    } else {
        None
    }
}

pub fn clone_entry(w: &WorkspaceEntry) -> (r: WorkspaceEntry)
    ensures
        r == *w,
{
    WorkspaceEntry {
        path: w.path.clone(),
        name: w.name.clone(),
        repo_owner: clone_opt(&w.repo_owner),
        repo_name: clone_opt(&w.repo_name),
        managed: w.managed,
    }
}

/// A name for a new entry: the folder name of `path`, else `fallback`.
pub open spec fn name_or(path: Seq<char>, fallback: Seq<char>) -> Seq<char> {
    match file_name_of(path) {
        Some(f) => f,
        None => fallback,
    }
}

fn folder_name(path: &str, fallback: &str) -> (r: String)
    ensures
        r@ == name_or(path@, fallback@),
{
    match path_file_name(path) {
        Some(f) => f,
        None => fallback.to_string(),
    }
}

fn register(ws: &mut Vec<WorkspaceEntry>, path: &str, fallback: &str, managed: bool)
    ensures
        has_path(old(ws)@, path@) ==> final(ws)@ == old(ws)@,
        !has_path(old(ws)@, path@) ==> {
            &&& final(ws)@.len() == old(ws)@.len() + 1
            &&& final(ws)@.take(old(ws)@.len() as int) == old(ws)@
            &&& final(ws)@.last().path@ == path@
            &&& final(ws)@.last().name@ == name_or(path@, fallback@)
            &&& final(ws)@.last().repo_owner is None
            &&& final(ws)@.last().repo_name is None
            &&& final(ws)@.last().managed == managed
        },
{
    let k = find_entry(ws, path);
    if k == ws.len() {
        let name = folder_name(path, fallback);
        ws.push(WorkspaceEntry {
            path: path.to_string(),
            name,
            repo_owner: None,
            repo_name: None,
            managed,
        });
        assert(ws@.take(old(ws)@.len() as int) =~= old(ws)@);
    }
}

/// The configuration change behind "create workspace": register `path` as a
/// managed workspace (named after its folder, else "Workspace") unless it is
/// listed already, and make it active with no repo linked yet.
pub fn create_workspace(cfg: &mut AppConfig, path: &str)
    ensures
        has_path(old(cfg).workspaces@, path@) ==> final(cfg).workspaces@ == old(cfg).workspaces@,
        !has_path(old(cfg).workspaces@, path@) ==> {
            let (o, n) = (old(cfg).workspaces@, final(cfg).workspaces@);
            &&& n.len() == o.len() + 1
            &&& n.take(o.len() as int) == o
            &&& n.last().path@ == path@
            &&& n.last().name@ == name_or(path@, "Workspace"@)
            &&& n.last().repo_owner is None
            &&& n.last().repo_name is None
            &&& n.last().managed
        },
        final(cfg).workspace_path is Some,
        final(cfg).workspace_path->Some_0@ == path@,
        final(cfg).repo_owner is None,
        final(cfg).repo_name is None,
        final(cfg).onboarding_done == old(cfg).onboarding_done,
        final(cfg).settings == old(cfg).settings,
{
    register(&mut cfg.workspaces, path, "Workspace", true);
    cfg.workspace_path = Some(path.to_string());
    cfg.repo_owner = None;
    cfg.repo_name = None;
}

/// The configuration change behind "add workspace": an opened (unmanaged)
/// folder must exist, else "Folder not found." and nothing changes; the path is
/// registered (named after its folder, else "Folder") unless listed already,
/// and made active.
pub fn add_workspace(cfg: &mut AppConfig, path: &str, managed: bool, folder_exists: bool) -> (r:
    Result<(), AppError>)
    ensures
        r is Err <==> !managed && !folder_exists,
        r is Err ==> r->Err_0 is Other && r->Err_0->Other_0@ == "Folder not found."@,
        r is Err ==> *final(cfg) == *old(cfg),
        r is Ok ==> exists|mid: AppConfig|
            {
                &&& mid.workspace_path == old(cfg).workspace_path
                &&& mid.repo_owner == old(cfg).repo_owner
                &&& mid.repo_name == old(cfg).repo_name
                &&& mid.onboarding_done == old(cfg).onboarding_done
                &&& mid.settings == old(cfg).settings
                &&& (has_path(old(cfg).workspaces@, path@) ==> mid.workspaces@
                    == old(cfg).workspaces@)
                &&& (!has_path(old(cfg).workspaces@, path@) ==> {
                    let (o, n) = (old(cfg).workspaces@, mid.workspaces@);
                    &&& n.len() == o.len() + 1
                    &&& n.take(o.len() as int) == o
                    &&& n.last().path@ == path@
                    &&& n.last().name@ == name_or(path@, "Folder"@)
                    &&& n.last().repo_owner is None
                    &&& n.last().repo_name is None
                    &&& n.last().managed == managed
                })
                &&& set_active_post(mid, *final(cfg), path@)
            },
{
    if !managed && !folder_exists {
        return Err(AppError::Other("Folder not found.".to_string()));
    }
    register(&mut cfg.workspaces, path, "Folder", managed);
    let ghost mid = *cfg;
    set_active(cfg, path);
    Ok(())
}

/// Whether "set active workspace" must first recreate the folder: the first
/// entry for `path` is managed and its folder has vanished.
pub fn needs_scaffold(cfg: &AppConfig, path: &str, folder_exists: bool) -> (r: bool)
    ensures
        r == {
            let k = index_of_path(cfg.workspaces@, path@);
            k < cfg.workspaces@.len() && cfg.workspaces@[k as int].managed && !folder_exists
        },
{
    let k = find_entry(&cfg.workspaces, path);
    k < cfg.workspaces.len() && cfg.workspaces[k].managed && !folder_exists
}

/// The entries of `ws` whose path is not `p`, in order.
pub open spec fn without_path(ws: Seq<WorkspaceEntry>, p: Seq<char>) -> Seq<WorkspaceEntry>
    decreases ws.len(),
{
    if ws.len() == 0 {
        seq![]
    } else if ws.last().path@ == p {
        without_path(ws.drop_last(), p)
    } else {
        without_path(ws.drop_last(), p).push(ws.last())
    }
}

/// What "remove workspace" does to the configuration: every entry with that
/// path leaves the list; if it was the active one, the first remaining entry
/// becomes active (or none is).
pub open spec fn remove_post(c: AppConfig, n: AppConfig, p: Seq<char>) -> bool {
    let rest = without_path(c.workspaces@, p);
    &&& n.workspaces@ == rest
    &&& n.onboarding_done == c.onboarding_done
    &&& n.settings == c.settings
    &&& if c.workspace_path is Some && c.workspace_path->Some_0@ == p {
        if rest.len() > 0 {
            &&& n.workspace_path == Some(rest[0].path)
            &&& n.repo_owner == rest[0].repo_owner
            &&& n.repo_name == rest[0].repo_name
        } else {
            &&& n.workspace_path is None
            &&& n.repo_owner is None
            &&& n.repo_name is None
        }
    } else {
        &&& n.workspace_path == c.workspace_path
        &&& n.repo_owner == c.repo_owner
        &&& n.repo_name == c.repo_name
    }
}

/// Remove a workspace tab from the list; files are never touched.
pub fn remove_workspace(cfg: &mut AppConfig, path: &str)
    ensures
        remove_post(*old(cfg), *final(cfg), path@),
{
    let mut kept: Vec<WorkspaceEntry> = Vec::new();
    let mut i: usize = 0;
    while i < cfg.workspaces.len()
        invariant
            i <= cfg.workspaces@.len(),
            cfg == old(cfg),
            kept@ == without_path(cfg.workspaces@.take(i as int), path@),
        decreases cfg.workspaces.len() - i,
    {
        assert(cfg.workspaces@.take(i + 1).drop_last() =~= cfg.workspaces@.take(i as int));
        if !str_eq(cfg.workspaces[i].path.as_str(), path) {
            kept.push(clone_entry(&cfg.workspaces[i]));
        }
        i = i + 1;
    }
    assert(cfg.workspaces@.take(i as int) =~= cfg.workspaces@);
    let was_active = match &cfg.workspace_path {
        Some(a) => str_eq(a.as_str(), path),
        None => false,
    };
    cfg.workspaces = kept;
    if was_active {
        cfg.workspace_path = None;
        cfg.repo_owner = None;
        cfg.repo_name = None;
        if cfg.workspaces.len() > 0 {
            let first = cfg.workspaces[0].path.clone();
            proof {
                lemma_index_of_path(cfg.workspaces@, first@, 0);
            }
            set_active(cfg, first.as_str());
        }
    }
}

/// Removing a tab that is not the active workspace never changes the
/// selection: the active path and its repository stay exactly as they were.
/// Removing the active one selects the first remaining tab with its
/// repository, or nothing when no tab is left.
pub proof fn law_remove_moves_selection_only_when_active(c: AppConfig, n: AppConfig, p: Seq<char>)
    requires
        remove_post(c, n, p),
    ensures
        !(c.workspace_path is Some && c.workspace_path->Some_0@ == p) ==> n.workspace_path == c.workspace_path
            && n.repo_owner == c.repo_owner && n.repo_name == c.repo_name,
        (c.workspace_path is Some && c.workspace_path->Some_0@ == p) ==> (n.workspace_path is None <==> n.workspaces@.len() == 0),
        (c.workspace_path is Some && c.workspace_path->Some_0@ == p) && n.workspace_path is Some ==> n.workspace_path->Some_0@
            != p && n.workspace_path->Some_0 == n.workspaces@[0].path && n.repo_owner == n.workspaces@[0].repo_owner
            && n.repo_name == n.workspaces@[0].repo_name,
        (c.workspace_path is Some && c.workspace_path->Some_0@ == p) && n.workspace_path is None ==> n.repo_owner is None
            && n.repo_name is None,
{
    law_remove_keeps_others(c.workspaces@, p);
    if c.workspace_path is Some && c.workspace_path->Some_0@ == p && n.workspaces@.len() > 0 {
        assert(n.workspaces@[0].path == n.workspace_path->Some_0);
    }
}

/// After removing a workspace no entry has its path, and every entry with
/// another path is still there.
pub proof fn law_remove_keeps_others(ws: Seq<WorkspaceEntry>, p: Seq<char>)
    ensures
        forall|j: int| 0 <= j < without_path(ws, p).len() ==> without_path(ws, p)[j].path@ != p,
        forall|j: int|
            0 <= j < ws.len() && ws[j].path@ != p ==> without_path(ws, p).contains(ws[j]),
    decreases ws.len(),
{
    if ws.len() > 0 {
        law_remove_keeps_others(ws.drop_last(), p);
        let r = without_path(ws.drop_last(), p);
        assert forall|j: int| 0 <= j < ws.len() && ws[j].path@ != p implies without_path(
            ws,
            p,
        ).contains(ws[j]) by {
            if j < ws.len() - 1 {
                assert(ws.drop_last()[j] == ws[j]);
                let k = choose|k: int| 0 <= k < r.len() && r[k] == ws[j];
                if ws.last().path@ != p {
                    assert(r.push(ws.last())[k] == ws[j]);
                }
            } else {
                assert(without_path(ws, p).last() == ws[j]);
            }
        }
    }
}

/// Checks before moving the active workspace to `new_path`: there must be an
/// active workspace; moving onto itself is `Ok(None)` (nothing to do); a
/// destination inside the workspace is refused; otherwise `Ok(Some(old))`.
pub fn move_target(cfg: &AppConfig, new_path: &str) -> (r: Result<Option<String>, AppError>)
    ensures
        cfg.workspace_path is None ==> r == Err::<Option<String>, AppError>(AppError::NoWorkspace),
        cfg.workspace_path is Some ==> {
            let old_p = cfg.workspace_path->Some_0;
            if old_p@ == new_path@ {
                r == Ok::<Option<String>, AppError>(None)
            } else if path_within(new_path@, old_p@) {
                r is Err && r->Err_0 is Other && r->Err_0->Other_0@
                    == "The destination is inside the current workspace."@
            } else {
                r == Ok::<Option<String>, AppError>(Some(old_p))
            }
        },
{
    match &cfg.workspace_path {
        None => Err(AppError::NoWorkspace),
        Some(old_p) => {
            if str_eq(old_p.as_str(), new_path) {
                Ok(None)
            } else if path_starts_with(new_path, old_p.as_str()) {
                Err(AppError::Other("The destination is inside the current workspace.".to_string()))
            } else {
                Ok(Some(old_p.clone()))
            }
        },
    }
}

/// After the folder has moved: the first entry at `old_path` now points at
/// `new_path`, which becomes the active path.
pub fn repoint_workspace(cfg: &mut AppConfig, old_path: &str, new_path: &str)
    ensures
        final(cfg).workspace_path is Some,
        final(cfg).workspace_path->Some_0@ == new_path@,
        final(cfg).repo_owner == old(cfg).repo_owner,
        final(cfg).repo_name == old(cfg).repo_name,
        final(cfg).onboarding_done == old(cfg).onboarding_done,
        final(cfg).settings == old(cfg).settings,
        final(cfg).workspaces@.len() == old(cfg).workspaces@.len(),
        forall|j: int|
            0 <= j < old(cfg).workspaces@.len() ==> {
                let w = old(cfg).workspaces@[j];
                let v = #[trigger] final(cfg).workspaces@[j];
                if j == index_of_path(old(cfg).workspaces@, old_path@) {
                    v.path@ == new_path@ && v.name == w.name && v.repo_owner == w.repo_owner
                        && v.repo_name == w.repo_name && v.managed == w.managed
                } else {
                    v == w
                }
            },
{
    let k = find_entry(&cfg.workspaces, old_path);
    if k < cfg.workspaces.len() {
        let w = &cfg.workspaces[k];
        let e = WorkspaceEntry {
            path: new_path.to_string(),
            name: w.name.clone(),
            repo_owner: clone_opt(&w.repo_owner),
            repo_name: clone_opt(&w.repo_name),
            managed: w.managed,
        };
        cfg.workspaces.set(k, e);
    }
    cfg.workspace_path = Some(new_path.to_string());
}

/// The paths of the other workspaces that live inside `root`, in list order.
pub open spec fn nested_in(ws: Seq<WorkspaceEntry>, root: Seq<char>) -> Seq<Seq<char>>
    decreases ws.len(),
{
    if ws.len() == 0 {
        seq![]
    } else {
        let p = ws.last().path@;
        let rest = nested_in(ws.drop_last(), root);
        if !same_path(p, root) && path_within(p, root) {
            rest.push(p)
        } else {
            rest
        }
    }
}

/// Paths of OTHER workspaces that live inside `root` (hidden from its tree).
pub fn nested_workspace_paths(cfg: &AppConfig, root: &str) -> (r: Vec<String>)
    ensures
        r@.map_values(|s: String| s@) == nested_in(cfg.workspaces@, root@),
{
    let ws = &cfg.workspaces;
    let mut r: Vec<String> = Vec::new();
    let mut i: usize = 0;
    while i < ws.len()
        invariant
            i <= ws@.len(),
            r@.map_values(|s: String| s@) == nested_in(ws@.take(i as int), root@),
        decreases ws.len() - i,
    {
        assert(ws@.take(i + 1).drop_last() =~= ws@.take(i as int));
        let p = ws[i].path.as_str();
        if !path_eq(p, root) && path_starts_with(p, root) {
            let ghost before = r@;
            r.push(ws[i].path.clone());
            assert(r@.map_values(|s: String| s@) =~= before.map_values(|s: String| s@).push(
                ws@[i as int].path@,
            ));
        }
        i = i + 1;
    }
    assert(ws@.take(i as int) =~= ws@);
    r
}


// ---- The synced workspace registry ----

/// The file at the sync root that lists the managed workspaces, so that
/// other devices rebuild the same tabs.
pub const REGISTRY: &'static str = ".pugdock-workspaces.json";

/// The registry record of a workspace: its name and its path relative to
/// the sync root with forward slashes; only managed workspaces under the
/// root have one.
pub open spec fn registry_item(w: WorkspaceEntry, root: Seq<char>) -> Seq<(Seq<char>, Seq<char>)> {
    if w.managed && relative_to(w.path@, root) is Some {
        seq![(w.name@, forward(relative_to(w.path@, root)->0))]
    } else {
        seq![]
    }
}

pub open spec fn registry_spec(ws: Seq<WorkspaceEntry>, root: Seq<char>) -> Seq<(Seq<char>, Seq<char>)>
    decreases ws.len(),
{
    if ws.len() == 0 {
        seq![]
    } else {
        registry_spec(ws.drop_last(), root) + registry_item(ws.last(), root)
    }
}

pub open spec fn string_pairs(v: Seq<(String, String)>) -> Seq<(Seq<char>, Seq<char>)> {
    v.map_values(|p: (String, String)| (p.0@, p.1@))
}

/// The records written to the registry, in workspace order.
pub fn registry_entries(cfg: &AppConfig, root: &str) -> (r: Vec<(String, String)>)
    ensures
        string_pairs(r@) == registry_spec(cfg.workspaces@, root@),
{
    let ws = &cfg.workspaces;
    let mut r: Vec<(String, String)> = Vec::new();
    let mut i: usize = 0;
    while i < ws.len()
        invariant
            i <= ws@.len(),
            string_pairs(r@) == registry_spec(ws@.take(i as int), root@),
        decreases ws.len() - i,
    {
        assert(ws@.take(i + 1).drop_last() =~= ws@.take(i as int));
        assert(ws@.take(i + 1).last() == ws@[i as int]);
        if ws[i].managed {
            match tree_rel_path(ws[i].path.as_str(), root) {
                Some(rel) => {
                    let ghost before = r@;
                    r.push((ws[i].name.clone(), rel));
                    assert(string_pairs(r@) =~= string_pairs(before) + registry_item(
                        ws@[i as int],
                        root@,
                    ));
                },
                None => {
                    assert(string_pairs(r@) =~= string_pairs(r@) + registry_item(
                        ws@[i as int],
                        root@,
                    ));
                },
            }
        } else {
            assert(string_pairs(r@) =~= string_pairs(r@) + registry_item(ws@[i as int], root@));
        }
        i = i + 1;
    }
    assert(ws@.take(i as int) =~= ws@);
    r
}

/// Where a registry record points: the sync root itself for an empty path,
/// else the path joined onto the root.
pub fn registry_abs(root: &str, rel: &str) -> (r: String)
    ensures
        rel@.len() == 0 ==> r@ == root@,
        rel@.len() > 0 ==> r@ == joined(root@, rel@),
{
    if rel.is_empty() {
        root.to_string()
    } else {
        path_join(root, rel)
    }
}

/// A registry record as stored: its `path`, and its `name` when it is a
/// string.
pub open spec fn record_at(doc: Seq<char>, i: nat) -> Option<(Seq<char>, Option<Seq<char>>)> {
    match json_str_at(doc, index_ptr("/"@, i, "/path"@)) {
        Some(p) => Some((p, json_str_at(doc, index_ptr("/"@, i, "/name"@)))),
        None => None,
    }
}

/// The records among the first `n` entries of the registry text: those whose
/// `path` is a string, in order.
pub open spec fn records_spec(doc: Seq<char>, n: nat) -> Seq<(Seq<char>, Option<Seq<char>>)>
    decreases n,
{
    if n == 0 {
        seq![]
    } else {
        let prev = records_spec(doc, (n - 1) as nat);
        match record_at(doc, (n - 1) as nat) {
            Some(rec) => prev.push(rec),
            None => prev,
        }
    }
}

pub open spec fn record_views(v: Seq<(String, Option<String>)>) -> Seq<(Seq<char>, Option<Seq<char>>)> {
    v.map_values(
        |e: (String, Option<String>)|
            (
                e.0@,
                match e.1 {
                    Some(n) => Some(n@),
                    None => None,
                },
            ),
    )
}

/// Reads the registry text: `None` unless it is a JSON array; else the
/// `(path, name)` of each entry whose `path` is a string, in order.
pub fn registry_records(content: &str) -> (r: Option<Vec<(String, Option<String>)>>)
    ensures
        r is Some <==> json_len_at(content@, ""@) is Some,
        r is Some ==> record_views(r->0@) == records_spec(content@, json_len_at(content@, ""@)->0),
{
    let n = match json_array_len(content, "") {
        Some(n) => n,
        None => return None,
    };
    let mut out: Vec<(String, Option<String>)> = Vec::new();
    let mut i: usize = 0;
    while i < n
        invariant
            i <= n,
            n == json_len_at(content@, ""@)->0,
            record_views(out@) == records_spec(content@, i as nat),
        decreases n - i,
    {
        let pp = index_pointer("/", i, "/path");
        let np = index_pointer("/", i, "/name");
        let ghost before = out@;
        match json_pointer_str(content, pp.as_str()) {
            Some(p) => {
                let name = json_pointer_str(content, np.as_str());
                out.push((p, name));
                assert(record_views(out@) =~= record_views(before).push(record_at(content@, i as nat)->0));
            },
            None => {},
        }
        i = i + 1;
    }
    Some(out)
}

/// A record read back from the registry: the folder it points to, whether
/// that folder exists, and the name it was saved under.
pub struct RegistryItem {
    pub abs: String,
    pub is_dir: bool,
    pub name: Option<String>,
}

pub open spec fn item_name(it: RegistryItem) -> Seq<char> {
    match it.name {
        Some(n) => n@,
        None => "Workspace"@,
    }
}

pub open spec fn path_names(ws: Seq<WorkspaceEntry>) -> Seq<(Seq<char>, Seq<char>)> {
    ws.map_values(|w: WorkspaceEntry| (w.path@, w.name@))
}

pub open spec fn lists_path(known: Seq<(Seq<char>, Seq<char>)>, p: Seq<char>) -> bool {
    exists|j: int| 0 <= j < known.len() && known[j].0 == p
}

/// The (path, name) list after adopting registry records in order: a record
/// is adopted when its folder exists and no listed workspace has its path.
pub open spec fn adopt_spec(known: Seq<(Seq<char>, Seq<char>)>, items: Seq<RegistryItem>) -> Seq<(Seq<char>, Seq<char>)>
    decreases items.len(),
{
    if items.len() == 0 {
        known
    } else {
        let k = adopt_spec(known, items.drop_last());
        let it = items.last();
        if it.is_dir && !lists_path(k, it.abs@) {
            k.push((it.abs@, item_name(it)))
        } else {
            k
        }
    }
}

/// Index of the first workspace that is the sync root as a path, or
/// `ws.len()`.
pub open spec fn root_index(ws: Seq<WorkspaceEntry>, root: Seq<char>) -> nat
    decreases ws.len(),
{
    if ws.len() == 0 {
        0
    } else if same_path(ws[0].path@, root) {
        0
    } else {
        1 + root_index(ws.drop_first(), root)
    }
}

/// The repository linked to the sync root's workspace, if it is listed.
pub fn root_repo(ws: &Vec<WorkspaceEntry>, root: &str) -> (r: (Option<String>, Option<String>))
    ensures
        root_index(ws@, root@) < ws@.len() ==> r.0 == ws@[root_index(ws@, root@) as int].repo_owner
            && r.1 == ws@[root_index(ws@, root@) as int].repo_name,
        root_index(ws@, root@) >= ws@.len() ==> r.0 is None && r.1 is None,
{
    let mut i: usize = 0;
    assert(ws@.skip(0) =~= ws@);
    while i < ws.len()
        invariant
            i <= ws@.len(),
            root_index(ws@, root@) == i + root_index(ws@.skip(i as int), root@),
        decreases ws.len() - i,
    {
        assert(ws@.skip(i as int)[0] == ws@[i as int]);
        assert(ws@.skip(i as int).drop_first() =~= ws@.skip(i + 1));
        if path_eq(ws[i].path.as_str(), root) {
            return (clone_opt(&ws[i].repo_owner), clone_opt(&ws[i].repo_name));
        }
        i = i + 1;
    }
    assert(ws@.skip(i as int).len() == 0);
    (None, None)
}

proof fn lemma_lists_path(ws: Seq<WorkspaceEntry>, p: Seq<char>)
    ensures
        has_path(ws, p) == lists_path(path_names(ws), p),
{
    if has_path(ws, p) {
        let j = choose|j: int| 0 <= j < ws.len() && ws[j].path@ == p;
        assert(path_names(ws)[j].0 == p);
    }
    if lists_path(path_names(ws), p) {
        let k = path_names(ws);
        let j = choose|j: int| 0 <= j < k.len() && k[j].0 == p;
        assert(ws[j].path@ == p);
    }
}

/// Adopts the workspaces listed in the synced registry (after cloning on a
/// new device): records whose folder exists and is not listed yet are added
/// as managed workspaces linked to the sync root's repository; nothing is
/// ever removed.
pub fn adopt_registry(cfg: &mut AppConfig, root: &str, items: Vec<RegistryItem>)
    ensures
        path_names(final(cfg).workspaces@) == adopt_spec(path_names(old(cfg).workspaces@), items@),
        final(cfg).workspaces@.take(old(cfg).workspaces@.len() as int) == old(cfg).workspaces@,
        forall|k: int|
            old(cfg).workspaces@.len() <= k < final(cfg).workspaces@.len() ==> {
                &&& (#[trigger] final(cfg).workspaces@[k]).managed
                &&& final(cfg).workspaces@[k].repo_owner == (if root_index(old(cfg).workspaces@, root@) < old(cfg).workspaces@.len() {
                    old(cfg).workspaces@[root_index(old(cfg).workspaces@, root@) as int].repo_owner
                } else {
                    None
                })
                &&& final(cfg).workspaces@[k].repo_name == (if root_index(old(cfg).workspaces@, root@) < old(cfg).workspaces@.len() {
                    old(cfg).workspaces@[root_index(old(cfg).workspaces@, root@) as int].repo_name
                } else {
                    None
                })
            },
        final(cfg).workspace_path == old(cfg).workspace_path,
        final(cfg).repo_owner == old(cfg).repo_owner,
        final(cfg).repo_name == old(cfg).repo_name,
        final(cfg).onboarding_done == old(cfg).onboarding_done,
        final(cfg).settings == old(cfg).settings,
{
    let ghost ws0 = cfg.workspaces@;
    let (owner, repo) = root_repo(&cfg.workspaces, root);
    let mut i: usize = 0;
    while i < items.len()
        invariant
            i <= items@.len(),
            path_names(cfg.workspaces@) == adopt_spec(path_names(ws0), items@.take(i as int)),
            cfg.workspaces@.len() >= ws0.len(),
            cfg.workspaces@.take(ws0.len() as int) == ws0,
            forall|k: int|
                ws0.len() <= k < cfg.workspaces@.len() ==> {
                    &&& (#[trigger] cfg.workspaces@[k]).managed
                    &&& cfg.workspaces@[k].repo_owner == owner
                    &&& cfg.workspaces@[k].repo_name == repo
                },
            cfg.workspace_path == old(cfg).workspace_path,
            cfg.repo_owner == old(cfg).repo_owner,
            cfg.repo_name == old(cfg).repo_name,
            cfg.onboarding_done == old(cfg).onboarding_done,
            cfg.settings == old(cfg).settings,
        decreases items.len() - i,
    {
        assert(items@.take(i + 1).drop_last() =~= items@.take(i as int));
        assert(items@.take(i + 1).last() == items@[i as int]);
        proof {
            lemma_lists_path(cfg.workspaces@, items@[i as int].abs@);
        }
        if items[i].is_dir && find_entry(&cfg.workspaces, items[i].abs.as_str()) == cfg.workspaces.len() {
            let name = match &items[i].name {
                Some(n) => n.clone(),
                None => "Workspace".to_string(),
            };
            let ghost before = cfg.workspaces@;
            cfg.workspaces.push(
                WorkspaceEntry {
                    path: items[i].abs.clone(),
                    name,
                    repo_owner: clone_opt(&owner),
                    repo_name: clone_opt(&repo),
                    managed: true,
                },
            );
            assert(path_names(cfg.workspaces@) =~= path_names(before).push(
                (items@[i as int].abs@, item_name(items@[i as int])),
            ));
            assert(cfg.workspaces@.take(ws0.len() as int) =~= before.take(ws0.len() as int));
        }
        i = i + 1;
    }
    assert(items@.take(i as int) =~= items@);
}


// ---- File commands ----

/// What `Path::file_stem` gives: the file name without its extension.
pub uninterp spec fn file_stem_of(p: Seq<char>) -> Option<Seq<char>>;

/// Calls `Path::file_stem` and converts it to a `String`.
#[verifier::external_body]
fn path_file_stem(p: &str) -> (r: Option<String>)
    ensures
        r is Some <==> file_stem_of(p@) is Some,
        r is Some ==> r->Some_0@ == file_stem_of(p@)->Some_0,
{
    std::path::Path::new(p).file_stem().map(|s| s.to_string_lossy().to_string())
}

/// What `Path::parent` gives: the path without its final component.
pub uninterp spec fn parent_of(p: Seq<char>) -> Option<Seq<char>>;

/// Calls `Path::parent` and converts it to a `String`.
#[verifier::external_body]
fn path_parent(p: &str) -> (r: Option<String>)
    ensures
        r is Some <==> parent_of(p@) is Some,
        r is Some ==> r->Some_0@ == parent_of(p@)->Some_0,
{
    std::path::Path::new(p).parent().map(|s| s.to_string_lossy().to_string())
}

/// The file name of the `i`-th copy of a file: "<stem> copy<ext>" for the
/// first, "<stem> copy <i><ext>" after it.
pub open spec fn copy_name(stem: Seq<char>, ext: Seq<char>, i: nat) -> Seq<char> {
    stem + " copy"@ + (if i == 1 {
        seq![]
    } else {
        seq![' '] + dec_digits(i)
    }) + ext
}

/// Where the `i`-th copy of `src` goes: beside it (in the workspace root
/// when it has no parent), named after its stem and `.`-prefixed extension.
pub open spec fn copy_candidate_spec(src: Seq<char>, root: Seq<char>, i: nat) -> Seq<char> {
    let stem = match file_stem_of(src) {
        Some(s) => s,
        None => seq![],
    };
    let ext = match extension_of(src) {
        Some(e) => seq!['.'] + e,
        None => seq![],
    };
    let dir = match parent_of(src) {
        Some(d) => d,
        None => root,
    };
    joined(dir, copy_name(stem, ext, i))
}

pub fn copy_candidate(src: &str, root: &str, i: u32) -> (r: String)
    ensures
        r@ == copy_candidate_spec(src@, root@, i as nat),
{
    let mut v: Vec<char> = Vec::new();
    match path_file_stem(src) {
        Some(s) => push_str(&mut v, s.as_str()),
        None => {},
    }
    push_str(&mut v, " copy");
    if i != 1 {
        v.push(' ');
        let d = decimal(i as u64);
        append(&mut v, d.as_slice());
    }
    match path_extension(src) {
        Some(e) => {
            v.push('.');
            push_str(&mut v, e.as_str());
        },
        None => {},
    }
    let name = string_of(v.as_slice());
    let dir = match path_parent(src) {
        Some(d) => d,
        None => root.to_string(),
    };
    let ghost stem = match file_stem_of(src@) {
        Some(s) => s,
        None => seq![],
    };
    let ghost ext = match extension_of(src@) {
        Some(e) => seq!['.'] + e,
        None => seq![],
    };
    assert(name@ =~= copy_name(stem, ext, i as nat));
    path_join(dir.as_str(), name.as_str())
}

/// The error when a rename would overwrite an existing path.
pub fn rename_collision(to: &str) -> (r: AppError)
    ensures
        r is Other && r->Other_0@ == seq!['"'] + to@ + "\" already exists."@,
{
    let mut v: Vec<char> = Vec::new();
    v.push('"');
    push_str(&mut v, to);
    push_str(&mut v, "\" already exists.");
    AppError::Other(string_of(v.as_slice()))
}

/// The workspace root itself can never be deleted through the file
/// commands.
pub fn delete_check(target: &str, root: &str) -> (r: Result<(), AppError>)
    ensures
        same_path(target@, root@) ==> r == Err::<(), AppError>(AppError::PathOutsideWorkspace),
        !same_path(target@, root@) ==> r is Ok,
{
    if path_eq(target, root) {
        Err(AppError::PathOutsideWorkspace)
    } else {
        Ok(())
    }
}

/// The checks before moving a file into another workspace: the file must
/// exist, the target workspace folder must exist, and the same relative path
/// must be free there.
pub fn move_check(path: &str, src_exists: bool, target_is_dir: bool, dst_exists: bool) -> (r: Result<
    (),
    AppError,
>)
    ensures
        !src_exists ==> r is Err && r->Err_0 is Other && r->Err_0->Other_0@ == "File not found."@,
        src_exists && !target_is_dir ==> r is Err && r->Err_0 is Other && r->Err_0->Other_0@
            == "Target workspace folder not found."@,
        src_exists && target_is_dir && dst_exists ==> r is Err && r->Err_0 is Other
            && r->Err_0->Other_0@ == seq!['"'] + path@ + "\" already exists in that workspace."@,
        src_exists && target_is_dir && !dst_exists ==> r is Ok,
{
    if !src_exists {
        return Err(AppError::Other("File not found.".to_string()));
    }
    if !target_is_dir {
        return Err(AppError::Other("Target workspace folder not found.".to_string()));
    }
    if dst_exists {
        let mut v: Vec<char> = Vec::new();
        v.push('"');
        push_str(&mut v, path);
        push_str(&mut v, "\" already exists in that workspace.");
        return Err(AppError::Other(string_of(v.as_slice())));
    }
    Ok(())
}


// ---- Diagnostics ----

/// What `{:?}` writes for an optional string: `None`, or `Some("...")` with
/// the string's debug escapes.
pub uninterp spec fn debug_of(o: Option<Seq<char>>) -> Seq<char>;

pub open spec fn opt_seq(o: Option<String>) -> Option<Seq<char>> {
    match o {
        Some(s) => Some(s@),
        None => None,
    }
}

/// Formats an optional string with `{:?}`.
#[verifier::external_body]
fn debug_opt(o: &Option<String>) -> (r: String)
    ensures
        r@ == debug_of(opt_seq(*o)),
{
    format!("{:?}", o)
}

/// The report line of one workspace.
pub open spec fn workspace_line(w: WorkspaceEntry) -> Seq<char> {
    "  - "@ + w.name@ + " ("@ + (if w.managed {
        "managed"@
    } else {
        "opened folder"@
    }) + ") repo: "@ + debug_of(opt_seq(w.repo_owner)) + "/"@ + debug_of(opt_seq(w.repo_name))
        + "\n"@
}

pub open spec fn workspace_lines(ws: Seq<WorkspaceEntry>) -> Seq<char>
    decreases ws.len(),
{
    if ws.len() == 0 {
        seq![]
    } else {
        workspace_lines(ws.drop_last()) + workspace_line(ws.last())
    }
}

/// The git part of the report: the short status when git ran, the error
/// when it could not be started, nothing outside a workspace.
pub open spec fn git_part(git: Option<Result<String, String>>) -> Seq<char> {
    match git {
        Some(Ok(out)) => "\ngit status:\n"@ + out@,
        Some(Err(e)) => "\ngit unavailable: "@ + e@ + "\n"@,
        None => seq![],
    }
}

/// The diagnostics report after its header (time, version and platform):
/// the active workspace, one line per workspace, the UI settings, and the
/// git status. It holds no secrets.
pub open spec fn report_body(
    active: Option<String>,
    ws: Seq<WorkspaceEntry>,
    settings: Seq<char>,
    git: Option<Result<String, String>>,
) -> Seq<char> {
    "active workspace: "@ + debug_of(opt_seq(active)) + "\n"@ + workspace_lines(ws)
        + "\nsettings: "@ + settings + "\n"@ + git_part(git)
}

pub fn diagnostics_body(
    cfg: &AppConfig,
    settings_json: &str,
    git: Option<Result<String, String>>,
) -> (r: String)
    ensures
        r@ == report_body(cfg.workspace_path, cfg.workspaces@, settings_json@, git),
{
    let mut v: Vec<char> = Vec::new();
    push_str(&mut v, "active workspace: ");
    let a = debug_opt(&cfg.workspace_path);
    push_str(&mut v, a.as_str());
    push_str(&mut v, "\n");
    let ghost head = v@;
    let ws = &cfg.workspaces;
    let mut i: usize = 0;
    while i < ws.len()
        invariant
            i <= ws@.len(),
            v@ == head + workspace_lines(ws@.take(i as int)),
        decreases ws.len() - i,
    {
        assert(ws@.take(i + 1).drop_last() =~= ws@.take(i as int));
        assert(ws@.take(i + 1).last() == ws@[i as int]);
        let w = &ws[i];
        let ghost before = v@;
        push_str(&mut v, "  - ");
        push_str(&mut v, w.name.as_str());
        push_str(&mut v, " (");
        if w.managed {
            push_str(&mut v, "managed");
        } else {
            push_str(&mut v, "opened folder");
        }
        push_str(&mut v, ") repo: ");
        let o = debug_opt(&w.repo_owner);
        push_str(&mut v, o.as_str());
        push_str(&mut v, "/");
        let n = debug_opt(&w.repo_name);
        push_str(&mut v, n.as_str());
        push_str(&mut v, "\n");
        assert(v@ =~= before + workspace_line(ws@[i as int]));
        i = i + 1;
    }
    assert(ws@.take(i as int) =~= ws@);
    push_str(&mut v, "\nsettings: ");
    push_str(&mut v, settings_json);
    push_str(&mut v, "\n");
    match &git {
        Some(Ok(out)) => {
            push_str(&mut v, "\ngit status:\n");
            push_str(&mut v, out.as_str());
        },
        Some(Err(e)) => {
            push_str(&mut v, "\ngit unavailable: ");
            push_str(&mut v, e.as_str());
            push_str(&mut v, "\n");
        },
        None => {},
    }
    assert(v@ =~= report_body(cfg.workspace_path, cfg.workspaces@, settings_json@, git));
    string_of(v.as_slice())
}


/// The `.gitignore` a new workspace starts with: PugDock's local state and
/// secret-looking files are never synced.
pub const GITIGNORE: &'static str = "\
# PugDock local state - never synced
.pugdock/
*.sqlite

# Secrets - never synced
.env
.env.*
!.env.example
*.pem
*.key
id_rsa
id_ed25519
credentials.*
secrets.*
token
tokens
*.token

.DS_Store
";

/// The check on the destination of a workspace move: an existing folder
/// must be empty, and is then removed first (`Ok(true)`) so that a rename
/// can take its place.
pub fn move_destination_check(exists: bool, has_entries: bool) -> (r: Result<bool, AppError>)
    ensures
        exists && has_entries ==> r is Err && r->Err_0 is Other && r->Err_0->Other_0@
            == "The destination folder already exists and is not empty."@,
        exists && !has_entries ==> r == Ok::<bool, AppError>(true),
        !exists ==> r == Ok::<bool, AppError>(false),
{
    if !exists {
        Ok(false)
    } else if has_entries {
        Err(AppError::Other("The destination folder already exists and is not empty.".to_string()))
    } else {
        Ok(true)
    }
}

} // verus!
