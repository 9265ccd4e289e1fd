//! Git synchronisation: the classification of git's answers, the parsers of
//! its porcelain and log output, the "local only" block of `.gitignore`, and
//! the decisions of the checkpoint / pull / resolve flows. Running git itself
//! is the app's part.

use vstd::prelude::*;

use crate::error::AppError;
use crate::text::{
    chars_of, concat, contains, copy_range, contains_chars, find, find_char, has_prefix, is_ws, lines, lines_chars,
    parse_u32, parse_u32_spec, dec_digits, decimal, strip_cr, join, append, split_chars, split_on, starts_with, string_of, trim, trim_chars,
    trim_end, trim_start, views,
};
use crate::workspace::{path_eq, path_starts_with, path_within, same_path, str_eq};

verus! {

pub struct SyncStatus {
    pub dirty: bool,
    pub ahead: u32,
    pub behind: u32,
    pub conflicts: Vec<String>,
    pub merging: bool,
}

pub struct Checkpoint {
    pub hash: String,
    pub message: String,
    pub date: String,
}

// ---- Running git ----

/// The outcome of one git run: its output on success; otherwise an offline
/// error when git could not reach the host, an expired-auth error when GitHub
/// refused the credentials, else `git <first arg>: <trimmed stderr>`.
pub fn git_outcome(success: bool, stdout: String, stderr: &str, first_arg: &str) -> (r: Result<String, AppError>)
    ensures
        success ==> r == Ok::<String, AppError>(stdout),
        !success ==> r is Err,
        !success && (contains(stderr@, "Could not resolve host"@) || contains(stderr@, "unable to access"@))
            ==> r == Err::<String, AppError>(AppError::Offline),
        !success && !(contains(stderr@, "Could not resolve host"@) || contains(stderr@, "unable to access"@))
            && (contains(stderr@, "Authentication failed"@) || contains(stderr@, "403"@))
            ==> r == Err::<String, AppError>(AppError::GithubAuthExpired),
        !success && !(contains(stderr@, "Could not resolve host"@) || contains(stderr@, "unable to access"@))
            && !(contains(stderr@, "Authentication failed"@) || contains(stderr@, "403"@))
            ==> r is Err && r->Err_0 is Other && r->Err_0->Other_0@ == "git "@ + first_arg@ + ": "@ + trim(stderr@),
{
    if success {
        return Ok(stdout);
    }
    let e = chars_of(stderr);
    if contains_chars(e.as_slice(), chars_of("Could not resolve host").as_slice())
        || contains_chars(e.as_slice(), chars_of("unable to access").as_slice()) {
        Err(AppError::Offline)
    } else if contains_chars(e.as_slice(), chars_of("Authentication failed").as_slice())
        || contains_chars(e.as_slice(), chars_of("403").as_slice()) {
        Err(AppError::GithubAuthExpired)
    } else {
        let t = string_of(trim_chars(e.as_slice()).as_slice());
        let a = concat("git ", first_arg);
        let b = concat(a.as_str(), ": ");
        Err(AppError::Other(concat(b.as_str(), t.as_str())))
    }
}

/// The error for a git process that could not be started: no `git` binary
/// means git is missing; anything else is a file-system error.
pub fn git_spawn_error(not_found: bool, permission_denied: bool, text: String) -> (r: AppError)
    ensures
        not_found ==> r == AppError::GitMissing,
        !not_found && permission_denied ==> r == AppError::FolderPermission,
        !not_found && !permission_denied ==> r == AppError::Other(text),
{
    if not_found {
        AppError::GitMissing
    } else {
        AppError::from_io(permission_denied, text)
    }
}

/// Credential helper that reads the token from the environment, so it never
/// touches disk or the process argument list.
pub open spec fn cred_helper_arg() -> Seq<char> {
    "credential.helper=!f() { echo username=x-access-token; echo password=$PUGDOCK_GH_TOKEN; }; f"@
}

/// The full argument list of a git run: the credential helper, then `args`.
pub fn git_command_args(args: &Vec<String>) -> (r: Vec<String>)
    ensures
        r@.len() == args@.len() + 2,
        r@[0]@ == "-c"@,
        r@[1]@ == cred_helper_arg(),
        forall|i: int| 0 <= i < args@.len() ==> r@[i + 2] == args@[i],
{
    let mut r: Vec<String> = Vec::new();
    r.push("-c".to_string());
    r.push("credential.helper=!f() { echo username=x-access-token; echo password=$PUGDOCK_GH_TOKEN; }; f".to_string());
    let mut i: usize = 0;
    while i < args.len()
        invariant
            i <= args@.len(),
            r@.len() == i + 2,
            r@[0]@ == "-c"@,
            r@[1]@ == cred_helper_arg(),
            forall|j: int| 0 <= j < i ==> r@[j + 2] == args@[j],
        decreases args.len() - i,
    {
        r.push(args[i].clone());
        i = i + 1;
    }
    r
}

// ---- Porcelain status ----

/// The status that `git status --porcelain=v2 --branch` reports, before the
/// merge flag is added.
pub struct StatusView {
    pub dirty: bool,
    pub ahead: u32,
    pub behind: u32,
    pub conflicts: Seq<Seq<char>>,
}

/// One field of the `# branch.ab +A -B` header: `+n` sets ahead, `-n` sets
/// behind, a count that does not parse counting as 0.
pub open spec fn ab_step(st: (u32, u32), part: Seq<char>) -> (u32, u32) {
    let a = if part.len() > 0 && part[0] == '+' {
        match parse_u32_spec(part.drop_first()) {
            Some(n) => n,
            None => 0,
        }
    } else {
        st.0
    };
    let b = if part.len() > 0 && part[0] == '-' {
        match parse_u32_spec(part.drop_first()) {
            Some(n) => n,
            None => 0,
        }
    } else {
        st.1
    };
    (a, b)
}

pub open spec fn ab_fold(st: (u32, u32), parts: Seq<Seq<char>>) -> (u32, u32)
    decreases parts.len(),
{
    if parts.len() == 0 {
        st
    } else {
        ab_step(ab_fold(st, parts.drop_last()), parts.last())
    }
}

pub open spec fn ab_header() -> Seq<char> {
    "# branch.ab "@
}

/// What follows the `n`-th space of `s`, if it has that many.
pub open spec fn after_spaces(s: Seq<char>, n: nat) -> Option<Seq<char>>
    decreases n,
{
    if n == 0 {
        Some(s)
    } else {
        let k = find(s, ' ');
        if k >= s.len() {
            None
        } else {
            after_spaces(s.skip(k + 1 as int), (n - 1) as nat)
        }
    }
}

/// One line of porcelain v2 output: the ahead/behind header, an unmerged
/// entry (`u ...`, whose path is the rest of the line after its ten
/// leading fields, spaces included) or a changed or untracked
/// entry (`1`, `2`, `?`), which makes the tree dirty.
pub open spec fn status_step(st: StatusView, line: Seq<char>) -> StatusView {
    if starts_with(line, ab_header()) {
        let ab = ab_fold((st.ahead, st.behind), split_on(line.skip(ab_header().len() as int), ' '));
        StatusView { ahead: ab.0, behind: ab.1, ..st }
    } else if line.len() > 0 && line[0] == 'u' {
        match after_spaces(line, 10) {
            Some(p) => StatusView { conflicts: st.conflicts.push(p), ..st },
            None => st,
        }
    } else if line.len() > 0 && (line[0] == '1' || line[0] == '2' || line[0] == '?') {
        StatusView { dirty: true, ..st }
    } else {
        st
    }
}

pub open spec fn status_fold(ls: Seq<Seq<char>>) -> StatusView
    decreases ls.len(),
{
    if ls.len() == 0 {
        StatusView { dirty: false, ahead: 0, behind: 0, conflicts: seq![] }
    } else {
        status_step(status_fold(ls.drop_last()), ls.last())
    }
}

fn parse_ab(mut ab: (u32, u32), parts: &Vec<Vec<char>>) -> (r: (u32, u32))
    ensures
        r == ab_fold(ab, views(parts@)),
{
    let ghost start = ab;
    let mut i: usize = 0;
    while i < parts.len()
        invariant
            i <= parts@.len(),
            ab == ab_fold(start, views(parts@).take(i as int)),
        decreases parts.len() - i,
    {
        let p = &parts[i];
        assert(views(parts@).take(i + 1).drop_last() =~= views(parts@).take(i as int));
        let ghost before = ab;
        if p.len() > 0 && p[0] == '+' {
            let tail = copy_range(p.as_slice(), 1, p.len());
            assert(tail@ =~= p@.drop_first());
            let n = parse_u32(tail.as_slice());
            ab.0 = match n { Some(v) => v, None => 0 };
        }
        if p.len() > 0 && p[0] == '-' {
            let tail = copy_range(p.as_slice(), 1, p.len());
            assert(tail@ =~= p@.drop_first());
            let n = parse_u32(tail.as_slice());
            ab.1 = match n { Some(v) => v, None => 0 };
        }
        assert(ab == ab_step(before, p@));
        i = i + 1;
    }
    assert(views(parts@).take(parts@.len() as int) =~= views(parts@));
    ab
}

/// The path of an unmerged entry: all that follows its tenth space.
fn conflict_path(line: &[char]) -> (r: Option<Vec<char>>)
    ensures
        match r {
            Some(p) => after_spaces(line@, 10) == Some(p@),
            None => after_spaces(line@, 10) is None,
        },
{
    let mut rest = copy_range(line, 0, line.len());
    assert(rest@ =~= line@);
    let mut c: usize = 0;
    while c < 10
        invariant
            c <= 10,
            after_spaces(line@, 10) == after_spaces(rest@, (10 - c) as nat),
        decreases 10 - c,
    {
        let k = find_char(rest.as_slice(), ' ');
        if k >= rest.len() {
            return None;
        }
        let next = copy_range(rest.as_slice(), k + 1, rest.len());
        assert(next@ =~= rest@.skip(k + 1 as int));
        rest = next;
        c = c + 1;
    }
    Some(rest)
}

pub open spec fn strings(v: Seq<String>) -> Seq<Seq<char>> {
    v.map_values(|x: String| x@)
}

/// Read `git status --porcelain=v2 --branch` output; `merging` says whether a
/// merge is in progress (a `MERGE_HEAD` exists).
pub fn parse_status(out: &str, merging: bool) -> (r: SyncStatus)
    ensures
        ({
            let v = status_fold(lines(out@));
            &&& r.dirty == v.dirty
            &&& r.ahead == v.ahead
            &&& r.behind == v.behind
            &&& strings(r.conflicts@) == v.conflicts
            &&& r.merging == merging
        }),
{
    let oc = chars_of(out);
    let ls = lines_chars(oc.as_slice());
    let header = chars_of("# branch.ab ");
    let mut dirty = false;
    let mut ahead: u32 = 0;
    let mut behind: u32 = 0;
    let mut conflicts: Vec<String> = Vec::new();
    let mut i: usize = 0;
    while i < ls.len()
        invariant
            i <= ls@.len(),
            header@ == ab_header(),
            ({
                let v = status_fold(views(ls@).take(i as int));
                &&& dirty == v.dirty
                &&& ahead == v.ahead
                &&& behind == v.behind
                &&& strings(conflicts@) == v.conflicts
            }),
        decreases ls.len() - i,
    {
        let line = &ls[i];
        assert(views(ls@).take(i + 1).drop_last() =~= views(ls@).take(i as int));
        assert(views(ls@).take(i + 1).last() == line@);
        if has_prefix(line.as_slice(), header.as_slice()) {
            let rest = copy_range(line.as_slice(), header.len(), line.len());
            assert(rest@ =~= line@.skip(ab_header().len() as int));
            let parts = split_chars(rest.as_slice(), ' ');
            let ab = parse_ab((ahead, behind), &parts);
            ahead = ab.0;
            behind = ab.1;
        } else if line.len() > 0 && line[0] == 'u' {
            match conflict_path(line.as_slice()) {
                Some(p) => {
                    let ghost before = conflicts@;
                    let ghost pv = p@;
                    conflicts.push(string_of(p.as_slice()));
                    assert(strings(conflicts@) =~= strings(before).push(pv));
                },
                None => {},
            }
        } else if line.len() > 0 && (line[0] == '1' || line[0] == '2' || line[0] == '?') {
            dirty = true;
        }
        i = i + 1;
    }
    assert(views(ls@).take(ls@.len() as int) =~= views(ls@));
    SyncStatus { dirty, ahead, behind, conflicts, merging }
}

// ---- History ----

/// One line of `git log --pretty=format:%h\x1f%s\x1f%ci`: hash, subject and
/// date separated by unit separators; a line with fewer fields is skipped.
pub open spec fn history_fold(ls: Seq<Seq<char>>) -> Seq<(Seq<char>, Seq<char>, Seq<char>)>
    decreases ls.len(),
{
    if ls.len() == 0 {
        seq![]
    } else {
        let rest = history_fold(ls.drop_last());
        let f = split_on(ls.last(), '\u{1f}');
        if f.len() >= 3 {
            rest.push((f[0], f[1], f[2]))
        } else {
            rest
        }
    }
}

pub open spec fn checkpoint_view(c: Checkpoint) -> (Seq<char>, Seq<char>, Seq<char>) {
    (c.hash@, c.message@, c.date@)
}

/// The checkpoints listed in `git log` output, newest first as git prints them.
pub fn parse_history(out: &str) -> (r: Vec<Checkpoint>)
    ensures
        r@.map_values(|c: Checkpoint| checkpoint_view(c)) == history_fold(lines(out@)),
{
    let oc = chars_of(out);
    let ls = lines_chars(oc.as_slice());
    let mut r: Vec<Checkpoint> = Vec::new();
    let mut i: usize = 0;
    while i < ls.len()
        invariant
            i <= ls@.len(),
            r@.map_values(|c: Checkpoint| checkpoint_view(c)) == history_fold(views(ls@).take(i as int)),
        decreases ls.len() - i,
    {
        assert(views(ls@).take(i + 1).drop_last() =~= views(ls@).take(i as int));
        assert(views(ls@).take(i + 1).last() == ls@[i as int]@);
        let f = split_chars(ls[i].as_slice(), '\u{1f}');
        if f.len() >= 3 {
            let ghost before = r@;
            let c = Checkpoint {
                hash: string_of(f[0].as_slice()),
                message: string_of(f[1].as_slice()),
                date: string_of(f[2].as_slice()),
            };
            r.push(c);
            assert(views(f@)[0] == f@[0]@ && views(f@)[1] == f@[1]@ && views(f@)[2] == f@[2]@);
            assert(r@.map_values(|c: Checkpoint| checkpoint_view(c)) =~= before.map_values(
                |c: Checkpoint| checkpoint_view(c),
            ).push((views(f@)[0], views(f@)[1], views(f@)[2])));
        }
        i = i + 1;
    }
    assert(views(ls@).take(ls@.len() as int) =~= views(ls@));
    r
}

/// Arguments of the history query: the last `limit` (default 50) checkpoints,
/// of one path when one is given.
pub fn history_args(limit: Option<u32>, path: Option<String>) -> (r: Vec<String>)
    ensures
        r@.len() == if path is Some { 5nat } else { 3nat },
        r@[0]@ == "log"@,
        r@[1]@ == seq!['-'] + dec_digits(match limit { Some(n) => n as nat, None => 50 }),
        r@[2]@ == "--pretty=format:%h\u{1f}%s\u{1f}%ci"@,
        path is Some ==> r@[3]@ == "--"@ && r@[4] == path->Some_0,
{
    let n: u32 = match limit { Some(n) => n, None => 50 };
    let mut d: Vec<char> = Vec::new();
    d.push('-');
    let digits = decimal(n as u64);
    let mut i: usize = 0;
    while i < digits.len()
        invariant
            i <= digits@.len(),
            d@ == seq!['-'] + digits@.take(i as int),
        decreases digits.len() - i,
    {
        d.push(digits[i]);
        i = i + 1;
        assert(d@ =~= seq!['-'] + digits@.take(i as int));
    }
    assert(digits@.take(digits@.len() as int) =~= digits@);
    let mut r: Vec<String> = Vec::new();
    r.push("log".to_string());
    r.push(string_of(d.as_slice()));
    r.push("--pretty=format:%h\u{1f}%s\u{1f}%ci".to_string());
    if let Some(p) = path {
        r.push("--".to_string());
        r.push(p);
    }
    r
}

// ---- "Local only" paths ----

/// The line that opens the managed block of `.gitignore`.
pub open spec fn local_only_header() -> Seq<char> {
    "# pugdock:local-only"@
}

/// Reading `.gitignore`: the header opens the block; inside it each line is a
/// path (trimmed, leading `/` dropped) until an empty or comment line ends it.
pub open spec fn excl_step(st: (bool, Seq<Seq<char>>), line: Seq<char>) -> (bool, Seq<Seq<char>>) {
    if trim(line) == local_only_header() {
        (true, st.1)
    } else if st.0 {
        if trim(line).len() == 0 || (line.len() > 0 && line[0] == '#') {
            (false, st.1)
        } else {
            (true, st.1.push(crate::workspace::strip_slashes(trim(line))))
        }
    } else {
        st
    }
}

pub open spec fn excl_run(st: (bool, Seq<Seq<char>>), ls: Seq<Seq<char>>) -> (bool, Seq<Seq<char>>)
    decreases ls.len(),
{
    if ls.len() == 0 {
        st
    } else {
        excl_step(excl_run(st, ls.drop_last()), ls.last())
    }
}

pub open spec fn excl_fold(ls: Seq<Seq<char>>) -> (bool, Seq<Seq<char>>) {
    excl_run((false, seq![]), ls)
}

/// The paths listed in the "local only" block of a `.gitignore` text.
pub open spec fn exclusions_of(content: Seq<char>) -> Seq<Seq<char>> {
    excl_fold(lines(content)).1
}

fn is_header(line: &[char], header: &[char]) -> (r: bool)
    requires
        header@ == local_only_header(),
    ensures
        r == (trim(line@) == local_only_header()),
{
    let t = trim_chars(line);
    crate::text::chars_eq(t.as_slice(), header)
}

fn strip_leading_slashes(s: &[char]) -> (r: Vec<char>)
    ensures
        r@ == crate::workspace::strip_slashes(s@),
{
    let mut start: usize = 0;
    assert(s@.skip(0) =~= s@);
    while start < s.len() && s[start] == '/'
        invariant
            start <= s@.len(),
            crate::workspace::strip_slashes(s@) == crate::workspace::strip_slashes(s@.skip(start as int)),
        decreases s.len() - start,
    {
        assert(s@.skip(start as int).drop_first() =~= s@.skip(start + 1));
        start = start + 1;
    }
    let r = copy_range(s, start, s.len());
    assert(r@ =~= s@.skip(start as int));
    r
}

/// Paths marked "local only" (kept on disk, never synced) in a `.gitignore` text.
pub fn parse_exclusions(content: &str) -> (r: Vec<String>)
    ensures
        strings(r@) == exclusions_of(content@),
{
    let cc = chars_of(content);
    let ls = lines_chars(cc.as_slice());
    let header = chars_of("# pugdock:local-only");
    let mut in_block = false;
    let mut out: Vec<String> = Vec::new();
    let mut i: usize = 0;
    while i < ls.len()
        invariant
            i <= ls@.len(),
            header@ == local_only_header(),
            excl_fold(views(ls@).take(i as int)) == (in_block, strings(out@)),
        decreases ls.len() - i,
    {
        let line = &ls[i];
        assert(views(ls@).take(i + 1).drop_last() =~= views(ls@).take(i as int));
        assert(views(ls@).take(i + 1).last() == line@);
        if is_header(line.as_slice(), header.as_slice()) {
            in_block = true;
        } else if in_block {
            let t = trim_chars(line.as_slice());
            if t.len() == 0 || (line.len() > 0 && line[0] == '#') {
                in_block = false;
            } else {
                let ghost before = out@;
                out.push(string_of(strip_leading_slashes(t.as_slice()).as_slice()));
                assert(strings(out@) =~= strings(before).push(
                    crate::workspace::strip_slashes(trim(line@)),
                ));
            }
        }
        i = i + 1;
    }
    assert(views(ls@).take(ls@.len() as int) =~= views(ls@));
    out
}

/// Every path but `path`.
pub open spec fn other_than(path: Seq<char>) -> spec_fn(Seq<char>) -> bool {
    |p: Seq<char>| p != path
}

/// The list after marking `path` local-only (appended once) or syncing it
/// again (every copy removed).
pub open spec fn updated_exclusions(list: Seq<Seq<char>>, path: Seq<char>, excluded: bool) -> Seq<Seq<char>> {
    if excluded {
        if list.contains(path) {
            list
        } else {
            list.push(path)
        }
    } else {
        list.filter(other_than(path))
    }
}

pub fn update_exclusions(list: Vec<String>, path: &str, excluded: bool) -> (r: Vec<String>)
    ensures
        strings(r@) == updated_exclusions(strings(list@), path@, excluded),
{
    let mut found = false;
    let mut kept: Vec<String> = Vec::new();
    let mut i: usize = 0;
    while i < list.len()
        invariant
            i <= list@.len(),
            found == strings(list@).take(i as int).contains(path@),
            strings(kept@) == strings(list@).take(i as int).filter(other_than(path@)),
        decreases list.len() - i,
    {
        let ghost pre = strings(list@).take(i as int);
        let ghost next = strings(list@).take(i + 1);
        assert(next.drop_last() =~= pre);
        assert(next.last() == list@[i as int]@);
        reveal_with_fuel(Seq::filter, 1);
        let same = str_eq(list[i].as_str(), path);
        if same {
            assert(next.contains(path@)) by {
                assert(next[i as int] == path@);
            }
            found = true;
        } else {
            let ghost before = kept@;
            kept.push(list[i].clone());
            assert(strings(kept@) =~= strings(before).push(list@[i as int]@));
            assert(next.contains(path@) == pre.contains(path@)) by {
                if next.contains(path@) {
                    let k = choose|k: int| 0 <= k < next.len() && next[k] == path@;
                    assert(k < i);
                    assert(pre[k] == path@);
                }
                if pre.contains(path@) {
                    let k = choose|k: int| 0 <= k < pre.len() && pre[k] == path@;
                    assert(next[k] == path@);
                }
            }
        }
        i = i + 1;
    }
    assert(strings(list@).take(list@.len() as int) =~= strings(list@));
    if excluded {
        if found {
            list
        } else {
            let mut l = list;
            let ghost before = l@;
            l.push(path.to_string());
            assert(strings(l@) =~= strings(before).push(path@));
            l
        }
    } else {
        kept
    }
}

/// Rewriting `.gitignore`: the old managed block (header, its paths, and the
/// empty line that ends it) is dropped; every other line is kept.
pub open spec fn keep_step(st: (bool, Seq<Seq<char>>), line: Seq<char>) -> (bool, Seq<Seq<char>>) {
    if trim(line) == local_only_header() {
        (true, st.1)
    } else if st.0 {
        if trim(line).len() == 0 || (line.len() > 0 && line[0] == '#') {
            (false, if line.len() > 0 && line[0] == '#' { st.1.push(line) } else { st.1 })
        } else {
            st
        }
    } else {
        (false, st.1.push(line))
    }
}

pub open spec fn keep_fold(ls: Seq<Seq<char>>) -> (bool, Seq<Seq<char>>)
    decreases ls.len(),
{
    if ls.len() == 0 {
        (false, seq![])
    } else {
        keep_step(keep_fold(ls.drop_last()), ls.last())
    }
}

/// A line of `.gitignore` that starts a comment.
pub open spec fn comment_line(line: Seq<char>) -> bool {
    line.len() > 0 && line[0] == '#'
}

/// The lines of `ls` outside the "local only" block as `parse_exclusions`
/// reads it: all but the header lines and, while a block is open, the lines
/// it takes as paths and the empty line that closes it (a comment line that
/// closes it stays).
pub open spec fn outside_block(ls: Seq<Seq<char>>) -> Seq<Seq<char>>
    decreases ls.len(),
{
    if ls.len() == 0 {
        seq![]
    } else {
        let line = ls.last();
        let open = excl_fold(ls.drop_last()).0;
        outside_block(ls.drop_last()) + if trim(line) == local_only_header() || (open && !comment_line(line)) {
            seq![]
        } else {
            seq![line]
        }
    }
}

/// Rewriting `.gitignore` drops exactly the block that `parse_exclusions`
/// reads, with the same boundaries: every other line of the old text is
/// kept, in order; a text without the header keeps all its lines.
pub proof fn law_rewrite_keeps_lines_outside_block(ls: Seq<Seq<char>>)
    ensures
        keep_fold(ls).0 == excl_fold(ls).0,
        keep_fold(ls).1 == outside_block(ls),
        (forall|i: int| 0 <= i < ls.len() ==> trim(#[trigger] ls[i]) != local_only_header()) ==> keep_fold(ls).1
            == ls,
    decreases ls.len(),
{
    if ls.len() > 0 {
        law_rewrite_keeps_lines_outside_block(ls.drop_last());
        if forall|i: int| 0 <= i < ls.len() ==> trim(#[trigger] ls[i]) != local_only_header() {
            assert forall|i: int| 0 <= i < ls.drop_last().len() implies trim(#[trigger] ls.drop_last()[i])
                != local_only_header() by {
                assert(ls.drop_last()[i] == ls[i]);
            }
            assert(trim(ls[ls.len() - 1]) != local_only_header());
            lemma_no_header_closed(ls.drop_last());
            assert(ls.drop_last().push(ls.last()) =~= ls);
        }
    }
}

proof fn lemma_no_header_closed(ls: Seq<Seq<char>>)
    requires
        forall|i: int| 0 <= i < ls.len() ==> trim(#[trigger] ls[i]) != local_only_header(),
    ensures
        !excl_fold(ls).0,
    decreases ls.len(),
{
    if ls.len() > 0 {
        assert forall|i: int| 0 <= i < ls.drop_last().len() implies trim(#[trigger] ls.drop_last()[i])
            != local_only_header() by {
            assert(ls.drop_last()[i] == ls[i]);
        }
        lemma_no_header_closed(ls.drop_last());
        assert(trim(ls[ls.len() - 1]) != local_only_header());
    }
}

pub open spec fn slash_prefixed(list: Seq<Seq<char>>) -> Seq<Seq<char>> {
    list.map_values(|p: Seq<char>| seq!['/'] + p)
}

/// The new `.gitignore` text: the kept lines (trailing whitespace trimmed),
/// then, when the list is not empty, an empty line, the header and one `/path`
/// line per entry; always ending in a newline.
pub open spec fn rewritten(content: Seq<char>, list: Seq<Seq<char>>) -> Seq<char> {
    let body = crate::text::trim_end(join(keep_fold(lines(content)).1, seq!['\n']));
    let block = if list.len() > 0 {
        seq!['\n', '\n'] + local_only_header() + seq!['\n'] + join(slash_prefixed(list), seq!['\n'])
    } else {
        seq![]
    };
    body + block + seq!['\n']
}

fn join_chars(parts: &Vec<Vec<char>>, prefix: &[char]) -> (r: Vec<char>)
    ensures
        r@ == join(views(parts@).map_values(|p: Seq<char>| prefix@ + p), seq!['\n']),
{
    let ghost ps = views(parts@).map_values(|p: Seq<char>| prefix@ + p);
    let mut r: Vec<char> = Vec::new();
    let mut i: usize = 0;
    while i < parts.len()
        invariant
            i <= parts@.len(),
            ps == views(parts@).map_values(|p: Seq<char>| prefix@ + p),
            r@ == join(ps.take(i as int), seq!['\n']),
        decreases parts.len() - i,
    {
        assert(ps.take(i + 1).drop_last() =~= ps.take(i as int));
        if i > 0 {
            r.push('\n');
        }
        append(&mut r, prefix);
        append(&mut r, parts[i].as_slice());
        assert(ps.take(i + 1).last() == prefix@ + parts@[i as int]@);
        assert(r@ =~= join(ps.take(i + 1), seq!['\n']));
        i = i + 1;
    }
    assert(ps.take(parts@.len() as int) =~= ps);
    r
}

fn trim_end_chars(s: &Vec<char>) -> (r: Vec<char>)
    ensures
        r@ == crate::text::trim_end(s@),
{
    let mut b: usize = s.len();
    while b > 0 && crate::text::is_whitespace(s[b - 1])
        invariant
            b <= s@.len(),
            forall|j: int| b <= j < s@.len() ==> is_ws(s@[j]),
        decreases b,
    {
        b = b - 1;
    }
    proof {
        crate::text::lemma_trim_end_take(s@, b as int);
    }
    copy_range(s.as_slice(), 0, b)
}

/// The `.gitignore` text with its "local only" block replaced by `list`.
pub fn rewrite_gitignore(content: &str, list: &Vec<String>) -> (r: String)
    ensures
        r@ == rewritten(content@, strings(list@)),
{
    let cc = chars_of(content);
    let ls = lines_chars(cc.as_slice());
    let header = chars_of("# pugdock:local-only");
    let mut in_block = false;
    let mut kept: Vec<Vec<char>> = Vec::new();
    let mut i: usize = 0;
    while i < ls.len()
        invariant
            i <= ls@.len(),
            header@ == local_only_header(),
            keep_fold(views(ls@).take(i as int)) == (in_block, views(kept@)),
        decreases ls.len() - i,
    {
        let line = &ls[i];
        assert(views(ls@).take(i + 1).drop_last() =~= views(ls@).take(i as int));
        assert(views(ls@).take(i + 1).last() == line@);
        let ghost before = kept@;
        if is_header(line.as_slice(), header.as_slice()) {
            in_block = true;
        } else if in_block {
            let t = trim_chars(line.as_slice());
            let comment = line.len() > 0 && line[0] == '#';
            if t.len() == 0 || comment {
                in_block = false;
                if comment {
                    kept.push(copy_range(line.as_slice(), 0, line.len()));
                    assert(line@.subrange(0, line@.len() as int) =~= line@);
                    assert(views(kept@) =~= views(before).push(line@));
                }
            }
        } else {
            kept.push(copy_range(line.as_slice(), 0, line.len()));
            assert(line@.subrange(0, line@.len() as int) =~= line@);
            assert(views(kept@) =~= views(before).push(line@));
        }
        i = i + 1;
    }
    assert(views(ls@).take(ls@.len() as int) =~= views(ls@));
    let empty: Vec<char> = Vec::new();
    let joined = join_chars(&kept, empty.as_slice());
    assert(views(kept@).map_values(|p: Seq<char>| empty@ + p) =~= views(kept@));
    let mut out = trim_end_chars(&joined);
    if list.len() > 0 {
        out.push('\n');
        out.push('\n');
        append(&mut out, header.as_slice());
        out.push('\n');
        let mut items: Vec<Vec<char>> = Vec::new();
        let mut j: usize = 0;
        while j < list.len()
            invariant
                j <= list@.len(),
                views(items@) == strings(list@).take(j as int),
            decreases list.len() - j,
        {
            let ghost before = items@;
            let c = chars_of(list[j].as_str());
            assert(c@ == strings(list@)[j as int]);
            items.push(c);
            assert(views(items@) =~= views(before).push(c@));
            j = j + 1;
            assert(views(items@) =~= strings(list@).take(j as int));
        }
        assert(strings(list@).take(list@.len() as int) =~= strings(list@));
        let slash = chars_of("/");
        proof {
            reveal_strlit("/");
        }
        assert(slash@ =~= seq!['/']);
        let block = join_chars(&items, slash.as_slice());
        assert(views(items@).map_values(|p: Seq<char>| slash@ + p) =~= slash_prefixed(strings(list@)));
        append(&mut out, block.as_slice());
    }
    out.push('\n');
    let ghost body = crate::text::trim_end(join(keep_fold(lines(content@)).1, seq!['\n']));
    assert(out@ =~= rewritten(content@, strings(list@)));
    string_of(out.as_slice())
}

// ---- Decisions of the sync flows ----

/// Where "initialize" works: a folder inside an existing repo (git reports its
/// top level `toplevel`, a strict ancestor) links that repo instead of nesting
/// a new one; otherwise the folder itself is initialized. Returns the root and
/// whether `git init` must run.
pub fn init_target(root: &str, toplevel: Option<String>) -> (r: (String, bool))
    ensures
        match toplevel {
            Some(top) => {
                let t = trim(top@);
                if !same_path(t, root@) && path_within(root@, t) {
                    r.0@ == t && !r.1
                } else {
                    r.0@ == root@ && r.1
                }
            },
            None => r.0@ == root@ && r.1,
        },
{
    match toplevel {
        Some(top) => {
            let t = string_of(trim_chars(chars_of(top.as_str()).as_slice()).as_slice());
            if !path_eq(t.as_str(), root) && path_starts_with(root, t.as_str()) {
                (t, false)
            } else {
                (root.to_string(), true)
            }
        },
        None => (root.to_string(), true),
    }
}

// ---- Initializing a workspace repository ----

/// Where the initialization flow stands: the git command it last asked for
/// (or `Start`), `Done` once it has succeeded, `Failed` once a command it
/// cannot do without has failed.
#[derive(PartialEq, Eq, Structural, Clone, Copy, Debug)]
pub enum InitState {
    Start,
    Init,
    UserName,
    UserEmail,
    SetUrl,
    AddRemote,
    AddAll,
    Status,
    Commit,
    Fetch,
    Merge,
    Push,
    Done,
    Failed,
}

pub open spec fn status_args() -> Seq<Seq<char>> {
    seq!["status"@, "--porcelain=v2"@, "--branch"@]
}

/// After the commit (or when there was nothing to commit): with a remote,
/// fetch it; without one the flow is done.
pub open spec fn after_commit(remote: Option<Seq<char>>) -> (InitState, Option<Seq<Seq<char>>>) {
    if remote is Some {
        (InitState::Fetch, Some(seq!["fetch"@, "origin"@, "main"@]))
    } else {
        (InitState::Done, None)
    }
}

pub open spec fn push_args() -> Seq<Seq<char>> {
    seq!["push"@, "-u"@, "origin"@, "main"@]
}

/// One step of initializing the workspace repository: from the state, the
/// outcome of the command last asked for and (after `status`) whether the
/// tree is dirty, the next state and the next git command. The repository is
/// created when `need_init`; the author is configured; a remote is set (or
/// added when setting fails); everything is staged and committed when
/// dirty. With a remote, its `main` is fetched and merged preferring its
/// side (both may fail without harm), then pushed. A failed `init`,
/// `config`, `remote add`, `add`, `status`, `commit` or `push` ends the flow.
pub open spec fn init_transition(
    s: InitState,
    need_init: bool,
    user_name: Seq<char>,
    user_email: Seq<char>,
    remote: Option<Seq<char>>,
    last_ok: bool,
    dirty: bool,
) -> (InitState, Option<Seq<Seq<char>>>) {
    let name_cmd = (InitState::UserName, Some(seq!["config"@, "user.name"@, user_name]));
    let add_all = (InitState::AddAll, Some(seq!["add"@, "-A"@]));
    match s {
        InitState::Start => if need_init {
            (InitState::Init, Some(seq!["init"@, "-b"@, "main"@]))
        } else {
            name_cmd
        },
        InitState::Init => if !last_ok {
            (InitState::Failed, None)
        } else {
            name_cmd
        },
        InitState::UserName => if !last_ok {
            (InitState::Failed, None)
        } else {
            (InitState::UserEmail, Some(seq!["config"@, "user.email"@, user_email]))
        },
        InitState::UserEmail => if !last_ok {
            (InitState::Failed, None)
        } else {
            match remote {
                Some(url) => (InitState::SetUrl, Some(seq!["remote"@, "set-url"@, "origin"@, url])),
                None => add_all,
            }
        },
        InitState::SetUrl => if last_ok {
            add_all
        } else {
            match remote {
                Some(url) => (InitState::AddRemote, Some(seq!["remote"@, "add"@, "origin"@, url])),
                None => (InitState::Failed, None),
            }
        },
        InitState::AddRemote => if !last_ok {
            (InitState::Failed, None)
        } else {
            add_all
        },
        InitState::AddAll => if !last_ok {
            (InitState::Failed, None)
        } else {
            (InitState::Status, Some(status_args()))
        },
        InitState::Status => if !last_ok {
            (InitState::Failed, None)
        } else if dirty {
            (InitState::Commit, Some(seq!["commit"@, "-m"@, "pugdock: initialize workspace"@]))
        } else {
            after_commit(remote)
        },
        InitState::Commit => if !last_ok {
            (InitState::Failed, None)
        } else {
            after_commit(remote)
        },
        InitState::Fetch => if last_ok {
            (
                InitState::Merge,
                Some(
                    seq![
                        "merge"@,
                        "--no-edit"@,
                        "--allow-unrelated-histories"@,
                        "-X"@,
                        "theirs"@,
                        "origin/main"@,
                    ],
                ),
            )
        } else {
            (InitState::Push, Some(push_args()))
        },
        InitState::Merge => (InitState::Push, Some(push_args())),
        InitState::Push => if !last_ok {
            (InitState::Failed, None)
        } else {
            (InitState::Done, None)
        },
        InitState::Done => (InitState::Done, None),
        InitState::Failed => (InitState::Failed, None),
    }
}

pub open spec fn opt_strings(o: Option<Vec<String>>) -> Option<Seq<Seq<char>>> {
    match o {
        Some(v) => Some(strings(v@)),
        None => None,
    }
}

fn args2(a: &str, b: &str) -> (r: Vec<String>)
    ensures
        strings(r@) == seq![a@, b@],
{
    let mut r: Vec<String> = Vec::new();
    r.push(a.to_string());
    r.push(b.to_string());
    assert(strings(r@) =~= seq![a@, b@]);
    r
}

fn args3(a: &str, b: &str, c: &str) -> (r: Vec<String>)
    ensures
        strings(r@) == seq![a@, b@, c@],
{
    let mut r = args2(a, b);
    let ghost before = r@;
    r.push(c.to_string());
    assert(strings(r@) =~= strings(before).push(c@));
    assert(strings(r@) =~= seq![a@, b@, c@]);
    r
}

fn args4(a: &str, b: &str, c: &str, d: &str) -> (r: Vec<String>)
    ensures
        strings(r@) == seq![a@, b@, c@, d@],
{
    let mut r = args3(a, b, c);
    let ghost before = r@;
    r.push(d.to_string());
    assert(strings(r@) =~= strings(before).push(d@));
    assert(strings(r@) =~= seq![a@, b@, c@, d@]);
    r
}

fn merge_theirs_args() -> (r: Vec<String>)
    ensures
        strings(r@) == seq![
            "merge"@,
            "--no-edit"@,
            "--allow-unrelated-histories"@,
            "-X"@,
            "theirs"@,
            "origin/main"@,
        ],
{
    let mut r = args4("merge", "--no-edit", "--allow-unrelated-histories", "-X");
    let ghost b0 = r@;
    r.push("theirs".to_string());
    assert(strings(r@) =~= strings(b0).push("theirs"@));
    let ghost b1 = r@;
    r.push("origin/main".to_string());
    assert(strings(r@) =~= strings(b1).push("origin/main"@));
    assert(strings(r@) =~= seq![
        "merge"@,
        "--no-edit"@,
        "--allow-unrelated-histories"@,
        "-X"@,
        "theirs"@,
        "origin/main"@,
    ]);
    r
}

pub fn init_step(
    s: InitState,
    need_init: bool,
    user_name: &str,
    user_email: &str,
    remote: Option<&str>,
    last_ok: bool,
    dirty: bool,
) -> (r: (InitState, Option<Vec<String>>))
    ensures
        (r.0, opt_strings(r.1)) == init_transition(
            s,
            need_init,
            user_name@,
            user_email@,
            match remote {
                Some(u) => Some(u@),
                None => None,
            },
            last_ok,
            dirty,
        ),
{
    let (n, a): (InitState, Option<Vec<String>>) = match s {
        InitState::Start => if need_init {
            (InitState::Init, Some(args3("init", "-b", "main")))
        } else {
            (InitState::UserName, Some(args3("config", "user.name", user_name)))
        },
        InitState::Init => if !last_ok {
            (InitState::Failed, None)
        } else {
            (InitState::UserName, Some(args3("config", "user.name", user_name)))
        },
        InitState::UserName => if !last_ok {
            (InitState::Failed, None)
        } else {
            (InitState::UserEmail, Some(args3("config", "user.email", user_email)))
        },
        InitState::UserEmail => if !last_ok {
            (InitState::Failed, None)
        } else {
            match remote {
                Some(url) => (InitState::SetUrl, Some(args4("remote", "set-url", "origin", url))),
                None => (InitState::AddAll, Some(args2("add", "-A"))),
            }
        },
        InitState::SetUrl => if last_ok {
            (InitState::AddAll, Some(args2("add", "-A")))
        } else {
            match remote {
                Some(url) => (InitState::AddRemote, Some(args4("remote", "add", "origin", url))),
                None => (InitState::Failed, None),
            }
        },
        InitState::AddRemote => if !last_ok {
            (InitState::Failed, None)
        } else {
            (InitState::AddAll, Some(args2("add", "-A")))
        },
        InitState::AddAll => if !last_ok {
            (InitState::Failed, None)
        } else {
            (InitState::Status, Some(args3("status", "--porcelain=v2", "--branch")))
        },
        InitState::Status => if !last_ok {
            (InitState::Failed, None)
        } else if dirty {
            (InitState::Commit, Some(args3("commit", "-m", "pugdock: initialize workspace")))
        } else if remote.is_some() {
            (InitState::Fetch, Some(args3("fetch", "origin", "main")))
        } else {
            (InitState::Done, None)
        },
        InitState::Commit => if !last_ok {
            (InitState::Failed, None)
        } else if remote.is_some() {
            (InitState::Fetch, Some(args3("fetch", "origin", "main")))
        } else {
            (InitState::Done, None)
        },
        InitState::Fetch => if last_ok {
            (
                InitState::Merge,
                Some(merge_theirs_args()),
            )
        } else {
            (InitState::Push, Some(args4("push", "-u", "origin", "main")))
        },
        InitState::Merge => (InitState::Push, Some(args4("push", "-u", "origin", "main"))),
        InitState::Push => if !last_ok {
            (InitState::Failed, None)
        } else {
            (InitState::Done, None)
        },
        InitState::Done => (InitState::Done, None),
        InitState::Failed => (InitState::Failed, None),
    };
    (n, a)
}

/// The commands a run of the flow asks for, from `Start`, given the
/// outcome and dirtiness reported after each command.
pub open spec fn run_actions(
    s: InitState,
    need_init: bool,
    user_name: Seq<char>,
    user_email: Seq<char>,
    remote: Option<Seq<char>>,
    outcomes: Seq<(bool, bool)>,
) -> Seq<Option<Seq<Seq<char>>>>
    decreases outcomes.len(),
{
    if outcomes.len() == 0 {
        seq![]
    } else {
        let t = init_transition(s, need_init, user_name, user_email, remote, outcomes[0].0, outcomes[0].1);
        seq![t.1] + run_actions(t.0, need_init, user_name, user_email, remote, outcomes.drop_first())
    }
}

/// The state a run of the flow reaches.
pub open spec fn run_state(
    s: InitState,
    need_init: bool,
    user_name: Seq<char>,
    user_email: Seq<char>,
    remote: Option<Seq<char>>,
    outcomes: Seq<(bool, bool)>,
) -> InitState
    decreases outcomes.len(),
{
    if outcomes.len() == 0 {
        s
    } else {
        let t = init_transition(s, need_init, user_name, user_email, remote, outcomes[0].0, outcomes[0].1);
        run_state(t.0, need_init, user_name, user_email, remote, outcomes.drop_first())
    }
}

proof fn lemma_run_len(
    s: InitState,
    need_init: bool,
    user_name: Seq<char>,
    user_email: Seq<char>,
    remote: Option<Seq<char>>,
    outcomes: Seq<(bool, bool)>,
)
    ensures
        run_actions(s, need_init, user_name, user_email, remote, outcomes).len() == outcomes.len(),
    decreases outcomes.len(),
{
    if outcomes.len() > 0 {
        let t = init_transition(s, need_init, user_name, user_email, remote, outcomes[0].0, outcomes[0].1);
        lemma_run_len(t.0, need_init, user_name, user_email, remote, outcomes.drop_first());
    }
}

/// The states a run without a remote can be in.
pub open spec fn local_state(s: InitState) -> bool {
    !(s is SetUrl || s is AddRemote || s is Fetch || s is Merge || s is Push)
}

/// A command that talks to the remote.
pub open spec fn remote_command(a: Option<Seq<Seq<char>>>) -> bool {
    a is Some && a->0.len() > 0 && (a->0[0] == "fetch"@ || a->0[0] == "merge"@ || a->0[0]
        == "push"@ || a->0[0] == "remote"@)
}

proof fn lemma_local_step(
    s: InitState,
    need_init: bool,
    user_name: Seq<char>,
    user_email: Seq<char>,
    last_ok: bool,
    dirty: bool,
)
    requires
        local_state(s),
    ensures
        local_state(init_transition(s, need_init, user_name, user_email, None, last_ok, dirty).0),
        !remote_command(init_transition(s, need_init, user_name, user_email, None, last_ok, dirty).1),
{
    reveal_strlit("fetch");
    reveal_strlit("merge");
    reveal_strlit("push");
    reveal_strlit("remote");
    reveal_strlit("init");
    reveal_strlit("config");
    reveal_strlit("add");
    reveal_strlit("status");
    reveal_strlit("commit");
    assert("fetch"@[0] == 'f' && "merge"@[0] == 'm' && "push"@[0] == 'p' && "remote"@[0] == 'r');
    assert("init"@[0] == 'i' && "config"@[0] == 'c' && "add"@[0] == 'a' && "status"@[0] == 's'
        && "commit"@[0] == 'c');
}

/// With a remote, a successful fetch is followed by merging the remote's
/// `main` preferring its side, and the merge by the push; and a push is only
/// ever asked for right after that merge, or after a fetch that failed
/// (nothing to merge). So every run whose fetch succeeds merges before it
/// pushes.
pub proof fn law_fetched_notes_are_merged_before_push(
    s: InitState,
    need_init: bool,
    user_name: Seq<char>,
    user_email: Seq<char>,
    url: Seq<char>,
    last_ok: bool,
    dirty: bool,
)
    ensures
        init_transition(InitState::Fetch, need_init, user_name, user_email, Some(url), true, dirty) == (
            InitState::Merge,
            Some(
                seq![
                    "merge"@,
                    "--no-edit"@,
                    "--allow-unrelated-histories"@,
                    "-X"@,
                    "theirs"@,
                    "origin/main"@,
                ],
            ),
        ),
        init_transition(InitState::Merge, need_init, user_name, user_email, Some(url), last_ok, dirty) == (
            InitState::Push,
            Some(seq!["push"@, "-u"@, "origin"@, "main"@]),
        ),
        init_transition(s, need_init, user_name, user_email, Some(url), last_ok, dirty).1 == Some(
            seq!["push"@, "-u"@, "origin"@, "main"@],
        ) ==> s == InitState::Merge || (s == InitState::Fetch && !last_ok),
{
    reveal_strlit("push");
    reveal_strlit("merge");
    reveal_strlit("init");
    reveal_strlit("config");
    reveal_strlit("remote");
    reveal_strlit("add");
    reveal_strlit("status");
    reveal_strlit("commit");
    reveal_strlit("fetch");
    assert("push"@[0] == 'p' && "merge"@[0] == 'm' && "init"@[0] == 'i' && "config"@[0] == 'c'
        && "remote"@[0] == 'r' && "add"@[0] == 'a' && "status"@[0] == 's' && "commit"@[0] == 'c'
        && "fetch"@[0] == 'f');
}

/// `k` command outcomes that all succeed, each reporting `dirty`.
pub open spec fn all_ok(k: nat, dirty: bool) -> Seq<(bool, bool)> {
    Seq::new(k, |i: int| (true, dirty))
}

proof fn lemma_ok_step(
    s: InitState,
    need_init: bool,
    user_name: Seq<char>,
    user_email: Seq<char>,
    remote: Option<Seq<char>>,
    k: nat,
    dirty: bool,
)
    requires
        k > 0,
    ensures
        ({
            let t = init_transition(s, need_init, user_name, user_email, remote, true, dirty);
            &&& run_actions(s, need_init, user_name, user_email, remote, all_ok(k, dirty)) == seq![t.1]
                + run_actions(t.0, need_init, user_name, user_email, remote, all_ok((k - 1) as nat, dirty))
            &&& run_state(s, need_init, user_name, user_email, remote, all_ok(k, dirty)) == run_state(
                t.0,
                need_init,
                user_name,
                user_email,
                remote,
                all_ok((k - 1) as nat, dirty),
            )
        }),
{
    assert(all_ok(k, dirty).drop_first() =~= all_ok((k - 1) as nat, dirty));
    assert(all_ok(k, dirty)[0] == (true, dirty));
}

/// When every command succeeds, initializing with a remote runs, in order:
/// `init` (when needed), the author's name and email, setting the remote,
/// staging everything, `status`, a commit when the tree is dirty, then
/// fetch, merge preferring the remote, and push; after which it is done.
pub proof fn law_remote_init_runs_in_order(
    need_init: bool,
    user_name: Seq<char>,
    user_email: Seq<char>,
    url: Seq<char>,
    dirty: bool,
)
    ensures
        ({
            let cmds = (if need_init { seq![Some(seq!["init"@, "-b"@, "main"@])] } else { seq![] }) + seq![
                Some(seq!["config"@, "user.name"@, user_name]),
                Some(seq!["config"@, "user.email"@, user_email]),
                Some(seq!["remote"@, "set-url"@, "origin"@, url]),
                Some(seq!["add"@, "-A"@]),
                Some(seq!["status"@, "--porcelain=v2"@, "--branch"@]),
            ] + (if dirty { seq![Some(seq!["commit"@, "-m"@, "pugdock: initialize workspace"@])] } else { seq![] })
                + seq![
                Some(seq!["fetch"@, "origin"@, "main"@]),
                Some(
                    seq![
                        "merge"@,
                        "--no-edit"@,
                        "--allow-unrelated-histories"@,
                        "-X"@,
                        "theirs"@,
                        "origin/main"@,
                    ],
                ),
                Some(seq!["push"@, "-u"@, "origin"@, "main"@]),
                None,
            ];
            &&& run_actions(InitState::Start, need_init, user_name, user_email, Some(url), all_ok(cmds.len(), dirty))
                == cmds
            &&& run_state(InitState::Start, need_init, user_name, user_email, Some(url), all_ok(cmds.len(), dirty))
                == InitState::Done
        }),
{
    let r = Some(url);
    let n: nat = (if need_init { 1nat } else { 0nat }) + (if dirty { 1nat } else { 0nat }) + 9;
    let mut k: nat = n;
    let cmds = (if need_init { seq![Some(seq!["init"@, "-b"@, "main"@])] } else { seq![] }) + seq![
        Some(seq!["config"@, "user.name"@, user_name]),
        Some(seq!["config"@, "user.email"@, user_email]),
        Some(seq!["remote"@, "set-url"@, "origin"@, url]),
        Some(seq!["add"@, "-A"@]),
        Some(seq!["status"@, "--porcelain=v2"@, "--branch"@]),
    ] + (if dirty { seq![Some(seq!["commit"@, "-m"@, "pugdock: initialize workspace"@])] } else { seq![] })
        + seq![
        Some(seq!["fetch"@, "origin"@, "main"@]),
        Some(
            seq![
                "merge"@,
                "--no-edit"@,
                "--allow-unrelated-histories"@,
                "-X"@,
                "theirs"@,
                "origin/main"@,
            ],
        ),
        Some(seq!["push"@, "-u"@, "origin"@, "main"@]),
        None,
    ];
    assert(cmds.len() == n);
    let u = user_name;
    let e = user_email;
    if need_init {
        lemma_ok_step(InitState::Start, need_init, u, e, r, n, dirty);
        lemma_ok_step(InitState::Init, need_init, u, e, r, (n - 1) as nat, dirty);
        k = (n - 1) as nat;
    } else {
        lemma_ok_step(InitState::Start, need_init, u, e, r, n, dirty);
    }
    lemma_ok_step(InitState::UserName, need_init, u, e, r, (k - 1) as nat, dirty);
    lemma_ok_step(InitState::UserEmail, need_init, u, e, r, (k - 2) as nat, dirty);
    lemma_ok_step(InitState::SetUrl, need_init, u, e, r, (k - 3) as nat, dirty);
    lemma_ok_step(InitState::AddAll, need_init, u, e, r, (k - 4) as nat, dirty);
    lemma_ok_step(InitState::Status, need_init, u, e, r, (k - 5) as nat, dirty);
    let mut j: nat = (k - 6) as nat;
    if dirty {
        lemma_ok_step(InitState::Commit, need_init, u, e, r, j, dirty);
        j = (j - 1) as nat;
    }
    lemma_ok_step(InitState::Fetch, need_init, u, e, r, j, dirty);
    lemma_ok_step(InitState::Merge, need_init, u, e, r, (j - 1) as nat, dirty);
    lemma_ok_step(InitState::Push, need_init, u, e, r, (j - 2) as nat, dirty);
    assert(j == 3);
    assert(all_ok(0, dirty).len() == 0);
    assert(run_actions(InitState::Done, need_init, u, e, r, all_ok(0, dirty)) == Seq::<Option<Seq<Seq<char>>>>::empty());
    assert(run_state(InitState::Done, need_init, u, e, r, all_ok(0, dirty)) == InitState::Done);
    assert(run_actions(InitState::Start, need_init, u, e, r, all_ok(n, dirty)) =~= cmds);
}

/// When every command succeeds, initializing without a remote runs, in
/// order: `init` (when needed), the author's name and email, staging
/// everything, `status` and a commit when the tree is dirty; then it is done,
/// with local checkpoint history and nothing sent anywhere.
pub proof fn law_local_init_runs_in_order(need_init: bool, user_name: Seq<char>, user_email: Seq<char>, dirty: bool)
    ensures
        ({
            let cmds = (if need_init { seq![Some(seq!["init"@, "-b"@, "main"@])] } else { seq![] }) + seq![
                Some(seq!["config"@, "user.name"@, user_name]),
                Some(seq!["config"@, "user.email"@, user_email]),
                Some(seq!["add"@, "-A"@]),
                Some(seq!["status"@, "--porcelain=v2"@, "--branch"@]),
            ] + (if dirty { seq![Some(seq!["commit"@, "-m"@, "pugdock: initialize workspace"@])] } else { seq![] })
                + seq![None];
            &&& run_actions(InitState::Start, need_init, user_name, user_email, None, all_ok(cmds.len(), dirty)) == cmds
            &&& run_state(InitState::Start, need_init, user_name, user_email, None, all_ok(cmds.len(), dirty))
                == InitState::Done
        }),
{
    let r: Option<Seq<char>> = None;
    let n: nat = (if need_init { 1nat } else { 0nat }) + (if dirty { 1nat } else { 0nat }) + 5;
    let mut k: nat = n;
    let cmds = (if need_init { seq![Some(seq!["init"@, "-b"@, "main"@])] } else { seq![] }) + seq![
        Some(seq!["config"@, "user.name"@, user_name]),
        Some(seq!["config"@, "user.email"@, user_email]),
        Some(seq!["add"@, "-A"@]),
        Some(seq!["status"@, "--porcelain=v2"@, "--branch"@]),
    ] + (if dirty { seq![Some(seq!["commit"@, "-m"@, "pugdock: initialize workspace"@])] } else { seq![] })
        + seq![None];
    assert(cmds.len() == n);
    let u = user_name;
    let e = user_email;
    lemma_ok_step(InitState::Start, need_init, u, e, r, n, dirty);
    if need_init {
        lemma_ok_step(InitState::Init, need_init, u, e, r, (n - 1) as nat, dirty);
        k = (n - 1) as nat;
    }
    lemma_ok_step(InitState::UserName, need_init, u, e, r, (k - 1) as nat, dirty);
    lemma_ok_step(InitState::UserEmail, need_init, u, e, r, (k - 2) as nat, dirty);
    lemma_ok_step(InitState::AddAll, need_init, u, e, r, (k - 3) as nat, dirty);
    lemma_ok_step(InitState::Status, need_init, u, e, r, (k - 4) as nat, dirty);
    let mut j: nat = (k - 5) as nat;
    if dirty {
        lemma_ok_step(InitState::Commit, need_init, u, e, r, j, dirty);
        j = (j - 1) as nat;
    }
    assert(j == 0);
    assert(all_ok(0, dirty).len() == 0);
    assert(run_actions(InitState::Start, need_init, u, e, r, all_ok(n, dirty)) =~= cmds);
}

/// How failures are met: when setting the remote fails it is added
/// instead; a failed fetch skips the merge and a failed merge is ignored,
/// both going on to the push; any other failed command ends the flow in
/// `Failed`, asking for nothing more.
pub proof fn law_init_failures(
    s: InitState,
    need_init: bool,
    user_name: Seq<char>,
    user_email: Seq<char>,
    url: Seq<char>,
    dirty: bool,
)
    ensures
        init_transition(InitState::SetUrl, need_init, user_name, user_email, Some(url), false, dirty) == (
            InitState::AddRemote,
            Some(seq!["remote"@, "add"@, "origin"@, url]),
        ),
        init_transition(InitState::Fetch, need_init, user_name, user_email, Some(url), false, dirty) == (
            InitState::Push,
            Some(seq!["push"@, "-u"@, "origin"@, "main"@]),
        ),
        init_transition(InitState::Merge, need_init, user_name, user_email, Some(url), false, dirty).0
            == InitState::Push,
        s != InitState::Start && s != InitState::SetUrl && s != InitState::Fetch && s != InitState::Merge
            && s != InitState::Done ==> init_transition(s, need_init, user_name, user_email, Some(url), false, dirty)
            == (InitState::Failed, None::<Seq<Seq<char>>>),
{
}

/// Local-only mode: without a remote URL the flow never fetches, merges,
/// pushes or touches a remote, whatever each command's outcome.
pub proof fn law_local_only_never_syncs(
    need_init: bool,
    user_name: Seq<char>,
    user_email: Seq<char>,
    outcomes: Seq<(bool, bool)>,
)
    ensures
        forall|i: int|
            0 <= i < outcomes.len() ==> !remote_command(
                #[trigger] run_actions(InitState::Start, need_init, user_name, user_email, None, outcomes)[i],
            ),
{
    lemma_local_run(InitState::Start, need_init, user_name, user_email, outcomes);
}

proof fn lemma_local_run(
    s: InitState,
    need_init: bool,
    user_name: Seq<char>,
    user_email: Seq<char>,
    outcomes: Seq<(bool, bool)>,
)
    requires
        local_state(s),
    ensures
        forall|i: int|
            0 <= i < outcomes.len() ==> !remote_command(
                #[trigger] run_actions(s, need_init, user_name, user_email, None, outcomes)[i],
            ),
    decreases outcomes.len(),
{
    if outcomes.len() > 0 {
        let t = init_transition(s, need_init, user_name, user_email, None, outcomes[0].0, outcomes[0].1);
        lemma_local_step(s, need_init, user_name, user_email, outcomes[0].0, outcomes[0].1);
        lemma_local_run(t.0, need_init, user_name, user_email, outcomes.drop_first());
        lemma_run_len(t.0, need_init, user_name, user_email, None, outcomes.drop_first());
        let rest = run_actions(t.0, need_init, user_name, user_email, None, outcomes.drop_first());
        assert(run_actions(s, need_init, user_name, user_email, None, outcomes) == seq![t.1] + rest);
        assert forall|i: int| 0 <= i < outcomes.len() implies !remote_command(
            #[trigger] run_actions(s, need_init, user_name, user_email, None, outcomes)[i],
        ) by {
            if i > 0 {
                assert(run_actions(s, need_init, user_name, user_email, None, outcomes)[i] == rest[i - 1]);
            }
        }
    }
}

/// With a remote URL the flow succeeds only through a push: the step that
/// ends it in `Done` is the one after the push succeeded.
pub proof fn law_remote_ends_in_push(
    s: InitState,
    need_init: bool,
    user_name: Seq<char>,
    user_email: Seq<char>,
    url: Seq<char>,
    last_ok: bool,
    dirty: bool,
)
    requires
        s != InitState::Done,
        init_transition(s, need_init, user_name, user_email, Some(url), last_ok, dirty).0
            == InitState::Done,
    ensures
        s == InitState::Push,
        last_ok,
{
}

/// Without a remote the flow succeeds right after the workspace is staged
/// and, when dirty, committed (from any state such a run can be in).
pub proof fn law_local_ends_after_commit(
    s: InitState,
    need_init: bool,
    user_name: Seq<char>,
    user_email: Seq<char>,
    last_ok: bool,
    dirty: bool,
)
    requires
        local_state(s),
        s != InitState::Done,
        init_transition(s, need_init, user_name, user_email, None, last_ok, dirty).0
            == InitState::Done,
    ensures
        s == InitState::Commit || (s == InitState::Status && !dirty),
        last_ok,
{
}

/// The checkpoint decision: unresolved conflicts refuse it, a clean tree needs
/// no commit (`Ok(false)`), anything else is committed (`Ok(true)`).
pub fn checkpoint_step(st: &SyncStatus) -> (r: Result<bool, AppError>)
    ensures
        st.conflicts@.len() > 0 ==> r == Err::<bool, AppError>(AppError::SyncConflict),
        st.conflicts@.len() == 0 ==> r == Ok::<bool, AppError>(st.dirty),
{
    if st.conflicts.len() > 0 {
        Err(AppError::SyncConflict)
    } else {
        Ok(st.dirty)
    }
}

/// The commit message of a checkpoint: the one given, else
/// `pugdock: checkpoint <stamp>`.
pub fn checkpoint_message(message: Option<String>, stamp: &str) -> (r: String)
    ensures
        message is Some ==> r == message->Some_0,
        message is None ==> r@ == "pugdock: checkpoint "@ + stamp@,
{
    match message {
        Some(m) => m,
        None => concat("pugdock: checkpoint ", stamp),
    }
}

/// After a fetch, a pull merges only when the remote is ahead.
pub fn pull_needs_merge(st: &SyncStatus) -> (r: bool)
    ensures
        r == (st.behind > 0),
{
    st.behind > 0
}

/// A failed merge that left conflicts is handed to the user to review file by
/// file; any other failure is an error.
pub fn merge_needs_review(st: &SyncStatus) -> (r: bool)
    ensures
        r == (st.conflicts@.len() > 0),
{
    st.conflicts.len() > 0
}

/// The side of a conflict to keep: "local" keeps ours, anything else theirs.
pub fn conflict_side(keep: &str) -> (r: &'static str)
    ensures
        keep@ == "local"@ ==> r@ == "--ours"@,
        keep@ != "local"@ ==> r@ == "--theirs"@,
{
    if str_eq(keep, "local") {
        "--ours"
    } else {
        "--theirs"
    }
}

/// After resolving a file, the merge is committed once no conflict is left.
pub fn resolve_completes_merge(st: &SyncStatus) -> (r: bool)
    ensures
        r == (st.conflicts@.len() == 0 && st.merging),
{
    st.conflicts.len() == 0 && st.merging
}

/// The object name of `path` at index stage `stage` (2 = ours, 3 = theirs).
pub fn stage_object(stage: u8, path: &str) -> (r: String)
    ensures
        r@ == seq![':'] + dec_digits(stage as nat) + seq![':'] + path@,
{
    let mut v: Vec<char> = Vec::new();
    v.push(':');
    let d = decimal(stage as u64);
    append(&mut v, d.as_slice());
    v.push(':');
    let p = chars_of(path);
    append(&mut v, p.as_slice());
    assert(v@ =~= seq![':'] + dec_digits(stage as nat) + seq![':'] + path@);
    string_of(v.as_slice())
}

/// The object name of `path` at checkpoint `hash`.
pub fn object_at(hash: &str, path: &str) -> (r: String)
    ensures
        r@ == hash@ + seq![':'] + path@,
{
    let mut v = chars_of(hash);
    v.push(':');
    let p = chars_of(path);
    append(&mut v, p.as_slice());
    string_of(v.as_slice())
}

// ---- The read-back law of the "local only" block ----

proof fn lemma_excl_run_concat(st: (bool, Seq<Seq<char>>), a: Seq<Seq<char>>, b: Seq<Seq<char>>)
    ensures
        excl_run(st, a + b) == excl_run(excl_run(st, a), b),
    decreases b.len(),
{
    if b.len() == 0 {
        assert(a + b =~= a);
    } else {
        lemma_excl_run_concat(st, a, b.drop_last());
        assert((a + b).drop_last() =~= a + b.drop_last());
    }
}

proof fn lemma_excl_run_quiet(o: Seq<Seq<char>>, ls: Seq<Seq<char>>)
    requires
        forall|i: int| 0 <= i < ls.len() ==> trim(#[trigger] ls[i]) != local_only_header(),
    ensures
        excl_run((false, o), ls) == (false, o),
    decreases ls.len(),
{
    if ls.len() > 0 {
        lemma_excl_run_quiet(o, ls.drop_last());
    }
}

proof fn lemma_header_facts()
    ensures
        local_only_header().len() > 0,
        local_only_header()[0] == '#',
        !local_only_header().contains('\n'),
        strip_cr(local_only_header()) == local_only_header(),
{
    reveal_strlit("# pugdock:local-only");
    assert(!local_only_header().contains('\n')) by {
        if local_only_header().contains('\n') {
            let j = choose|j: int| 0 <= j < local_only_header().len() && local_only_header()[j] == '\n';
            assert(local_only_header()[j] != '\n');
        }
    }
}

proof fn lemma_keep_fold_props(ls: Seq<Seq<char>>)
    requires
        forall|i: int| 0 <= i < ls.len() ==> !(#[trigger] ls[i]).contains('\n'),
    ensures
        forall|i: int|
            0 <= i < keep_fold(ls).1.len() ==> !(#[trigger] keep_fold(ls).1[i]).contains('\n')
                && trim(keep_fold(ls).1[i]) != local_only_header(),
    decreases ls.len(),
{
    if ls.len() > 0 {
        lemma_keep_fold_props(ls.drop_last());
        lemma_header_facts();
        let l = ls.last();
        assert(!l.contains('\n'));
        let prev = keep_fold(ls.drop_last());
        let cur = keep_fold(ls);
        assert(cur == keep_step(prev, l));
        assert forall|i: int| 0 <= i < cur.1.len() implies !(#[trigger] cur.1[i]).contains('\n')
            && trim(cur.1[i]) != local_only_header() by {
            if i < prev.1.len() {
                assert(cur.1[i] == prev.1[i]);
            } else {
                assert(cur.1[i] == l);
            }
        }
    }
}

proof fn lemma_split_join(k: Seq<Seq<char>>)
    requires
        k.len() > 0,
        forall|i: int| 0 <= i < k.len() ==> !(#[trigger] k[i]).contains('\n'),
    ensures
        split_on(join(k, seq!['\n']), '\n') == k,
    decreases k.len(),
{
    if k.len() == 1 {
        crate::text::lemma_split_no_sep(k[0], '\n');
        assert(seq![k[0]] =~= k);
    } else {
        lemma_split_join(k.drop_last());
        crate::text::lemma_split_concat(join(k.drop_last(), seq!['\n']), k.last(), '\n');
        crate::text::lemma_split_no_sep(k.last(), '\n');
        assert(join(k, seq!['\n']) =~= join(k.drop_last(), seq!['\n']) + seq!['\n'] + k.last());
        assert(k.drop_last() + seq![k.last()] =~= k);
    }
}

pub open spec fn quiet_lines(k: Seq<Seq<char>>) -> bool {
    forall|i: int|
        0 <= i < k.len() ==> !(#[trigger] k[i]).contains('\n') && trim(k[i]) != local_only_header()
}

proof fn lemma_trim_end_join(k: Seq<Seq<char>>) -> (k2: Seq<Seq<char>>)
    requires
        quiet_lines(k),
    ensures
        k2.len() > 0,
        quiet_lines(k2),
        crate::text::trim_end(join(k, seq!['\n'])) == join(k2, seq!['\n']),
    decreases k.len(),
{
    lemma_header_facts();
    if k.len() == 0 {
        let e: Seq<char> = seq![];
        assert(!e.contains('\n'));
        assert(trim(e) =~= e);
        seq![e]
    } else if k.len() == 1 {
        let t = crate::text::trim_end(k[0]);
        crate::text::lemma_trim_of_trim_end(k[0]);
        crate::text::lemma_trim_end_shape(k[0]);
        assert(!t.contains('\n')) by {
            if t.contains('\n') {
                let j = choose|j: int| 0 <= j < t.len() && t[j] == '\n';
                assert(k[0][j] == '\n');
            }
        }
        seq![t]
    } else {
        let front = k.drop_last();
        let last = k.last();
        let jf = join(front, seq!['\n']);
        assert(join(k, seq!['\n']) == jf + seq!['\n'] + last);
        if crate::text::trim_end(last).len() == 0 {
            let k2 = lemma_trim_end_join(front);
            crate::text::lemma_trim_end_shape(last);
            let w = seq!['\n'] + last;
            assert(crate::text::all_ws(w)) by {
                assert forall|i: int| 0 <= i < w.len() implies is_ws(w[i]) by {
                    if i > 0 {
                        assert(w[i] == last.skip(0)[i - 1]);
                    }
                }
            }
            assert(jf + seq!['\n'] + last =~= jf + w);
            crate::text::lemma_trim_end_append_ws(jf, w);
            k2
        } else {
            let t = crate::text::trim_end(last);
            crate::text::lemma_trim_end_concat(jf + seq!['\n'], last);
            crate::text::lemma_trim_of_trim_end(last);
            crate::text::lemma_trim_end_shape(last);
            assert(!t.contains('\n')) by {
                if t.contains('\n') {
                    let j = choose|j: int| 0 <= j < t.len() && t[j] == '\n';
                    assert(last[j] == '\n');
                }
            }
            let k2 = front.push(t);
            assert(k2.drop_last() =~= front);
            assert(join(k2, seq!['\n']) =~= jf + seq!['\n'] + t);
            assert(quiet_lines(k2)) by {
                assert forall|i: int| 0 <= i < k2.len() implies !(#[trigger] k2[i]).contains('\n')
                    && trim(k2[i]) != local_only_header() by {
                    if i < front.len() {
                        assert(k2[i] == k[i]);
                    }
                }
            }
            k2
        }
    }
}

proof fn lemma_trim_plain(x: Seq<char>)
    requires
        x.len() > 0,
        !is_ws(x[0]),
        !is_ws(x.last()),
    ensures
        trim(x) == x,
{
    assert(crate::text::trim_start(x) == x);
}

proof fn lemma_strip_cr_keeps_trim(e: Seq<char>)
    ensures
        trim(strip_cr(e)) == trim(e),
{
    if e.len() > 0 && e.last() == '\r' {
        assert(e =~= e.drop_last() + seq!['\r']);
        crate::text::lemma_trim_append_ws(e.drop_last(), seq!['\r']);
    }
}

/// A path entry that the managed block can hold and give back: on one
/// line, and when not empty, neither starting with `/` nor ending in
/// whitespace. Every entry read from a block is one.
pub open spec fn block_path(p: Seq<char>) -> bool {
    &&& p.len() > 0 ==> p[0] != '/' && !is_ws(p.last())
    &&& !p.contains('\n')
}

proof fn lemma_trim_start_keeps(s: Seq<char>)
    ensures
        !s.contains('\n') ==> !trim_start(s).contains('\n'),
        trim_start(s).len() > 0 ==> trim_start(s).last() == s.last(),
    decreases s.len(),
{
    if s.len() > 0 && is_ws(s[0]) {
        lemma_trim_start_keeps(s.drop_first());
        if !s.contains('\n') && s.drop_first().contains('\n') {
            let j = choose|j: int| 0 <= j < s.drop_first().len() && s.drop_first()[j] == '\n';
            assert(s[j + 1] == '\n');
        }
    }
}

proof fn lemma_trim_end_keeps(s: Seq<char>)
    ensures
        !s.contains('\n') ==> !trim_end(s).contains('\n'),
        trim_end(s).len() > 0 ==> !is_ws(trim_end(s).last()),
    decreases s.len(),
{
    if s.len() > 0 && is_ws(s.last()) {
        lemma_trim_end_keeps(s.drop_last());
        if !s.contains('\n') && s.drop_last().contains('\n') {
            let j = choose|j: int| 0 <= j < s.drop_last().len() && s.drop_last()[j] == '\n';
            assert(s[j] == '\n');
        }
    }
}

proof fn lemma_strip_slashes_keeps(s: Seq<char>)
    ensures
        !s.contains('\n') ==> !crate::workspace::strip_slashes(s).contains('\n'),
        crate::workspace::strip_slashes(s).len() > 0 ==> crate::workspace::strip_slashes(s)[0] != '/'
            && crate::workspace::strip_slashes(s).last() == s.last(),
    decreases s.len(),
{
    if s.len() > 0 && s[0] == '/' {
        lemma_strip_slashes_keeps(s.drop_first());
        if !s.contains('\n') && s.drop_first().contains('\n') {
            let j = choose|j: int| 0 <= j < s.drop_first().len() && s.drop_first()[j] == '\n';
            assert(s[j + 1] == '\n');
        }
    }
}

/// A line of a block gives a well-formed entry.
proof fn lemma_entry_of_line(line: Seq<char>)
    requires
        !line.contains('\n'),
        trim(line).len() > 0,
    ensures
        block_path(crate::workspace::strip_slashes(trim(line))),
{
    lemma_trim_start_keeps(line);
    lemma_trim_end_keeps(trim_start(line));
    lemma_strip_slashes_keeps(trim(line));
}

proof fn lemma_excl_run_entries(st: (bool, Seq<Seq<char>>), ls: Seq<Seq<char>>)
    requires
        forall|i: int| 0 <= i < st.1.len() ==> block_path(#[trigger] st.1[i]),
        forall|i: int| 0 <= i < ls.len() ==> !(#[trigger] ls[i]).contains('\n'),
    ensures
        forall|i: int| 0 <= i < excl_run(st, ls).1.len() ==> block_path(#[trigger] excl_run(st, ls).1[i]),
    decreases ls.len(),
{
    if ls.len() > 0 {
        lemma_excl_run_entries(st, ls.drop_last());
        let prev = excl_run(st, ls.drop_last());
        let line = ls.last();
        assert(!line.contains('\n'));
        if trim(line).len() > 0 {
            lemma_entry_of_line(line);
        }
        let cur = excl_run(st, ls);
        assert(cur == excl_step(prev, line));
        assert forall|i: int| 0 <= i < cur.1.len() implies block_path(#[trigger] cur.1[i]) by {
            if i < prev.1.len() {
                assert(cur.1[i] == prev.1[i]);
            }
        }
    }
}

/// Every entry read from a `.gitignore` block is well formed.
proof fn lemma_exclusions_well_formed(content: Seq<char>)
    ensures
        forall|i: int| 0 <= i < exclusions_of(content).len() ==> block_path(#[trigger] exclusions_of(content)[i]),
{
    crate::text::lemma_lines_no_newline(content);
    lemma_excl_run_entries((false, seq![]), lines(content));
}

proof fn lemma_items_fold(o: Seq<Seq<char>>, list: Seq<Seq<char>>)
    requires
        forall|i: int| 0 <= i < list.len() ==> block_path(#[trigger] list[i]),
    ensures
        excl_run((true, o), slash_prefixed(list)) == (true, o + list),
    decreases list.len(),
{
    lemma_header_facts();
    if list.len() == 0 {
        assert(o + list =~= o);
        assert(slash_prefixed(list) =~= Seq::<Seq<char>>::empty());
    } else {
        let front = list.drop_last();
        lemma_items_fold(o, front);
        assert(slash_prefixed(list).drop_last() =~= slash_prefixed(front));
        let p = list.last();
        assert(block_path(p));
        let x = seq!['/'] + p;
        assert(slash_prefixed(list).last() == x);
        lemma_trim_plain(x);
        assert(x[0] == '/');
        assert(x != local_only_header()) by {
            assert(x[0] != local_only_header()[0]);
        }
        assert(x.drop_first() =~= p);
        assert(crate::workspace::strip_slashes(p) == p);
        assert(o + front.push(p) =~= o + list);
    }
}

/// The "local only" block reads back as written: after `rewrite_gitignore`
/// with a list of well-formed paths, `parse_exclusions` gives that list again,
/// whatever the rest of the `.gitignore` holds.
pub proof fn law_exclusions_read_back(content: Seq<char>, list: Seq<Seq<char>>)
    requires
        forall|i: int| 0 <= i < list.len() ==> block_path(#[trigger] list[i]),
    ensures
        exclusions_of(rewritten(content, list)) == list,
{
    lemma_header_facts();
    let h = local_only_header();
    let nl = seq!['\n'];
    crate::text::lemma_lines_no_newline(content);
    lemma_keep_fold_props(lines(content));
    let k = keep_fold(lines(content)).1;
    let k2 = lemma_trim_end_join(k);
    let t = crate::text::trim_end(join(k, nl));
    crate::text::lemma_lines_terminated(t);
    lemma_split_join(k2);
    let a = lines(t + nl);
    assert(a == k2.map_values(|l: Seq<char>| strip_cr(l)));
    assert forall|i: int| 0 <= i < a.len() implies trim(#[trigger] a[i]) != h by {
        lemma_strip_cr_keeps_trim(k2[i]);
    }
    lemma_excl_run_quiet(seq![], a);
    if list.len() == 0 {
        assert(rewritten(content, list) =~= t + nl);
    } else {
        let s = slash_prefixed(list);
        let j2 = join(s, nl);
        let rest = h + nl + (j2 + nl);
        assert(rewritten(content, list) =~= t + nl + (nl + rest));
        crate::text::lemma_lines_concat(t, nl + rest);
        assert(Seq::<char>::empty() + nl + rest =~= nl + rest);
        crate::text::lemma_lines_concat(Seq::<char>::empty(), rest);
        crate::text::lemma_lines_terminated(Seq::<char>::empty());
        assert(Seq::<char>::empty() + nl =~= nl);
        crate::text::lemma_split_no_sep(Seq::<char>::empty(), '\n');
        let e: Seq<char> = seq![];
        assert(lines(nl) =~= seq![e]);
        crate::text::lemma_lines_concat(h, j2 + nl);
        crate::text::lemma_lines_terminated(h);
        crate::text::lemma_split_no_sep(h, '\n');
        assert(lines(h + nl) =~= seq![h]);
        crate::text::lemma_lines_terminated(j2);
        assert forall|i: int| 0 <= i < s.len() implies !(#[trigger] s[i]).contains('\n') by {
            let p = list[i];
            assert(block_path(p));
            if s[i].contains('\n') {
                let j = choose|j: int| 0 <= j < s[i].len() && s[i][j] == '\n';
                assert(j > 0);
                assert(p[j - 1] == '\n');
            }
        }
        lemma_split_join(s);
        assert(lines(j2 + nl) =~= s) by {
            assert forall|i: int| 0 <= i < s.len() implies strip_cr(#[trigger] s[i]) == s[i] by {
                assert(block_path(list[i]));
                assert(s[i] == seq!['/'] + list[i]);
                if list[i].len() > 0 {
                    assert(s[i].last() == list[i].last());
                } else {
                    assert(s[i].last() == '/');
                }
            }
            assert(s.map_values(|l: Seq<char>| strip_cr(l)) =~= s);
        }
        let all = a + (seq![e] + (seq![h] + s));
        assert(lines(rewritten(content, list)) =~= all);
        lemma_excl_run_concat((false, seq![]), a, seq![e] + (seq![h] + s));
        lemma_excl_run_concat((false, seq![]), seq![e], seq![h] + s);
        assert(trim(e) =~= e);
        let st0: (bool, Seq<Seq<char>>) = (false, Seq::<Seq<char>>::empty());
        assert(excl_run(st0, seq![e]) == st0) by {
            assert(seq![e].drop_last() =~= Seq::<Seq<char>>::empty());
            assert(excl_run(st0, Seq::<Seq<char>>::empty()) == st0);
            assert(trim(e) != h);
            assert(excl_step(st0, e) == st0);
        }
        lemma_excl_run_concat((false, seq![]), seq![h], s);
        reveal_strlit("# pugdock:local-only");
        lemma_trim_plain(h);
        assert(excl_run(st0, seq![h]) == (true, Seq::<Seq<char>>::empty())) by {
            assert(seq![h].drop_last() =~= Seq::<Seq<char>>::empty());
            assert(excl_run(st0, Seq::<Seq<char>>::empty()) == st0);
            assert(trim(h) == h);
            assert(excl_step(st0, h) == (true, Seq::<Seq<char>>::empty()));
        }
        lemma_items_fold(seq![], list);
        assert(Seq::<Seq<char>>::empty() + list =~= list);
    }
}


/// Marking a path local-only (or syncing it again) and reading the block
/// back gives the updated list: what `set_sync_excluded` returns is what a
/// following `sync_exclusions` reads.
pub proof fn law_set_excluded_round_trip(content: Seq<char>, path: Seq<char>, excluded: bool)
    requires
        excluded ==> block_path(path),
    ensures
        exclusions_of(rewritten(content, updated_exclusions(exclusions_of(content), path, excluded)))
            == updated_exclusions(exclusions_of(content), path, excluded),
{
    lemma_exclusions_well_formed(content);
    let l0 = exclusions_of(content);
    let l1 = updated_exclusions(l0, path, excluded);
    assert forall|i: int| 0 <= i < l1.len() implies block_path(#[trigger] l1[i]) by {
        if excluded {
            if !l0.contains(path) && i == l0.len() {
                assert(l1[i] == path);
            } else {
                assert(l1[i] == l0[i]);
            }
        } else {
            assert(l0.filter(other_than(path)).contains(l1[i])) by {
                assert(l0.filter(other_than(path))[i] == l1[i]);
            }
            l0.lemma_filter_contains_rev(other_than(path), l1[i]);
            let k = choose|k: int| 0 <= k < l0.len() && l0[k] == l1[i];
            assert(block_path(l0[k]));
        }
    }
    law_exclusions_read_back(content, l1);
}

} // verus!
