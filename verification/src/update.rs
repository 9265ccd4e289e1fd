//! Update checks against GitHub Releases: version ordering and the choice of
//! the release to offer.

use vstd::prelude::*;

use crate::text::{
    chars_of, copy_range, find, find_char, parse_u32, parse_u32_spec, split_chars, split_on, views,
};

verus! {

pub struct UpdateInfo {
    pub current: String,
    pub latest: String,
    pub notes: String,
    pub url: String,
}

/// `v` without its leading `v` characters.
pub open spec fn strip_v(v: Seq<char>) -> Seq<char>
    decreases v.len(),
{
    if v.len() > 0 && v[0] == 'v' {
        strip_v(v.drop_first())
    } else {
        v
    }
}

pub open spec fn dash_to_dot(s: Seq<char>) -> Seq<char> {
    s.map_values(|c: char| if c == '-' { '.' } else { c })
}

pub open spec fn number_or_zero(p: Seq<char>) -> u32 {
    match parse_u32_spec(p) {
        Some(n) => n,
        None => 0,
    }
}

/// The numbers of a dotted version text: split at every `.` and `-`, each
/// piece read as a number (0 when it is not one).
pub open spec fn numbers(s: Seq<char>) -> Seq<u32> {
    split_on(dash_to_dot(s), '.').map_values(|p: Seq<char>| number_or_zero(p))
}

/// The version without its leading `v`s.
pub open spec fn bare(v: Seq<char>) -> Seq<char> {
    strip_v(v)
}

/// A version with no `-` is a final release; one with a `-` is a
/// prerelease of the numbers before it.
pub open spec fn is_final(v: Seq<char>) -> bool {
    find(bare(v), '-') >= bare(v).len()
}

/// The ordering key of a version: the release numbers (before the first
/// `-`), then 1 for a final release and 0 for a prerelease, then the
/// prerelease's own numbers. Keys compare in this order, so a final release
/// ranks above every prerelease of the same numbers.
pub open spec fn version_key_spec(v: Seq<char>) -> (Seq<u32>, u32, Seq<u32>) {
    let t = bare(v);
    let k = find(t, '-');
    if k >= t.len() {
        (numbers(t), 1u32, seq![])
    } else {
        (numbers(t.take(k as int)), 0u32, numbers(t.skip(k + 1 as int)))
    }
}

fn numbers_of(s: &[char]) -> (r: Vec<u32>)
    ensures
        r@ == numbers(s@),
{
    let mut d: Vec<char> = Vec::new();
    let mut i: usize = 0;
    while i < s.len()
        invariant
            i <= s@.len(),
            d@ == dash_to_dot(s@.take(i as int)),
        decreases s.len() - i,
    {
        let c = s[i];
        d.push(if c == '-' { '.' } else { c });
        i = i + 1;
        assert(d@ =~= dash_to_dot(s@.take(i as int)));
    }
    assert(s@.take(s@.len() as int) =~= s@);
    let parts = split_chars(d.as_slice(), '.');
    let mut r: Vec<u32> = Vec::new();
    let mut j: usize = 0;
    while j < parts.len()
        invariant
            j <= parts@.len(),
            r@ == views(parts@).take(j as int).map_values(|p: Seq<char>| number_or_zero(p)),
        decreases parts.len() - j,
    {
        let n = match parse_u32(parts[j].as_slice()) {
            Some(n) => n,
            None => 0,
        };
        r.push(n);
        j = j + 1;
        assert(r@ =~= views(parts@).take(j as int).map_values(|p: Seq<char>| number_or_zero(p)));
    }
    assert(views(parts@).take(parts@.len() as int) =~= views(parts@));
    r
}

pub fn version_key(v: &str) -> (r: (Vec<u32>, u32, Vec<u32>))
    ensures
        (r.0@, r.1, r.2@) == version_key_spec(v@),
{
    let vc = chars_of(v);
    let mut start: usize = 0;
    assert(vc@.skip(0) =~= vc@);
    while start < vc.len() && vc[start] == 'v'
        invariant
            start <= vc@.len(),
            strip_v(v@) == strip_v(vc@.skip(start as int)),
            vc@ == v@,
        decreases vc.len() - start,
    {
        assert(vc@.skip(start as int).drop_first() =~= vc@.skip(start + 1));
        start = start + 1;
    }
    let t = copy_range(vc.as_slice(), start, vc.len());
    assert(t@ =~= vc@.skip(start as int));
    assert(strip_v(t@) == t@);
    let k = find_char(t.as_slice(), '-');
    if k >= t.len() {
        (numbers_of(t.as_slice()), 1, Vec::new())
    } else {
        let core = copy_range(t.as_slice(), 0, k);
        let pre = copy_range(t.as_slice(), k + 1, t.len());
        assert(core@ =~= t@.take(k as int));
        assert(pre@ =~= t@.skip(k + 1 as int));
        (numbers_of(core.as_slice()), 0, numbers_of(pre.as_slice()))
    }
}

/// `a <= b` for version keys: by release numbers, then final above
/// prerelease, then by prerelease numbers (the order of the key tuple).
pub open spec fn key_le(a: (Seq<u32>, u32, Seq<u32>), b: (Seq<u32>, u32, Seq<u32>)) -> bool {
    if a.0 != b.0 {
        lex_le(a.0, b.0)
    } else if a.1 != b.1 {
        a.1 < b.1
    } else {
        lex_le(a.2, b.2)
    }
}

/// `a <= b` in the lexicographic order of `Vec<u32>`: a proper prefix comes first.
pub open spec fn lex_le(a: Seq<u32>, b: Seq<u32>) -> bool
    decreases a.len(),
{
    if a.len() == 0 {
        true
    } else if b.len() == 0 {
        false
    } else if a[0] < b[0] {
        true
    } else if a[0] > b[0] {
        false
    } else {
        lex_le(a.drop_first(), b.drop_first())
    }
}

pub fn lex_le_exec(a: &Vec<u32>, b: &Vec<u32>) -> (r: bool)
    ensures
        r == lex_le(a@, b@),
{
    let mut i: usize = 0;
    assert(a@.skip(0) =~= a@ && b@.skip(0) =~= b@);
    loop
        invariant
            i <= a@.len(),
            i <= b@.len(),
            lex_le(a@, b@) == lex_le(a@.skip(i as int), b@.skip(i as int)),
        decreases a@.len() - i,
    {
        if i == a.len() {
            return true;
        }
        if i == b.len() {
            return false;
        }
        if a[i] < b[i] {
            return true;
        }
        if a[i] > b[i] {
            return false;
        }
        assert(a@.skip(i as int).drop_first() =~= a@.skip(i + 1));
        assert(b@.skip(i as int).drop_first() =~= b@.skip(i + 1));
        i = i + 1;
    }
}

/// `tag` is a newer version than `current`.
pub open spec fn newer(tag: Seq<char>, current: Seq<char>) -> bool {
    !key_le(version_key_spec(tag), version_key_spec(current))
}

pub fn is_newer(tag: &str, current: &str) -> (r: bool)
    ensures
        r == newer(tag@, current@),
{
    let a = version_key(tag);
    let b = version_key(current);
    let ab = lex_le_exec(&a.0, &b.0);
    let ba = lex_le_exec(&b.0, &a.0);
    proof {
        lemma_lex_antisym(a.0@, b.0@);
        lemma_lex_total(a.0@, a.0@);
    }
    let le = if !(ab && ba) {
        ab
    } else if a.1 != b.1 {
        a.1 < b.1
    } else {
        lex_le_exec(&a.2, &b.2)
    };
    !le
}

pub proof fn lemma_lex_antisym(a: Seq<u32>, b: Seq<u32>)
    ensures
        lex_le(a, b) && lex_le(b, a) ==> a == b,
    decreases a.len(),
{
    if a.len() > 0 && b.len() > 0 && a[0] == b[0] {
        lemma_lex_antisym(a.drop_first(), b.drop_first());
        if lex_le(a, b) && lex_le(b, a) {
            assert(a =~= seq![a[0]] + a.drop_first());
            assert(b =~= seq![b[0]] + b.drop_first());
        }
    }
    if a.len() == 0 && b.len() == 0 {
        assert(a =~= b);
    }
}

proof fn lemma_key_total(a: (Seq<u32>, u32, Seq<u32>), b: (Seq<u32>, u32, Seq<u32>))
    ensures
        key_le(a, b) || key_le(b, a),
        key_le(a, a),
{
    lemma_lex_total(a.0, b.0);
    lemma_lex_total(a.2, b.2);
    lemma_lex_total(a.2, a.2);
}

proof fn lemma_key_trans(
    a: (Seq<u32>, u32, Seq<u32>),
    b: (Seq<u32>, u32, Seq<u32>),
    c: (Seq<u32>, u32, Seq<u32>),
)
    requires
        key_le(a, b),
        key_le(b, c),
    ensures
        key_le(a, c),
{
    lemma_lex_antisym(a.0, b.0);
    lemma_lex_antisym(b.0, c.0);
    lemma_lex_antisym(a.0, c.0);
    if a.0 != b.0 && b.0 != c.0 {
        lemma_lex_trans(a.0, b.0, c.0);
        if a.0 == c.0 {
            lemma_lex_trans(b.0, c.0, a.0);
        }
    }
    if a.0 == b.0 && b.0 == c.0 && a.1 == b.1 && b.1 == c.1 {
        lemma_lex_trans(a.2, b.2, c.2);
    }
}

pub proof fn lemma_lex_total(a: Seq<u32>, b: Seq<u32>)
    ensures
        lex_le(a, b) || lex_le(b, a),
        lex_le(a, a),
    decreases a.len(),
{
    if a.len() > 0 && b.len() > 0 {
        lemma_lex_total(a.drop_first(), b.drop_first());
    }
    if a.len() > 0 {
        lemma_lex_total(a.drop_first(), a.drop_first());
    }
}

pub proof fn lemma_lex_trans(a: Seq<u32>, b: Seq<u32>, c: Seq<u32>)
    requires
        lex_le(a, b),
        lex_le(b, c),
    ensures
        lex_le(a, c),
    decreases a.len(),
{
    if a.len() > 0 && b.len() > 0 && c.len() > 0 && a[0] == b[0] && b[0] == c[0] {
        lemma_lex_trans(a.drop_first(), b.drop_first(), c.drop_first());
    }
}

/// "Newer" is a strict order: no version is newer than itself, of two versions
/// at most one is newer than the other, and it is transitive.
pub proof fn law_newer_is_strict_order(a: Seq<char>, b: Seq<char>, c: Seq<char>)
    ensures
        !newer(a, a),
        newer(a, b) ==> !newer(b, a),
        newer(a, b) && newer(b, c) ==> newer(a, c),
{
    let (ka, kb, kc) = (version_key_spec(a), version_key_spec(b), version_key_spec(c));
    lemma_key_total(ka, kb);
    lemma_key_total(kb, kc);
    lemma_key_total(ka, kc);
    if newer(a, b) && newer(b, c) {
        lemma_key_trans(kc, kb, ka);
        if key_le(ka, kc) {
            lemma_key_trans(ka, kc, kb);
        }
    }
}

/// A final release is newer than every prerelease of the same numbers:
/// "1.0.0" is newer than "1.0.0-beta.2".
pub proof fn law_final_above_prerelease(r: Seq<char>, pre: Seq<char>)
    requires
        find(bare(r), '-') >= bare(r).len(),
        find(bare(pre), '-') < bare(pre).len(),
        numbers(bare(r)) == numbers(bare(pre).take(find(bare(pre), '-') as int)),
    ensures
        newer(r, pre),
{
}

/// A leading `v` does not change a version: "v1.2" and "1.2" are the same.
pub proof fn law_v_prefix_ignored(s: Seq<char>)
    ensures
        version_key_spec(seq!['v'] + s) == version_key_spec(s),
{
    assert((seq!['v'] + s).drop_first() =~= s);
}

/// What a release listing says of one release.
pub struct ReleaseInfo {
    pub draft: bool,
    pub prerelease: bool,
    pub tag: String,
    pub notes: String,
    pub url: String,
}

/// A release may be offered: it is published, and a prerelease only when
/// prereleases are wanted.
pub open spec fn offerable(r: ReleaseInfo, include_pre: bool) -> bool {
    !r.draft && (include_pre || !r.prerelease)
}

/// Index of the first offerable release, or the listing's length.
pub open spec fn first_offerable(rs: Seq<ReleaseInfo>, pre: bool) -> nat
    decreases rs.len(),
{
    if rs.len() == 0 {
        0
    } else if offerable(rs[0], pre) {
        0
    } else {
        1 + first_offerable(rs.drop_first(), pre)
    }
}

proof fn lemma_first_offerable(rs: Seq<ReleaseInfo>, pre: bool, k: int)
    requires
        0 <= k <= rs.len(),
        forall|j: int| 0 <= j < k ==> !offerable(#[trigger] rs[j], pre),
        k == rs.len() || offerable(rs[k], pre),
    ensures
        first_offerable(rs, pre) == k,
    decreases rs.len(),
{
    if rs.len() > 0 && k > 0 {
        assert(!offerable(rs[0], pre));
        assert forall|j: int| 0 <= j < k - 1 implies !offerable(#[trigger] rs.drop_first()[j], pre) by {
            assert(rs.drop_first()[j] == rs[j + 1]);
        }
        lemma_first_offerable(rs.drop_first(), pre, k - 1);
    }
}

/// The update to offer: the first offerable release in the listing (newest
/// first), when its tag is newer than the running version.
pub fn pick_update(current: String, releases: Vec<ReleaseInfo>, include_prerelease: Option<bool>) -> (r:
    Option<UpdateInfo>)
    ensures
        ({
            let pre = match include_prerelease { Some(b) => b, None => false };
            let j = first_offerable(releases@, pre);
            &&& r is None <==> (j == releases@.len() || !newer(releases@[j as int].tag@, current@))
            &&& r is Some ==> {
                let u = r->Some_0;
                &&& u.current == current
                &&& u.latest == releases@[j as int].tag
                &&& u.notes == releases@[j as int].notes
                &&& u.url == releases@[j as int].url
            }
        }),
{
    let pre = match include_prerelease { Some(b) => b, None => false };
    let mut i: usize = 0;
    while i < releases.len()
        invariant
            i <= releases@.len(),
            pre == match include_prerelease { Some(b) => b, None => false },
            forall|k: int| 0 <= k < i ==> !offerable(#[trigger] releases@[k], pre),
        decreases releases.len() - i,
    {
        if !releases[i].draft && (pre || !releases[i].prerelease) {
            proof {
                lemma_first_offerable(releases@, pre, i as int);
            }
            let rel = &releases[i];
            if !is_newer(rel.tag.as_str(), current.as_str()) {
                return None;
            }
            let u = UpdateInfo {
                current,
                latest: rel.tag.clone(),
                notes: rel.notes.clone(),
                url: rel.url.clone(),
            };
            return Some(u);
        }
        i = i + 1;
    }
    proof {
        lemma_first_offerable(releases@, pre, releases@.len() as int);
    }
    None
}

} // verus!
