//! Character-level building blocks shared by the parsers: whitespace, trimming,
//! line and field splitting, prefix and substring tests, and the conversions
//! between `String` and vectors of characters.

use vstd::prelude::*;

verus! {

/// The Unicode `White_Space` characters, as `char::is_whitespace` documents them.
pub open spec fn is_ws(c: char) -> bool {
    ||| ('\u{9}' <= c && c <= '\u{d}')
    ||| c == ' '
    ||| c == '\u{85}'
    ||| c == '\u{a0}'
    ||| c == '\u{1680}'
    ||| ('\u{2000}' <= c && c <= '\u{200a}')
    ||| c == '\u{2028}'
    ||| c == '\u{2029}'
    ||| c == '\u{202f}'
    ||| c == '\u{205f}'
    ||| c == '\u{3000}'
}

pub fn is_whitespace(c: char) -> (r: bool)
    ensures
        r == is_ws(c),
{
    ('\u{9}' <= c && c <= '\u{d}') || c == ' ' || c == '\u{85}' || c == '\u{a0}' || c == '\u{1680}'
        || ('\u{2000}' <= c && c <= '\u{200a}') || c == '\u{2028}' || c == '\u{2029}' || c
        == '\u{202f}' || c == '\u{205f}' || c == '\u{3000}'
}

/// `s` with its leading whitespace removed.
pub open spec fn trim_start(s: Seq<char>) -> Seq<char>
    decreases s.len(),
{
    if s.len() > 0 && is_ws(s[0]) {
        trim_start(s.drop_first())
    } else {
        s
    }
}

/// `s` with its trailing whitespace removed.
pub open spec fn trim_end(s: Seq<char>) -> Seq<char>
    decreases s.len(),
{
    if s.len() > 0 && is_ws(s.last()) {
        trim_end(s.drop_last())
    } else {
        s
    }
}

pub open spec fn trim(s: Seq<char>) -> Seq<char> {
    trim_end(trim_start(s))
}

/// Index of the first `c` in `s`, or `s.len()` when there is none.
pub open spec fn find(s: Seq<char>, c: char) -> nat
    decreases s.len(),
{
    if s.len() == 0 {
        0
    } else if s[0] == c {
        0
    } else {
        1 + find(s.drop_first(), c)
    }
}

pub proof fn lemma_find(s: Seq<char>, c: char, k: int)
    requires
        0 <= k <= s.len(),
        forall|j: int| 0 <= j < k ==> s[j] != c,
        k == s.len() || s[k] == c,
    ensures
        find(s, c) == k,
    decreases s.len(),
{
    if s.len() > 0 && k > 0 {
        assert(s[0] != c);
        lemma_find(s.drop_first(), c, k - 1);
    }
}

pub proof fn lemma_find_bounds(s: Seq<char>, c: char)
    ensures
        find(s, c) <= s.len(),
        forall|j: int| 0 <= j < find(s, c) ==> s[j] != c,
        find(s, c) < s.len() ==> s[find(s, c) as int] == c,
    decreases s.len(),
{
    if s.len() > 0 && s[0] != c {
        lemma_find_bounds(s.drop_first(), c);
        assert forall|j: int| 0 <= j < find(s, c) implies s[j] != c by {
            if j > 0 {
                assert(s[j] == s.drop_first()[j - 1]);
            }
        }
    }
}

/// Position of the first `c` in `s` (`s.len()` when there is none).
pub fn find_char(s: &[char], c: char) -> (k: usize)
    ensures
        k == find(s@, c),
{
    let mut i: usize = 0;
    while i < s.len()
        invariant
            i <= s@.len(),
            forall|j: int| 0 <= j < i ==> s@[j] != c,
        decreases s.len() - i,
    {
        if s[i] == c {
            proof {
                lemma_find(s@, c, i as int);
            }
            return i;
        }
        i = i + 1;
    }
    proof {
        lemma_find(s@, c, s@.len() as int);
    }
    i
}

/// Whether two character sequences are equal.
pub fn chars_eq(a: &[char], b: &[char]) -> (r: bool)
    ensures
        r == (a@ == b@),
{
    if a.len() != b.len() {
        return false;
    }
    let mut i: usize = 0;
    while i < a.len()
        invariant
            i <= a@.len() == b@.len(),
            forall|j: int| 0 <= j < i ==> a@[j] == b@[j],
        decreases a.len() - i,
    {
        if a[i] != b[i] {
            assert(a@[i as int] != b@[i as int]);
            return false;
        }
        i = i + 1;
    }
    assert(a@ =~= b@);
    true
}

/// `s` split at every `c`, as `str::split` with a character pattern does: the
/// pieces between the separators, always at least one.
pub open spec fn split_on(s: Seq<char>, c: char) -> Seq<Seq<char>>
    decreases s.len(),
{
    let k = find(s, c);
    if k >= s.len() {
        seq![s]
    } else {
        seq![s.take(k as int)] + split_on(s.skip(k + 1 as int), c)
    }
}

/// One `\r` removed from the end of `s`, if it ends with one.
pub open spec fn strip_cr(s: Seq<char>) -> Seq<char> {
    if s.len() > 0 && s.last() == '\r' {
        s.drop_last()
    } else {
        s
    }
}

/// The lines of `s`, as `str::lines` gives them: split after each `\n`, the
/// `\n` and a `\r` just before it dropped, and no empty last line after a
/// final `\n`.
pub open spec fn lines(s: Seq<char>) -> Seq<Seq<char>>
    decreases s.len(),
{
    if s.len() == 0 {
        seq![]
    } else {
        let k = find(s, '\n');
        if k >= s.len() {
            seq![s]
        } else {
            seq![strip_cr(s.take(k as int))] + lines(s.skip(k + 1 as int))
        }
    }
}

pub open spec fn views(v: Seq<Vec<char>>) -> Seq<Seq<char>> {
    v.map_values(|x: Vec<char>| x@)
}

pub fn copy_range(s: &[char], from: usize, to: usize) -> (r: Vec<char>)
    requires
        from <= to <= s@.len(),
    ensures
        r@ == s@.subrange(from as int, to as int),
{
    let mut r: Vec<char> = Vec::new();
    let mut i = from;
    while i < to
        invariant
            from <= i <= to <= s@.len(),
            r@ == s@.subrange(from as int, i as int),
        decreases to - i,
    {
        r.push(s[i]);
        i = i + 1;
        assert(r@ =~= s@.subrange(from as int, i as int));
    }
    r
}

pub fn split_chars(s: &[char], c: char) -> (r: Vec<Vec<char>>)
    ensures
        views(r@) == split_on(s@, c),
{
    let mut r: Vec<Vec<char>> = Vec::new();
    let mut start: usize = 0;
    let mut i: usize = 0;
    assert(views(r@) =~= Seq::<Seq<char>>::empty());
    assert(s@.subrange(0, s@.len() as int) =~= s@);
    while i < s.len()
        invariant
            start <= i <= s@.len(),
            forall|j: int| start <= j < i ==> s@[j] != c,
            views(r@) + split_on(s@.subrange(start as int, s@.len() as int), c) == split_on(s@, c),
        decreases s.len() - i,
    {
        if s[i] == c {
            let piece = copy_range(s, start, i);
            proof {
                let rest = s@.subrange(start as int, s@.len() as int);
                lemma_find(rest, c, i - start);
                assert(rest.take(i - start) =~= piece@);
                assert(rest.skip(i - start + 1) =~= s@.subrange(i + 1, s@.len() as int));
                assert(views(r@.push(piece)) =~= views(r@).push(piece@));
                assert(seq![piece@] + split_on(s@.subrange(i + 1, s@.len() as int), c)
                    == split_on(rest, c));
                assert(views(r@.push(piece)) + split_on(s@.subrange(i + 1, s@.len() as int), c)
                    =~= views(r@) + split_on(rest, c));
            }
            r.push(piece);
            start = i + 1;
        }
        i = i + 1;
    }
    let piece = copy_range(s, start, s.len());
    proof {
        let rest = s@.subrange(start as int, s@.len() as int);
        lemma_find(rest, c, rest.len() as int);
        assert(views(r@.push(piece)) =~= views(r@) + seq![piece@]);
    }
    r.push(piece);
    r
}

pub fn lines_chars(s: &[char]) -> (r: Vec<Vec<char>>)
    ensures
        views(r@) == lines(s@),
{
    let mut r: Vec<Vec<char>> = Vec::new();
    let mut start: usize = 0;
    let mut i: usize = 0;
    assert(views(r@) =~= Seq::<Seq<char>>::empty());
    assert(s@.subrange(0, s@.len() as int) =~= s@);
    while i < s.len()
        invariant
            start <= i <= s@.len(),
            forall|j: int| start <= j < i ==> s@[j] != '\n',
            views(r@) + lines(s@.subrange(start as int, s@.len() as int)) == lines(s@),
        decreases s.len() - i,
    {
        if s[i] == '\n' {
            let end = if i > start && s[i - 1] == '\r' { i - 1 } else { i };
            let piece = copy_range(s, start, end);
            proof {
                let rest = s@.subrange(start as int, s@.len() as int);
                lemma_find(rest, '\n', i - start);
                assert(strip_cr(rest.take(i - start)) =~= piece@);
                assert(rest.skip(i - start + 1) =~= s@.subrange(i + 1, s@.len() as int));
                assert(views(r@.push(piece)) =~= views(r@).push(piece@));
                assert(seq![piece@] + lines(s@.subrange(i + 1, s@.len() as int)) == lines(rest));
                assert(views(r@.push(piece)) + lines(s@.subrange(i + 1, s@.len() as int))
                    =~= views(r@) + lines(rest));
            }
            r.push(piece);
            start = i + 1;
        }
        i = i + 1;
    }
    if start < s.len() {
        let piece = copy_range(s, start, s.len());
        proof {
            let rest = s@.subrange(start as int, s@.len() as int);
            lemma_find(rest, '\n', rest.len() as int);
            assert(views(r@.push(piece)) =~= views(r@) + seq![piece@]);
        }
        r.push(piece);
    } else {
        assert(views(r@) + lines(s@.subrange(start as int, s@.len() as int)) =~= views(r@));
    }
    r
}

pub proof fn lemma_trim_start_skip(s: Seq<char>, k: int)
    requires
        0 <= k <= s.len(),
        forall|j: int| 0 <= j < k ==> is_ws(s[j]),
    ensures
        trim_start(s) == trim_start(s.skip(k)),
    decreases k,
{
    if k > 0 {
        lemma_trim_start_skip(s.drop_first(), k - 1);
        assert(s.drop_first().skip(k - 1) =~= s.skip(k));
    } else {
        assert(s.skip(0) =~= s);
    }
}

pub proof fn lemma_trim_end_take(s: Seq<char>, k: int)
    requires
        0 <= k <= s.len(),
        forall|j: int| k <= j < s.len() ==> is_ws(s[j]),
    ensures
        trim_end(s) == trim_end(s.take(k)),
    decreases s.len() - k,
{
    if k < s.len() {
        lemma_trim_end_take(s.drop_last(), k);
        assert(s.drop_last().take(k) =~= s.take(k));
    } else {
        assert(s.take(k) =~= s);
    }
}

/// Bounds `(a, b)` with `s[a..b]` the trimmed text.
pub fn trim_bounds(s: &[char]) -> (r: (usize, usize))
    ensures
        r.0 <= r.1 <= s@.len(),
        s@.subrange(r.0 as int, r.1 as int) == trim(s@),
{
    let mut a: usize = 0;
    while a < s.len() && is_whitespace(s[a])
        invariant
            a <= s@.len(),
            forall|j: int| 0 <= j < a ==> is_ws(s@[j]),
        decreases s.len() - a,
    {
        a = a + 1;
    }
    proof {
        lemma_trim_start_skip(s@, a as int);
        if a < s@.len() {
            assert(!is_ws(s@.skip(a as int)[0]));
        } else {
            assert(s@.skip(a as int).len() == 0);
        }
    }
    let mut b: usize = s.len();
    while b > a && is_whitespace(s[b - 1])
        invariant
            a <= b <= s@.len(),
            forall|j: int| b <= j < s@.len() ==> is_ws(s@[j]),
        decreases b - a,
    {
        b = b - 1;
    }
    proof {
        let t = s@.skip(a as int);
        lemma_trim_end_take(t, b - a);
        assert(t.take(b - a) =~= s@.subrange(a as int, b as int));
        if b > a {
            assert(!is_ws(t.take(b - a).last()));
        }
    }
    (a, b)
}

pub fn trim_chars(s: &[char]) -> (r: Vec<char>)
    ensures
        r@ == trim(s@),
{
    let (a, b) = trim_bounds(s);
    copy_range(s, a, b)
}

pub open spec fn starts_with(s: Seq<char>, p: Seq<char>) -> bool {
    p.len() <= s.len() && s.take(p.len() as int) == p
}

pub fn has_prefix(s: &[char], p: &[char]) -> (r: bool)
    ensures
        r == starts_with(s@, p@),
{
    if p.len() > s.len() {
        return false;
    }
    let mut i: usize = 0;
    while i < p.len()
        invariant
            i <= p@.len() <= s@.len(),
            forall|j: int| 0 <= j < i ==> s@[j] == p@[j],
        decreases p.len() - i,
    {
        if s[i] != p[i] {
            assert(s@.take(p@.len() as int)[i as int] != p@[i as int]);
            return false;
        }
        i = i + 1;
    }
    assert(s@.take(p@.len() as int) =~= p@);
    true
}

/// `p` occurs in `s` at position `i`.
pub open spec fn occurs_at(s: Seq<char>, p: Seq<char>, i: int) -> bool {
    0 <= i && i + p.len() <= s.len() && s.subrange(i, i + p.len()) == p
}

pub open spec fn contains(s: Seq<char>, p: Seq<char>) -> bool {
    exists|i: int| occurs_at(s, p, i)
}

pub fn contains_chars(s: &[char], p: &[char]) -> (r: bool)
    ensures
        r == contains(s@, p@),
{
    if p.len() > s.len() {
        return false;
    }
    let slen = s.len();
    let mut i: usize = 0;
    while i <= s.len() - p.len()
        invariant
            slen == s@.len(),
            p@.len() <= s@.len(),
            i <= s@.len() - p@.len() + 1,
            forall|k: int| 0 <= k < i ==> !occurs_at(s@, p@, k),
        decreases s.len() - p.len() + 1 - i,
    {
        let mut j: usize = 0;
        let mut ok = true;
        while j < p.len()
            invariant
                slen == s@.len(),
                p@.len() <= s@.len(),
                i <= s@.len() - p@.len(),
                j <= p@.len(),
                ok == (forall|m: int| 0 <= m < j ==> s@[i + m] == p@[m]),
            decreases p.len() - j,
        {
            assert(i + j < s@.len());
            if s[i + j] != p[j] {
                ok = false;
            }
            j = j + 1;
        }
        if ok {
            assert(s@.subrange(i as int, i + p@.len()) =~= p@);
            assert(occurs_at(s@, p@, i as int));
            return true;
        } else {
            assert(!occurs_at(s@, p@, i as int)) by {
                let m = choose|m: int| 0 <= m < p@.len() && s@[i + m] != p@[m];
                assert(s@.subrange(i as int, i + p@.len())[m] != p@[m]);
            }
        }
        i = i + 1;
    }
    false
}

/// `str::contains` on two strings.
pub fn str_contains(s: &str, p: &str) -> (r: bool)
    ensures
        r == contains(s@, p@),
{
    let sc = chars_of(s);
    let pc = chars_of(p);
    contains_chars(sc.as_slice(), pc.as_slice())
}

pub fn str_starts_with(s: &str, p: &str) -> (r: bool)
    ensures
        r == starts_with(s@, p@),
{
    let sc = chars_of(s);
    let pc = chars_of(p);
    has_prefix(sc.as_slice(), pc.as_slice())
}

pub fn str_trim(s: &str) -> (r: String)
    ensures
        r@ == trim(s@),
{
    let sc = chars_of(s);
    let t = trim_chars(sc.as_slice());
    string_of(t.as_slice())
}

/// Index of the first whitespace character in `s`, or `s.len()`.
pub open spec fn find_ws(s: Seq<char>) -> nat
    decreases s.len(),
{
    if s.len() == 0 {
        0
    } else if is_ws(s[0]) {
        0
    } else {
        1 + find_ws(s.drop_first())
    }
}

pub proof fn lemma_find_ws(s: Seq<char>, k: int)
    requires
        0 <= k <= s.len(),
        forall|j: int| 0 <= j < k ==> !is_ws(s[j]),
        k == s.len() || is_ws(s[k]),
    ensures
        find_ws(s) == k,
    decreases s.len(),
{
    if s.len() > 0 && k > 0 {
        lemma_find_ws(s.drop_first(), k - 1);
    }
}

/// The words of `s`, as `str::split_whitespace` gives them: the non-empty runs
/// of non-whitespace characters, in order.
pub open spec fn words(s: Seq<char>) -> Seq<Seq<char>>
    decreases s.len(),
{
    let k = find_ws(s);
    let head: Seq<Seq<char>> = if k == 0 { seq![] } else { seq![s.take(k as int)] };
    if k >= s.len() {
        head
    } else {
        head + words(s.skip(k + 1 as int))
    }
}

pub fn words_chars(s: &[char]) -> (r: Vec<Vec<char>>)
    ensures
        views(r@) == words(s@),
{
    let mut r: Vec<Vec<char>> = Vec::new();
    let mut start: usize = 0;
    let mut i: usize = 0;
    assert(views(r@) =~= Seq::<Seq<char>>::empty());
    assert(s@.subrange(0, s@.len() as int) =~= s@);
    while i < s.len()
        invariant
            start <= i <= s@.len(),
            forall|j: int| start <= j < i ==> !is_ws(s@[j]),
            views(r@) + words(s@.subrange(start as int, s@.len() as int)) == words(s@),
        decreases s.len() - i,
    {
        if is_whitespace(s[i]) {
            let ghost rest = s@.subrange(start as int, s@.len() as int);
            let ghost next = s@.subrange(i + 1, s@.len() as int);
            proof {
                lemma_find_ws(rest, i - start);
                assert(rest.skip(i - start + 1) =~= next);
            }
            if i > start {
                let piece = copy_range(s, start, i);
                proof {
                    assert(rest.take(i - start) =~= piece@);
                    assert(views(r@.push(piece)) =~= views(r@).push(piece@));
                    assert(views(r@.push(piece)) + words(next) =~= views(r@) + words(rest));
                }
                r.push(piece);
            } else {
                assert(views(r@) + words(next) =~= views(r@) + words(rest));
            }
            start = i + 1;
        }
        i = i + 1;
    }
    let ghost rest = s@.subrange(start as int, s@.len() as int);
    proof {
        lemma_find_ws(rest, rest.len() as int);
    }
    if start < s.len() {
        let piece = copy_range(s, start, s.len());
        proof {
            assert(rest.take(rest.len() as int) =~= piece@);
            assert(views(r@.push(piece)) =~= views(r@) + seq![piece@]);
        }
        r.push(piece);
    } else {
        assert(views(r@) + words(rest) =~= views(r@));
    }
    r
}

pub open spec fn is_digit(c: char) -> bool {
    '0' <= c && c <= '9'
}

pub open spec fn digit_value(c: char) -> nat {
    (c as int - '0' as int) as nat
}

/// The number that the decimal digits `s` spell.
pub open spec fn digits_value(s: Seq<char>) -> nat
    decreases s.len(),
{
    if s.len() == 0 {
        0
    } else {
        digits_value(s.drop_last()) * 10 + digit_value(s.last())
    }
}

pub open spec fn all_digits(d: Seq<char>) -> bool {
    forall|i: int| 0 <= i < d.len() ==> is_digit(d[i])
}

/// `s` without one leading `+`.
pub open spec fn unsigned_digits(s: Seq<char>) -> Seq<char> {
    if s.len() > 0 && s[0] == '+' {
        s.drop_first()
    } else {
        s
    }
}

/// What `str::parse::<u32>` gives: an optional `+`, then one or more ASCII
/// digits whose value fits in a `u32`.
pub open spec fn parse_u32_spec(s: Seq<char>) -> Option<u32> {
    let d = unsigned_digits(s);
    if d.len() > 0 && all_digits(d) && digits_value(d) <= u32::MAX {
        Some(digits_value(d) as u32)
    } else {
        None
    }
}

proof fn lemma_digits_value_grows(s: Seq<char>, k: int)
    requires
        0 <= k <= s.len(),
        forall|i: int| 0 <= i < s.len() ==> is_digit(s[i]),
    ensures
        digits_value(s.take(k)) <= digits_value(s),
    decreases s.len() - k,
{
    if k < s.len() {
        lemma_digits_value_grows(s.drop_last(), k);
        assert(s.drop_last().take(k) =~= s.take(k));
    } else {
        assert(s.take(k) =~= s);
    }
}

pub fn parse_u32(s: &[char]) -> (r: Option<u32>)
    ensures
        r == parse_u32_spec(s@),
{
    let start: usize = if s.len() > 0 && s[0] == '+' { 1 } else { 0 };
    let ghost d = unsigned_digits(s@);
    assert(d =~= s@.skip(start as int));
    if start >= s.len() {
        return None;
    }
    let mut v: u64 = 0;
    let mut i: usize = start;
    while i < s.len()
        invariant
            start <= i <= s@.len(),
            d =~= s@.skip(start as int),
            d == unsigned_digits(s@),
            d.len() > 0,
            forall|j: int| 0 <= j < i - start ==> is_digit(d[j]),
            v == digits_value(d.take(i - start)),
            v <= u32::MAX,
        decreases s.len() - i,
    {
        let c = s[i];
        if !('0' <= c && c <= '9') {
            assert(!is_digit(d[i - start]));
            assert(!all_digits(d));
            return None;
        }
        let dv = (c as u32 - '0' as u32) as u64;
        assert(d.take(i - start + 1).drop_last() =~= d.take(i - start));
        assert(d.take(i - start + 1).last() == c);
        assert(digits_value(d.take(i - start + 1)) == v * 10 + dv);
        v = v * 10 + dv;
        i = i + 1;
        if v > 0xffff_ffffu64 {
            proof {
                if all_digits(d) {
                    lemma_digits_value_grows(d, i - start);
                }
            }
            return None;
        }
    }
    assert(d.take(d.len() as int) =~= d);
    Some(v as u32)
}

pub fn append(out: &mut Vec<char>, s: &[char])
    ensures
        final(out)@ == old(out)@ + s@,
{
    let mut i: usize = 0;
    while i < s.len()
        invariant
            i <= s@.len(),
            out@ == old(out)@ + s@.take(i as int),
        decreases s.len() - i,
    {
        out.push(s[i]);
        i = i + 1;
        assert(out@ =~= old(out)@ + s@.take(i as int));
    }
    assert(s@.take(s@.len() as int) =~= s@);
}

/// Appends the characters of `s` to `out`.
pub fn push_str(out: &mut Vec<char>, s: &str)
    ensures
        final(out)@ == old(out)@ + s@,
{
    let c = chars_of(s);
    append(out, c.as_slice());
}

#[verifier::external_body]
pub(crate) fn chars_of(s: &str) -> (r: Vec<char>)
    ensures
        r@ == s@,
{
    s.chars().collect()
}

#[verifier::external_body]
pub(crate) fn string_of(v: &[char]) -> (r: String)
    ensures
        r@ == v@,
{
    v.iter().collect()
}

/// What `str::to_lowercase` gives: the Unicode lowercase mapping of `s`.
pub uninterp spec fn lowercase(s: Seq<char>) -> Seq<char>;

/// Calls `str::to_lowercase`; its result is named `lowercase`, a function of
/// the text alone (the mapping is Unicode's, not the locale's).
#[verifier::external_body]
pub(crate) fn to_lowercase(s: &str) -> (r: String)
    ensures
        r@ == lowercase(s@),
{
    s.to_lowercase()
}

/// `a` followed by `b`.
pub fn concat(a: &str, b: &str) -> (r: String)
    ensures
        r@ == a@ + b@,
{
    let mut v = chars_of(a);
    push_str(&mut v, b);
    string_of(v.as_slice())
}

/// The lowercase hexadecimal digit for `d < 16`.
pub open spec fn hex_char(d: nat) -> char {
    if d < 10 {
        ((d + '0' as nat) as u8) as char
    } else {
        ((d - 10 + 'a' as nat) as u8) as char
    }
}

/// `v` written in `n` lowercase hexadecimal digits, zero-padded, as
/// `format!("{:0n$x}")` writes a value below `16^n`.
pub open spec fn hex_digits(v: nat, n: nat) -> Seq<char>
    decreases n,
{
    if n == 0 {
        seq![]
    } else {
        hex_digits(v / 16, (n - 1) as nat).push(hex_char(v % 16))
    }
}

fn hex_digit(d: u64) -> (c: char)
    requires
        d < 16,
    ensures
        c == hex_char(d as nat),
{
    if d < 10 {
        ((d as u8) + 48u8) as char
    } else {
        ((d as u8) - 10 + 97u8) as char
    }
}

/// The low `n` hexadecimal digits of `v`, most significant first.
pub fn hex_fixed(v: u64, n: usize) -> (r: Vec<char>)
    ensures
        r@ == hex_digits(v as nat, n as nat),
    decreases n,
{
    if n == 0 {
        Vec::new()
    } else {
        let mut r = hex_fixed(v / 16, n - 1);
        r.push(hex_digit(v % 16));
        r
    }
}

/// `n` in decimal, as `format!("{}")` writes an unsigned integer.
pub open spec fn dec_digits(n: nat) -> Seq<char>
    decreases n,
{
    if n < 10 {
        seq![hex_char(n)]
    } else {
        dec_digits(n / 10).push(hex_char(n % 10))
    }
}

pub fn decimal(n: u64) -> (r: Vec<char>)
    ensures
        r@ == dec_digits(n as nat),
    decreases n,
{
    if n < 10 {
        let mut r = Vec::new();
        r.push(hex_digit(n));
        r
    } else {
        let mut r = decimal(n / 10);
        r.push(hex_digit(n % 10));
        r
    }
}

/// `parts` joined with `sep` between them, as `join` does.
pub open spec fn join(parts: Seq<Seq<char>>, sep: Seq<char>) -> Seq<char>
    decreases parts.len(),
{
    if parts.len() == 0 {
        seq![]
    } else if parts.len() == 1 {
        parts[0]
    } else {
        join(parts.drop_last(), sep) + sep + parts.last()
    }
}

// ---- Facts about lines, splitting and trimming ----

proof fn lemma_find_concat(a: Seq<char>, b: Seq<char>, c: char)
    ensures
        find(a + seq![c] + b, c) == find(a, c),
{
    lemma_find_bounds(a, c);
    let k = find(a, c) as int;
    let x = a + seq![c] + b;
    assert forall|j: int| 0 <= j < k implies x[j] != c by {
        assert(x[j] == a[j]);
    }
    if k < a.len() {
        assert(x[k] == a[k]);
    } else {
        assert(x[k] == c);
    }
    lemma_find(x, c, k);
}

/// Splitting text that has a separator between `a` and `b` splits each part.
pub proof fn lemma_split_concat(a: Seq<char>, b: Seq<char>, c: char)
    ensures
        split_on(a + seq![c] + b, c) == split_on(a, c) + split_on(b, c),
    decreases a.len(),
{
    let x = a + seq![c] + b;
    lemma_find_concat(a, b, c);
    lemma_find_bounds(a, c);
    let k = find(a, c) as int;
    if k < a.len() {
        lemma_split_concat(a.skip(k + 1), b, c);
        assert(x.take(k) =~= a.take(k));
        assert(x.skip(k + 1) =~= a.skip(k + 1) + seq![c] + b);
        assert(split_on(x, c) =~= seq![a.take(k)] + split_on(a.skip(k + 1) + seq![c] + b, c));
        assert(split_on(a, c) =~= seq![a.take(k)] + split_on(a.skip(k + 1), c));
        assert(split_on(x, c) =~= split_on(a, c) + split_on(b, c));
    } else {
        assert(x.take(k) =~= a);
        assert(x.skip(k + 1) =~= b);
        assert(split_on(a, c) =~= seq![a]);
        assert(split_on(x, c) =~= split_on(a, c) + split_on(b, c));
    }
}

pub proof fn lemma_split_no_sep(b: Seq<char>, c: char)
    requires
        !b.contains(c),
    ensures
        split_on(b, c) == seq![b],
{
    lemma_find_bounds(b, c);
    if find(b, c) < b.len() {
        assert(b[find(b, c) as int] == c);
    }
}

/// Text ending in a newline has one line per newline-separated piece.
pub proof fn lemma_lines_terminated(x: Seq<char>)
    ensures
        lines(x + seq!['\n']) == split_on(x, '\n').map_values(|l: Seq<char>| strip_cr(l)),
    decreases x.len(),
{
    let y = x + seq!['\n'];
    lemma_find_concat(x, seq![], '\n');
    assert(x + seq!['\n'] + Seq::<char>::empty() =~= y);
    lemma_find_bounds(x, '\n');
    let k = find(x, '\n') as int;
    if k < x.len() {
        lemma_lines_terminated(x.skip(k + 1));
        assert(y.take(k) =~= x.take(k));
        assert(y.skip(k + 1) =~= x.skip(k + 1) + seq!['\n']);
        assert(lines(y) =~= split_on(x, '\n').map_values(|l: Seq<char>| strip_cr(l)));
    } else {
        assert(y.take(k) =~= x);
        assert(y.skip(k + 1) =~= Seq::<char>::empty());
        assert(lines(y.skip(k + 1)) == Seq::<Seq<char>>::empty());
        assert(lines(y) =~= seq![strip_cr(x)]);
        assert(split_on(x, '\n') =~= seq![x]);
        assert(lines(y) =~= split_on(x, '\n').map_values(|l: Seq<char>| strip_cr(l)));
    }
}

/// The lines of `a`, a newline, then `b`: those of `a` ended by that newline,
/// then those of `b`.
pub proof fn lemma_lines_concat(a: Seq<char>, b: Seq<char>)
    ensures
        lines(a + seq!['\n'] + b) == lines(a + seq!['\n']) + lines(b),
    decreases a.len(),
{
    let x = a + seq!['\n'] + b;
    let y = a + seq!['\n'];
    lemma_find_concat(a, b, '\n');
    lemma_find_concat(a, seq![], '\n');
    assert(a + seq!['\n'] + Seq::<char>::empty() =~= y);
    lemma_find_bounds(a, '\n');
    let k = find(a, '\n') as int;
    if k < a.len() {
        lemma_lines_concat(a.skip(k + 1), b);
        assert(x.take(k) =~= a.take(k));
        assert(y.take(k) =~= a.take(k));
        assert(x.skip(k + 1) =~= a.skip(k + 1) + seq!['\n'] + b);
        assert(y.skip(k + 1) =~= a.skip(k + 1) + seq!['\n']);
        assert(lines(x) =~= lines(y) + lines(b));
    } else {
        assert(x.take(k) =~= a);
        assert(y.take(k) =~= a);
        assert(x.skip(k + 1) =~= b);
        assert(y.skip(k + 1) =~= Seq::<char>::empty());
        assert(lines(y.skip(k + 1)) == Seq::<Seq<char>>::empty());
        assert(lines(y) =~= seq![strip_cr(a)]);
        assert(lines(x) =~= lines(y) + lines(b));
    }
}

pub proof fn lemma_lines_no_newline(s: Seq<char>)
    ensures
        forall|i: int| 0 <= i < lines(s).len() ==> !(#[trigger] lines(s)[i]).contains('\n'),
    decreases s.len(),
{
    if s.len() > 0 {
        lemma_find_bounds(s, '\n');
        let k = find(s, '\n') as int;
        if k < s.len() {
            lemma_lines_no_newline(s.skip(k + 1));
            let first = strip_cr(s.take(k));
            assert(!first.contains('\n')) by {
                if first.contains('\n') {
                    let j = choose|j: int| 0 <= j < first.len() && first[j] == '\n';
                    assert(s[j] == '\n');
                }
            }
            assert forall|i: int| 0 <= i < lines(s).len() implies !(#[trigger] lines(s)[i]).contains('\n') by {
                if i > 0 {
                    assert(lines(s)[i] == lines(s.skip(k + 1))[i - 1]);
                }
            }
        } else {
            assert(!s.contains('\n')) by {
                if s.contains('\n') {
                    let j = choose|j: int| 0 <= j < s.len() && s[j] == '\n';
                    assert(s[j] != '\n');
                }
            }
        }
    }
}

pub open spec fn all_ws(w: Seq<char>) -> bool {
    forall|i: int| 0 <= i < w.len() ==> is_ws(w[i])
}

/// Whitespace appended to a text is cut off again by `trim_end`.
pub proof fn lemma_trim_end_append_ws(x: Seq<char>, w: Seq<char>)
    requires
        all_ws(w),
    ensures
        trim_end(x + w) == trim_end(x),
    decreases w.len(),
{
    if w.len() > 0 {
        assert((x + w).drop_last() =~= x + w.drop_last());
        lemma_trim_end_append_ws(x, w.drop_last());
    } else {
        assert(x + w =~= x);
    }
}

proof fn lemma_trim_start_append(x: Seq<char>, w: Seq<char>)
    ensures
        trim_start(x).len() > 0 ==> trim_start(x + w) == trim_start(x) + w,
        trim_start(x).len() == 0 ==> trim_start(x + w) == trim_start(w),
    decreases x.len(),
{
    if x.len() > 0 {
        if is_ws(x[0]) {
            lemma_trim_start_append(x.drop_first(), w);
            assert((x + w).drop_first() =~= x.drop_first() + w);
        }
    } else {
        assert(x + w =~= w);
    }
}

proof fn lemma_trim_start_all_ws(w: Seq<char>)
    requires
        all_ws(w),
    ensures
        trim_start(w).len() == 0,
    decreases w.len(),
{
    if w.len() > 0 {
        lemma_trim_start_all_ws(w.drop_first());
    }
}

/// Whitespace appended to a text does not change its trimmed form.
pub proof fn lemma_trim_append_ws(x: Seq<char>, w: Seq<char>)
    requires
        all_ws(w),
    ensures
        trim(x + w) == trim(x),
{
    lemma_trim_start_append(x, w);
    if trim_start(x).len() > 0 {
        lemma_trim_end_append_ws(trim_start(x), w);
    } else {
        lemma_trim_start_all_ws(w);
    }
}

pub proof fn lemma_trim_end_shape(x: Seq<char>)
    ensures
        trim_end(x).len() <= x.len(),
        trim_end(x) == x.take(trim_end(x).len() as int),
        all_ws(x.skip(trim_end(x).len() as int)),
        trim_end(x).len() > 0 ==> !is_ws(trim_end(x).last()),
    decreases x.len(),
{
    if x.len() > 0 && is_ws(x.last()) {
        lemma_trim_end_shape(x.drop_last());
        let n = trim_end(x).len() as int;
        assert(x.drop_last().take(n) =~= x.take(n));
        assert forall|i: int| 0 <= i < x.skip(n).len() implies is_ws(x.skip(n)[i]) by {
            if n + i < x.len() - 1 {
                assert(x.skip(n)[i] == x.drop_last().skip(n)[i]);
            }
        }
    } else {
        assert(x.take(x.len() as int) =~= x);
    }
}

pub proof fn lemma_trim_of_trim_end(x: Seq<char>)
    ensures
        trim(trim_end(x)) == trim(x),
{
    lemma_trim_end_shape(x);
    let n = trim_end(x).len() as int;
    assert(x =~= x.take(n) + x.skip(n));
    lemma_trim_append_ws(x.take(n), x.skip(n));
}

pub proof fn lemma_trim_end_concat(a: Seq<char>, b: Seq<char>)
    requires
        trim_end(b).len() > 0,
    ensures
        trim_end(a + b) == a + trim_end(b),
    decreases b.len(),
{
    if b.len() > 0 && is_ws(b.last()) {
        assert((a + b).drop_last() =~= a + b.drop_last());
        lemma_trim_end_concat(a, b.drop_last());
    } else {
        assert(b.len() > 0);
    }
}

pub fn join_sep(parts: &Vec<Vec<char>>, sep: char) -> (r: Vec<char>)
    ensures
        r@ == join(views(parts@), seq![sep]),
{
    let mut r: Vec<char> = Vec::new();
    let mut i: usize = 0;
    while i < parts.len()
        invariant
            i <= parts@.len(),
            r@ == join(views(parts@).take(i as int), seq![sep]),
        decreases parts.len() - i,
    {
        assert(views(parts@).take(i + 1).drop_last() =~= views(parts@).take(i as int));
        if i > 0 {
            r.push(sep);
        }
        append(&mut r, parts[i].as_slice());
        assert(r@ =~= join(views(parts@).take(i + 1), seq![sep]));
        i = i + 1;
    }
    assert(views(parts@).take(parts@.len() as int) =~= views(parts@));
    r
}

/// The non-empty elements of `parts`, in order.
pub open spec fn nonempty(parts: Seq<Seq<char>>) -> Seq<Seq<char>>
    decreases parts.len(),
{
    if parts.len() == 0 {
        seq![]
    } else if parts.last().len() == 0 {
        nonempty(parts.drop_last())
    } else {
        nonempty(parts.drop_last()).push(parts.last())
    }
}

pub fn keep_nonempty(parts: Vec<Vec<char>>) -> (r: Vec<Vec<char>>)
    ensures
        views(r@) == nonempty(views(parts@)),
{
    let mut r: Vec<Vec<char>> = Vec::new();
    let mut i: usize = 0;
    while i < parts.len()
        invariant
            i <= parts@.len(),
            views(r@) == nonempty(views(parts@).take(i as int)),
        decreases parts.len() - i,
    {
        assert(views(parts@).take(i + 1).drop_last() =~= views(parts@).take(i as int));
        assert(views(parts@).take(i + 1).last() == parts@[i as int]@);
        if parts[i].len() > 0 {
            let ghost before = r@;
            r.push(copy_range(parts[i].as_slice(), 0, parts[i].len()));
            assert(parts@[i as int]@.subrange(0, parts@[i as int]@.len() as int) =~= parts@[i as int]@);
            assert(views(r@) =~= views(before).push(parts@[i as int]@));
        }
        i = i + 1;
    }
    assert(views(parts@).take(parts@.len() as int) =~= views(parts@));
    r
}

pub proof fn lemma_split_pieces(s: Seq<char>, c: char)
    ensures
        forall|i: int| 0 <= i < split_on(s, c).len() ==> !(#[trigger] split_on(s, c)[i]).contains(c),
    decreases s.len(),
{
    lemma_find_bounds(s, c);
    let k = find(s, c) as int;
    if k < s.len() {
        lemma_split_pieces(s.skip(k + 1), c);
        assert forall|i: int| 0 <= i < split_on(s, c).len() implies !(#[trigger] split_on(s, c)[i]).contains(c) by {
            if i == 0 {
                if s.take(k).contains(c) {
                    let j = choose|j: int| 0 <= j < s.take(k).len() && s.take(k)[j] == c;
                    assert(s[j] == c);
                }
            } else {
                assert(split_on(s, c)[i] == split_on(s.skip(k + 1), c)[i - 1]);
            }
        }
    } else {
        if s.contains(c) {
            let j = choose|j: int| 0 <= j < s.len() && s[j] == c;
            assert(s[j] != c);
        }
    }
}

pub proof fn lemma_nonempty_elems(parts: Seq<Seq<char>>, c: char)
    requires
        forall|i: int| 0 <= i < parts.len() ==> !(#[trigger] parts[i]).contains(c),
    ensures
        forall|i: int| 0 <= i < nonempty(parts).len() ==> (#[trigger] nonempty(parts)[i]).len() > 0
            && !nonempty(parts)[i].contains(c),
    decreases parts.len(),
{
    if parts.len() > 0 {
        lemma_nonempty_elems(parts.drop_last(), c);
        assert(!parts.last().contains(c));
        let prev = nonempty(parts.drop_last());
        let cur = nonempty(parts);
        assert forall|i: int| 0 <= i < cur.len() implies (#[trigger] cur[i]).len() > 0
            && !cur[i].contains(c) by {
            if i < prev.len() {
                assert(cur[i] == prev[i]);
            } else {
                assert(cur[i] == parts.last());
            }
        }
    }
}

/// Splitting the join of separator-free parts gives the parts back.
pub proof fn lemma_split_join_sep(k: Seq<Seq<char>>, c: char)
    requires
        k.len() > 0,
        forall|i: int| 0 <= i < k.len() ==> !(#[trigger] k[i]).contains(c),
    ensures
        split_on(join(k, seq![c]), c) == k,
    decreases k.len(),
{
    if k.len() == 1 {
        lemma_split_no_sep(k[0], c);
        assert(seq![k[0]] =~= k);
    } else {
        lemma_split_join_sep(k.drop_last(), c);
        lemma_split_concat(join(k.drop_last(), seq![c]), k.last(), c);
        lemma_split_no_sep(k.last(), c);
        assert(join(k, seq![c]) =~= join(k.drop_last(), seq![c]) + seq![c] + k.last());
        assert(k.drop_last() + seq![k.last()] =~= k);
    }
}

} // verus!
