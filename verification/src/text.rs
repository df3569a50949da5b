//! Character-level text helpers shared by the clipboard policy, the HTML
//! sanitizer and the path helpers. Text is handled as a sequence of `char`s.

use vstd::prelude::*;

verus! {

// ---------------------------------------------------------------------------
// Specifications
// ---------------------------------------------------------------------------

/// Unicode `White_Space` property (the set `char::is_whitespace` tests).
pub open spec fn is_unicode_whitespace(c: char) -> bool {
    ||| ('\u{9}' <= c && c <= '\u{d}')
    ||| c == ' '
    ||| c == '\u{85}'
    ||| c == '\u{a0}'
    ||| c == '\u{1680}'
    ||| ('\u{2000}' <= c && c <= '\u{200a}')
    ||| c == '\u{2028}'
    ||| c == '\u{2029}'
    ||| c == '\u{202f}'
    ||| c == '\u{205f}'
    ||| c == '\u{3000}'
}

/// ASCII whitespace as `split_ascii_whitespace` understands it.
pub open spec fn is_ascii_whitespace_char(c: char) -> bool {
    c == ' ' || c == '\t' || c == '\n' || c == '\u{c}' || c == '\r'
}

/// Every character of `s` is Unicode whitespace (so `s.trim()` is empty).
pub open spec fn all_whitespace(s: Seq<char>) -> bool {
    forall|i: int| 0 <= i < s.len() ==> #[trigger] is_unicode_whitespace(s[i])
}

/// `s` with leading Unicode whitespace removed.
pub open spec fn trim_start(s: Seq<char>) -> Seq<char>
    decreases s.len(),
{
    if s.len() > 0 && is_unicode_whitespace(s[0]) {
        trim_start(s.drop_first())
    } else {
        s
    }
}

/// `s` with trailing Unicode whitespace removed.
pub open spec fn trim_end(s: Seq<char>) -> Seq<char>
    decreases s.len(),
{
    if s.len() > 0 && is_unicode_whitespace(s.last()) {
        trim_end(s.drop_last())
    } else {
        s
    }
}

/// `s` with leading and trailing Unicode whitespace removed.
pub open spec fn trim(s: Seq<char>) -> Seq<char> {
    trim_end(trim_start(s))
}

/// ASCII lowercase of one character; other characters are unchanged.
pub open spec fn ascii_lower_char(c: char) -> char {
    if 'A' <= c && c <= 'Z' {
        ((c as u32) + 32) as char
    } else {
        c
    }
}

/// ASCII lowercase of a whole text.
pub open spec fn ascii_lower(s: Seq<char>) -> Seq<char> {
    Seq::new(s.len(), |i: int| ascii_lower_char(s[i]))
}

/// `pat` occurs in `s` at position `i`.
pub open spec fn matches_at(s: Seq<char>, i: int, pat: Seq<char>) -> bool {
    0 <= i && i + pat.len() <= s.len() && s.subrange(i, i + pat.len()) == pat
}

/// `pat` is a prefix of `s`.
pub open spec fn starts_with(s: Seq<char>, pat: Seq<char>) -> bool {
    matches_at(s, 0, pat)
}

/// `pat` occurs somewhere in `s`.
pub open spec fn contains_sub(s: Seq<char>, pat: Seq<char>) -> bool {
    exists|i: int| matches_at(s, i, pat)
}

/// Position of the first occurrence of `pat` in `s`, or -1.
pub open spec fn find_sub(s: Seq<char>, pat: Seq<char>) -> int {
    if contains_sub(s, pat) {
        choose|i: int| matches_at(s, i, pat) && forall|j: int| 0 <= j < i ==> !matches_at(s, j, pat)
    } else {
        -1
    }
}

/// Position of the first `c` in `s`, or -1.
#[verifier::opaque]
pub open spec fn find_char(s: Seq<char>, c: char) -> int {
    if s.contains(c) {
        choose|i: int| 0 <= i < s.len() && s[i] == c && forall|j: int| 0 <= j < i ==> s[j] != c
    } else {
        -1
    }
}

/// Every non-overlapping occurrence of `pat` in `s`, scanned left to right,
/// replaced by `rep` (what `str::replace` computes). An empty pattern leaves
/// `s` unchanged.
#[verifier::opaque]
pub open spec fn replace_all(s: Seq<char>, pat: Seq<char>, rep: Seq<char>) -> Seq<char>
    decreases s.len(),
{
    if pat.len() == 0 || !contains_sub(s, pat) {
        s
    } else {
        let k: int = find_sub(s, pat);
        if 0 <= k && k + pat.len() <= s.len() {
            s.take(k) + rep + replace_all(s.skip(k + pat.len()), pat, rep)
        } else {
            s
        }
    }
}

// ---------------------------------------------------------------------------
// Lemmas
// ---------------------------------------------------------------------------

/// The first occurrence is the unique minimal one.
pub proof fn lemma_find_sub_is(s: Seq<char>, pat: Seq<char>, k: int)
    requires
        matches_at(s, k, pat),
        forall|j: int| 0 <= j < k ==> !matches_at(s, j, pat),
    ensures
        find_sub(s, pat) == k,
{
    assert(contains_sub(s, pat));
    let c: int = choose|i: int| matches_at(s, i, pat) && forall|j: int| 0 <= j < i ==> !matches_at(s, j, pat);
    assert(matches_at(s, c, pat));
    if c < k {
        assert(!matches_at(s, c, pat));
    }
    if k < c {
        assert(!matches_at(s, k, pat));
    }
}

/// The first `c` is the unique minimal one.
pub proof fn lemma_find_char_is(s: Seq<char>, c: char, k: int)
    requires
        0 <= k < s.len(),
        s[k] == c,
        forall|j: int| 0 <= j < k ==> s[j] != c,
    ensures
        find_char(s, c) == k,
{
    reveal(find_char);
    assert(s.contains(c));
    let m: int = choose|i: int| 0 <= i < s.len() && s[i] == c && forall|j: int| 0 <= j < i ==> s[j] != c;
    assert(0 <= m < s.len() && s[m] == c);
    if m < k {
        assert(s[m] != c);
    }
    if k < m {
        assert(s[k] != c);
    }
}

/// What `find_char` returns: -1 exactly when `c` does not occur, else the
/// position of the first `c`.
pub proof fn lemma_find_char_spec(s: Seq<char>, c: char)
    ensures
        -1 <= find_char(s, c) < s.len(),
        find_char(s, c) == -1 <==> !s.contains(c),
        find_char(s, c) >= 0 ==> s[find_char(s, c)] == c && forall|j: int|
            0 <= j < find_char(s, c) ==> s[j] != c,
{
    reveal(find_char);
    if s.contains(c) {
        let i = choose|i: int| 0 <= i < s.len() && s[i] == c;
        let m = lemma_first_occurrence(s, c, i);
    }
}

/// A first position of `c`, found below a known one.
proof fn lemma_first_occurrence(s: Seq<char>, c: char, i: int) -> (m: int)
    requires
        0 <= i < s.len(),
        s[i] == c,
    ensures
        0 <= m <= i,
        s[m] == c,
        forall|j: int| 0 <= j < m ==> s[j] != c,
    decreases i,
{
    if exists|j: int| 0 <= j < i && s[j] == c {
        let j = choose|j: int| 0 <= j < i && s[j] == c;
        lemma_first_occurrence(s, c, j)
    } else {
        i
    }
}

/// `find_char` on a suffix, when no `c` occurs from `from` on.
pub proof fn lemma_find_char_none(s: Seq<char>, from: int, c: char)
    requires
        0 <= from <= s.len(),
        forall|j: int| from <= j < s.len() ==> s[j] != c,
    ensures
        find_char(s.skip(from), c) == -1,
{
    reveal(find_char);
    if s.skip(from).contains(c) {
        let i: int = choose|i: int| 0 <= i < s.skip(from).len() && s.skip(from)[i] == c;
        assert(s[from + i] == c);
    }
}

/// `find_char` on a suffix, when the next `c` from `from` on is at `k`.
pub proof fn lemma_find_char_skip(s: Seq<char>, from: int, c: char, k: int)
    requires
        0 <= from <= k < s.len(),
        s[k] == c,
        forall|j: int| from <= j < k ==> s[j] != c,
    ensures
        find_char(s.skip(from), c) == k - from,
{
    let t = s.skip(from);
    assert forall|j: int| 0 <= j < k - from implies t[j] != c by {
        assert(t[j] == s[from + j]);
    }
    lemma_find_char_is(t, c, k - from);
}

/// Matching inside a suffix is matching in the whole text, shifted.
pub proof fn lemma_matches_skip(s: Seq<char>, from: int, i: int, pat: Seq<char>)
    requires
        0 <= from <= s.len(),
    ensures
        matches_at(s.skip(from), i, pat) <==> (0 <= i && matches_at(s, from + i, pat)),
{
    if 0 <= i && i + pat.len() <= s.len() - from {
        assert(s.skip(from).subrange(i, i + pat.len()) =~= s.subrange(from + i, from + i + pat.len()));
    }
}

// ---------------------------------------------------------------------------
// Executable helpers
// ---------------------------------------------------------------------------

/// The characters of a string slice, one `char` per element.
pub fn chars_of(s: &str) -> (v: Vec<char>)
    ensures
        v@ == s@,
{
    let mut v: Vec<char> = Vec::new();
    for c in it: s.chars()
        invariant
            it.seq() == s@,
            v@ == s@.take(it.index() as int),
    {
        v.push(c);
    }
    v
}

/// Builds a `String` from its characters with std's `String: FromIterator<&char>`
/// (`String::from_iter`), which std documents as concatenating the yielded
/// characters in order: the string holds exactly `v`.
#[verifier::external_body]
pub(crate) fn string_of(v: &[char]) -> (s: String)
    ensures
        s@ == v@,
{
    String::from_iter(v.iter())
}

/// `char::is_whitespace`: membership in Unicode `White_Space`.
pub fn is_whitespace(c: char) -> (b: bool)
    ensures
        b == is_unicode_whitespace(c),
{
    ('\u{9}' <= c && c <= '\u{d}') || c == ' ' || c == '\u{85}' || c == '\u{a0}' || c
        == '\u{1680}' || ('\u{2000}' <= c && c <= '\u{200a}') || c == '\u{2028}' || c
        == '\u{2029}' || c == '\u{202f}' || c == '\u{205f}' || c == '\u{3000}'
}

/// Whether `c` is one of the five ASCII whitespace characters.
pub fn is_ascii_whitespace(c: char) -> (b: bool)
    ensures
        b == is_ascii_whitespace_char(c),
{
    c == ' ' || c == '\t' || c == '\n' || c == '\u{c}' || c == '\r'
}

/// ASCII lowercase of one character.
pub fn to_ascii_lower(c: char) -> (r: char)
    ensures
        r == ascii_lower_char(c),
{
    if 'A' <= c && c <= 'Z' {
        let u: u32 = c as u32;
        proof {
            assert(65 <= u <= 90);
        }
        let l: u8 = (u + 32) as u8;
        l as char
    } else {
        c
    }
}

/// Appends `v[from..to]` to `out`.
pub fn push_range(out: &mut Vec<char>, v: &[char], from: usize, to: usize)
    requires
        from <= to <= v@.len(),
    ensures
        final(out)@ == old(out)@ + v@.subrange(from as int, to as int),
{
    let mut i: usize = from;
    while i < to
        invariant
            from <= i <= to <= v@.len(),
            out@ == old(out)@ + v@.subrange(from as int, i as int),
        decreases to - i,
    {
        out.push(v[i]);
        i = i + 1;
        assert(v@.subrange(from as int, i as int) =~= v@.subrange(from as int, (i - 1) as int).push(
            v@[i - 1],
        ));
    }
}

/// Appends all of `v` to `out`.
pub fn push_all(out: &mut Vec<char>, v: &[char])
    ensures
        final(out)@ == old(out)@ + v@,
{
    push_range(out, v, 0, v.len());
    assert(v@.subrange(0, v@.len() as int) =~= v@);
}

/// The characters `v[from..to]` as a new vector.
pub fn sub_chars(v: &[char], from: usize, to: usize) -> (r: Vec<char>)
    requires
        from <= to <= v@.len(),
    ensures
        r@ == v@.subrange(from as int, to as int),
{
    let mut r: Vec<char> = Vec::new();
    push_range(&mut r, v, from, to);
    r
}

/// Whether `v` and `w` hold the same characters.
pub fn chars_eq(v: &[char], w: &[char]) -> (b: bool)
    ensures
        b == (v@ == w@),
{
    if v.len() != w.len() {
        return false;
    }
    let mut i: usize = 0;
    while i < v.len()
        invariant
            v@.len() == w@.len(),
            0 <= i <= v@.len(),
            forall|j: int| 0 <= j < i ==> v@[j] == w@[j],
        decreases v@.len() - i,
    {
        if v[i] != w[i] {
            return false;
        }
        i = i + 1;
    }
    assert(v@ =~= w@);
    true
}

/// Whether `v` holds exactly the characters of `s`.
pub fn eq_str(v: &[char], s: &str) -> (b: bool)
    ensures
        b == (v@ == s@),
{
    let w = chars_of(s);
    chars_eq(v, w.as_slice())
}

/// Whether `pat` occurs in `v` at position `i`.
pub fn matches_at_exec(v: &[char], i: usize, pat: &[char]) -> (b: bool)
    ensures
        b == matches_at(v@, i as int, pat@),
{
    if i > v.len() || pat.len() > v.len() - i {
        return false;
    }
    let mut k: usize = 0;
    while k < pat.len()
        invariant
            i + pat@.len() <= v@.len(),
            0 <= k <= pat@.len(),
            forall|j: int| 0 <= j < k ==> v@[i + j] == pat@[j],
        decreases pat@.len() - k,
    {
        assert(i + k < v.len());
        if v[i + k] != pat[k] {
            assert(v@.subrange(i as int, i + pat@.len())[k as int] != pat@[k as int]);
            return false;
        }
        k = k + 1;
    }
    assert(v@.subrange(i as int, i + pat@.len()) =~= pat@);
    true
}

/// Whether `v` starts with `pat`.
pub fn starts_with_exec(v: &[char], pat: &[char]) -> (b: bool)
    ensures
        b == starts_with(v@, pat@),
{
    matches_at_exec(v, 0, pat)
}

/// First position `>= from` where `pat` occurs in `v`, if any.
pub fn find_sub_from(v: &[char], from: usize, pat: &[char]) -> (r: Option<usize>)
    requires
        from <= v@.len(),
    ensures
        match r {
            Some(k) => from <= k && matches_at(v@, k as int, pat@) && forall|j: int|
                from <= j < k ==> !matches_at(v@, j, pat@),
            None => forall|j: int| from <= j ==> !matches_at(v@, j, pat@),
        },
{
    let mut i: usize = from;
    while i < v.len()
        invariant
            from <= i <= v@.len(),
            forall|j: int| from <= j < i ==> !matches_at(v@, j, pat@),
        decreases v@.len() - i,
    {
        if matches_at_exec(v, i, pat) {
            return Some(i);
        }
        i = i + 1;
    }
    if matches_at_exec(v, i, pat) {
        return Some(i);
    }
    assert forall|j: int| from <= j implies !matches_at(v@, j, pat@) by {
        if j > i {
            assert(j + pat@.len() > v@.len());
        }
    }
    None
}

/// First position `>= from` holding `c`, if any.
pub fn find_char_from(v: &[char], from: usize, c: char) -> (r: Option<usize>)
    requires
        from <= v@.len(),
    ensures
        match r {
            Some(k) => from <= k < v@.len() && v@[k as int] == c && forall|j: int|
                from <= j < k ==> v@[j] != c,
            None => forall|j: int| from <= j < v@.len() ==> v@[j] != c,
        },
{
    let mut i: usize = from;
    while i < v.len()
        invariant
            from <= i <= v@.len(),
            forall|j: int| from <= j < i ==> v@[j] != c,
        decreases v@.len() - i,
    {
        if v[i] == c {
            return Some(i);
        }
        i = i + 1;
    }
    None
}

/// Whether `v` contains `pat`.
pub fn contains_exec(v: &[char], pat: &[char]) -> (b: bool)
    ensures
        b == contains_sub(v@, pat@),
{
    match find_sub_from(v, 0, pat) {
        Some(k) => true,
        None => {
            assert forall|j: int| !matches_at(v@, j, pat@) by {
                if j < 0 {
                }
            }
            false
        },
    }
}


/// One step of `replace_all` from position `pos` when the next occurrence of
/// `pat` is at `k`.
pub proof fn lemma_replace_step(s: Seq<char>, pos: int, k: int, pat: Seq<char>, rep: Seq<char>)
    requires
        pat.len() > 0,
        0 <= pos <= k,
        matches_at(s, k, pat),
        forall|j: int| pos <= j < k ==> !matches_at(s, j, pat),
    ensures
        replace_all(s.skip(pos), pat, rep) == s.subrange(pos, k) + rep + replace_all(
            s.skip(k + pat.len()),
            pat,
            rep,
        ),
{
    reveal(replace_all);
    let rest = s.skip(pos);
    let kk = k - pos;
    lemma_matches_skip(s, pos, kk, pat);
    assert forall|j: int| 0 <= j < kk implies !matches_at(rest, j, pat) by {
        lemma_matches_skip(s, pos, j, pat);
    }
    lemma_find_sub_is(rest, pat, kk);
    assert(rest.take(kk) =~= s.subrange(pos, k));
    assert(rest.skip(kk + pat.len()) =~= s.skip(k + pat.len()));
}

/// `replace_all` from position `pos` when `pat` no longer occurs.
pub proof fn lemma_replace_done(s: Seq<char>, pos: int, pat: Seq<char>, rep: Seq<char>)
    requires
        0 <= pos <= s.len(),
        forall|j: int| pos <= j ==> !matches_at(s, j, pat),
    ensures
        replace_all(s.skip(pos), pat, rep) == s.subrange(pos, s.len() as int),
{
    reveal(replace_all);
    let rest = s.skip(pos);
    assert forall|i: int| !matches_at(rest, i, pat) by {
        lemma_matches_skip(s, pos, i, pat);
    }
    assert(rest =~= s.subrange(pos, s.len() as int));
}

/// Some first occurrence of `pat` lies at or before a known one.
proof fn lemma_first_match(s: Seq<char>, pat: Seq<char>, i: int) -> (m: int)
    requires
        matches_at(s, i, pat),
    ensures
        0 <= m <= i,
        matches_at(s, m, pat),
        forall|j: int| 0 <= j < m ==> !matches_at(s, j, pat),
    decreases i,
{
    if exists|j: int| 0 <= j < i && matches_at(s, j, pat) {
        let j = choose|j: int| 0 <= j < i && matches_at(s, j, pat);
        lemma_first_match(s, pat, j)
    } else {
        i
    }
}

/// `find_sub` finds the first occurrence whenever there is one.
pub proof fn lemma_find_sub_found(s: Seq<char>, pat: Seq<char>)
    requires
        contains_sub(s, pat),
    ensures
        matches_at(s, find_sub(s, pat), pat),
        forall|j: int| 0 <= j < find_sub(s, pat) ==> !matches_at(s, j, pat),
{
    let i = choose|i: int| matches_at(s, i, pat);
    let m = lemma_first_match(s, pat, i);
    lemma_find_sub_is(s, pat, m);
}

/// An occurrence of a non-empty `q` in `a + r + b`, where no character of the
/// non-empty `r` occurs in `q`, lies wholly within `a` or wholly within `b`.
pub proof fn lemma_match_avoids(a: Seq<char>, r: Seq<char>, b: Seq<char>, q: Seq<char>, i: int)
    requires
        matches_at(a + r + b, i, q),
        q.len() > 0,
        r.len() > 0,
        forall|k: int| 0 <= k < r.len() ==> !q.contains(#[trigger] r[k]),
    ensures
        matches_at(a, i, q) || matches_at(b, i - a.len() - r.len(), q),
{
    let s = a + r + b;
    let n = a.len() as int;
    let m = r.len() as int;
    let l = q.len() as int;
    if i + l <= n {
        assert(a.subrange(i, i + l) =~= s.subrange(i, i + l));
    } else if i >= n + m {
        assert(b.subrange(i - n - m, i - n - m + l) =~= s.subrange(i, i + l));
    } else {
        let j: int = if i > n {
            i
        } else {
            n
        };
        assert(s.subrange(i, i + l)[j - i] == s[j]);
        assert(s[j] == r[j - n]);
        assert(q[j - i] == r[j - n]);
        assert(q.contains(r[j - n]));
    }
}

/// `replace_all` leaves no occurrence of `pat` behind when no character of
/// the non-empty replacement occurs in `pat`.
pub proof fn lemma_replace_all_removes(s: Seq<char>, pat: Seq<char>, rep: Seq<char>)
    requires
        pat.len() > 0,
        rep.len() > 0,
        forall|k: int| 0 <= k < rep.len() ==> !pat.contains(#[trigger] rep[k]),
    ensures
        !contains_sub(replace_all(s, pat, rep), pat),
    decreases s.len(),
{
    reveal(replace_all);
    if contains_sub(s, pat) {
        lemma_find_sub_found(s, pat);
        let k: int = find_sub(s, pat);
        let a = s.take(k);
        let tail = s.skip(k + pat.len());
        lemma_replace_all_removes(tail, pat, rep);
        let rr = replace_all(tail, pat, rep);
        let res = replace_all(s, pat, rep);
        assert(res == a + rep + rr);
        assert forall|i: int| !matches_at(res, i, pat) by {
            if matches_at(res, i, pat) {
                lemma_match_avoids(a, rep, rr, pat, i);
                if matches_at(a, i, pat) {
                    assert(a.subrange(i, i + pat.len()) =~= s.subrange(i, i + pat.len()));
                    assert(matches_at(s, i, pat));
                }
            }
        }
    }
}

/// `replace_all` creates no occurrence of a non-empty `q` that `s` lacks when
/// no character of the non-empty replacement occurs in `q`.
pub proof fn lemma_replace_all_keeps_absent(
    s: Seq<char>,
    pat: Seq<char>,
    rep: Seq<char>,
    q: Seq<char>,
)
    requires
        q.len() > 0,
        rep.len() > 0,
        forall|k: int| 0 <= k < rep.len() ==> !q.contains(#[trigger] rep[k]),
        !contains_sub(s, q),
    ensures
        !contains_sub(replace_all(s, pat, rep), q),
    decreases s.len(),
{
    reveal(replace_all);
    if pat.len() > 0 && contains_sub(s, pat) {
        lemma_find_sub_found(s, pat);
        let k: int = find_sub(s, pat);
        let a = s.take(k);
        let from = k + pat.len();
        let tail = s.skip(from);
        assert forall|i: int| !matches_at(tail, i, q) by {
            lemma_matches_skip(s, from, i, q);
        }
        lemma_replace_all_keeps_absent(tail, pat, rep, q);
        let rr = replace_all(tail, pat, rep);
        let res = replace_all(s, pat, rep);
        assert(res == a + rep + rr);
        assert forall|i: int| !matches_at(res, i, q) by {
            if matches_at(res, i, q) {
                lemma_match_avoids(a, rep, rr, q, i);
                if matches_at(a, i, q) {
                    assert(a.subrange(i, i + q.len()) =~= s.subrange(i, i + q.len()));
                    assert(matches_at(s, i, q));
                }
            }
        }
    }
}

/// `replace_all` changes nothing when `pat` does not occur.
pub proof fn lemma_replace_all_absent(s: Seq<char>, pat: Seq<char>, rep: Seq<char>)
    requires
        !contains_sub(s, pat),
    ensures
        replace_all(s, pat, rep) == s,
{
    reveal(replace_all);
}

/// `str::replace` on characters: every non-overlapping occurrence of `pat`,
/// scanned left to right, replaced by `rep`.
pub fn replace_all_exec(s: &[char], pat: &[char], rep: &[char]) -> (r: Vec<char>)
    ensures
        r@ == replace_all(s@, pat@, rep@),
{
    let mut out: Vec<char> = Vec::new();
    if pat.len() == 0 {
        push_all(&mut out, s);
        proof {
            reveal(replace_all);
        }
        return out;
    }
    let mut pos: usize = 0;
    assert(s@.skip(0) =~= s@);
    loop
        invariant
            pat@.len() > 0,
            0 <= pos <= s@.len(),
            replace_all(s@, pat@, rep@) == out@ + replace_all(s@.skip(pos as int), pat@, rep@),
        decreases s@.len() - pos,
    {
        match find_sub_from(s, pos, pat) {
            None => {
                proof {
                    lemma_replace_done(s@, pos as int, pat@, rep@);
                }
                push_range(&mut out, s, pos, s.len());
                assert(s@.skip(pos as int) =~= s@.subrange(pos as int, s@.len() as int));
                return out;
            },
            Some(k) => {
                proof {
                    lemma_replace_step(s@, pos as int, k as int, pat@, rep@);
                }
                assert(k + pat.len() <= s.len());
                let ghost before = out@;
                push_range(&mut out, s, pos, k);
                push_all(&mut out, rep);
                assert(before + (s@.subrange(pos as int, k as int) + rep@ + replace_all(
                    s@.skip(k + pat@.len()),
                    pat@,
                    rep@,
                )) =~= out@ + replace_all(s@.skip(k + pat@.len()), pat@, rep@));
                pos = k + pat.len();
            },
        }
    }
}

/// Index of the first character that is not Unicode whitespace (or `v.len()`),
/// with `trim_start(v) == v[start..]`.
pub fn trim_start_index(v: &[char]) -> (start: usize)
    ensures
        start <= v@.len(),
        trim_start(v@) == v@.skip(start as int),
{
    let mut i: usize = 0;
    assert(v@.skip(0) =~= v@);
    while i < v.len()
        invariant
            0 <= i <= v@.len(),
            trim_start(v@) == trim_start(v@.skip(i as int)),
        decreases v@.len() - i,
    {
        if !is_whitespace(v[i]) {
            return i;
        }
        assert(v@.skip(i as int).drop_first() =~= v@.skip(i + 1));
        i = i + 1;
    }
    i
}

/// Index just past the last character of `v[..end]` that is not Unicode
/// whitespace, with `trim_end(v[..end]) == v[..e]`.
pub fn trim_end_index(v: &[char], end: usize) -> (e: usize)
    requires
        end <= v@.len(),
    ensures
        e <= end,
        trim_end(v@.take(end as int)) == v@.take(e as int),
{
    let mut i: usize = end;
    while i > 0
        invariant
            0 <= i <= end <= v@.len(),
            trim_end(v@.take(end as int)) == trim_end(v@.take(i as int)),
        decreases i,
    {
        if !is_whitespace(v[i - 1]) {
            return i;
        }
        assert(v@.take(i as int).drop_last() =~= v@.take(i - 1));
        i = i - 1;
    }
    i
}

/// `str::trim` on characters.
pub fn trim_exec(v: &[char]) -> (r: Vec<char>)
    ensures
        r@ == trim(v@),
{
    let start: usize = trim_start_index(v);
    let rest = sub_chars(v, start, v.len());
    assert(rest@ =~= v@.skip(start as int));
    let e: usize = trim_end_index(rest.as_slice(), rest.len());
    assert(rest@.take(rest@.len() as int) =~= rest@);
    let r = sub_chars(rest.as_slice(), 0, e);
    assert(r@ =~= rest@.take(e as int));
    r
}

} // verus!
