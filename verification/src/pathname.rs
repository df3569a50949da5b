//! Unix path strings: joining, the final component, its extension, and
//! replacing the final component. Paths are handled as their characters.

use vstd::prelude::*;
use crate::text::{chars_of, string_of, sub_chars, push_all};

verus! {

// ---------------------------------------------------------------------------
// Specifications
// ---------------------------------------------------------------------------

/// Position of the last `c` in `s`, or -1.
pub open spec fn last_index(s: Seq<char>, c: char) -> int
    decreases s.len(),
{
    if s.len() == 0 {
        -1
    } else if s.last() == c {
        s.len() - 1
    } else {
        last_index(s.drop_last(), c)
    }
}

/// Joining `p` onto `base`: an absolute `p` replaces `base`; otherwise `p`
/// is appended, with a `/` in between unless `base` is empty or already ends
/// with `/`.
pub open spec fn join(base: Seq<char>, p: Seq<char>) -> Seq<char> {
    if p.len() > 0 && p[0] == '/' {
        p
    } else if base.len() > 0 && base.last() != '/' {
        base + seq!['/'] + p
    } else {
        base + p
    }
}

/// The final component of a path: trailing `/` and `.` components are
/// skipped; a path that ends in `..`, is a root, or is empty has none.
#[verifier::opaque]
pub open spec fn file_name(p: Seq<char>) -> Option<Seq<char>>
    decreases p.len(),
{
    if p.len() == 0 {
        None
    } else if p.last() == '/' {
        file_name(p.drop_last())
    } else {
        let k: int = last_index(p, '/');
        let seg = p.skip(k + 1);
        if seg == seq!['.'] {
            if 0 <= k < p.len() {
                file_name(p.take(k))
            } else {
                None
            }
        } else if seg == seq!['.', '.'] {
            None
        } else {
            Some(seg)
        }
    }
}

/// The extension of a path: what follows the last `.` of the file name,
/// when that `.` is not the name's first character.
pub open spec fn extension(p: Seq<char>) -> Option<Seq<char>> {
    match file_name(p) {
        None => None,
        Some(n) => {
            let d: int = last_index(n, '.');
            if d <= 0 {
                None
            } else {
                Some(n.skip(d + 1))
            }
        },
    }
}

/// `q` without trailing `/` and trailing `/.` components, never removing a
/// leading root.
pub open spec fn trim_dir_tail(q: Seq<char>) -> Seq<char>
    decreases q.len(),
{
    if q.len() > 1 && q.last() == '/' {
        trim_dir_tail(q.drop_last())
    } else if q.len() >= 2 && q.last() == '.' && q[q.len() - 2] == '/' {
        trim_dir_tail(q.drop_last())
    } else {
        q
    }
}

/// What remains of a path that has a file name once that name is popped.
pub open spec fn parent_dir(p: Seq<char>) -> Seq<char>
    decreases p.len(),
{
    if p.len() == 0 {
        p
    } else if p.last() == '/' {
        parent_dir(p.drop_last())
    } else {
        let k: int = last_index(p, '/');
        if p.skip(k + 1) == seq!['.'] && 0 <= k < p.len() {
            parent_dir(p.take(k))
        } else {
            trim_dir_tail(p.take(k + 1))
        }
    }
}

/// The path with its file name replaced by `name` (or `name` pushed when it
/// has none).
pub open spec fn with_file_name(p: Seq<char>, name: Seq<char>) -> Seq<char> {
    if file_name(p) is Some {
        join(parent_dir(p), name)
    } else {
        join(p, name)
    }
}

/// A single, ordinary path component: non-empty, no `/`, not `.` or `..`.
pub open spec fn is_plain_component(name: Seq<char>) -> bool {
    &&& name.len() > 0
    &&& !name.contains('/')
    &&& name != seq!['.']
    &&& name != seq!['.', '.']
}

// ---------------------------------------------------------------------------
// Lemmas
// ---------------------------------------------------------------------------

/// One unfolding of `file_name`.
pub proof fn lemma_file_name_unfold(p: Seq<char>)
    ensures
        file_name(p) == (if p.len() == 0 {
            None
        } else if p.last() == '/' {
            file_name(p.drop_last())
        } else {
            let k: int = last_index(p, '/');
            let seg = p.skip(k + 1);
            if seg == seq!['.'] {
                if 0 <= k < p.len() {
                    file_name(p.take(k))
                } else {
                    None
                }
            } else if seg == seq!['.', '.'] {
                None
            } else {
                Some(seg)
            }
        }),
{
    reveal(file_name);
}

/// `last_index` is -1 or the position of the last `c`.
pub proof fn lemma_last_index(s: Seq<char>, c: char)
    ensures
        -1 <= last_index(s, c) < s.len(),
        last_index(s, c) >= 0 ==> s[last_index(s, c)] == c,
        forall|j: int| last_index(s, c) < j < s.len() ==> s[j] != c,
    decreases s.len(),
{
    if s.len() > 0 && s.last() != c {
        lemma_last_index(s.drop_last(), c);
        assert forall|j: int| last_index(s, c) < j < s.len() implies s[j] != c by {
            if j < s.len() - 1 {
                assert(s.drop_last()[j] == s[j]);
            }
        }
    }
}

/// `last_index` of a prefix `s[..end]` found by a backward scan.
proof fn lemma_last_index_is(s: Seq<char>, c: char, k: int)
    requires
        -1 <= k < s.len(),
        k >= 0 ==> s[k] == c,
        forall|j: int| k < j < s.len() ==> s[j] != c,
    ensures
        last_index(s, c) == k,
    decreases s.len(),
{
    if s.len() > 0 && k != s.len() - 1 {
        assert(s.last() != c);
        lemma_last_index_is(s.drop_last(), c, k);
    }
}

/// Without `c` in the appended part, the last `c` stays where it was.
proof fn lemma_last_index_append(a: Seq<char>, b: Seq<char>, c: char)
    requires
        !b.contains(c),
    ensures
        last_index(a + b, c) == last_index(a, c),
{
    lemma_last_index(a, c);
    let k: int = last_index(a, c);
    assert forall|j: int| k < j < (a + b).len() implies (a + b)[j] != c by {
        if j >= a.len() {
            assert((a + b)[j] == b[j - a.len()]);
        }
    }
    lemma_last_index_is(a + b, c, k);
}

/// A file name is a plain component.
pub proof fn lemma_file_name_plain(p: Seq<char>)
    ensures
        file_name(p) matches Some(n) ==> is_plain_component(n),
    decreases p.len(),
{
    lemma_file_name_unfold(p);
    if p.len() == 0 {
    } else if p.last() == '/' {
        lemma_file_name_plain(p.drop_last());
    } else {
        let k: int = last_index(p, '/');
        lemma_last_index(p, '/');
        let seg = p.skip(k + 1);
        if seg == seq!['.'] {
            if 0 <= k < p.len() {
                lemma_file_name_plain(p.take(k));
            }
        } else if seg != seq!['.', '.'] {
            assert(seg.len() > 0) by {
                assert(seg[seg.len() - 1] == p.last());
            }
            assert forall|i: int| 0 <= i < seg.len() implies seg[i] != '/' by {
                assert(seg[i] == p[k + 1 + i]);
            }
        }
    }
}

/// The file name of `dir` joined with a plain component is that component.
pub proof fn lemma_file_name_join(dir: Seq<char>, name: Seq<char>)
    requires
        is_plain_component(name),
    ensures
        file_name(join(dir, name)) == Some(name),
{
    let p = join(dir, name);
    assert(name[0] != '/') by {
        assert(!name.contains('/'));
        if name[0] == '/' {
            assert(name.contains('/'));
        }
    }
    let prefix = if dir.len() > 0 && dir.last() != '/' {
        dir + seq!['/']
    } else {
        dir
    };
    assert(p == prefix + name);
    lemma_last_index_append(prefix, name, '/');
    lemma_last_index(prefix, '/');
    if prefix.len() > 0 {
        assert(prefix.last() == '/');
        lemma_last_index_is(prefix, '/', prefix.len() - 1);
    }
    let k: int = last_index(p, '/');
    assert(k == prefix.len() - 1);
    assert(p.skip(k + 1) =~= name);
    lemma_file_name_unfold(p);
    assert(p.last() == name.last());
    assert(p.last() != '/') by {
        if name.last() == '/' {
            assert(name.contains('/'));
        }
    }
}

/// Trimming a directory tail twice trims nothing more.
pub proof fn lemma_trim_dir_tail_idem(q: Seq<char>)
    ensures
        trim_dir_tail(trim_dir_tail(q)) == trim_dir_tail(q),
    decreases q.len(),
{
    if q.len() > 1 && q.last() == '/' {
        lemma_trim_dir_tail_idem(q.drop_last());
    } else if q.len() >= 2 && q.last() == '.' && q[q.len() - 2] == '/' {
        lemma_trim_dir_tail_idem(q.drop_last());
    }
}

/// A parent directory has no directory tail left to trim.
pub proof fn lemma_parent_dir_trimmed(p: Seq<char>)
    ensures
        trim_dir_tail(parent_dir(p)) == parent_dir(p),
    decreases p.len(),
{
    if p.len() == 0 {
    } else if p.last() == '/' {
        lemma_parent_dir_trimmed(p.drop_last());
    } else {
        let k: int = last_index(p, '/');
        lemma_last_index(p, '/');
        if p.skip(k + 1) == seq!['.'] && 0 <= k < p.len() {
            lemma_parent_dir_trimmed(p.take(k));
        } else {
            lemma_trim_dir_tail_idem(p.take(k + 1));
        }
    }
}

/// Popping a plain component joined onto a trimmed directory gives the
/// directory back.
pub proof fn lemma_parent_dir_join(dir: Seq<char>, name: Seq<char>)
    requires
        is_plain_component(name),
        trim_dir_tail(dir) == dir,
    ensures
        parent_dir(join(dir, name)) == dir,
{
    let p = join(dir, name);
    assert(name[0] != '/') by {
        if name[0] == '/' {
            assert(name.contains('/'));
        }
    }
    let prefix = if dir.len() > 0 && dir.last() != '/' {
        dir + seq!['/']
    } else {
        dir
    };
    assert(p == prefix + name);
    lemma_last_index_append(prefix, name, '/');
    lemma_last_index(prefix, '/');
    if prefix.len() > 0 {
        assert(prefix.last() == '/');
        lemma_last_index_is(prefix, '/', prefix.len() - 1);
    }
    let k: int = last_index(p, '/');
    assert(k == prefix.len() - 1);
    assert(p.skip(k + 1) =~= name);
    assert(p.take(k + 1) =~= prefix);
    assert(p.last() != '/') by {
        assert(p.last() == name.last());
        if name.last() == '/' {
            assert(name.contains('/'));
        }
    }
    assert(parent_dir(p) == trim_dir_tail(prefix));
    if dir.len() > 0 && dir.last() != '/' {
        assert(prefix.drop_last() =~= dir);
        assert(trim_dir_tail(prefix) == trim_dir_tail(dir));
    }
}

// ---------------------------------------------------------------------------
// Executable code
// ---------------------------------------------------------------------------

/// Position of the last `c` in `v[..end]`, if any.
fn last_index_in(v: &[char], end: usize, c: char) -> (r: Option<usize>)
    requires
        end <= v@.len(),
    ensures
        match r {
            Some(k) => k < end && last_index(v@.take(end as int), c) == k,
            None => last_index(v@.take(end as int), c) == -1,
        },
{
    let mut i: usize = end;
    while i > 0
        invariant
            0 <= i <= end <= v@.len(),
            forall|j: int| i <= j < end ==> v@[j] != c,
        decreases i,
    {
        if v[i - 1] == c {
            proof {
                lemma_last_index_is(v@.take(end as int), c, i - 1);
            }
            return Some(i - 1);
        }
        i = i - 1;
    }
    proof {
        lemma_last_index_is(v@.take(end as int), c, -1);
    }
    None
}

/// Joins `p` onto `base`.
pub fn join_chars(base: &[char], p: &[char]) -> (r: Vec<char>)
    ensures
        r@ == join(base@, p@),
{
    let mut r: Vec<char> = Vec::new();
    if p.len() > 0 && p[0] == '/' {
        push_all(&mut r, p);
        assert(r@ =~= p@);
        return r;
    }
    push_all(&mut r, base);
    if base.len() > 0 && base[base.len() - 1] != '/' {
        r.push('/');
    }
    push_all(&mut r, p);
    r
}

/// Joins the path `p` onto the path `base`.
pub fn join_path(base: &str, p: &str) -> (r: String)
    ensures
        r@ == join(base@, p@),
{
    let b = chars_of(base);
    let q = chars_of(p);
    let j = join_chars(b.as_slice(), q.as_slice());
    string_of(j.as_slice())
}

/// The final component of the path `v`.
pub fn file_name_chars(v: &[char]) -> (r: Option<Vec<char>>)
    ensures
        match r {
            Some(n) => file_name(v@) == Some(n@),
            None => file_name(v@) is None,
        },
{
    let mut end: usize = v.len();
    assert(v@.take(end as int) =~= v@);
    loop
        invariant
            0 <= end <= v@.len(),
            file_name(v@) == file_name(v@.take(end as int)),
        decreases end,
    {
        let ghost p = v@.take(end as int);
        proof {
            lemma_file_name_unfold(p);
        }
        if end == 0 {
            return None;
        }
        if v[end - 1] == '/' {
            assert(p.drop_last() =~= v@.take(end - 1));
            end = end - 1;
            continue;
        }
        let k = last_index_in(v, end, '/');
        let start: usize = match k {
            Some(k) => k + 1,
            None => 0,
        };
        let seg = sub_chars(v, start, end);
        assert(seg@ =~= p.skip(last_index(p, '/') + 1));
        if seg.len() == 1 && seg[0] == '.' {
            assert(seg@ =~= seq!['.']);
            match k {
                Some(k) => {
                    assert(p.take(k as int) =~= v@.take(k as int));
                    end = k;
                    continue;
                },
                None => {
                    return None;
                },
            }
        }
        assert(seg@ != seq!['.']);
        if seg.len() == 2 && seg[0] == '.' && seg[1] == '.' {
            assert(seg@ =~= seq!['.', '.']);
            return None;
        }
        assert(seg@ != seq!['.', '.']);
        return Some(seg);
    }
}

/// The final component of the path `p`.
pub fn file_name_of(p: &str) -> (r: Option<String>)
    ensures
        match r {
            Some(n) => file_name(p@) == Some(n@),
            None => file_name(p@) is None,
        },
{
    let v = chars_of(p);
    match file_name_chars(v.as_slice()) {
        Some(n) => Some(string_of(n.as_slice())),
        None => None,
    }
}

/// The extension of the path `v`.
pub fn extension_chars(v: &[char]) -> (r: Option<Vec<char>>)
    ensures
        match r {
            Some(e) => extension(v@) == Some(e@),
            None => extension(v@) is None,
        },
{
    match file_name_chars(v) {
        None => None,
        Some(n) => {
            assert(n@.take(n@.len() as int) =~= n@);
            match last_index_in(n.as_slice(), n.len(), '.') {
                None => None,
                Some(d) => {
                    if d == 0 {
                        None
                    } else {
                        Some(sub_chars(n.as_slice(), d + 1, n.len()))
                    }
                },
            }
        },
    }
}

/// `trim_dir_tail` of `v[..end]`, as the length of the kept prefix.
fn trim_dir_tail_len(v: &[char], end: usize) -> (e: usize)
    requires
        end <= v@.len(),
    ensures
        e <= end,
        trim_dir_tail(v@.take(end as int)) == v@.take(e as int),
{
    let mut e: usize = end;
    loop
        invariant
            0 <= e <= end <= v@.len(),
            trim_dir_tail(v@.take(end as int)) == trim_dir_tail(v@.take(e as int)),
        decreases e,
    {
        let ghost q = v@.take(e as int);
        if e > 1 && v[e - 1] == '/' {
            assert(q.drop_last() =~= v@.take(e - 1));
            e = e - 1;
        } else if e >= 2 && v[e - 1] == '.' && v[e - 2] == '/' {
            assert(q.drop_last() =~= v@.take(e - 1));
            e = e - 1;
        } else {
            return e;
        }
    }
}

/// `parent_dir` of the path `v`.
fn parent_dir_chars(v: &[char]) -> (r: Vec<char>)
    ensures
        r@ == parent_dir(v@),
{
    let mut end: usize = v.len();
    assert(v@.take(end as int) =~= v@);
    loop
        invariant
            0 <= end <= v@.len(),
            parent_dir(v@) == parent_dir(v@.take(end as int)),
        decreases end,
    {
        let ghost p = v@.take(end as int);
        if end == 0 {
            return Vec::new();
        }
        if v[end - 1] == '/' {
            assert(p.drop_last() =~= v@.take(end - 1));
            end = end - 1;
            continue;
        }
        let k = last_index_in(v, end, '/');
        let start: usize = match k {
            Some(k) => k + 1,
            None => 0,
        };
        assert(v@.subrange(start as int, end as int) =~= p.skip(last_index(p, '/') + 1));
        let is_dot = end - start == 1 && v[start] == '.';
        if is_dot {
            assert(v@.subrange(start as int, end as int) =~= seq!['.']);
        } else {
            assert(v@.subrange(start as int, end as int) != seq!['.']) by {
                if v@.subrange(start as int, end as int) =~= seq!['.'] {
                    assert(v@.subrange(start as int, end as int)[0] == v@[start as int]);
                }
            }
        }
        match k {
            Some(k) => {
                if is_dot {
                    assert(p.take(k as int) =~= v@.take(k as int));
                    end = k;
                    continue;
                }
            },
            None => {},
        }
        assert(p.take(start as int) =~= v@.take(start as int));
        let e: usize = trim_dir_tail_len(v, start);
        return sub_chars(v, 0, e);
    }
}

/// The path `v` with its file name replaced by `name`.
pub fn with_file_name_chars(v: &[char], name: &[char]) -> (r: Vec<char>)
    ensures
        r@ == with_file_name(v@, name@),
{
    match file_name_chars(v) {
        Some(_) => {
            let parent = parent_dir_chars(v);
            join_chars(parent.as_slice(), name)
        },
        None => join_chars(v, name),
    }
}

} // verus!
