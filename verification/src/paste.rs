//! Paste dispatch decisions: which route an image paste takes, what a text
//! paste hands to tmux, and clipboard text sanitizing (HTML copied from
//! browsers is turned into plain text before it is pasted; anything else
//! passes through untouched).

use vstd::prelude::*;
use vstd::utf8::{decode_utf8, encode_utf8, valid_utf8};
use vstd::string::StringSliceAdditionalSpecFns;
use std::borrow::Cow;
use crate::clip_watch::{flag_is_on, flag_on};
use crate::pathname::{file_name, file_name_chars};
use crate::paths::strings_view;
use crate::text::{
    ascii_lower, chars_of, contains_exec, contains_sub, eq_str, find_char, find_char_from,
    find_sub, find_sub_from, is_ascii_whitespace, is_ascii_whitespace_char,
    is_unicode_whitespace, lemma_find_char_none, lemma_find_char_skip, lemma_find_char_spec, lemma_find_sub_is,
    lemma_find_char_is, lemma_matches_skip, lemma_replace_all_absent, lemma_replace_all_keeps_absent,
    lemma_replace_all_removes, matches_at, push_all, push_range, replace_all, starts_with,
    starts_with_exec, string_of, sub_chars, to_ascii_lower, trim, trim_end, trim_start,
};

verus! {

// ---------------------------------------------------------------------------
// Specifications
// ---------------------------------------------------------------------------

/// An ASCII letter, as a byte.
pub open spec fn is_ascii_alpha_byte(b: u8) -> bool {
    (0x41 <= b && b <= 0x5a) || (0x61 <= b && b <= 0x7a)
}

/// A tag opener starts at byte `i`: `<` followed by an ASCII letter or `/`.
pub open spec fn tag_opener_at(b: Seq<u8>, i: int) -> bool {
    &&& 0 <= i
    &&& i + 1 < b.len()
    &&& b[i] == 0x3c
    &&& (is_ascii_alpha_byte(b[i + 1]) || b[i + 1] == 0x2f)
}

/// The bytes contain an HTML-ish tag opener (`<letter` or `</`).
pub open spec fn has_tag_opener(b: Seq<u8>) -> bool {
    exists|i: int| tag_opener_at(b, i)
}

/// Position of the first ASCII whitespace character of `s`, or `s.len()`.
pub open spec fn word_end(s: Seq<char>) -> int {
    if exists|i: int| 0 <= i < s.len() && is_ascii_whitespace_char(#[trigger] s[i]) {
        choose|i: int|
            0 <= i < s.len() && is_ascii_whitespace_char(s[i]) && forall|j: int|
                0 <= j < i ==> !is_ascii_whitespace_char(#[trigger] s[j])
    } else {
        s.len() as int
    }
}

/// `s` without all trailing `/` characters.
pub open spec fn trim_end_slashes(s: Seq<char>) -> Seq<char>
    decreases s.len(),
{
    if s.len() > 0 && s.last() == '/' {
        trim_end_slashes(s.drop_last())
    } else {
        s
    }
}

/// The name of a tag from the text between `<` and `>`: the first
/// ASCII-whitespace-separated word after leading whitespace, ASCII-lowercased,
/// with trailing `/` removed (so `br/` is `br`).
pub open spec fn tag_name(inner: Seq<char>) -> Seq<char> {
    let raw = trim_start(inner);
    trim_end_slashes(ascii_lower(raw.take(word_end(raw))))
}

/// Block-level tags, opening or closing, that start a new line.
pub open spec fn is_block_tag(name: Seq<char>) -> bool {
    ||| name == "p"@
    ||| name == "/p"@
    ||| name == "div"@
    ||| name == "/div"@
    ||| name == "section"@
    ||| name == "/section"@
    ||| name == "article"@
    ||| name == "/article"@
    ||| name == "li"@
    ||| name == "tr"@
    ||| name == "/tr"@
    ||| name == "h1"@
    ||| name == "h2"@
    ||| name == "h3"@
    ||| name == "h4"@
    ||| name == "h5"@
    ||| name == "h6"@
    ||| name == "/h1"@
    ||| name == "/h2"@
    ||| name == "/h3"@
    ||| name == "/h4"@
    ||| name == "/h5"@
    ||| name == "/h6"@
}

/// A character that ends the host part of a blob URL.
pub open spec fn is_domain_end(c: char) -> bool {
    c == '/' || c == '"' || c == '\'' || c == ' '
}

/// Position of the first host-ending character of `s`, or `s.len()`.
pub open spec fn domain_end(s: Seq<char>) -> int {
    if exists|i: int| 0 <= i < s.len() && is_domain_end(#[trigger] s[i]) {
        choose|i: int|
            0 <= i < s.len() && is_domain_end(s[i]) && forall|j: int|
                0 <= j < i ==> !is_domain_end(#[trigger] s[j])
    } else {
        s.len() as int
    }
}

/// `s` without the scheme `https://` or, failing that, `http://`.
pub open spec fn strip_scheme(s: Seq<char>) -> Seq<char> {
    if starts_with(s, "https://"@) {
        s.skip("https://"@.len() as int)
    } else if starts_with(s, "http://"@) {
        s.skip("http://"@.len() as int)
    } else {
        s
    }
}

/// The host of the first `blob:` URL in a tag, without one leading `www.`;
/// `None` when the tag has no `blob:` or the host is empty.
pub open spec fn blob_domain(tag: Seq<char>) -> Option<Seq<char>> {
    let k: int = find_sub(tag, "blob:"@);
    if k < 0 {
        None
    } else {
        let after_scheme = strip_scheme(tag.skip(k + "blob:"@.len()));
        let domain = after_scheme.take(domain_end(after_scheme));
        if domain.len() == 0 {
            None
        } else if starts_with(domain, "www."@) {
            Some(domain.skip("www."@.len() as int))
        } else {
            Some(domain)
        }
    }
}

/// The label that stands for a blob image: `[host image]`, or `[image]`.
pub open spec fn blob_label(tag: Seq<char>) -> Seq<char> {
    match blob_domain(tag) {
        Some(d) => "["@ + d + " image]"@,
        None => "[image]"@,
    }
}

/// What one tag contributes to the output built so far.
#[verifier::opaque]
pub open spec fn apply_tag(out: Seq<char>, inner: Seq<char>) -> Seq<char> {
    let name = tag_name(inner);
    if name == "br"@ {
        out.push('\n')
    } else if is_block_tag(name) {
        if out.len() > 0 && out.last() != '\n' {
            out.push('\n')
        } else {
            out
        }
    } else if name == "img"@ && contains_sub(inner, "blob:"@) {
        out + blob_label(inner)
    } else {
        out
    }
}

/// Tag stripping: text outside `<...>` is kept, each complete tag is replaced
/// by what `apply_tag` makes of it, and an unclosed `<` is kept literally
/// together with everything after it.
#[verifier::opaque]
pub open spec fn strip_tags(rest: Seq<char>, out: Seq<char>) -> Seq<char>
    decreases rest.len(),
{
    let lt: int = find_char(rest, '<');
    if !(0 <= lt < rest.len()) {
        out + rest
    } else {
        let from_lt = rest.skip(lt);
        let gt: int = find_char(from_lt, '>');
        if !(0 < gt < from_lt.len()) {
            out + rest
        } else {
            strip_tags(rest.skip(lt + gt + 1), apply_tag(out + rest.take(lt), from_lt.subrange(1, gt)))
        }
    }
}

/// The thirteen entity replacements, applied one after the other in this
/// order. `&amp;` comes last, so the `&` it yields never starts another
/// entity: every entity is decoded once (`&amp;lt;` gives `&lt;`).
pub open spec fn replace_entities(s: Seq<char>) -> Seq<char> {
    let s = replace_all(s, "&lt;"@, "<"@);
    let s = replace_all(s, "&gt;"@, ">"@);
    let s = replace_all(s, "&nbsp;"@, " "@);
    let s = replace_all(s, "&apos;"@, "'"@);
    let s = replace_all(s, "&quot;"@, "\""@);
    let s = replace_all(s, "&mdash;"@, "\u{2014}"@);
    let s = replace_all(s, "&ndash;"@, "\u{2013}"@);
    let s = replace_all(s, "&hellip;"@, "\u{2026}"@);
    let s = replace_all(s, "&laquo;"@, "\u{ab}"@);
    let s = replace_all(s, "&raquo;"@, "\u{bb}"@);
    let s = replace_all(s, "&#39;"@, "'"@);
    let s = replace_all(s, "&#160;"@, " "@);
    replace_all(s, "&amp;"@, "&"@)
}

/// Entity decoding: text without `&` is unchanged, otherwise the entities
/// are replaced in turn.
pub open spec fn decode_entities(s: Seq<char>) -> Seq<char> {
    if !s.contains('&') {
        s
    } else {
        replace_entities(s)
    }
}

/// Number of `\n` characters at the end of `s`.
pub open spec fn trailing_newlines(s: Seq<char>) -> nat
    decreases s.len(),
{
    if s.len() > 0 && s.last() == '\n' {
        1 + trailing_newlines(s.drop_last())
    } else {
        0
    }
}

/// `s` with every newline dropped that would be the third or later of a run.
pub open spec fn collapse_newline_runs(s: Seq<char>) -> Seq<char>
    decreases s.len(),
{
    if s.len() == 0 {
        s
    } else {
        let kept = collapse_newline_runs(s.drop_last());
        if s.last() == '\n' && trailing_newlines(s) > 2 {
            kept
        } else {
            kept.push(s.last())
        }
    }
}

/// Newline runs collapsed to at most two, then the whole text trimmed.
pub open spec fn collapsed(s: Seq<char>) -> Seq<char> {
    trim(collapse_newline_runs(s))
}

/// The plain text made of an HTML text.
pub open spec fn html_plain(text: Seq<char>) -> Seq<char> {
    collapsed(decode_entities(strip_tags(text, Seq::empty())))
}

/// The bytes a paste delivers: valid UTF-8 with a tag opener is converted to
/// plain text; everything else is delivered as it came.
pub open spec fn sanitized(bytes: Seq<u8>) -> Seq<u8> {
    if valid_utf8(bytes) && has_tag_opener(bytes) {
        encode_utf8(html_plain(decode_utf8(bytes)))
    } else {
        bytes
    }
}


// ---------------------------------------------------------------------------
// Lemmas
// ---------------------------------------------------------------------------

/// The first ASCII whitespace is the unique minimal one.
proof fn lemma_word_end_is(s: Seq<char>, k: int)
    requires
        0 <= k <= s.len(),
        k < s.len() ==> is_ascii_whitespace_char(s[k]),
        forall|j: int| 0 <= j < k ==> !is_ascii_whitespace_char(#[trigger] s[j]),
    ensures
        word_end(s) == k,
{
    if k < s.len() {
        assert(is_ascii_whitespace_char(s[k]));
        let m: int = choose|i: int|
            0 <= i < s.len() && is_ascii_whitespace_char(s[i]) && forall|j: int|
                0 <= j < i ==> !is_ascii_whitespace_char(#[trigger] s[j]);
        assert(0 <= m < s.len() && is_ascii_whitespace_char(s[m]));
        if m < k {
            assert(!is_ascii_whitespace_char(s[m]));
        }
        if k < m {
            assert(!is_ascii_whitespace_char(s[k]));
        }
    } else {
        assert(!exists|i: int| 0 <= i < s.len() && is_ascii_whitespace_char(#[trigger] s[i]));
    }
}

/// The first host-ending character is the unique minimal one.
proof fn lemma_domain_end_is(s: Seq<char>, k: int)
    requires
        0 <= k <= s.len(),
        k < s.len() ==> is_domain_end(s[k]),
        forall|j: int| 0 <= j < k ==> !is_domain_end(#[trigger] s[j]),
    ensures
        domain_end(s) == k,
{
    if k < s.len() {
        assert(is_domain_end(s[k]));
        let m: int = choose|i: int|
            0 <= i < s.len() && is_domain_end(s[i]) && forall|j: int|
                0 <= j < i ==> !is_domain_end(#[trigger] s[j]);
        assert(0 <= m < s.len() && is_domain_end(s[m]));
        if m < k {
            assert(!is_domain_end(s[m]));
        }
        if k < m {
            assert(!is_domain_end(s[k]));
        }
    } else {
        assert(!exists|i: int| 0 <= i < s.len() && is_domain_end(#[trigger] s[i]));
    }
}

/// One unfolding of `strip_tags` when `rest` has a `<` at `lt` closed by the
/// first `>` at `lt + gt`.
proof fn lemma_strip_unfold_tag(rest: Seq<char>, out: Seq<char>, lt: int, gt: int)
    requires
        find_char(rest, '<') == lt,
        0 <= lt < rest.len(),
        find_char(rest.skip(lt), '>') == gt,
        0 < gt < rest.len() - lt,
    ensures
        strip_tags(rest, out) == strip_tags(
            rest.skip(lt + gt + 1),
            apply_tag(out + rest.take(lt), rest.skip(lt).subrange(1, gt)),
        ),
{
    reveal(strip_tags);
}

/// One unfolding of `strip_tags` when stripping stops.
proof fn lemma_strip_unfold_end(rest: Seq<char>, out: Seq<char>)
    requires
        ({
            let lt: int = find_char(rest, '<');
            !(0 <= lt < rest.len()) || !(0 < find_char(rest.skip(lt), '>') < rest.len() - lt)
        }),
    ensures
        strip_tags(rest, out) == out + rest,
{
    reveal(strip_tags);
}

/// One step of tag stripping: the text before `<`, then the tag `<...>`.
proof fn lemma_strip_step(v: Seq<char>, pos: int, lt: int, gt: int, out: Seq<char>)
    requires
        0 <= pos <= lt < gt < v.len(),
        v[lt] == '<',
        forall|j: int| pos <= j < lt ==> v[j] != '<',
        v[gt] == '>',
        forall|j: int| lt <= j < gt ==> v[j] != '>',
    ensures
        strip_tags(v.skip(pos), out) == strip_tags(
            v.skip(gt + 1),
            apply_tag(out + v.subrange(pos, lt), v.subrange(lt + 1, gt)),
        ),
{
    let rest = v.skip(pos);
    let a: int = lt - pos;
    let b: int = gt - lt;
    lemma_find_char_skip(v, pos, '<', lt);
    assert(find_char(rest, '<') == a);
    let from_lt = rest.skip(a);
    assert(from_lt =~= v.skip(lt));
    lemma_find_char_skip(v, lt, '>', gt);
    assert(find_char(from_lt, '>') == b);
    lemma_strip_unfold_tag(rest, out, a, b);
    let head = rest.take(a);
    let inner = from_lt.subrange(1, b);
    let tail = rest.skip(a + b + 1);
    assert(head =~= v.subrange(pos, lt));
    assert(inner =~= v.subrange(lt + 1, gt));
    assert(tail =~= v.skip(gt + 1));
}

/// Tag stripping ends when no `<` is left.
proof fn lemma_strip_no_lt(v: Seq<char>, pos: int, out: Seq<char>)
    requires
        0 <= pos <= v.len(),
        forall|j: int| pos <= j < v.len() ==> v[j] != '<',
    ensures
        strip_tags(v.skip(pos), out) == out + v.skip(pos),
{
    lemma_find_char_none(v, pos, '<');
    lemma_strip_unfold_end(v.skip(pos), out);
}

/// Tag stripping ends when a `<` has no closing `>`.
proof fn lemma_strip_no_gt(v: Seq<char>, pos: int, lt: int, out: Seq<char>)
    requires
        0 <= pos <= lt < v.len(),
        v[lt] == '<',
        forall|j: int| pos <= j < lt ==> v[j] != '<',
        forall|j: int| lt <= j < v.len() ==> v[j] != '>',
    ensures
        strip_tags(v.skip(pos), out) == out + v.skip(pos),
{
    let rest = v.skip(pos);
    lemma_find_char_skip(v, pos, '<', lt);
    assert(rest.skip(lt - pos) =~= v.skip(lt));
    lemma_find_char_none(v, lt, '>');
    lemma_strip_unfold_end(rest, out);
}

// ---------------------------------------------------------------------------
// Executable code
// ---------------------------------------------------------------------------

/// Returns true when `text` contains at least one HTML-ish tag opener:
/// `<letter…` or `</`. A bare `<` followed by whitespace or a digit
/// (e.g. `x < 5`, `i < len`) does not count.
pub fn looks_like_html(text: &str) -> (b: bool)
    ensures
        b == has_tag_opener(text.spec_bytes()),
{
    let bytes = text.as_bytes();
    let mut i: usize = 0;
    while i < bytes.len()
        invariant
            bytes@ == text.spec_bytes(),
            0 <= i <= bytes@.len(),
            forall|j: int| 0 <= j < i ==> !#[trigger] tag_opener_at(bytes@, j),
        decreases bytes@.len() - i,
    {
        if i + 1 < bytes.len() && bytes[i] == 0x3c {
            let next = bytes[i + 1];
            if (0x41 <= next && next <= 0x5a) || (0x61 <= next && next <= 0x7a) || next == 0x2f {
                assert(tag_opener_at(bytes@, i as int));
                return true;
            }
        }
        i = i + 1;
    }
    false
}

/// Position of the first ASCII whitespace character of `v`, or `v.len()`.
fn word_end_exec(v: &[char]) -> (k: usize)
    ensures
        k == word_end(v@),
        k <= v@.len(),
{
    let mut i: usize = 0;
    while i < v.len()
        invariant
            0 <= i <= v@.len(),
            forall|j: int| 0 <= j < i ==> !is_ascii_whitespace_char(#[trigger] v@[j]),
        decreases v@.len() - i,
    {
        if is_ascii_whitespace(v[i]) {
            proof {
                lemma_word_end_is(v@, i as int);
            }
            return i;
        }
        i = i + 1;
    }
    proof {
        lemma_word_end_is(v@, i as int);
    }
    i
}

/// Position of the first host-ending character of `v`, or `v.len()`.
fn domain_end_exec(v: &[char]) -> (k: usize)
    ensures
        k == domain_end(v@),
        k <= v@.len(),
{
    let mut i: usize = 0;
    while i < v.len()
        invariant
            0 <= i <= v@.len(),
            forall|j: int| 0 <= j < i ==> !is_domain_end(#[trigger] v@[j]),
        decreases v@.len() - i,
    {
        let c = v[i];
        if c == '/' || c == '"' || c == '\'' || c == ' ' {
            proof {
                lemma_domain_end_is(v@, i as int);
            }
            return i;
        }
        i = i + 1;
    }
    proof {
        lemma_domain_end_is(v@, i as int);
    }
    i
}

/// The tag name of the text between `<` and `>`.
fn tag_name_exec(inner: &[char]) -> (name: Vec<char>)
    ensures
        name@ == tag_name(inner@),
{
    let start: usize = crate::text::trim_start_index(inner);
    let raw = sub_chars(inner, start, inner.len());
    assert(raw@ =~= trim_start(inner@));
    let we: usize = word_end_exec(raw.as_slice());
    let mut word: Vec<char> = Vec::new();
    let mut i: usize = 0;
    while i < we
        invariant
            we == word_end(raw@),
            0 <= we <= raw@.len(),
            0 <= i <= we,
            word@ == ascii_lower(raw@.take(i as int)),
        decreases we - i,
    {
        word.push(to_ascii_lower(raw[i]));
        i = i + 1;
        assert(word@ =~= ascii_lower(raw@.take(i as int)));
    }
    let mut e: usize = word.len();
    assert(word@.take(e as int) =~= word@);
    while e > 0 && word[e - 1] == '/'
        invariant
            0 <= e <= word@.len(),
            trim_end_slashes(word@) == trim_end_slashes(word@.take(e as int)),
        decreases e,
    {
        assert(word@.take(e as int).drop_last() =~= word@.take(e - 1));
        e = e - 1;
    }
    sub_chars(word.as_slice(), 0, e)
}

/// Whether a tag name is one of the block-level names.
fn is_block_tag_exec(name: &[char]) -> (b: bool)
    ensures
        b == is_block_tag(name@),
{
    eq_str(name, "p") || eq_str(name, "/p") || eq_str(name, "div") || eq_str(name, "/div")
        || eq_str(name, "section") || eq_str(name, "/section") || eq_str(name, "article")
        || eq_str(name, "/article") || eq_str(name, "li") || eq_str(name, "tr") || eq_str(
        name,
        "/tr",
    ) || eq_str(name, "h1") || eq_str(name, "h2") || eq_str(name, "h3") || eq_str(name, "h4")
        || eq_str(name, "h5") || eq_str(name, "h6") || eq_str(name, "/h1") || eq_str(name, "/h2")
        || eq_str(name, "/h3") || eq_str(name, "/h4") || eq_str(name, "/h5") || eq_str(
        name,
        "/h6",
    )
}

/// The host of the first `blob:` URL in `tag`, as characters.
fn blob_domain_chars(tag: &[char]) -> (r: Option<Vec<char>>)
    ensures
        match r {
            Some(d) => blob_domain(tag@) == Some(d@),
            None => blob_domain(tag@) is None,
        },
{
    let blob = chars_of("blob:");
    match find_sub_from(tag, 0, blob.as_slice()) {
        None => {
            assert(!contains_sub(tag@, "blob:"@));
            None
        },
        Some(k) => {
            proof {
                lemma_find_sub_is(tag@, "blob:"@, k as int);
            }
            assert(k + blob.len() <= tag.len());
            let after_blob = sub_chars(tag, k + blob.len(), tag.len());
            assert(after_blob@ =~= tag@.skip(k + "blob:"@.len()));
            let https = chars_of("https://");
            let http = chars_of("http://");
            let after_scheme = if starts_with_exec(after_blob.as_slice(), https.as_slice()) {
                sub_chars(after_blob.as_slice(), https.len(), after_blob.len())
            } else if starts_with_exec(after_blob.as_slice(), http.as_slice()) {
                sub_chars(after_blob.as_slice(), http.len(), after_blob.len())
            } else {
                sub_chars(after_blob.as_slice(), 0, after_blob.len())
            };
            assert(after_scheme@ =~= strip_scheme(after_blob@));
            let de: usize = domain_end_exec(after_scheme.as_slice());
            let domain = sub_chars(after_scheme.as_slice(), 0, de);
            assert(domain@ =~= after_scheme@.take(domain_end(after_scheme@)));
            if domain.len() == 0 {
                return None;
            }
            let www = chars_of("www.");
            if starts_with_exec(domain.as_slice(), www.as_slice()) {
                let d = sub_chars(domain.as_slice(), www.len(), domain.len());
                assert(d@ =~= domain@.skip("www."@.len() as int));
                Some(d)
            } else {
                Some(domain)
            }
        },
    }
}

/// The label for a blob image tag, as characters.
fn blob_label_chars(tag: &[char]) -> (r: Vec<char>)
    ensures
        r@ == blob_label(tag@),
{
    match blob_domain_chars(tag) {
        Some(d) => {
            let mut r = chars_of("[");
            push_all(&mut r, d.as_slice());
            let tail = chars_of(" image]");
            push_all(&mut r, tail.as_slice());
            r
        },
        None => chars_of("[image]"),
    }
}

/// Extract the hostname from a `blob:https://hostname/...` URL inside a tag.
pub fn extract_blob_domain(tag: &str) -> (r: Option<String>)
    ensures
        match r {
            Some(d) => blob_domain(tag@) == Some(d@),
            None => blob_domain(tag@) is None,
        },
{
    let v = chars_of(tag);
    match blob_domain_chars(v.as_slice()) {
        Some(d) => Some(string_of(d.as_slice())),
        None => None,
    }
}

/// Build a short label for a blob-URL `<img>` tag, e.g. `[facebook.com image]`.
pub fn blob_img_label(tag: &str) -> (r: String)
    ensures
        r@ == blob_label(tag@),
{
    let v = chars_of(tag);
    let l = blob_label_chars(v.as_slice());
    string_of(l.as_slice())
}

/// Adds what the tag `<inner>` stands for to `out`.
fn apply_tag_exec(out: &mut Vec<char>, inner: &[char])
    ensures
        final(out)@ == apply_tag(old(out)@, inner@),
{
    proof {
        reveal(apply_tag);
    }
    let name = tag_name_exec(inner);
    if eq_str(name.as_slice(), "br") {
        out.push('\n');
    } else if is_block_tag_exec(name.as_slice()) {
        if out.len() > 0 && out[out.len() - 1] != '\n' {
            out.push('\n');
        }
    } else if eq_str(name.as_slice(), "img") {
        let blob = chars_of("blob:");
        if contains_exec(inner, blob.as_slice()) {
            let label = blob_label_chars(inner);
            push_all(out, label.as_slice());
        }
    }
}

/// Tag stripping over a whole text.
fn strip_tags_exec(v: &[char]) -> (r: Vec<char>)
    ensures
        r@ == strip_tags(v@, Seq::empty()),
{
    let mut out: Vec<char> = Vec::new();
    let mut pos: usize = 0;
    assert(v@.skip(0) =~= v@);
    loop
        invariant
            0 <= pos <= v@.len(),
            strip_tags(v@, Seq::empty()) == strip_tags(v@.skip(pos as int), out@),
        decreases v@.len() - pos,
    {
        match find_char_from(v, pos, '<') {
            None => {
                proof {
                    lemma_strip_no_lt(v@, pos as int, out@);
                }
                push_range(&mut out, v, pos, v.len());
                assert(v@.skip(pos as int) =~= v@.subrange(pos as int, v@.len() as int));
                return out;
            },
            Some(lt) => {
                match find_char_from(v, lt, '>') {
                    None => {
                        proof {
                            lemma_strip_no_gt(v@, pos as int, lt as int, out@);
                        }
                        push_range(&mut out, v, pos, v.len());
                        assert(v@.skip(pos as int) =~= v@.subrange(pos as int, v@.len() as int));
                        return out;
                    },
                    Some(gt) => {
                        proof {
                            lemma_strip_step(v@, pos as int, lt as int, gt as int, out@);
                        }
                        push_range(&mut out, v, pos, lt);
                        let inner = sub_chars(v, lt + 1, gt);
                        apply_tag_exec(&mut out, inner.as_slice());
                        assert(gt < v.len());
                        pos = gt + 1;
                    },
                }
            },
        }
    }
}

/// `replace_all` with a literal pattern and replacement.
fn replace_lit(v: &[char], pat: &str, rep: &str) -> (r: Vec<char>)
    ensures
        r@ == replace_all(v@, pat@, rep@),
{
    let p = chars_of(pat);
    let q = chars_of(rep);
    crate::text::replace_all_exec(v, p.as_slice(), q.as_slice())
}

/// Entity decoding on characters.
fn decode_entities_chars(v: &[char]) -> (r: Vec<char>)
    ensures
        r@ == decode_entities(v@),
{
    match find_char_from(v, 0, '&') {
        None => {
            assert(!v@.contains('&'));
            return sub_chars(v, 0, v.len());
        },
        Some(_) => {},
    }
    let t = replace_lit(v, "&lt;", "<");
    let t = replace_lit(t.as_slice(), "&gt;", ">");
    let t = replace_lit(t.as_slice(), "&nbsp;", " ");
    let t = replace_lit(t.as_slice(), "&apos;", "'");
    let t = replace_lit(t.as_slice(), "&quot;", "\"");
    let t = replace_lit(t.as_slice(), "&mdash;", "\u{2014}");
    let t = replace_lit(t.as_slice(), "&ndash;", "\u{2013}");
    let t = replace_lit(t.as_slice(), "&hellip;", "\u{2026}");
    let t = replace_lit(t.as_slice(), "&laquo;", "\u{ab}");
    let t = replace_lit(t.as_slice(), "&raquo;", "\u{bb}");
    let t = replace_lit(t.as_slice(), "&#39;", "'");
    let t = replace_lit(t.as_slice(), "&#160;", " ");
    replace_lit(t.as_slice(), "&amp;", "&")
}

/// Decode common named and numeric HTML entities.
pub fn decode_html_entities(text: String) -> (r: String)
    ensures
        r@ == decode_entities(text@),
{
    let v = chars_of(text.as_str());
    let d = decode_entities_chars(v.as_slice());
    string_of(d.as_slice())
}

/// Newline-run collapsing and trimming on characters.
fn collapse_chars(v: &[char]) -> (r: Vec<char>)
    ensures
        r@ == collapsed(v@),
{
    let mut out: Vec<char> = Vec::new();
    let mut nl_run: u8 = 0;
    let mut i: usize = 0;
    while i < v.len()
        invariant
            0 <= i <= v@.len(),
            out@ == collapse_newline_runs(v@.take(i as int)),
            nl_run as nat == if trailing_newlines(v@.take(i as int)) < 255 {
                trailing_newlines(v@.take(i as int))
            } else {
                255
            },
        decreases v@.len() - i,
    {
        let ch = v[i];
        assert(v@.take(i + 1).drop_last() =~= v@.take(i as int));
        if ch == '\n' {
            nl_run = nl_run.saturating_add(1);
            if nl_run <= 2 {
                out.push('\n');
            }
        } else {
            nl_run = 0;
            out.push(ch);
        }
        i = i + 1;
    }
    assert(v@.take(v@.len() as int) =~= v@);
    crate::text::trim_exec(out.as_slice())
}

/// Collapse runs of 3+ consecutive newlines to 2 and trim leading/trailing
/// whitespace — removes the blank-line padding that HTML layout adds.
pub fn collapse_blank_lines(text: String) -> (r: String)
    ensures
        r@ == collapsed(text@),
{
    let v = chars_of(text.as_str());
    let c = collapse_chars(v.as_slice());
    string_of(c.as_slice())
}

/// HTML to plain text on characters.
fn html_plain_chars(v: &[char]) -> (r: Vec<char>)
    ensures
        r@ == html_plain(v@),
{
    let stripped = strip_tags_exec(v);
    let decoded = decode_entities_chars(stripped.as_slice());
    collapse_chars(decoded.as_slice())
}

/// Convert HTML to plain text:
///   - `<br>` / `<br/>` → newline
///   - block elements (`<p>`, `<div>`, headings, `<li>`, `<tr>`) → newline
///   - `<img src="blob:…">` → `[domain image]` label (preserves context)
///   - all other tags stripped
///   - common HTML entities decoded (`&amp;`, `&nbsp;`, `&lt;`, …)
///   - runs of 3+ blank lines collapsed to 2
pub fn html_to_plaintext(text: &str) -> (r: String)
    ensures
        r@ == html_plain(text@),
{
    let v = chars_of(text);
    let p = html_plain_chars(v.as_slice());
    string_of(p.as_slice())
}

/// `std::str::from_utf8`. std documents that it succeeds exactly when the
/// bytes are well-formed UTF-8, and then returns the string those bytes
/// encode; `Err` is mapped to `None`.
#[verifier::external_body]
fn utf8_text(bytes: &[u8]) -> (r: Option<&str>)
    ensures
        r is Some <==> valid_utf8(bytes@),
        r matches Some(s) ==> s@ == decode_utf8(bytes@),
{
    match std::str::from_utf8(bytes) {
        Ok(s) => Some(s),
        Err(_) => None,
    }
}

/// Whether two byte slices are equal.
fn bytes_eq(a: &[u8], b: &[u8]) -> (r: bool)
    ensures
        r == (a@ == b@),
{
    if a.len() != b.len() {
        return false;
    }
    let mut i: usize = 0;
    while i < a.len()
        invariant
            a@.len() == b@.len(),
            0 <= i <= a@.len(),
            forall|j: int| 0 <= j < i ==> a@[j] == b@[j],
        decreases a@.len() - i,
    {
        if a[i] != b[i] {
            return false;
        }
        i = i + 1;
    }
    assert(a@ =~= b@);
    true
}

/// Strip HTML markup from clipboard text so that content copied from
/// browsers pastes as clean plain text instead of raw `<span>`, `<div>`,
/// `<img blob:…/>` etc.
///
/// Only fires when the text contains an HTML-ish tag opener (`<letter`
/// or `</`). Plain text, code with `<`/`>` operators, and non-UTF-8
/// bytes all pass through untouched, borrowed.
pub fn sanitize_clipboard_text(bytes: &[u8]) -> (r: Cow<'_, [u8]>)
    ensures
        r@ == sanitized(bytes@),
        (r matches Cow::Borrowed(_)) <==> sanitized(bytes@) == bytes@,
{
    let text = match utf8_text(bytes) {
        Some(t) => t,
        None => {
            return Cow::Borrowed(bytes);
        },
    };
    proof {
        vstd::utf8::decode_utf8_encode_utf8(bytes@);
    }
    assert(text.spec_bytes() == bytes@);
    if !looks_like_html(text) {
        return Cow::Borrowed(bytes);
    }
    let out = html_to_plaintext(text);
    let out_bytes = out.as_str().as_bytes();
    if bytes_eq(out_bytes, bytes) {
        Cow::Borrowed(bytes)
    } else {
        Cow::Owned(vstd::slice::slice_to_vec(out_bytes))
    }
}


// ---------------------------------------------------------------------------
// Image and text paste decisions
// ---------------------------------------------------------------------------

/// Opt-in switch for the image-as-path fast path: the value of
/// `FLASHPASTE_IMAGE_AS_PATH` (`None` when unset or not Unicode) is truthy:
/// `1`, `true`, `yes`, `on` (case-insensitive, surrounding whitespace ignored).
pub fn image_as_path_enabled(value: Option<&str>) -> (b: bool)
    ensures
        b == (value matches Some(v) && flag_on(v@)),
{
    flag_is_on(value)
}

/// The coding agent detected in the target pane.
#[derive(Debug, Clone, Copy, PartialEq, Eq, Structural)]
pub enum AgentKind {
    ClaudeCode,
    Codex,
    Aider,
    /// Any other program, or none recognised.
    Other,
}

/// How a staged image reaches the pane.
#[derive(Debug, Clone, Copy, PartialEq, Eq, Structural)]
pub enum ImageRoute {
    /// The image is written to a file and its path pasted as text.
    AsPath,
    /// The image is handed to Aider through its agent adapter.
    AiderAdapter,
    /// Ctrl-V is injected and the agent reads the clipboard.
    CtrlV,
}

/// The route of an image paste: as a path when that is enabled and the agent
/// attaches images named by path; through the adapter for Aider; Ctrl-V
/// otherwise.
pub open spec fn image_route(as_path_enabled: bool, agent: AgentKind) -> ImageRoute {
    if as_path_enabled && (agent == AgentKind::ClaudeCode || agent == AgentKind::Codex) {
        ImageRoute::AsPath
    } else if agent == AgentKind::Aider {
        ImageRoute::AiderAdapter
    } else {
        ImageRoute::CtrlV
    }
}

/// Chooses how a staged image is pasted into a pane running `agent`.
pub fn choose_image_route(as_path_enabled: bool, agent: AgentKind) -> (r: ImageRoute)
    ensures
        r == image_route(as_path_enabled, agent),
{
    let path_agent = match agent {
        AgentKind::ClaudeCode => true,
        AgentKind::Codex => true,
        _ => false,
    };
    if as_path_enabled && path_agent {
        ImageRoute::AsPath
    } else {
        match agent {
            AgentKind::Aider => ImageRoute::AiderAdapter,
            _ => ImageRoute::CtrlV,
        }
    }
}

/// The line pasted for an image sent as a path: the path's bytes and a space.
pub fn path_paste_line(path_bytes: &[u8]) -> (line: Vec<u8>)
    ensures
        line@ == path_bytes@.push(0x20),
{
    let mut line = vstd::slice::slice_to_vec(path_bytes);
    line.push(0x20u8);
    line
}

/// `s` with every leading repetition of `pat` removed.
pub open spec fn strip_prefix_repeated(s: Seq<char>, pat: Seq<char>) -> Seq<char>
    decreases s.len(),
{
    if pat.len() > 0 && starts_with(s, pat) {
        strip_prefix_repeated(s.skip(pat.len() as int), pat)
    } else {
        s
    }
}

/// The name an image paste is logged under: the staged file's name without
/// leading `Screenshot from ` prefixes, or `<no-name>`.
pub open spec fn payload_display_name(path: Seq<char>) -> Seq<char> {
    match file_name(path) {
        Some(n) => strip_prefix_repeated(n, "Screenshot from "@),
        None => "<no-name>"@,
    }
}

/// The name an image paste of the file at `path` is logged under.
pub fn payload_name(path: &str) -> (r: String)
    ensures
        r@ == payload_display_name(path@),
{
    let v = chars_of(path);
    match file_name_chars(v.as_slice()) {
        None => string_of(chars_of("<no-name>").as_slice()),
        Some(n) => {
            let pat = chars_of("Screenshot from ");
            let mut start: usize = 0;
            assert(n@.skip(0) =~= n@);
            let mut more = pat.len() > 0 && crate::text::matches_at_exec(
                n.as_slice(),
                start,
                pat.as_slice(),
            );
            while more
                invariant
                    pat@ == "Screenshot from "@,
                    0 <= start <= n@.len(),
                    more == (pat@.len() > 0 && matches_at(n@, start as int, pat@)),
                    strip_prefix_repeated(n@, pat@) == strip_prefix_repeated(
                        n@.skip(start as int),
                        pat@,
                    ),
                decreases n@.len() - start,
            {
                proof {
                    lemma_matches_skip(n@, start as int, 0, pat@);
                }
                assert(start + pat.len() <= n.len());
                assert(n@.skip(start as int).skip(pat@.len() as int) =~= n@.skip(
                    start + pat@.len(),
                ));
                start = start + pat.len();
                more = pat.len() > 0 && crate::text::matches_at_exec(
                    n.as_slice(),
                    start,
                    pat.as_slice(),
                );
            }
            proof {
                lemma_matches_skip(n@, start as int, 0, pat@);
            }
            let rest = sub_chars(n.as_slice(), start, n.len());
            assert(rest@ =~= n@.skip(start as int));
            string_of(rest.as_slice())
        },
    }
}

/// The tmux arguments of a text paste into `pane`: `load-buffer` reads the
/// text from stdin into buffer `fp_text`, then `paste-buffer -p` (bracketed
/// paste) writes it into the pane, both in one `tmux` process.
pub open spec fn text_paste_args(pane: Seq<char>) -> Seq<Seq<char>> {
    seq![
        "load-buffer"@,
        "-b"@,
        "fp_text"@,
        "-"@,
        ";"@,
        "paste-buffer"@,
        "-p"@,
        "-b"@,
        "fp_text"@,
        "-t"@,
        pane,
    ]
}

/// Appends a literal argument.
fn push_arg(out: &mut Vec<String>, a: &str)
    ensures
        strings_view(final(out)@) == strings_view(old(out)@).push(a@),
{
    let s = string_of(chars_of(a).as_slice());
    out.push(s);
    assert(strings_view(out@) =~= strings_view(old(out)@).push(a@));
}

/// The tmux arguments of a text paste into `pane`.
pub fn tmux_text_paste_args(pane: &str) -> (args: Vec<String>)
    ensures
        strings_view(args@) == text_paste_args(pane@),
{
    let mut out: Vec<String> = Vec::new();
    push_arg(&mut out, "load-buffer");
    push_arg(&mut out, "-b");
    push_arg(&mut out, "fp_text");
    push_arg(&mut out, "-");
    push_arg(&mut out, ";");
    push_arg(&mut out, "paste-buffer");
    push_arg(&mut out, "-p");
    push_arg(&mut out, "-b");
    push_arg(&mut out, "fp_text");
    push_arg(&mut out, "-t");
    push_arg(&mut out, pane);
    assert(strings_view(out@) =~= text_paste_args(pane@));
    out
}


// ---------------------------------------------------------------------------
// Laws
// ---------------------------------------------------------------------------

/// No three consecutive newlines occur in `s`.
pub open spec fn no_triple_newline(s: Seq<char>) -> bool {
    forall|i: int|
        0 <= i && i + 2 < s.len() ==> !(#[trigger] s[i] == '\n' && s[i + 1] == '\n' && s[i + 2]
            == '\n')
}

/// `s` is empty or begins and ends with a character that is not whitespace.
pub open spec fn is_trimmed(s: Seq<char>) -> bool {
    s.len() > 0 ==> !is_unicode_whitespace(s[0]) && !is_unicode_whitespace(s.last())
}

/// `trailing_newlines(s) >= k` exactly when the last `k` characters are
/// newlines.
proof fn lemma_trailing_newlines(s: Seq<char>, k: nat)
    ensures
        trailing_newlines(s) <= s.len(),
        k <= trailing_newlines(s) <==> (k <= s.len() && forall|j: int|
            s.len() - k <= j < s.len() ==> s[j] == '\n'),
    decreases s.len(),
{
    if s.len() > 0 && s.last() == '\n' {
        if k > 0 {
            lemma_trailing_newlines(s.drop_last(), (k - 1) as nat);
            if k <= s.len() && (forall|j: int| s.len() - k <= j < s.len() ==> s[j] == '\n') {
                assert forall|j: int|
                    s.drop_last().len() - (k - 1) <= j < s.drop_last().len() implies s.drop_last()[j]
                    == '\n' by {
                    assert(s.drop_last()[j] == s[j]);
                }
            }
            if k - 1 <= trailing_newlines(s.drop_last()) {
                assert forall|j: int| s.len() - k <= j < s.len() implies s[j] == '\n' by {
                    if j < s.len() - 1 {
                        assert(s.drop_last()[j] == s[j]);
                    }
                }
            }
        } else {
            lemma_trailing_newlines(s.drop_last(), 0);
        }
    } else if s.len() > 0 {
        if k > 0 && k <= s.len() {
            assert(s[s.len() - 1] != '\n');
        }
    }
}

/// Collapsing keeps runs of newlines at two at most and leaves the trailing
/// run capped at two.
proof fn lemma_collapse_runs(s: Seq<char>)
    ensures
        no_triple_newline(collapse_newline_runs(s)),
        trailing_newlines(collapse_newline_runs(s)) == if trailing_newlines(s) < 2 {
            trailing_newlines(s)
        } else {
            2
        },
    decreases s.len(),
{
    if s.len() > 0 {
        let p = s.drop_last();
        let c = s.last();
        let q0 = collapse_newline_runs(p);
        lemma_collapse_runs(p);
        let q = collapse_newline_runs(s);
        if c == '\n' && trailing_newlines(s) > 2 {
            assert(q == q0);
        } else {
            assert(q == q0.push(c));
            assert(q.drop_last() =~= q0);
            if c == '\n' {
                assert(trailing_newlines(q0) < 2);
                assert forall|i: int|
                    0 <= i && i + 2 < q.len() implies !(#[trigger] q[i] == '\n' && q[i + 1] == '\n'
                    && q[i + 2] == '\n') by {
                    if i + 2 == q.len() - 1 {
                        if q[i] == '\n' && q[i + 1] == '\n' {
                            lemma_trailing_newlines(q0, 2);
                            assert(q0[q0.len() - 2] == q[i]);
                            assert(q0[q0.len() - 1] == q[i + 1]);
                        }
                    } else {
                        assert(q[i] == q0[i] && q[i + 1] == q0[i + 1] && q[i + 2] == q0[i + 2]);
                    }
                }
            } else {
                assert forall|i: int|
                    0 <= i && i + 2 < q.len() implies !(#[trigger] q[i] == '\n' && q[i + 1] == '\n'
                    && q[i + 2] == '\n') by {
                    if i + 2 < q.len() - 1 {
                        assert(q[i] == q0[i] && q[i + 1] == q0[i + 1] && q[i + 2] == q0[i + 2]);
                    }
                }
            }
        }
    }
}

/// Leading-whitespace trimming drops a prefix and stops at a non-whitespace
/// character.
proof fn lemma_trim_start(s: Seq<char>)
    ensures
        exists|k: int| 0 <= k <= s.len() && trim_start(s) == s.skip(k),
        trim_start(s).len() > 0 ==> !is_unicode_whitespace(trim_start(s)[0]),
    decreases s.len(),
{
    if s.len() > 0 && is_unicode_whitespace(s[0]) {
        lemma_trim_start(s.drop_first());
        let k: int = choose|k: int|
            0 <= k <= s.drop_first().len() && trim_start(s.drop_first()) == s.drop_first().skip(k);
        assert(s.drop_first().skip(k) =~= s.skip(k + 1));
    } else {
        assert(s.skip(0) =~= s);
    }
}

/// Trailing-whitespace trimming keeps a prefix and stops at a non-whitespace
/// character; it keeps a first character that is not whitespace.
proof fn lemma_trim_end(s: Seq<char>)
    ensures
        exists|k: int| 0 <= k <= s.len() && trim_end(s) == s.take(k),
        trim_end(s).len() > 0 ==> !is_unicode_whitespace(trim_end(s).last()),
        s.len() > 0 && !is_unicode_whitespace(s[0]) ==> trim_end(s).len() > 0,
    decreases s.len(),
{
    if s.len() > 0 && is_unicode_whitespace(s.last()) {
        lemma_trim_end(s.drop_last());
        let k: int = choose|k: int|
            0 <= k <= s.drop_last().len() && trim_end(s.drop_last()) == s.drop_last().take(k);
        assert(s.drop_last().take(k) =~= s.take(k));
        if s.len() > 0 && !is_unicode_whitespace(s[0]) {
            assert(s.len() > 1);
            assert(s.drop_last()[0] == s[0]);
        }
    } else {
        assert(s.take(s.len() as int) =~= s);
    }
}

/// Trimming yields a trimmed piece of the text.
proof fn lemma_trim(s: Seq<char>)
    ensures
        is_trimmed(trim(s)),
        exists|a: int, b: int| 0 <= a <= b <= s.len() && trim(s) == s.subrange(a, b),
{
    lemma_trim_start(s);
    let t = trim_start(s);
    let a = choose|k: int| 0 <= k <= s.len() && t == s.skip(k);
    lemma_trim_end(t);
    let b = choose|k: int| 0 <= k <= t.len() && trim_end(t) == t.take(k);
    assert(t.take(b) =~= s.subrange(a, a + b));
    let r = trim(s);
    if r.len() > 0 {
        assert(r[0] == t[0]);
    }
}

/// Collapsing blank lines leaves no run of three or more newlines, and no
/// leading or trailing whitespace.
pub proof fn law_collapsed_text_is_tidy(s: Seq<char>)
    ensures
        no_triple_newline(collapsed(s)),
        is_trimmed(collapsed(s)),
{
    let q = collapse_newline_runs(s);
    lemma_collapse_runs(s);
    lemma_trim(q);
    let (a, b) = choose|a: int, b: int| 0 <= a <= b <= q.len() && trim(q) == q.subrange(a, b);
    let r = trim(q);
    assert forall|i: int|
        0 <= i && i + 2 < r.len() implies !(#[trigger] r[i] == '\n' && r[i + 1] == '\n' && r[i + 2]
        == '\n') by {
        assert(r[i] == q[a + i] && r[i + 1] == q[a + i + 1] && r[i + 2] == q[a + i + 2]);
    }
}

/// The plain text made of HTML never holds three newlines in a row and
/// never starts or ends with whitespace.
pub proof fn law_html_plain_is_tidy(text: Seq<char>)
    ensures
        no_triple_newline(html_plain(text)),
        is_trimmed(html_plain(text)),
{
    law_collapsed_text_is_tidy(decode_entities(strip_tags(text, Seq::empty())));
}

/// Text without three newlines in a row is left alone by run collapsing.
proof fn lemma_collapse_runs_fixed(t: Seq<char>)
    requires
        no_triple_newline(t),
    ensures
        collapse_newline_runs(t) == t,
    decreases t.len(),
{
    if t.len() > 0 {
        let p = t.drop_last();
        assert forall|i: int|
            0 <= i && i + 2 < p.len() implies !(#[trigger] p[i] == '\n' && p[i + 1] == '\n' && p[i
            + 2] == '\n') by {
            assert(p[i] == t[i] && p[i + 1] == t[i + 1] && p[i + 2] == t[i + 2]);
        }
        lemma_collapse_runs_fixed(p);
        if t.last() == '\n' {
            lemma_trailing_newlines(t, 3);
            if trailing_newlines(t) >= 3 {
                assert(t[t.len() - 3] == '\n' && t[t.len() - 2] == '\n' && t[t.len() - 1] == '\n');
                assert(false);
            }
        }
        assert(p.push(t.last()) =~= t);
    }
}

/// A trimmed text is left alone by trimming.
proof fn lemma_trim_fixed(t: Seq<char>)
    requires
        is_trimmed(t),
    ensures
        trim(t) == t,
{
    assert(trim_start(t) == t);
    assert(trim_end(t) == t);
}

/// Collapsing blank lines is idempotent: collapsing a collapsed text again
/// changes nothing.
pub proof fn law_collapse_idempotent(s: Seq<char>)
    ensures
        collapsed(collapsed(s)) == collapsed(s),
{
    let t = collapsed(s);
    law_collapsed_text_is_tidy(s);
    lemma_collapse_runs_fixed(t);
    lemma_trim_fixed(t);
}

/// Every `<` of `s` is closed by a `>` somewhere after it.
pub open spec fn tags_closed(s: Seq<char>) -> bool {
    forall|i: int|
        0 <= i < s.len() && #[trigger] s[i] == '<' ==> exists|j: int| i < j < s.len() && s[j] == '>'
}

/// Neither `a` nor `b` holds `c`, so neither does `a + b`.
proof fn lemma_concat_lacks(a: Seq<char>, b: Seq<char>, c: char)
    requires
        !a.contains(c),
        !b.contains(c),
    ensures
        !(a + b).contains(c),
{
    assert forall|k: int| 0 <= k < (a + b).len() implies (a + b)[k] != c by {
        if k < a.len() {
            assert((a + b)[k] == a[k]);
        } else {
            assert((a + b)[k] == b[k - a.len()]);
        }
    }
}

/// A piece of `s` lacks what `s` lacks.
proof fn lemma_subrange_lacks(s: Seq<char>, a: int, b: int, c: char)
    requires
        0 <= a <= b <= s.len(),
        !s.contains(c),
    ensures
        !s.subrange(a, b).contains(c),
{
    assert forall|k: int| 0 <= k < b - a implies s.subrange(a, b)[k] != c by {
        assert(s.subrange(a, b)[k] == s[a + k]);
    }
}

/// A piece of `s` holds no `blob:` when `s` holds none.
proof fn lemma_subrange_no_blob(s: Seq<char>, a: int, b: int)
    requires
        0 <= a <= b <= s.len(),
        !contains_sub(s, "blob:"@),
    ensures
        !contains_sub(s.subrange(a, b), "blob:"@),
{
    let t = s.subrange(a, b);
    let pat = "blob:"@;
    if contains_sub(t, pat) {
        let i = choose|i: int| matches_at(t, i, pat);
        assert(s.subrange(a + i, a + i + pat.len()) =~= t.subrange(i, i + pat.len()));
        assert(matches_at(s, a + i, pat));
    }
}

/// Stripping text whose tags are all closed, without `&` or `blob:`, onto
/// an output without `<` or `&`, leaves no `<` and no `&`.
proof fn lemma_strip_clean(rest: Seq<char>, out: Seq<char>)
    requires
        !out.contains('<'),
        !out.contains('&'),
        !rest.contains('&'),
        !contains_sub(rest, "blob:"@),
        tags_closed(rest),
    ensures
        !strip_tags(rest, out).contains('<'),
        !strip_tags(rest, out).contains('&'),
    decreases rest.len(),
{
    lemma_find_char_spec(rest, '<');
    let lt = find_char(rest, '<');
    if lt == -1 {
        lemma_strip_unfold_end(rest, out);
        lemma_concat_lacks(out, rest, '<');
        lemma_concat_lacks(out, rest, '&');
    } else {
        let from_lt = rest.skip(lt);
        assert(rest[lt] == '<');
        let j = choose|j: int| lt < j < rest.len() && rest[j] == '>';
        assert(from_lt[j - lt] == '>');
        lemma_find_char_spec(from_lt, '>');
        let gt = find_char(from_lt, '>');
        assert(from_lt.contains('>'));
        assert(from_lt[0] == '<');
        assert(0 < gt < from_lt.len());
        lemma_strip_unfold_tag(rest, out, lt, gt);
        let head = rest.take(lt);
        assert(!head.contains('<')) by {
            assert forall|k: int| 0 <= k < head.len() implies head[k] != '<' by {
                assert(head[k] == rest[k]);
            }
        }
        assert(head =~= rest.subrange(0, lt));
        lemma_subrange_lacks(rest, 0, lt, '&');
        let out1 = out + head;
        lemma_concat_lacks(out, head, '<');
        lemma_concat_lacks(out, head, '&');
        let inner = from_lt.subrange(1, gt);
        assert(inner =~= rest.subrange(lt + 1, lt + gt));
        lemma_subrange_no_blob(rest, lt + 1, lt + gt);
        let out2 = apply_tag(out1, inner);
        assert(!out2.contains('<') && !out2.contains('&')) by {
            reveal(apply_tag);
            if out2 != out1 {
                assert(out2 == out1.push('\n'));
                lemma_concat_lacks(out1, seq!['\n'], '<');
                lemma_concat_lacks(out1, seq!['\n'], '&');
                assert(out1.push('\n') =~= out1 + seq!['\n']);
            }
        }
        let off = lt + gt + 1;
        let rest2 = rest.skip(off);
        assert(rest2 =~= rest.subrange(off, rest.len() as int));
        lemma_subrange_lacks(rest, off, rest.len() as int, '&');
        lemma_subrange_no_blob(rest, off, rest.len() as int);
        assert forall|i: int| 0 <= i < rest2.len() && #[trigger] rest2[i] == '<' implies exists|
            j2: int,
        | i < j2 < rest2.len() && rest2[j2] == '>' by {
            assert(rest[off + i] == '<');
            let j3 = choose|j3: int| off + i < j3 < rest.len() && rest[j3] == '>';
            assert(rest2[j3 - off] == '>');
        }
        lemma_strip_clean(rest2, out2);
    }
}

/// Run collapsing only removes characters: a character other than `\n`
/// that the text lacks stays absent.
proof fn lemma_collapse_runs_lacks(s: Seq<char>, c: char)
    requires
        !s.contains(c),
    ensures
        !collapse_newline_runs(s).contains(c),
    decreases s.len(),
{
    if s.len() > 0 {
        let p = s.drop_last();
        assert(!p.contains(c)) by {
            assert forall|k: int| 0 <= k < p.len() implies p[k] != c by {
                assert(p[k] == s[k]);
            }
        }
        lemma_collapse_runs_lacks(p, c);
        let q0 = collapse_newline_runs(p);
        assert(s.last() != c) by {
            assert(s[s.len() - 1] != c);
        }
        assert(q0.push(s.last()) =~= q0 + seq![s.last()]);
        lemma_concat_lacks(q0, seq![s.last()], c);
    }
}

/// All tags are stripped: HTML without `&` or `blob:` whose every `<` is
/// closed by a later `>` becomes plain text holding no `<`, never three
/// newlines in a row, and no surrounding whitespace.
pub proof fn law_all_tags_stripped(text: Seq<char>)
    requires
        !text.contains('&'),
        !contains_sub(text, "blob:"@),
        tags_closed(text),
    ensures
        !html_plain(text).contains('<'),
        no_triple_newline(html_plain(text)),
        is_trimmed(html_plain(text)),
{
    let x = strip_tags(text, Seq::empty());
    lemma_strip_clean(text, Seq::empty());
    assert(decode_entities(x) == x);
    let q = collapse_newline_runs(x);
    lemma_collapse_runs_lacks(x, '<');
    lemma_trim(q);
    let (a, b) = choose|a: int, b: int| 0 <= a <= b <= q.len() && trim(q) == q.subrange(a, b);
    lemma_subrange_lacks(q, a, b, '<');
    law_html_plain_is_tidy(text);
}

/// Bytes that are not UTF-8, and text without a tag opener (`<letter` or
/// `</`), pass through sanitizing unchanged.
pub proof fn law_non_html_passes_through(bytes: Seq<u8>)
    requires
        !valid_utf8(bytes) || !has_tag_opener(bytes),
    ensures
        sanitized(bytes) == bytes,
{
}

/// Text without `&` is left alone by entity decoding.
pub proof fn law_no_ampersand_no_decoding(s: Seq<char>)
    requires
        !s.contains('&'),
    ensures
        decode_entities(s) == s,
{
}

// ---------------------------------------------------------------------------
// Every entity is decoded, everywhere
// ---------------------------------------------------------------------------

/// A character that can occur in an entity's text.
spec fn is_entity_char(c: char) -> bool {
    ('a' <= c && c <= 'z') || ('0' <= c && c <= '9') || c == '&' || c == '#' || c == ';'
}

/// A non-empty text made of entity characters.
spec fn entity_word(q: Seq<char>) -> bool {
    q.len() > 0 && forall|i: int| 0 <= i < q.len() ==> is_entity_char(#[trigger] q[i])
}

/// A non-empty text with no entity character.
spec fn plain_text(r: Seq<char>) -> bool {
    r.len() > 0 && forall|i: int| 0 <= i < r.len() ==> !is_entity_char(#[trigger] r[i])
}

/// The entities that are decoded, `&amp;` first.
spec fn entity_texts() -> Seq<Seq<char>> {
    seq![
        "&amp;"@, "&lt;"@, "&gt;"@, "&nbsp;"@, "&apos;"@, "&quot;"@, "&mdash;"@, "&ndash;"@,
        "&hellip;"@, "&laquo;"@, "&raquo;"@, "&#39;"@, "&#160;"@,
    ]
}

proof fn lemma_entity_texts()
    ensures
        entity_texts().len() == 13,
        forall|i: int| 0 <= i < 13 ==> entity_word(#[trigger] entity_texts()[i]),
        forall|i: int| 0 <= i < 13 ==> (#[trigger] entity_texts()[i])[0] == '&',
{
    reveal_strlit("&amp;");
    reveal_strlit("&lt;");
    reveal_strlit("&gt;");
    reveal_strlit("&nbsp;");
    reveal_strlit("&apos;");
    reveal_strlit("&quot;");
    reveal_strlit("&mdash;");
    reveal_strlit("&ndash;");
    reveal_strlit("&hellip;");
    reveal_strlit("&laquo;");
    reveal_strlit("&raquo;");
    reveal_strlit("&#39;");
    reveal_strlit("&#160;");
    let e = entity_texts();
    assert forall|i: int| 0 <= i < 13 implies entity_word(#[trigger] e[i]) by {
        let q = e[i];
        assert forall|j: int| 0 <= j < q.len() implies is_entity_char(#[trigger] q[j]) by {
            if j == 0 {} else if j == 1 {} else if j == 2 {} else if j == 3 {} else if j == 4 {
            } else if j == 5 {} else if j == 6 {} else if j == 7 {}
        }
    }
}

proof fn lemma_plain_text(r: Seq<char>, c: char)
    requires
        r.len() == 1,
        r[0] == c,
        !is_entity_char(c),
    ensures
        plain_text(r),
{
}

/// No character of a plain text occurs in an entity word.
proof fn lemma_plain_avoids(q: Seq<char>, r: Seq<char>)
    requires
        entity_word(q),
        plain_text(r),
    ensures
        forall|k: int| 0 <= k < r.len() ==> !q.contains(#[trigger] r[k]),
{
    assert forall|k: int| 0 <= k < r.len() implies !q.contains(#[trigger] r[k]) by {
        if q.contains(r[k]) {
            let j = choose|j: int| 0 <= j < q.len() && q[j] == r[k];
            assert(is_entity_char(q[j]));
        }
    }
}

/// One replacement step: replacing entity `k` by a plain text leaves none of
/// entities `0..=k` behind when entities `0..k` were already gone.
proof fn lemma_entity_step(s: Seq<char>, k: int, rep: Seq<char>)
    requires
        1 <= k < 13,
        plain_text(rep),
        forall|i: int| 0 <= i < k ==> !contains_sub(s, #[trigger] entity_texts()[i]),
    ensures
        forall|i: int|
            0 <= i <= k ==> !contains_sub(
                replace_all(s, entity_texts()[k], rep),
                #[trigger] entity_texts()[i],
            ),
{
    lemma_entity_texts();
    let e = entity_texts();
    lemma_plain_avoids(e[k], rep);
    lemma_replace_all_removes(s, e[k], rep);
    assert forall|i: int| 0 <= i <= k implies !contains_sub(
        replace_all(s, e[k], rep),
        #[trigger] e[i],
    ) by {
        if i < k {
            lemma_plain_avoids(e[i], rep);
            lemma_replace_all_keeps_absent(s, e[k], rep, e[i]);
        }
    }
}

/// Every entity is decoded wherever it occurs: when the text holds no
/// `&amp;` (whose decoding may legitimately leave entity text behind, as
/// `&amp;lt;` gives `&lt;`), no occurrence of any decoded entity remains.
pub proof fn law_entities_all_decoded(s: Seq<char>)
    requires
        !contains_sub(s, "&amp;"@),
    ensures
        !contains_sub(decode_entities(s), "&lt;"@),
        !contains_sub(decode_entities(s), "&gt;"@),
        !contains_sub(decode_entities(s), "&nbsp;"@),
        !contains_sub(decode_entities(s), "&apos;"@),
        !contains_sub(decode_entities(s), "&quot;"@),
        !contains_sub(decode_entities(s), "&mdash;"@),
        !contains_sub(decode_entities(s), "&ndash;"@),
        !contains_sub(decode_entities(s), "&hellip;"@),
        !contains_sub(decode_entities(s), "&laquo;"@),
        !contains_sub(decode_entities(s), "&raquo;"@),
        !contains_sub(decode_entities(s), "&#39;"@),
        !contains_sub(decode_entities(s), "&#160;"@),
        !contains_sub(decode_entities(s), "&amp;"@),
{
    lemma_entity_texts();
    let e = entity_texts();
    reveal_strlit("<");
    reveal_strlit(">");
    reveal_strlit(" ");
    reveal_strlit("'");
    reveal_strlit("\"");
    reveal_strlit("\u{2014}");
    reveal_strlit("\u{2013}");
    reveal_strlit("\u{2026}");
    reveal_strlit("\u{ab}");
    reveal_strlit("\u{bb}");
    if !s.contains('&') {
        assert forall|i: int| 0 <= i < 13 implies !contains_sub(s, #[trigger] e[i]) by {
            if contains_sub(s, e[i]) {
                let j = choose|j: int| matches_at(s, j, e[i]);
                assert(s.subrange(j, j + e[i].len())[0] == s[j]);
            }
        }
    } else {
        lemma_plain_text("<"@, '<');
        lemma_plain_text(">"@, '>');
        lemma_plain_text(" "@, ' ');
        lemma_plain_text("'"@, '\'');
        lemma_plain_text("\""@, '"');
        lemma_plain_text("\u{2014}"@, '\u{2014}');
        lemma_plain_text("\u{2013}"@, '\u{2013}');
        lemma_plain_text("\u{2026}"@, '\u{2026}');
        lemma_plain_text("\u{ab}"@, '\u{ab}');
        lemma_plain_text("\u{bb}"@, '\u{bb}');
        let s1 = replace_all(s, "&lt;"@, "<"@);
        lemma_entity_step(s, 1, "<"@);
        let s2 = replace_all(s1, "&gt;"@, ">"@);
        lemma_entity_step(s1, 2, ">"@);
        let s3 = replace_all(s2, "&nbsp;"@, " "@);
        lemma_entity_step(s2, 3, " "@);
        let s4 = replace_all(s3, "&apos;"@, "'"@);
        lemma_entity_step(s3, 4, "'"@);
        let s5 = replace_all(s4, "&quot;"@, "\""@);
        lemma_entity_step(s4, 5, "\""@);
        let s6 = replace_all(s5, "&mdash;"@, "\u{2014}"@);
        lemma_entity_step(s5, 6, "\u{2014}"@);
        let s7 = replace_all(s6, "&ndash;"@, "\u{2013}"@);
        lemma_entity_step(s6, 7, "\u{2013}"@);
        let s8 = replace_all(s7, "&hellip;"@, "\u{2026}"@);
        lemma_entity_step(s7, 8, "\u{2026}"@);
        let s9 = replace_all(s8, "&laquo;"@, "\u{ab}"@);
        lemma_entity_step(s8, 9, "\u{ab}"@);
        let s10 = replace_all(s9, "&raquo;"@, "\u{bb}"@);
        lemma_entity_step(s9, 10, "\u{bb}"@);
        let s11 = replace_all(s10, "&#39;"@, "'"@);
        lemma_entity_step(s10, 11, "'"@);
        let s12 = replace_all(s11, "&#160;"@, " "@);
        lemma_entity_step(s11, 12, " "@);
        assert(!contains_sub(s12, e[0]));
        lemma_replace_all_absent(s12, "&amp;"@, "&"@);
        assert(decode_entities(s) == s12);
    }
    assert(e[0] == "&amp;"@);
    assert(e[1] == "&lt;"@);
    assert(e[2] == "&gt;"@);
    assert(e[3] == "&nbsp;"@);
    assert(e[4] == "&apos;"@);
    assert(e[5] == "&quot;"@);
    assert(e[6] == "&mdash;"@);
    assert(e[7] == "&ndash;"@);
    assert(e[8] == "&hellip;"@);
    assert(e[9] == "&laquo;"@);
    assert(e[10] == "&raquo;"@);
    assert(e[11] == "&#39;"@);
    assert(e[12] == "&#160;"@);
}

// ---------------------------------------------------------------------------
// Block-level tags break lines
// ---------------------------------------------------------------------------

/// The block-level elements of the documentation, opening or closing:
/// paragraphs, divisions, sections, articles, list items, table rows and
/// headings.
pub open spec fn documented_block_tag(name: Seq<char>) -> bool {
    ||| name == "p"@ || name == "/p"@
    ||| name == "div"@ || name == "/div"@
    ||| name == "section"@ || name == "/section"@
    ||| name == "article"@ || name == "/article"@
    ||| name == "li"@
    ||| name == "tr"@ || name == "/tr"@
    ||| name == "h1"@ || name == "h2"@ || name == "h3"@ || name == "h4"@ || name == "h5"@
        || name == "h6"@
    ||| name == "/h1"@ || name == "/h2"@ || name == "/h3"@ || name == "/h4"@ || name == "/h5"@
        || name == "/h6"@
}

/// Stripping a leading complete tag `<inner>`: what follows is stripped onto
/// the output as the tag leaves it.
proof fn lemma_strip_leading_tag(inner: Seq<char>, rest: Seq<char>, out: Seq<char>)
    requires
        !inner.contains('>'),
    ensures
        strip_tags(seq!['<'] + inner + seq!['>'] + rest, out) == strip_tags(
            rest,
            apply_tag(out, inner),
        ),
{
    let whole = seq!['<'] + inner + seq!['>'] + rest;
    let gt: int = inner.len() as int + 1;
    lemma_find_char_is(whole, '<', 0);
    assert(whole.skip(0) =~= whole);
    assert forall|j: int| 0 <= j < gt implies whole[j] != '>' by {
        if j > 0 {
            assert(whole[j] == inner[j - 1]);
            if inner[j - 1] == '>' {
                assert(inner.contains('>'));
            }
        }
    }
    assert(whole[gt] == '>');
    lemma_find_char_is(whole, '>', gt);
    lemma_strip_unfold_tag(whole, out, 0, gt);
    assert(whole.skip(gt + 1) =~= rest);
    assert(out + whole.take(0) =~= out);
    assert(whole.skip(0).subrange(1, gt) =~= inner);
}

/// Block-level tags put a line boundary in the plain text: a complete tag
/// whose name is one of the documented block-level elements adds exactly one
/// `\n` after output that does not already end a line, and nothing at the
/// start or right after a newline (so blocks never add blank lines). Tags of
/// any other name, except `br` and blob images, add nothing at all.
pub proof fn law_block_tags_break_lines(inner: Seq<char>, rest: Seq<char>, out: Seq<char>)
    requires
        !inner.contains('>'),
    ensures
        documented_block_tag(tag_name(inner)) && out.len() > 0 && out.last() != '\n'
            ==> strip_tags(seq!['<'] + inner + seq!['>'] + rest, out) == strip_tags(
            rest,
            out.push('\n'),
        ),
        documented_block_tag(tag_name(inner)) && (out.len() == 0 || out.last() == '\n')
            ==> strip_tags(seq!['<'] + inner + seq!['>'] + rest, out) == strip_tags(rest, out),
        !documented_block_tag(tag_name(inner)) && tag_name(inner) != "br"@ && tag_name(inner)
            != "img"@ ==> strip_tags(seq!['<'] + inner + seq!['>'] + rest, out) == strip_tags(
            rest,
            out,
        ),
{
    lemma_strip_leading_tag(inner, rest, out);
    reveal(apply_tag);
    reveal_strlit("br");
    reveal_strlit("p");
    reveal_strlit("/p");
    reveal_strlit("div");
    reveal_strlit("/div");
    reveal_strlit("section");
    reveal_strlit("/section");
    reveal_strlit("article");
    reveal_strlit("/article");
    reveal_strlit("li");
    reveal_strlit("tr");
    reveal_strlit("/tr");
    reveal_strlit("h1");
    reveal_strlit("h2");
    reveal_strlit("h3");
    reveal_strlit("h4");
    reveal_strlit("h5");
    reveal_strlit("h6");
    reveal_strlit("/h1");
    reveal_strlit("/h2");
    reveal_strlit("/h3");
    reveal_strlit("/h4");
    reveal_strlit("/h5");
    reveal_strlit("/h6");
    let name = tag_name(inner);
    if documented_block_tag(name) {
        assert(is_block_tag(name));
        assert("br"@.len() == 2 && "br"@[0] == 'b');
        assert(name.len() != 2 || name[0] != 'b');
        assert(name != "br"@);
        if out.len() == 0 || out.last() == '\n' {
            assert(apply_tag(out, inner) == out);
        } else {
            assert(apply_tag(out, inner) == out.push('\n'));
        }
    }
}

/// Image-as-path is opt-in: with the flag off no image is ever pasted as a
/// path (Aider gets its adapter, every other agent Ctrl-V); with it on,
/// exactly the `ClaudeCode` and `Codex` agents get the path, and the rest is unchanged.
pub proof fn law_image_as_path_is_opt_in(agent: AgentKind)
    ensures
        image_route(false, agent) != ImageRoute::AsPath,
        agent == AgentKind::Aider ==> image_route(false, agent) == ImageRoute::AiderAdapter,
        agent != AgentKind::Aider ==> image_route(false, agent) == ImageRoute::CtrlV,
        (image_route(true, agent) == ImageRoute::AsPath) <==> (agent == AgentKind::ClaudeCode
            || agent == AgentKind::Codex),
        image_route(true, agent) != ImageRoute::AsPath ==> image_route(true, agent)
            == image_route(false, agent),
{
}

} // verus!
