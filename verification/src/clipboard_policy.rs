//! Pure clipboard decision helpers for paste dispatch.
//!
//! The shell dispatcher still owns the full hot path, but these small pure
//! functions keep the Wayland/X11 policy checkable without a live compositor.

use vstd::prelude::*;
use crate::text::{
    all_whitespace, chars_of, is_unicode_whitespace, is_whitespace, matches_at, matches_at_exec,
};

verus! {

/// Which clipboard answered the "is this an image?" question.
#[derive(Debug, Clone, Copy, PartialEq, Eq, Structural)]
pub enum HasImagePolicy {
    WaylandAuthoritative,
    WaylandAuthoritativeStaleX11Ignored,
    X11FallbackWaylandSilent,
}

/// Whether the clipboard holds an image, and why.
#[derive(Debug, Clone, Copy, PartialEq, Eq, Structural)]
pub struct HasImageDecision {
    pub has_image: bool,
    pub policy: HasImagePolicy,
}

/// Characters that separate MIME tokens in a target list: `,`, `\n`, `\r`,
/// `\t` and every Unicode whitespace character.
pub open spec fn is_type_separator(c: char) -> bool {
    c == ',' || c == '\n' || c == '\r' || c == '\t' || is_unicode_whitespace(c)
}

/// A separator-delimited token of `types` starts at `i` and begins with
/// `image/`.
pub open spec fn image_token_at(types: Seq<char>, i: int) -> bool {
    &&& (i == 0 || (0 < i <= types.len() && is_type_separator(types[i - 1])))
    &&& matches_at(types, i, "image/"@)
}

/// Some token of the MIME target list `types` starts with `image/`.
pub open spec fn lists_image_mime(types: Seq<char>) -> bool {
    exists|i: int| image_token_at(types, i)
}

/// Wayland answered when its target list or its text is not blank.
pub open spec fn wayland_answered(wayland_types: Seq<char>, wayland_text: Seq<char>) -> bool {
    !all_whitespace(wayland_types) || !all_whitespace(wayland_text)
}

/// The decision: Wayland is authoritative whenever it answered; X11 is only
/// consulted when Wayland is silent.
pub open spec fn has_image_decision(
    wayland_types: Seq<char>,
    wayland_text: Seq<char>,
    x11_types: Seq<char>,
) -> HasImageDecision {
    let wl = lists_image_mime(wayland_types);
    let x = lists_image_mime(x11_types);
    if wayland_answered(wayland_types, wayland_text) {
        HasImageDecision {
            has_image: wl,
            policy: if x && !wl {
                HasImagePolicy::WaylandAuthoritativeStaleX11Ignored
            } else {
                HasImagePolicy::WaylandAuthoritative
            },
        }
    } else {
        HasImageDecision { has_image: x, policy: HasImagePolicy::X11FallbackWaylandSilent }
    }
}

/// Whether every character of `s` is Unicode whitespace (`s.trim().is_empty()`).
pub fn is_blank(s: &str) -> (b: bool)
    ensures
        b == all_whitespace(s@),
{
    let v = chars_of(s);
    let mut i: usize = 0;
    while i < v.len()
        invariant
            v@ == s@,
            0 <= i <= v@.len(),
            forall|j: int| 0 <= j < i ==> #[trigger] is_unicode_whitespace(v@[j]),
        decreases v@.len() - i,
    {
        if !is_whitespace(v[i]) {
            return false;
        }
        i = i + 1;
    }
    true
}

/// Whether some token of a MIME target list (split on `,`, `\n`, `\r`, `\t`
/// and whitespace) starts with `image/`.
pub fn contains_image_mime(types: &str) -> (b: bool)
    ensures
        b == lists_image_mime(types@),
{
    let v = chars_of(types);
    let pat = chars_of("image/");
    let mut i: usize = 0;
    while i < v.len()
        invariant
            v@ == types@,
            pat@ == "image/"@,
            0 <= i <= v@.len(),
            forall|j: int| 0 <= j < i ==> !#[trigger] image_token_at(types@, j),
        decreases v@.len() - i,
    {
        let at_token_start = if i == 0 {
            true
        } else {
            let c = v[i - 1];
            c == ',' || c == '\n' || c == '\r' || c == '\t' || is_whitespace(c)
        };
        if at_token_start && matches_at_exec(v.as_slice(), i, pat.as_slice()) {
            assert(image_token_at(types@, i as int));
            return true;
        }
        i = i + 1;
    }
    proof {
        reveal_strlit("image/");
    }
    assert forall|j: int| !image_token_at(types@, j) by {
        if j >= v@.len() {
            assert(!matches_at(types@, j, "image/"@));
        }
    }
    false
}

/// Decide whether the current clipboard should be treated as image content.
///
/// If Wayland answers with either MIME types or text, Wayland is authoritative
/// and X11's image advertisement is ignored. X11 is only consulted when
/// Wayland is fully silent.
pub fn decide_has_image(wayland_types: &str, wayland_text: &str, x11_types: &str) -> (d:
    HasImageDecision)
    ensures
        d == has_image_decision(wayland_types@, wayland_text@, x11_types@),
{
    let wl_has_image = contains_image_mime(wayland_types);
    let x_has_image = contains_image_mime(x11_types);
    let wayland_answered = !is_blank(wayland_types) || !is_blank(wayland_text);
    if wayland_answered {
        let policy = if x_has_image && !wl_has_image {
            HasImagePolicy::WaylandAuthoritativeStaleX11Ignored
        } else {
            HasImagePolicy::WaylandAuthoritative
        };
        return HasImageDecision { has_image: wl_has_image, policy };
    }
    HasImageDecision { has_image: x_has_image, policy: HasImagePolicy::X11FallbackWaylandSilent }
}


/// Wayland is authoritative: once it answered (with MIME types or text),
/// whatever X11 advertises does not change whether the clipboard is an image.
pub proof fn law_x11_ignored_when_wayland_answers(
    wayland_types: Seq<char>,
    wayland_text: Seq<char>,
    x11_a: Seq<char>,
    x11_b: Seq<char>,
)
    requires
        wayland_answered(wayland_types, wayland_text),
    ensures
        has_image_decision(wayland_types, wayland_text, x11_a).has_image == has_image_decision(
            wayland_types,
            wayland_text,
            x11_b,
        ).has_image,
        has_image_decision(wayland_types, wayland_text, x11_a).has_image == lists_image_mime(
            wayland_types,
        ),
        has_image_decision(wayland_types, wayland_text, x11_a).policy
            != HasImagePolicy::X11FallbackWaylandSilent,
{
}

/// X11 is only consulted when Wayland is fully silent, and then it decides.
pub proof fn law_x11_decides_when_wayland_silent(
    wayland_types: Seq<char>,
    wayland_text: Seq<char>,
    x11_types: Seq<char>,
)
    requires
        !wayland_answered(wayland_types, wayland_text),
    ensures
        has_image_decision(wayland_types, wayland_text, x11_types) == (HasImageDecision {
            has_image: lists_image_mime(x11_types),
            policy: HasImagePolicy::X11FallbackWaylandSilent,
        }),
{
}

/// A stale X11 image is reported exactly when Wayland answered without an
/// image while X11 still advertises one.
pub proof fn law_stale_x11_flagged(
    wayland_types: Seq<char>,
    wayland_text: Seq<char>,
    x11_types: Seq<char>,
)
    ensures
        has_image_decision(wayland_types, wayland_text, x11_types).policy
            == HasImagePolicy::WaylandAuthoritativeStaleX11Ignored <==> (wayland_answered(
            wayland_types,
            wayland_text,
        ) && lists_image_mime(x11_types) && !lists_image_mime(wayland_types)),
{
}

} // verus!
