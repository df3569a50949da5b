//! Decisions of the opt-in push-model clipboard pre-stager
//! (`FLASHPASTE_CLIPBOARD_WATCH=1`): whether it runs, whether freshly read
//! clipboard content must be staged, and the path a staged image is given.

use vstd::prelude::*;
use crate::pathname::{join, join_chars};
use crate::text::{
    ascii_lower, chars_of, eq_str, string_of, to_ascii_lower, trim, trim_exec,
};

verus! {

/// How often the background poll samples the clipboard, in milliseconds:
/// fast enough that a copy is almost always staged before the user can switch
/// windows and paste, cheap enough that the idle daemon isn't forking `xclip`
/// in a tight loop.
pub const POLL_INTERVAL_MS: u64 = 250;

/// A flag value is truthy: trimmed and ASCII-lowercased it is `1`, `true`,
/// `yes` or `on`.
pub open spec fn flag_on(v: Seq<char>) -> bool {
    let t = ascii_lower(trim(v));
    t == "1"@ || t == "true"@ || t == "yes"@ || t == "on"@
}

/// Whether an environment flag is set to a truthy value (`1`, `true`, `yes`,
/// `on`, ignoring surrounding whitespace and ASCII case).
pub fn flag_is_on(value: Option<&str>) -> (b: bool)
    ensures
        b == (value matches Some(v) && flag_on(v@)),
{
    match value {
        None => false,
        Some(v) => {
            let cv = chars_of(v);
            let t = trim_exec(cv.as_slice());
            let mut l: Vec<char> = Vec::new();
            let mut i: usize = 0;
            while i < t.len()
                invariant
                    0 <= i <= t@.len(),
                    l@ == ascii_lower(t@.take(i as int)),
                decreases t@.len() - i,
            {
                l.push(to_ascii_lower(t[i]));
                i = i + 1;
                assert(l@ =~= ascii_lower(t@.take(i as int)));
            }
            assert(t@.take(t@.len() as int) =~= t@);
            let s = l.as_slice();
            eq_str(s, "1") || eq_str(s, "true") || eq_str(s, "yes") || eq_str(s, "on")
        },
    }
}

/// Whether the pre-stager runs: the value of `FLASHPASTE_CLIPBOARD_WATCH`
/// (`None` when unset or not Unicode) is truthy: `1`, `true`, `yes`, `on`.
pub fn enabled(value: Option<&str>) -> (b: bool)
    ensures
        b == (value matches Some(v) && flag_on(v@)),
{
    flag_is_on(value)
}

/// The kind of a staged clipboard selection.
#[derive(Debug, Clone, Copy, PartialEq, Eq, Structural)]
pub enum StagedKind {
    Image,
    Text,
}

/// Freshly read content must be staged unless the staged selection is of the
/// same kind and holds the same bytes.
pub open spec fn content_differs(
    staged: Option<StagedKind>,
    staged_bytes: Seq<u8>,
    fresh_kind: StagedKind,
    fresh: Seq<u8>,
) -> bool {
    match staged {
        Some(k) => k != fresh_kind || staged_bytes != fresh,
        None => true,
    }
}

/// Whether freshly read clipboard content (`fresh`, of kind `fresh_kind`)
/// differs from what is staged (`staged` kind, if anything is staged, with
/// its bytes `staged_bytes`), so that it has to be staged.
pub fn clipboard_differs(
    staged: Option<StagedKind>,
    staged_bytes: &[u8],
    fresh_kind: StagedKind,
    fresh: &[u8],
) -> (d: bool)
    ensures
        d == content_differs(staged, staged_bytes@, fresh_kind, fresh@),
{
    let same_kind = match (staged, fresh_kind) {
        (Some(StagedKind::Image), StagedKind::Image) => true,
        (Some(StagedKind::Text), StagedKind::Text) => true,
        _ => false,
    };
    if !same_kind {
        return true;
    }
    if staged_bytes.len() != fresh.len() {
        return true;
    }
    let mut i: usize = 0;
    while i < fresh.len()
        invariant
            staged_bytes@.len() == fresh@.len(),
            0 <= i <= fresh@.len(),
            forall|j: int| 0 <= j < i ==> staged_bytes@[j] == fresh@[j],
        decreases fresh@.len() - i,
    {
        if staged_bytes[i] != fresh[i] {
            return true;
        }
        i = i + 1;
    }
    assert(staged_bytes@ =~= fresh@);
    false
}

/// What one poll does after the clipboard image probe.
#[derive(Debug, PartialEq, Eq)]
pub enum PollAction {
    /// An image is offered and differs from the staged selection: stage it
    /// at this synthetic path.
    StageImage { path: String },
    /// An image is offered and is already staged: nothing to do, and the
    /// clipboard text is not read.
    Unchanged,
    /// No image is offered: probe the clipboard text next.
    ProbeText,
}

/// The synthetic path for a clipboard image, rooted in the screenshots
/// directory when one is configured, else `/tmp`.
pub open spec fn synthetic_path(screenshots_dir: Option<Seq<char>>, mime: Seq<char>) -> Seq<char> {
    join(
        match screenshots_dir {
            Some(d) => d,
            None => "/tmp"@,
        },
        live_image_name(mime),
    )
}

/// One poll, after the image probe: an offered image (its bytes and MIME
/// type) wins over text. It is staged at its synthetic path when it differs
/// from the staged selection (`staged` kind, `staged_bytes`), and otherwise
/// nothing happens; the text is probed only when no image is offered.
pub fn poll_action(
    image: Option<(&[u8], &str)>,
    staged: Option<StagedKind>,
    staged_bytes: &[u8],
    screenshots_dir: Option<&str>,
) -> (a: PollAction)
    ensures
        match image {
            None => a == PollAction::ProbeText,
            Some((bytes, mime)) => if content_differs(staged, staged_bytes@, StagedKind::Image, bytes@) {
                a matches PollAction::StageImage { path } && path@ == synthetic_path(
                    crate::paths::opt_chars(screenshots_dir),
                    mime@,
                )
            } else {
                a == PollAction::Unchanged
            },
        },
{
    match image {
        None => PollAction::ProbeText,
        Some((bytes, mime)) => {
            if clipboard_differs(staged, staged_bytes, StagedKind::Image, bytes) {
                PollAction::StageImage { path: synthetic_image_path(screenshots_dir, mime) }
            } else {
                PollAction::Unchanged
            }
        },
    }
}

/// Whether offered clipboard text (probed only when no image was offered) is
/// staged: it is when it differs from the staged selection.
pub fn stage_text(text: Option<&[u8]>, staged: Option<StagedKind>, staged_bytes: &[u8]) -> (b: bool)
    ensures
        b == (text matches Some(t) && content_differs(staged, staged_bytes@, StagedKind::Text, t@)),
{
    match text {
        None => false,
        Some(t) => clipboard_differs(staged, staged_bytes, StagedKind::Text, t),
    }
}

/// Freshly read content of the kind already staged counts as new exactly
/// when its bytes differ from the staged bytes (so copying "bat" over a
/// staged "cat" is staged, and the same bytes are not); content of another
/// kind, or with nothing staged, always counts as new.
pub proof fn law_differs_exactly_when_bytes_differ(
    kind: StagedKind,
    other: StagedKind,
    staged_bytes: Seq<u8>,
    fresh: Seq<u8>,
)
    ensures
        content_differs(Some(kind), staged_bytes, kind, fresh) <==> staged_bytes != fresh,
        other != kind ==> content_differs(Some(kind), staged_bytes, other, fresh),
        content_differs(None, staged_bytes, kind, fresh),
{
}

/// The loop settles: once external content has been staged, reading the same
/// content back (the daemon now owns the clipboard) finds nothing to stage.
pub proof fn law_staging_settles(kind: StagedKind, bytes: Seq<u8>)
    ensures
        !content_differs(Some(kind), bytes, kind, bytes),
{
}

/// The stable file name of a clipboard-captured image of the given MIME type.
pub open spec fn live_image_name(mime: Seq<char>) -> Seq<char> {
    if mime == "image/jpeg"@ {
        "flashpaste-clip-live.jpg"@
    } else if mime == "image/webp"@ {
        "flashpaste-clip-live.webp"@
    } else {
        "flashpaste-clip-live.png"@
    }
}

/// Stable synthetic filename for a clipboard-captured image, rooted in the
/// screenshots directory when one is configured (else `/tmp`), so that
/// downstream logging and delivery have a predictable path.
pub fn synthetic_image_path(screenshots_dir: Option<&str>, mime: &str) -> (p: String)
    ensures
        p@ == join(
            match screenshots_dir {
                Some(d) => d@,
                None => "/tmp"@,
            },
            live_image_name(mime@),
        ),
{
    let mv = chars_of(mime);
    let name = if eq_str(mv.as_slice(), "image/jpeg") {
        chars_of("flashpaste-clip-live.jpg")
    } else if eq_str(mv.as_slice(), "image/webp") {
        chars_of("flashpaste-clip-live.webp")
    } else {
        chars_of("flashpaste-clip-live.png")
    };
    let dir = match screenshots_dir {
        Some(d) => chars_of(d),
        None => chars_of("/tmp"),
    };
    let p = join_chars(dir.as_slice(), name.as_slice());
    string_of(p.as_slice())
}


/// The synthetic image path always names the same file for a MIME type,
/// whatever directory it is rooted in.
pub proof fn law_synthetic_name_is_stable(dir: Seq<char>, mime: Seq<char>)
    ensures
        crate::pathname::file_name(join(dir, live_image_name(mime))) == Some(live_image_name(mime)),
{
    reveal_strlit("flashpaste-clip-live.jpg");
    reveal_strlit("flashpaste-clip-live.webp");
    reveal_strlit("flashpaste-clip-live.png");
    let name = live_image_name(mime);
    assert(!name.contains('/'));
    assert(name != seq!['.']);
    assert(name != seq!['.', '.']);
    crate::pathname::lemma_file_name_join(dir, name);
}

} // verus!
