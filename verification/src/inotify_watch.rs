//! Decisions of the screenshot watcher on `~/Pictures/Screenshots/`: which
//! new files are staged, under which MIME type, and where a re-encoded
//! (compressed) copy is written.

use vstd::prelude::*;
use crate::pathname::{
    extension, extension_chars, file_name, file_name_chars, is_plain_component, join, join_chars,
    lemma_file_name_join, lemma_file_name_plain, lemma_parent_dir_join, lemma_parent_dir_trimmed,
    parent_dir, with_file_name, with_file_name_chars,
};
use crate::text::{
    chars_of, contains_exec, contains_sub, eq_str, matches_at, push_all, string_of,
};

verus! {

// ---------------------------------------------------------------------------
// Specifications
// ---------------------------------------------------------------------------

/// What `str::to_lowercase` returns for a text: its Unicode lowercase
/// mapping. The mapping is named here, not written out.
pub uninterp spec fn unicode_lowercase(s: Seq<char>) -> Seq<char>;

/// A lowercase extension of a PNG or JPEG file.
pub open spec fn is_image_ext(lower: Seq<char>) -> bool {
    lower == "png"@ || lower == "jpg"@ || lower == "jpeg"@
}

/// A lowercase extension of a JPEG file.
pub open spec fn is_jpeg_ext(lower: Seq<char>) -> bool {
    lower == "jpg"@ || lower == "jpeg"@
}

/// The path names a PNG or JPEG file by its extension, in any letter case.
pub open spec fn is_image_file(p: Seq<char>) -> bool {
    extension(p) matches Some(e) && is_image_ext(unicode_lowercase(e))
}

/// The MIME type a screenshot file is staged under, by its extension:
/// `image/jpeg` for `.jpg`/`.jpeg` in any letter case, else `image/png`.
pub open spec fn mime_for_path(p: Seq<char>) -> Seq<char> {
    if extension(p) matches Some(e) && is_jpeg_ext(unicode_lowercase(e)) {
        "image/jpeg"@
    } else {
        "image/png"@
    }
}

/// A MIME type reported by the compressor, promoted to one of the three
/// known constants; unknown types become `image/png`.
pub open spec fn known_mime(s: Seq<char>) -> Seq<char> {
    if s == "image/jpeg"@ {
        "image/jpeg"@
    } else if s == "image/webp"@ {
        "image/webp"@
    } else {
        "image/png"@
    }
}

/// The file extension used for a compressed copy of the given MIME type.
pub open spec fn compressed_ext(mime: Seq<char>) -> Seq<char> {
    if mime == "image/webp"@ {
        "webp"@
    } else if mime == "image/jpeg"@ {
        "jpg"@
    } else {
        "png"@
    }
}

/// The file name of the compressed copy of `original`:
/// `<file name>.fpc.<ext>` (`image` standing in for a missing file name).
pub open spec fn sibling_name(original: Seq<char>, mime: Seq<char>) -> Seq<char> {
    let base = match file_name(original) {
        Some(n) => n,
        None => "image"@,
    };
    base + ".fpc."@ + compressed_ext(mime)
}

/// The path of the compressed copy, next to `original`.
pub open spec fn sibling_path(original: Seq<char>, mime: Seq<char>) -> Seq<char> {
    with_file_name(original, sibling_name(original, mime))
}

/// The file name marks a compressed copy (it holds `.fpc.`).
pub open spec fn is_compressed_copy(p: Seq<char>) -> bool {
    file_name(p) matches Some(n) && contains_sub(n, ".fpc."@)
}

/// A file event named `name` in the watched directory `dir` is staged: it is
/// an image and not one of the compressed copies the watcher writes itself.
pub open spec fn event_is_staged(dir: Seq<char>, name: Seq<char>) -> bool {
    let p = join(dir, name);
    is_image_file(p) && !is_compressed_copy(p)
}

/// The compressor's output can be staged in place (it is still PNG or JPEG);
/// anything else is written to a compressed copy first.
pub open spec fn stages_in_place(mime: Seq<char>) -> bool {
    mime == "image/png"@ || mime == "image/jpeg"@
}

// ---------------------------------------------------------------------------
// Executable code
// ---------------------------------------------------------------------------

/// `str::to_lowercase`: std documents the result as the Unicode lowercase
/// mapping of the text, which this crate names (`unicode_lowercase`) rather
/// than writes out.
#[verifier::external_body]
fn to_lowercase(s: &str) -> (r: String)
    ensures
        r@ == unicode_lowercase(s@),
{
    s.to_lowercase()
}

/// The lowercase extension of a path, if it has one.
fn lower_extension(p: &str) -> (r: Option<String>)
    ensures
        match r {
            Some(l) => extension(p@) matches Some(e) && l@ == unicode_lowercase(e),
            None => extension(p@) is None,
        },
{
    let v = chars_of(p);
    match extension_chars(v.as_slice()) {
        Some(e) => {
            let es = string_of(e.as_slice());
            Some(to_lowercase(es.as_str()))
        },
        None => None,
    }
}

/// Whether a lowercase extension is `png`, `jpg` or `jpeg`.
pub fn is_image_extension(lower: &str) -> (b: bool)
    ensures
        b == is_image_ext(lower@),
{
    let lv = chars_of(lower);
    eq_str(lv.as_slice(), "png") || eq_str(lv.as_slice(), "jpg") || eq_str(lv.as_slice(), "jpeg")
}

/// The MIME type for a lowercase extension (`None` when the file has none):
/// `image/jpeg` for `jpg` and `jpeg`, else `image/png`.
pub fn mime_for_extension(lower: Option<&str>) -> (m: &'static str)
    ensures
        m@ == (if lower matches Some(l) && is_jpeg_ext(l@) {
            "image/jpeg"@
        } else {
            "image/png"@
        }),
{
    match lower {
        Some(l) => {
            let lv = chars_of(l);
            if eq_str(lv.as_slice(), "jpg") || eq_str(lv.as_slice(), "jpeg") {
                "image/jpeg"
            } else {
                "image/png"
            }
        },
        None => "image/png",
    }
}

/// Whether the path names a PNG or JPEG file (by extension, any case).
pub fn is_image_path(p: &str) -> (b: bool)
    ensures
        b == is_image_file(p@),
{
    match lower_extension(p) {
        Some(l) => is_image_extension(l.as_str()),
        None => false,
    }
}

/// The MIME type of a screenshot file, by its extension.
pub fn mime_for(p: &str) -> (m: &'static str)
    ensures
        m@ == mime_for_path(p@),
{
    match lower_extension(p) {
        Some(l) => mime_for_extension(Some(l.as_str())),
        None => mime_for_extension(None),
    }
}

/// A MIME type reported by the compressor, promoted to one of the three
/// known constants. Unknown MIMEs are coerced to `image/png` (the most
/// permissive consumer-side).
pub fn mime_for_string(s: &str) -> (m: &'static str)
    ensures
        m@ == known_mime(s@),
{
    let v = chars_of(s);
    if eq_str(v.as_slice(), "image/jpeg") {
        "image/jpeg"
    } else if eq_str(v.as_slice(), "image/webp") {
        "image/webp"
    } else {
        "image/png"
    }
}

/// The name of the compressed copy of `original`, as characters.
fn sibling_name_chars(original: &[char], mime: &[char]) -> (r: Vec<char>)
    ensures
        r@ == sibling_name(original@, mime@),
{
    let mut r = match file_name_chars(original) {
        Some(n) => n,
        None => chars_of("image"),
    };
    let infix = chars_of(".fpc.");
    push_all(&mut r, infix.as_slice());
    let ext = if eq_str(mime, "image/webp") {
        chars_of("webp")
    } else if eq_str(mime, "image/jpeg") {
        chars_of("jpg")
    } else {
        chars_of("png")
    };
    push_all(&mut r, ext.as_slice());
    r
}

/// Compose a sibling path next to `original` with the compressed MIME's
/// extension. E.g. `screenshot.png` + `image/webp` → `screenshot.png.fpc.webp`.
/// The `.fpc.` infix marks it as a flashpaste-compressed sibling so a
/// cleanup pass, and the watcher itself, can recognise these files.
pub fn make_compressed_tmp_path(original: &str, mime: &str) -> (r: String)
    ensures
        r@ == sibling_path(original@, mime@),
{
    let ov = chars_of(original);
    let mv = chars_of(mime);
    let name = sibling_name_chars(ov.as_slice(), mv.as_slice());
    let p = with_file_name_chars(ov.as_slice(), name.as_slice());
    string_of(p.as_slice())
}

/// Whether the file name of a path marks a compressed copy.
fn is_compressed_copy_exec(p: &[char]) -> (b: bool)
    ensures
        b == is_compressed_copy(p@),
{
    match file_name_chars(p) {
        Some(n) => {
            let infix = chars_of(".fpc.");
            contains_exec(n.as_slice(), infix.as_slice())
        },
        None => false,
    }
}

/// The path to stage for a file event named `name` in the watched directory
/// `dir`: `dir/name` when it is a PNG or JPEG that is not one of the
/// compressed copies (`.fpc.`) the watcher writes itself; none otherwise.
pub fn screenshot_event_path(dir: &str, name: &str) -> (r: Option<String>)
    ensures
        match r {
            Some(p) => event_is_staged(dir@, name@) && p@ == join(dir@, name@),
            None => !event_is_staged(dir@, name@),
        },
{
    let dv = chars_of(dir);
    let nv = chars_of(name);
    let p = join_chars(dv.as_slice(), nv.as_slice());
    let ps = string_of(p.as_slice());
    if !is_image_path(ps.as_str()) {
        return None;
    }
    if is_compressed_copy_exec(p.as_slice()) {
        return None;
    }
    Some(ps)
}

/// How the compressor's output for a screenshot at `path` is staged.
pub struct CompressedPlan {
    /// Where the re-encoded bytes are written first; `None` when the bytes
    /// are staged under the original path.
    pub write_copy_to: Option<String>,
    /// The MIME type the bytes are staged under.
    pub mime: &'static str,
}

/// How to stage the compressor's output (`mime` is what it reported) for the
/// screenshot at `path`: PNG and JPEG are staged from the original path; any
/// other type (likely WebP) is first written to the compressed copy next to
/// the original, which is never destroyed.
pub fn plan_compressed(path: &str, mime: &str) -> (plan: CompressedPlan)
    ensures
        plan.mime@ == known_mime(mime@),
        match plan.write_copy_to {
            Some(t) => !stages_in_place(mime@) && t@ == sibling_path(path@, mime@),
            None => stages_in_place(mime@),
        },
{
    let mv = chars_of(mime);
    let known = mime_for_string(mime);
    if eq_str(mv.as_slice(), "image/png") || eq_str(mv.as_slice(), "image/jpeg") {
        CompressedPlan { write_copy_to: None, mime: known }
    } else {
        CompressedPlan { write_copy_to: Some(make_compressed_tmp_path(path, mime)), mime: known }
    }
}

/// Where the staged bytes of a screenshot come from.
#[derive(Debug, Clone, Copy, PartialEq, Eq)]
pub enum StagedBytes {
    /// The compressor's output.
    Compressor,
    /// The original file, read as it is.
    OriginalFile,
}

/// What the watcher stages for a screenshot.
#[derive(Debug)]
pub struct StagedScreenshot {
    /// The path the selection is served from.
    pub path: String,
    /// The MIME type it is staged under.
    pub mime: &'static str,
    /// Which bytes are staged.
    pub bytes: StagedBytes,
}

/// What is staged for the screenshot at `path` once the compressor has run.
/// `compressed_mime` is the MIME type the compressor reported, `None` when it
/// failed; `copy_written` says whether writing the compressed copy succeeded
/// (it matters only when the output goes to a copy); `original_read` says
/// whether reading the original file succeeded (it matters only when
/// compression failed).
///
/// Compressed output is staged under its known MIME type, from the copy when
/// that was written and from the original path otherwise. When compression
/// failed, the original file is staged under the MIME type of its extension,
/// and nothing is staged when it cannot be read either. The original path is
/// only ever read.
pub fn staged_screenshot(
    path: &str,
    compressed_mime: Option<&str>,
    copy_written: bool,
    original_read: bool,
) -> (r: Option<StagedScreenshot>)
    ensures
        match compressed_mime {
            Some(m) => r matches Some(s) && s.bytes is Compressor && s.mime@ == known_mime(m@)
                && s.path@ == (if !stages_in_place(m@) && copy_written {
                sibling_path(path@, m@)
            } else {
                path@
            }),
            None => if original_read {
                r matches Some(s) && s.bytes is OriginalFile && s.mime@ == mime_for_path(path@)
                    && s.path@ == path@
            } else {
                r is None
            },
        },
{
    let pv = chars_of(path);
    let original = string_of(pv.as_slice());
    match compressed_mime {
        Some(m) => {
            let plan = plan_compressed(path, m);
            let staged_path = match plan.write_copy_to {
                Some(t) => if copy_written {
                    t
                } else {
                    original
                },
                None => original,
            };
            Some(StagedScreenshot { path: staged_path, mime: plan.mime, bytes: StagedBytes::Compressor })
        },
        None => {
            if original_read {
                Some(
                    StagedScreenshot { path: original, mime: mime_for(path), bytes: StagedBytes::OriginalFile },
                )
            } else {
                None
            }
        },
    }
}

// ---------------------------------------------------------------------------
// Laws
// ---------------------------------------------------------------------------

/// The compressed copy's name is a plain file name holding `.fpc.`.
proof fn lemma_sibling_name(original: Seq<char>, mime: Seq<char>)
    ensures
        is_plain_component(sibling_name(original, mime)),
        contains_sub(sibling_name(original, mime), ".fpc."@),
{
    reveal_strlit("image");
    reveal_strlit(".fpc.");
    reveal_strlit("webp");
    reveal_strlit("jpg");
    reveal_strlit("png");
    lemma_file_name_plain(original);
    let base = match file_name(original) {
        Some(n) => n,
        None => "image"@,
    };
    let ext = compressed_ext(mime);
    let name = base + ".fpc."@ + ext;
    assert(!base.contains('/')) by {
        if file_name(original) is None {
            assert(base =~= seq!['i', 'm', 'a', 'g', 'e']);
        }
    }
    assert(!ext.contains('/'));
    assert forall|i: int| 0 <= i < name.len() implies name[i] != '/' by {
        if i < base.len() {
            assert(name[i] == base[i]);
        } else if i < base.len() + 5 {
            assert(name[i] == ".fpc."@[i - base.len()]);
        } else {
            assert(name[i] == ext[i - base.len() - 5]);
        }
    }
    assert(name.len() >= 5);
    assert(name != seq!['.']);
    assert(name != seq!['.', '.']);
    assert(name.subrange(base.len() as int, base.len() + 5int) =~= ".fpc."@);
    assert(matches_at(name, base.len() as int, ".fpc."@));
}

/// The watcher never stages its own compressed copies: the copy written next
/// to a screenshot carries the name `sibling_name`, and an event for that name
/// in any watched directory is skipped, so re-encoding cannot recurse.
pub proof fn law_compressed_copy_not_restaged(original: Seq<char>, mime: Seq<char>, dir: Seq<char>)
    ensures
        file_name(sibling_path(original, mime)) == Some(sibling_name(original, mime)),
        !event_is_staged(dir, sibling_name(original, mime)),
{
    let name = sibling_name(original, mime);
    lemma_sibling_name(original, mime);
    if file_name(original) is Some {
        lemma_file_name_join(parent_dir(original), name);
    } else {
        lemma_file_name_join(original, name);
    }
    lemma_file_name_join(dir, name);
}

/// The compressed copy is written beside the original and never over it:
/// for a path that has a file name, the copy's parent directory is the
/// original's, its file name is the original's name followed by `.fpc.` and
/// the extension, and the two paths differ.
pub proof fn law_compressed_copy_beside_original(original: Seq<char>, mime: Seq<char>)
    requires
        file_name(original) is Some,
    ensures
        parent_dir(sibling_path(original, mime)) == parent_dir(original),
        file_name(sibling_path(original, mime)) == Some(
            file_name(original)->0 + ".fpc."@ + compressed_ext(mime),
        ),
        sibling_path(original, mime) != original,
{
    let name = sibling_name(original, mime);
    let dir = parent_dir(original);
    lemma_sibling_name(original, mime);
    lemma_parent_dir_trimmed(original);
    lemma_parent_dir_join(dir, name);
    lemma_file_name_join(dir, name);
    reveal_strlit(".fpc.");
    let n = file_name(original)->0;
    assert(name.len() > n.len());
    if sibling_path(original, mime) == original {
        assert(Some(name) == Some(n));
    }
}

/// The watcher never writes over a screenshot it stages: for every staged
/// event, the only file it writes (the compressed copy) is another path in
/// the same directory.
pub proof fn law_watcher_never_writes_original(dir: Seq<char>, name: Seq<char>, mime: Seq<char>)
    requires
        event_is_staged(dir, name),
    ensures
        sibling_path(join(dir, name), mime) != join(dir, name),
        parent_dir(sibling_path(join(dir, name), mime)) == parent_dir(join(dir, name)),
{
    law_compressed_copy_beside_original(join(dir, name), mime);
}

} // verus!
