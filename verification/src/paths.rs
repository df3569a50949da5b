//! Filesystem paths the dispatch binary needs to locate at runtime.
//!
//! The environment and the filesystem are read by the caller; these functions
//! decide, from what was read, which path to use or which paths to try, in
//! order.

use vstd::prelude::*;
use crate::pathname::{join, join_chars};
use crate::text::{
    chars_of, find_char, find_char_from, lemma_find_char_none, lemma_find_char_skip,
    starts_with, starts_with_exec, string_of, sub_chars,
};

verus! {

// ---------------------------------------------------------------------------
// Specifications
// ---------------------------------------------------------------------------

/// The decimal digit character for `d` in `0..10`.
pub open spec fn digit_char(d: int) -> char {
    ((48 + d) as u8) as char
}

/// Decimal notation of `n`, without leading zeros.
pub open spec fn decimal(n: nat) -> Seq<char>
    decreases n,
{
    if n < 10 {
        seq![digit_char(n as int)]
    } else {
        decimal(n / 10).push(digit_char((n % 10) as int))
    }
}

/// The characters of an optional string.
pub open spec fn opt_chars(o: Option<&str>) -> Option<Seq<char>> {
    match o {
        Some(s) => Some(s@),
        None => None,
    }
}

/// The characters of each string of a list.
pub open spec fn strings_view(v: Seq<String>) -> Seq<Seq<char>> {
    Seq::new(v.len(), |i: int| v[i]@)
}

/// `$XDG_RUNTIME_DIR` when set and non-empty; else `/run/user/<uid>` when
/// that directory exists; else `/tmp`.
pub open spec fn runtime_dir_choice(
    env_value: Option<Seq<char>>,
    run_user_dir: Seq<char>,
    run_user_is_dir: bool,
) -> Seq<char> {
    match env_value {
        Some(d) if d.len() > 0 => d,
        _ => if run_user_is_dir {
            run_user_dir
        } else {
            "/tmp"@
        },
    }
}

/// The pieces of a `:`-separated search path, empty pieces included.
pub open spec fn split_colons(s: Seq<char>) -> Seq<Seq<char>>
    decreases s.len(),
{
    let k: int = find_char(s, ':');
    if 0 <= k < s.len() {
        seq![s.take(k)] + split_colons(s.skip(k + 1))
    } else {
        seq![s]
    }
}

/// `dir` joined with each name, in order.
pub open spec fn joined_each(dir: Seq<char>, names: Seq<Seq<char>>) -> Seq<Seq<char>> {
    Seq::new(names.len(), |i: int| join(dir, names[i]))
}

/// For each directory in order, each name in order.
pub open spec fn path_candidates(dirs: Seq<Seq<char>>, names: Seq<Seq<char>>) -> Seq<Seq<char>>
    decreases dirs.len(),
{
    if dirs.len() == 0 {
        Seq::empty()
    } else {
        path_candidates(dirs.drop_last(), names) + joined_each(dirs.last(), names)
    }
}

/// The places a `PATH` search for `names` looks at, in order; none without
/// `PATH`.
pub open spec fn on_path(path_var: Option<Seq<char>>, names: Seq<Seq<char>>) -> Seq<Seq<char>> {
    match path_var {
        Some(p) => path_candidates(split_colons(p), names),
        None => Seq::empty(),
    }
}

/// An explicit override is tried first when it is set and non-empty.
pub open spec fn override_candidates(ov: Option<Seq<char>>) -> Seq<Seq<char>> {
    match ov {
        Some(o) if o.len() > 0 => seq![o],
        _ => Seq::empty(),
    }
}

/// The dispatcher names looked up on `PATH`, extension-less first.
pub open spec fn dispatcher_names() -> Seq<Seq<char>> {
    seq!["tmux-paste-dispatch"@, "tmux-paste-dispatch.sh"@]
}

/// Where the bash dispatcher is looked for, in order: the override, `PATH`,
/// `~/.local/bin`, then `/usr/bin`.
pub open spec fn dispatcher_candidates(
    ov: Option<Seq<char>>,
    path_var: Option<Seq<char>>,
    home: Option<Seq<char>>,
) -> Seq<Seq<char>> {
    let home_part = match home {
        Some(h) => joined_each(join(join(h, ".local"@), "bin"@), dispatcher_names()),
        None => Seq::empty(),
    };
    override_candidates(ov) + on_path(path_var, dispatcher_names()) + home_part + seq![
        "/usr/bin/tmux-paste-dispatch"@,
    ]
}

/// Where the kitty fallback helper is looked for, in order: the override,
/// `PATH`, `~/paste_image.sh`, `~/.local/share/flashpaste/bin`, then
/// `/usr/share/flashpaste`.
pub open spec fn helper_candidates(
    ov: Option<Seq<char>>,
    path_var: Option<Seq<char>>,
    home: Option<Seq<char>>,
) -> Seq<Seq<char>> {
    let home_part = match home {
        Some(h) => seq![
            join(h, "paste_image.sh"@),
            join(
                join(join(join(join(h, ".local"@), "share"@), "flashpaste"@), "bin"@),
                "paste_image.sh"@,
            ),
        ],
        None => Seq::empty(),
    };
    override_candidates(ov) + on_path(path_var, seq!["paste_image.sh"@]) + home_part + seq![
        "/usr/share/flashpaste/paste_image.sh"@,
    ]
}

/// What is known of one directory entry: its name when it is valid UTF-8,
/// and whether it is a socket.
pub struct DirEntryInfo {
    pub name: Option<String>,
    pub is_socket: bool,
}

/// An entry that is a live kitty IPC socket: a socket named `kitty-main-*`.
pub open spec fn is_kitty_socket(e: DirEntryInfo) -> bool {
    &&& e.is_socket
    &&& e.name matches Some(n) && starts_with(n@, "kitty-main-"@)
}

// ---------------------------------------------------------------------------
// Executable code
// ---------------------------------------------------------------------------

/// Appends the decimal notation of `n`.
fn push_decimal(out: &mut Vec<char>, n: u32)
    ensures
        final(out)@ == old(out)@ + decimal(n as nat),
    decreases n,
{
    if n >= 10 {
        push_decimal(out, n / 10);
    }
    let d: u8 = (n % 10) as u8;
    out.push((48u8 + d) as char);
    assert(d as int == (n as nat) % 10);
}

/// `/run/user/<uid>`, the runtime directory GNOME populates for a user.
pub fn run_user_dir(uid: u32) -> (r: String)
    ensures
        r@ == "/run/user/"@ + decimal(uid as nat),
{
    let mut v = chars_of("/run/user/");
    push_decimal(&mut v, uid);
    string_of(v.as_slice())
}

/// Resolve the runtime directory: `$XDG_RUNTIME_DIR` (`env_value`) when set
/// and non-empty, falling back to `/run/user/<uid>` when it is a directory,
/// and finally `/tmp`.
pub fn xdg_runtime_dir(env_value: Option<&str>, run_user_dir: &str, run_user_is_dir: bool) -> (r:
    String)
    ensures
        r@ == runtime_dir_choice(opt_chars(env_value), run_user_dir@, run_user_is_dir),
{
    if let Some(dir) = env_value {
        let v = chars_of(dir);
        if v.len() > 0 {
            return string_of(v.as_slice());
        }
    }
    if run_user_is_dir {
        let v = chars_of(run_user_dir);
        string_of(v.as_slice())
    } else {
        let v = chars_of("/tmp");
        string_of(v.as_slice())
    }
}

/// Joins literal components onto a base path.
fn join_lit(base: &[char], p: &str) -> (r: Vec<char>)
    ensures
        r@ == join(base@, p@),
{
    let q = chars_of(p);
    join_chars(base, q.as_slice())
}

/// The directory of the recursion-guard lock: `$XDG_RUNTIME_DIR` when set
/// and non-empty, else `/tmp`.
pub open spec fn lock_dir(xdg_runtime_dir: Option<Seq<char>>) -> Seq<char> {
    match xdg_runtime_dir {
        Some(d) if d.len() > 0 => d,
        _ => "/tmp"@,
    }
}

/// Path to the recursion-guard lock file,
/// `${XDG_RUNTIME_DIR:-/tmp}/tmux-paste-dispatch.lock`, from the value of
/// `XDG_RUNTIME_DIR` (`None` when unset or not Unicode).
pub fn recursion_lock_path(xdg_runtime_dir: Option<&str>) -> (r: String)
    ensures
        r@ == join(lock_dir(opt_chars(xdg_runtime_dir)), "tmux-paste-dispatch.lock"@),
{
    let d = match xdg_runtime_dir {
        Some(d) => {
            let v = chars_of(d);
            if v.len() > 0 {
                v
            } else {
                chars_of("/tmp")
            }
        },
        None => chars_of("/tmp"),
    };
    let j = join_lit(d.as_slice(), "tmux-paste-dispatch.lock");
    string_of(j.as_slice())
}

/// `~/Pictures/Screenshots` for the home directory `home`; none without one.
pub fn screenshots_dir(home: Option<&str>) -> (r: Option<String>)
    ensures
        match r {
            Some(d) => home matches Some(h) && d@ == join(join(h@, "Pictures"@), "Screenshots"@),
            None => home is None,
        },
{
    match home {
        Some(h) => {
            let v = chars_of(h);
            let a = join_lit(v.as_slice(), "Pictures");
            let b = join_lit(a.as_slice(), "Screenshots");
            Some(string_of(b.as_slice()))
        },
        None => None,
    }
}

/// `<home>/.local/state/<file>`, with `/tmp` standing for a missing home.
fn state_file(home: Option<&str>, file: &str) -> (r: String)
    ensures
        r@ == join(
            join(
                join(
                    match home {
                        Some(h) => h@,
                        None => "/tmp"@,
                    },
                    ".local"@,
                ),
                "state"@,
            ),
            file@,
        ),
{
    let h = match home {
        Some(h) => chars_of(h),
        None => chars_of("/tmp"),
    };
    let a = join_lit(h.as_slice(), ".local");
    let b = join_lit(a.as_slice(), "state");
    let c = join_lit(b.as_slice(), file);
    string_of(c.as_slice())
}

/// Default per-invocation log path, `~/.local/state/flashpaste-paste.log`
/// (`/tmp` standing in for an unset home).
pub fn default_log_path(home: Option<&str>) -> (r: String)
    ensures
        r@ == join(
            join(
                join(
                    match home {
                        Some(h) => h@,
                        None => "/tmp"@,
                    },
                    ".local"@,
                ),
                "state"@,
            ),
            "flashpaste-paste.log"@,
        ),
{
    state_file(home, "flashpaste-paste.log")
}

/// Path for the JSON trace sink, `~/.local/state/flashpaste-trace.jsonl`
/// (`/tmp` standing in for an unset home).
pub fn default_trace_log_path(home: Option<&str>) -> (r: String)
    ensures
        r@ == join(
            join(
                join(
                    match home {
                        Some(h) => h@,
                        None => "/tmp"@,
                    },
                    ".local"@,
                ),
                "state"@,
            ),
            "flashpaste-trace.jsonl"@,
        ),
{
    state_file(home, "flashpaste-trace.jsonl")
}

/// FlashPaste ships systemd user units, never system services.
pub fn systemd_unit_mode() -> (mode: &'static str)
    ensures
        mode@ == "user"@,
{
    "user"
}

/// Appends a path to a list of paths.
fn push_path(out: &mut Vec<String>, p: &[char])
    ensures
        strings_view(final(out)@) == strings_view(old(out)@).push(p@),
{
    let s = string_of(p);
    out.push(s);
    assert(strings_view(out@) =~= strings_view(old(out)@).push(p@));
}

/// Appends `dir` joined with each name.
fn push_joined(out: &mut Vec<String>, dir: &[char], names: &Vec<Vec<char>>)
    ensures
        strings_view(final(out)@) == strings_view(old(out)@) + joined_each(
            dir@,
            Seq::new(names@.len(), |i: int| names@[i]@),
        ),
{
    let ghost nv = Seq::new(names@.len(), |i: int| names@[i]@);
    let mut i: usize = 0;
    while i < names.len()
        invariant
            nv == Seq::new(names@.len(), |i: int| names@[i]@),
            0 <= i <= names@.len(),
            strings_view(out@) == strings_view(old(out)@) + joined_each(dir@, nv.take(i as int)),
        decreases names@.len() - i,
    {
        let j = join_chars(dir, names[i].as_slice());
        push_path(out, j.as_slice());
        i = i + 1;
        assert(joined_each(dir@, nv.take(i as int)) =~= joined_each(dir@, nv.take(i - 1)).push(
            j@,
        ));
    }
    assert(nv.take(names@.len() as int) =~= nv);
}

/// The pieces of a `:`-separated search path (`std::env::split_paths` on
/// Unix), empty pieces included.
pub fn search_path_dirs(path_var: &str) -> (r: Vec<String>)
    ensures
        strings_view(r@) == split_colons(path_var@),
{
    let v = chars_of(path_var);
    let mut out: Vec<String> = Vec::new();
    let mut pos: usize = 0;
    assert(v@.skip(0) =~= v@);
    loop
        invariant
            v@ == path_var@,
            0 <= pos <= v@.len(),
            split_colons(path_var@) == strings_view(out@) + split_colons(v@.skip(pos as int)),
        decreases v@.len() - pos,
    {
        let ghost rest = v@.skip(pos as int);
        match find_char_from(v.as_slice(), pos, ':') {
            None => {
                proof {
                    lemma_find_char_none(v@, pos as int, ':');
                }
                let piece = sub_chars(v.as_slice(), pos, v.len());
                assert(piece@ =~= rest);
                push_path(&mut out, piece.as_slice());
                assert(split_colons(rest) == seq![rest]);
                assert(strings_view(out@) =~= strings_view(out@).take(strings_view(out@).len() - 1)
                    + seq![rest]);
                return out;
            },
            Some(k) => {
                proof {
                    lemma_find_char_skip(v@, pos as int, ':', k as int);
                }
                let piece = sub_chars(v.as_slice(), pos, k);
                assert(piece@ =~= rest.take(k - pos));
                assert(rest.skip(k - pos + 1) =~= v@.skip(k + 1));
                let ghost before = strings_view(out@);
                push_path(&mut out, piece.as_slice());
                assert(before + (seq![piece@] + split_colons(v@.skip(k + 1))) =~= strings_view(
                    out@,
                ) + split_colons(v@.skip(k + 1)));
                assert(k < v.len());
                pos = k + 1;
            },
        }
    }
}

/// The places a `PATH` search for `names` looks at, for each directory of
/// `path_var` in order and each name in order; none without `PATH`.
pub fn find_on_path(names: &[&str], path_var: Option<&str>) -> (r: Vec<String>)
    ensures
        strings_view(r@) == on_path(opt_chars(path_var), Seq::new(names@.len(), |i: int| names@[i]@)),
{
    let ghost nv = Seq::new(names@.len(), |i: int| names@[i]@);
    let mut name_chars: Vec<Vec<char>> = Vec::new();
    let mut i: usize = 0;
    while i < names.len()
        invariant
            0 <= i <= names@.len(),
            name_chars@.len() == i,
            forall|j: int| 0 <= j < i ==> #[trigger] name_chars@[j]@ == names@[j]@,
        decreases names@.len() - i,
    {
        name_chars.push(chars_of(names[i]));
        i = i + 1;
    }
    assert(Seq::new(name_chars@.len(), |i: int| name_chars@[i]@) =~= nv);
    let mut out: Vec<String> = Vec::new();
    let p = match path_var {
        Some(p) => p,
        None => {
            assert(strings_view(out@) =~= Seq::<Seq<char>>::empty());
            return out;
        },
    };
    let dirs = search_path_dirs(p);
    let ghost dv = strings_view(dirs@);
    let mut d: usize = 0;
    assert(strings_view(out@) =~= path_candidates(dv.take(0), nv));
    while d < dirs.len()
        invariant
            dv == strings_view(dirs@),
            dv == split_colons(p@),
            Seq::new(name_chars@.len(), |i: int| name_chars@[i]@) == nv,
            0 <= d <= dirs@.len(),
            strings_view(out@) == path_candidates(dv.take(d as int), nv),
        decreases dirs@.len() - d,
    {
        let dir = chars_of(dirs[d].as_str());
        assert(dir@ == dv[d as int]);
        push_joined(&mut out, dir.as_slice(), &name_chars);
        d = d + 1;
        assert(dv.take(d as int).drop_last() =~= dv.take(d - 1));
    }
    assert(dv.take(dirs@.len() as int) =~= dv);
    out
}

/// Appends the override, when set and non-empty.
fn push_override(out: &mut Vec<String>, ov: Option<&str>)
    ensures
        strings_view(final(out)@) == strings_view(old(out)@) + override_candidates(opt_chars(ov)),
{
    if let Some(o) = ov {
        let v = chars_of(o);
        if v.len() > 0 {
            push_path(out, v.as_slice());
            return;
        }
    }
    assert(strings_view(out@) =~= strings_view(out@) + Seq::<Seq<char>>::empty());
}

/// Appends a list of paths.
fn push_paths(out: &mut Vec<String>, more: Vec<String>)
    ensures
        strings_view(final(out)@) == strings_view(old(out)@) + strings_view(more@),
{
    let mut i: usize = 0;
    while i < more.len()
        invariant
            0 <= i <= more@.len(),
            strings_view(out@) == strings_view(old(out)@) + strings_view(more@).take(i as int),
        decreases more@.len() - i,
    {
        let v = chars_of(more[i].as_str());
        push_path(out, v.as_slice());
        i = i + 1;
        assert(strings_view(more@).take(i as int) =~= strings_view(more@).take(i - 1).push(v@));
    }
    assert(strings_view(more@).take(more@.len() as int) =~= strings_view(more@));
}

/// The paths at which the bash dispatcher (the durable fallback when a Rust
/// fast path declines or fails) is looked for, in order: the explicit
/// override `FLASHPASTE_BASH_FALLBACK` (`override_path`), then `PATH`
/// (`path_var`) for `tmux-paste-dispatch` and `tmux-paste-dispatch.sh`, then
/// `~/.local/bin` (`home`), then `/usr/bin/tmux-paste-dispatch`. The first
/// executable file among them is the dispatcher.
pub fn bash_dispatcher_candidates(
    override_path: Option<&str>,
    path_var: Option<&str>,
    home: Option<&str>,
) -> (r: Vec<String>)
    ensures
        strings_view(r@) == dispatcher_candidates(
            opt_chars(override_path),
            opt_chars(path_var),
            opt_chars(home),
        ),
{
    let mut out: Vec<String> = Vec::new();
    push_override(&mut out, override_path);
    let names: [&str; 2] = ["tmux-paste-dispatch", "tmux-paste-dispatch.sh"];
    let found = find_on_path(names.as_slice(), path_var);
    assert(Seq::new(names@.len(), |i: int| names@[i]@) =~= dispatcher_names());
    push_paths(&mut out, found);
    let ghost so_far = strings_view(out@);
    if let Some(h) = home {
        let hv = chars_of(h);
        let local = join_lit(hv.as_slice(), ".local");
        let local_bin = join_lit(local.as_slice(), "bin");
        let a = join_lit(local_bin.as_slice(), "tmux-paste-dispatch");
        push_path(&mut out, a.as_slice());
        let b = join_lit(local_bin.as_slice(), "tmux-paste-dispatch.sh");
        push_path(&mut out, b.as_slice());
        assert(strings_view(out@) =~= so_far + joined_each(local_bin@, dispatcher_names()));
    } else {
        assert(strings_view(out@) =~= so_far + Seq::<Seq<char>>::empty());
    }
    let last = chars_of("/usr/bin/tmux-paste-dispatch");
    push_path(&mut out, last.as_slice());
    out
}

/// The paths at which the legacy kitty fallback helper is looked for, in
/// order: the override `FLASHPASTE_PASTE_IMAGE` (`override_path`), then
/// `PATH` (`path_var`) for `paste_image.sh`, then `~/paste_image.sh` and
/// `~/.local/share/flashpaste/bin/paste_image.sh` (`home`), then
/// `/usr/share/flashpaste/paste_image.sh`. The first executable file among
/// them is the helper.
pub fn paste_image_candidates(
    override_path: Option<&str>,
    path_var: Option<&str>,
    home: Option<&str>,
) -> (r: Vec<String>)
    ensures
        strings_view(r@) == helper_candidates(
            opt_chars(override_path),
            opt_chars(path_var),
            opt_chars(home),
        ),
{
    let mut out: Vec<String> = Vec::new();
    push_override(&mut out, override_path);
    let names: [&str; 1] = ["paste_image.sh"];
    let found = find_on_path(names.as_slice(), path_var);
    assert(Seq::new(names@.len(), |i: int| names@[i]@) =~= seq!["paste_image.sh"@]);
    push_paths(&mut out, found);
    let ghost so_far = strings_view(out@);
    if let Some(h) = home {
        let hv = chars_of(h);
        let a = join_lit(hv.as_slice(), "paste_image.sh");
        push_path(&mut out, a.as_slice());
        let b1 = join_lit(hv.as_slice(), ".local");
        let b2 = join_lit(b1.as_slice(), "share");
        let b3 = join_lit(b2.as_slice(), "flashpaste");
        let b4 = join_lit(b3.as_slice(), "bin");
        let b = join_lit(b4.as_slice(), "paste_image.sh");
        push_path(&mut out, b.as_slice());
        assert(strings_view(out@) =~= so_far + seq![a@, b@]);
    } else {
        assert(strings_view(out@) =~= so_far + Seq::<Seq<char>>::empty());
    }
    let last = chars_of("/usr/share/flashpaste/paste_image.sh");
    push_path(&mut out, last.as_slice());
    out
}

/// Whether file metadata describes an executable file: a regular file with
/// some execute bit (`0o111`) set.
pub fn is_executable_mode(is_file: bool, mode: u32) -> (b: bool)
    ensures
        b == (is_file && mode & 0o111 != 0),
{
    is_file && mode & 0o111 != 0
}

/// The live kitty IPC socket in the runtime directory `dir`, from that
/// directory's entries in listing order: the first entry that is a socket
/// named `kitty-main-*`, joined onto `dir`.
pub fn kitty_socket(dir: &str, entries: &[DirEntryInfo]) -> (r: Option<String>)
    ensures
        match r {
            Some(p) => exists|i: int|
                0 <= i < entries@.len() && is_kitty_socket(#[trigger] entries@[i]) && (forall|j: int|
                    0 <= j < i ==> !is_kitty_socket(#[trigger] entries@[j])) && (entries@[i].name matches Some(
                    n,
                ) && p@ == join(dir@, n@)),
            None => forall|i: int| 0 <= i < entries@.len() ==> !is_kitty_socket(#[trigger] entries@[i]),
        },
{
    let prefix = chars_of("kitty-main-");
    let dv = chars_of(dir);
    let mut i: usize = 0;
    while i < entries.len()
        invariant
            prefix@ == "kitty-main-"@,
            dv@ == dir@,
            0 <= i <= entries@.len(),
            forall|j: int| 0 <= j < i ==> !is_kitty_socket(#[trigger] entries@[j]),
        decreases entries@.len() - i,
    {
        let e = &entries[i];
        if e.is_socket {
            if let Some(name) = &e.name {
                let nv = chars_of(name.as_str());
                if starts_with_exec(nv.as_slice(), prefix.as_slice()) {
                    let p = join_chars(dv.as_slice(), nv.as_slice());
                    assert(is_kitty_socket(entries@[i as int]));
                    return Some(string_of(p.as_slice()));
                }
            }
        }
        i = i + 1;
    }
    None
}


// ---------------------------------------------------------------------------
// Laws
// ---------------------------------------------------------------------------

/// The lock file sits directly in its directory, always under the name
/// `tmux-paste-dispatch.lock`.
pub proof fn law_lock_file_in_runtime_dir(xdg_runtime_dir: Option<Seq<char>>)
    ensures
        crate::pathname::file_name(
            join(lock_dir(xdg_runtime_dir), "tmux-paste-dispatch.lock"@),
        ) == Some("tmux-paste-dispatch.lock"@),
{
    let runtime_dir = lock_dir(xdg_runtime_dir);
    reveal_strlit("tmux-paste-dispatch.lock");
    let name = "tmux-paste-dispatch.lock"@;
    assert(!name.contains('/'));
    assert(name != seq!['.']);
    assert(name != seq!['.', '.']);
    crate::pathname::lemma_file_name_join(runtime_dir, name);
}

/// An explicit, non-empty override is always tried first, before `PATH` and
/// the install locations, for the dispatcher and for the kitty helper.
pub proof fn law_override_tried_first(
    ov: Seq<char>,
    path_var: Option<Seq<char>>,
    home: Option<Seq<char>>,
)
    requires
        ov.len() > 0,
    ensures
        dispatcher_candidates(Some(ov), path_var, home)[0] == ov,
        helper_candidates(Some(ov), path_var, home)[0] == ov,
{
}

/// Without an override, `PATH`, or a home directory, the packaged
/// locations are the only places looked at.
pub proof fn law_packaged_location_last(
    ov: Option<Seq<char>>,
    path_var: Option<Seq<char>>,
    home: Option<Seq<char>>,
)
    ensures
        dispatcher_candidates(ov, path_var, home).last() == "/usr/bin/tmux-paste-dispatch"@,
        helper_candidates(ov, path_var, home).last() == "/usr/share/flashpaste/paste_image.sh"@,
        dispatcher_candidates(None, None, None) == seq!["/usr/bin/tmux-paste-dispatch"@],
        helper_candidates(None, None, None) == seq!["/usr/share/flashpaste/paste_image.sh"@],
{
    assert(dispatcher_candidates(None, None, None) =~= seq!["/usr/bin/tmux-paste-dispatch"@]);
    assert(helper_candidates(None, None, None) =~= seq!["/usr/share/flashpaste/paste_image.sh"@]);
}

// ---------------------------------------------------------------------------
// Picking the first executable candidate
// ---------------------------------------------------------------------------

/// The first of `cands` whose probe says it is an executable file:
/// `executable[i]` is the probe of `cands[i]` (a regular file, symlinks
/// followed, with an execute bit); a candidate without a probe is not chosen.
pub open spec fn first_executable_of(cands: Seq<Seq<char>>, executable: Seq<bool>) -> Option<
    Seq<char>,
>
    decreases cands.len(),
{
    if cands.len() == 0 || executable.len() == 0 {
        None
    } else if executable[0] {
        Some(cands[0])
    } else {
        first_executable_of(cands.drop_first(), executable.drop_first())
    }
}

/// The located program: the first of `candidates` that is an executable
/// file, where `executable[i]` is the probe of `candidates[i]`; none when no
/// probed candidate is executable.
pub fn first_executable(candidates: &[String], executable: &[bool]) -> (r: Option<String>)
    ensures
        match r {
            Some(c) => first_executable_of(strings_view(candidates@), executable@) == Some(c@),
            None => first_executable_of(strings_view(candidates@), executable@) is None,
        },
{
    let ghost cv = strings_view(candidates@);
    let ghost ev = executable@;
    let n: usize = if candidates.len() < executable.len() {
        candidates.len()
    } else {
        executable.len()
    };
    let mut i: usize = 0;
    proof {
        assert(cv.skip(0) =~= cv);
        assert(ev.skip(0) =~= ev);
    }
    while i < n
        invariant
            i <= n,
            n <= candidates@.len(),
            n <= executable@.len(),
            n == candidates@.len() || n == executable@.len(),
            cv == strings_view(candidates@),
            ev == executable@,
            first_executable_of(cv, ev) == first_executable_of(cv.skip(i as int), ev.skip(i as int)),
        decreases n - i,
    {
        if executable[i] {
            proof {
                assert(cv.skip(i as int)[0] == candidates@[i as int]@);
                assert(ev.skip(i as int)[0] == executable@[i as int]);
            }
            return Some(candidates[i].clone());
        }
        proof {
            assert(cv.skip(i as int).drop_first() =~= cv.skip(i + 1));
            assert(ev.skip(i as int).drop_first() =~= ev.skip(i + 1));
        }
        i = i + 1;
    }
    proof {
        assert(cv.skip(i as int).len() == 0 || ev.skip(i as int).len() == 0);
    }
    None
}

/// The chosen candidate is the first probed one that is executable: it is
/// marked executable and every candidate before it is not; and nothing is
/// chosen exactly when no probed candidate is executable.
pub proof fn law_first_executable_is_first(cands: Seq<Seq<char>>, executable: Seq<bool>)
    ensures
        match first_executable_of(cands, executable) {
            Some(c) => exists|i: int|
                0 <= i < cands.len() && i < executable.len() && #[trigger] executable[i]
                    && cands[i] == c && forall|j: int| 0 <= j < i ==> !executable[j],
            None => forall|j: int|
                0 <= j < cands.len() && j < executable.len() ==> !#[trigger] executable[j],
        },
    decreases cands.len(),
{
    if cands.len() == 0 || executable.len() == 0 {
    } else if executable[0] {
        assert(executable[0] && cands[0] == cands[0]);
    } else {
        let c2 = cands.drop_first();
        let e2 = executable.drop_first();
        law_first_executable_is_first(c2, e2);
        match first_executable_of(c2, e2) {
            Some(c) => {
                let k = choose|k: int|
                    0 <= k < c2.len() && k < e2.len() && #[trigger] e2[k] && c2[k] == c
                        && forall|j: int| 0 <= j < k ==> !e2[j];
                assert(executable[k + 1] && cands[k + 1] == c);
                assert forall|j: int| 0 <= j < k + 1 implies !executable[j] by {
                    if j > 0 {
                        assert(executable[j] == e2[j - 1]);
                    }
                }
            },
            None => {
                assert forall|j: int|
                    0 <= j < cands.len() && j < executable.len() implies !executable[j] by {
                    if j > 0 {
                        assert(executable[j] == e2[j - 1]);
                    }
                }
            },
        }
    }
}

/// An executable override wins: with a non-empty override whose probe says
/// it is executable, both the dispatcher and the kitty helper resolve to it.
pub proof fn law_executable_override_wins(
    ov: Seq<char>,
    path_var: Option<Seq<char>>,
    home: Option<Seq<char>>,
    executable: Seq<bool>,
)
    requires
        ov.len() > 0,
        executable.len() > 0,
        executable[0],
    ensures
        first_executable_of(dispatcher_candidates(Some(ov), path_var, home), executable) == Some(ov),
        first_executable_of(helper_candidates(Some(ov), path_var, home), executable) == Some(ov),
{
    let d = dispatcher_candidates(Some(ov), path_var, home);
    let h = helper_candidates(Some(ov), path_var, home);
    assert(d[0] == ov);
    assert(h[0] == ov);
}

/// A non-executable override falls through: the search goes on exactly as
/// if no override had been given, over the remaining probes.
pub proof fn law_nonexecutable_override_falls_through(
    ov: Seq<char>,
    path_var: Option<Seq<char>>,
    home: Option<Seq<char>>,
    executable: Seq<bool>,
)
    requires
        ov.len() > 0,
        executable.len() > 0,
        !executable[0],
    ensures
        first_executable_of(dispatcher_candidates(Some(ov), path_var, home), executable)
            == first_executable_of(dispatcher_candidates(None, path_var, home), executable.drop_first()),
        first_executable_of(helper_candidates(Some(ov), path_var, home), executable)
            == first_executable_of(helper_candidates(None, path_var, home), executable.drop_first()),
{
    let d = dispatcher_candidates(Some(ov), path_var, home);
    let h = helper_candidates(Some(ov), path_var, home);
    assert(d.drop_first() =~= dispatcher_candidates(None, path_var, home));
    assert(h.drop_first() =~= helper_candidates(None, path_var, home));
}

// ---------------------------------------------------------------------------
// Every PATH directory is searched
// ---------------------------------------------------------------------------

/// A search of `dirs` for `names` yields one candidate per directory and name.
proof fn lemma_path_candidates_len(dirs: Seq<Seq<char>>, names: Seq<Seq<char>>)
    ensures
        path_candidates(dirs, names).len() == dirs.len() * names.len(),
    decreases dirs.len(),
{
    if dirs.len() > 0 {
        lemma_path_candidates_len(dirs.drop_last(), names);
        let d = dirs.len() as int;
        let n = names.len() as int;
        assert((d - 1) * n + n == d * n) by (nonlinear_arith);
    }
}

/// The candidate for directory `i` and name `j` sits at `i * names.len() + j`.
proof fn lemma_path_candidates_at(dirs: Seq<Seq<char>>, names: Seq<Seq<char>>, i: int, j: int)
    requires
        0 <= i < dirs.len(),
        0 <= j < names.len(),
    ensures
        i * names.len() + j < path_candidates(dirs, names).len(),
        path_candidates(dirs, names)[i * names.len() + j] == join(dirs[i], names[j]),
    decreases dirs.len(),
{
    let d = dirs.len() as int;
    let n = names.len() as int;
    lemma_path_candidates_len(dirs, names);
    lemma_path_candidates_len(dirs.drop_last(), names);
    if i < d - 1 {
        lemma_path_candidates_at(dirs.drop_last(), names, i, j);
        assert(i * n + j < (d - 1) * n) by (nonlinear_arith)
            requires
                0 <= i < d - 1,
                0 <= j < n,
        ;
        assert(dirs.drop_last()[i] == dirs[i]);
    } else {
        assert(i * n + j == (d - 1) * n + j);
        assert(d * n == (d - 1) * n + n) by (nonlinear_arith);
    }
}

/// How many places the override takes at the head of a search: one when it
/// is set and non-empty, none otherwise.
pub open spec fn override_slots(ov: Option<Seq<char>>) -> int {
    match ov {
        Some(o) => if o.len() > 0 {
            1
        } else {
            0
        },
        None => 0,
    }
}

/// Both searches cover all of `PATH`, in order: right after the override,
/// directory `i` of `PATH` gives the dispatcher candidates
/// `dir/tmux-paste-dispatch` and `dir/tmux-paste-dispatch.sh` at places
/// `2i` and `2i + 1`, and the helper candidate `dir/paste_image.sh` at place
/// `i`.
pub proof fn law_every_path_dir_searched(
    ov: Option<Seq<char>>,
    path_var: Seq<char>,
    home: Option<Seq<char>>,
    i: int,
)
    requires
        0 <= i < split_colons(path_var).len(),
    ensures
        dispatcher_candidates(ov, Some(path_var), home)[override_slots(ov) + 2 * i] == join(
            split_colons(path_var)[i],
            "tmux-paste-dispatch"@,
        ),
        dispatcher_candidates(ov, Some(path_var), home)[override_slots(ov) + 2 * i + 1] == join(
            split_colons(path_var)[i],
            "tmux-paste-dispatch.sh"@,
        ),
        helper_candidates(ov, Some(path_var), home)[override_slots(ov) + i] == join(
            split_colons(path_var)[i],
            "paste_image.sh"@,
        ),
        override_slots(ov) + 2 * i + 1 < dispatcher_candidates(ov, Some(path_var), home).len(),
        override_slots(ov) + i < helper_candidates(ov, Some(path_var), home).len(),
{
    let dirs = split_colons(path_var);
    let dn = dispatcher_names();
    let hn = seq!["paste_image.sh"@];
    let o = override_slots(ov);
    assert(override_candidates(ov).len() == o);
    lemma_path_candidates_at(dirs, dn, i, 0);
    lemma_path_candidates_at(dirs, dn, i, 1);
    lemma_path_candidates_at(dirs, hn, i, 0);
    lemma_path_candidates_len(dirs, dn);
    lemma_path_candidates_len(dirs, hn);
    assert(i * 1 == i);
    assert(i * 2 == 2 * i);
    let d = dispatcher_candidates(ov, Some(path_var), home);
    let h = helper_candidates(ov, Some(path_var), home);
    let dp = path_candidates(dirs, dn);
    let hp = path_candidates(dirs, hn);
    assert(d[o + 2 * i] == dp[2 * i]);
    assert(d[o + 2 * i + 1] == dp[2 * i + 1]);
    assert(h[o + i] == hp[i]);
}

} // verus!
