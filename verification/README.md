# flashpaste

The decision logic of the flashpaste clipboard-paste daemon, verified with
Verus.

- `src/clipboard_policy.rs` — whether the clipboard holds an image (Wayland
  is authoritative; X11 only when Wayland is silent).
- `src/paste.rs` — clipboard text sanitizing (HTML to plain text, entity
  decoding, blank-line collapsing) and the image/text paste decisions.
- `src/paths.rs` — runtime, log and lock paths, and the ordered places the
  fallback dispatcher and helper are looked for.
- `src/inotify_watch.rs` — which screenshot events are staged, their MIME
  types, and where compressed copies go.
- `src/clip_watch.rs` — the clipboard pre-stager's flag and staging
  decisions.
- `src/pathname.rs`, `src/text.rs` — Unix path strings and character-level
  text helpers.

`app/` holds the I/O around the library: environment, filesystem, inotify,
tokio tasks and tmux processes.
