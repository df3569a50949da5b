//! Verified decision logic of the flashpaste paste daemon: clipboard image
//! policy, clipboard text sanitizing, paths, and the watchers' staging rules.

pub mod text;
pub mod clipboard_policy;
pub mod paste;
pub mod pathname;
pub mod paths;
pub mod inotify_watch;
pub mod clip_watch;
