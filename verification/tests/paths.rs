use flashpaste::paths::{
    bash_dispatcher_candidates, default_log_path, default_trace_log_path, find_on_path,
    is_executable_mode, kitty_socket, paste_image_candidates, recursion_lock_path, run_user_dir,
    screenshots_dir, search_path_dirs, systemd_unit_mode, xdg_runtime_dir, DirEntryInfo,
};
use flashpaste::pathname::{file_name_of, join_path};

#[test]
fn run_user_dir_formats_uid() {
    assert_eq!(run_user_dir(1000), "/run/user/1000");
    assert_eq!(run_user_dir(0), "/run/user/0");
    assert_eq!(run_user_dir(4294967295), "/run/user/4294967295");
}

#[test]
fn runtime_dir_prefers_non_empty_env() {
    assert_eq!(xdg_runtime_dir(Some("/run/user/42"), "/run/user/1000", true), "/run/user/42");
    assert_eq!(xdg_runtime_dir(Some(""), "/run/user/1000", true), "/run/user/1000");
    assert_eq!(xdg_runtime_dir(None, "/run/user/1000", true), "/run/user/1000");
    assert_eq!(xdg_runtime_dir(None, "/run/user/1000", false), "/tmp");
    assert_eq!(xdg_runtime_dir(Some(""), "/run/user/1000", false), "/tmp");
}

#[test]
fn lock_path_is_in_runtime_dir() {
    assert_eq!(
        recursion_lock_path(Some("/run/user/1000")),
        "/run/user/1000/tmux-paste-dispatch.lock"
    );
    assert_eq!(recursion_lock_path(Some("/x/")), "/x/tmux-paste-dispatch.lock");
    assert_eq!(recursion_lock_path(Some("")), "/tmp/tmux-paste-dispatch.lock");
    assert_eq!(recursion_lock_path(None), "/tmp/tmux-paste-dispatch.lock");
    let p = recursion_lock_path(Some("/var/run/x"));
    assert_eq!(file_name_of(&p).as_deref(), Some("tmux-paste-dispatch.lock"));
}

#[test]
fn screenshots_dir_under_home() {
    assert_eq!(
        screenshots_dir(Some("/home/u")).as_deref(),
        Some("/home/u/Pictures/Screenshots")
    );
    assert_eq!(screenshots_dir(None), None);
}

#[test]
fn log_paths_default_to_tmp_without_home() {
    assert_eq!(
        default_log_path(Some("/home/u")),
        "/home/u/.local/state/flashpaste-paste.log"
    );
    assert_eq!(default_log_path(None), "/tmp/.local/state/flashpaste-paste.log");
    assert_eq!(
        default_trace_log_path(Some("/home/u")),
        "/home/u/.local/state/flashpaste-trace.jsonl"
    );
    assert_eq!(
        default_trace_log_path(None),
        "/tmp/.local/state/flashpaste-trace.jsonl"
    );
}

#[test]
fn systemd_units_are_user_units() {
    assert_eq!(systemd_unit_mode(), "user");
}

#[test]
fn search_path_keeps_empty_pieces() {
    assert_eq!(search_path_dirs("/usr/bin:/bin"), vec!["/usr/bin", "/bin"]);
    assert_eq!(search_path_dirs(""), vec![""]);
    assert_eq!(search_path_dirs("a::b"), vec!["a", "", "b"]);
    assert_eq!(search_path_dirs("/x:"), vec!["/x", ""]);
}

#[test]
fn path_search_is_directory_major() {
    assert_eq!(
        find_on_path(&["x", "y"], Some("/a:/b")),
        vec!["/a/x", "/a/y", "/b/x", "/b/y"]
    );
    assert_eq!(find_on_path(&["x"], None), Vec::<String>::new());
    assert_eq!(find_on_path(&["x"], Some("")), vec!["x"]);
}

#[test]
fn dispatcher_candidates_in_order() {
    assert_eq!(
        bash_dispatcher_candidates(Some("/opt/d"), Some("/bin"), Some("/home/u")),
        vec![
            "/opt/d",
            "/bin/tmux-paste-dispatch",
            "/bin/tmux-paste-dispatch.sh",
            "/home/u/.local/bin/tmux-paste-dispatch",
            "/home/u/.local/bin/tmux-paste-dispatch.sh",
            "/usr/bin/tmux-paste-dispatch",
        ]
    );
    assert_eq!(
        bash_dispatcher_candidates(Some(""), None, None),
        vec!["/usr/bin/tmux-paste-dispatch"]
    );
}

#[test]
fn extensionless_dispatcher_preferred_on_path() {
    let c = bash_dispatcher_candidates(None, Some("/pkg/bin"), None);
    assert_eq!(c[0], "/pkg/bin/tmux-paste-dispatch");
    assert_eq!(c[1], "/pkg/bin/tmux-paste-dispatch.sh");
}

#[test]
fn helper_candidates_in_order() {
    assert_eq!(
        paste_image_candidates(Some("/x/paste_image.sh"), Some("/a:/b"), Some("/home/u")),
        vec![
            "/x/paste_image.sh",
            "/a/paste_image.sh",
            "/b/paste_image.sh",
            "/home/u/paste_image.sh",
            "/home/u/.local/share/flashpaste/bin/paste_image.sh",
            "/usr/share/flashpaste/paste_image.sh",
        ]
    );
    assert_eq!(
        paste_image_candidates(None, None, None),
        vec!["/usr/share/flashpaste/paste_image.sh"]
    );
}

#[test]
fn executable_needs_file_and_x_bit() {
    assert!(is_executable_mode(true, 0o755));
    assert!(is_executable_mode(true, 0o100));
    assert!(!is_executable_mode(true, 0o644));
    assert!(!is_executable_mode(false, 0o755));
}

#[test]
fn kitty_socket_is_first_matching_socket() {
    let entries = vec![
        DirEntryInfo { name: Some("kitty-main-1".to_string()), is_socket: false },
        DirEntryInfo { name: None, is_socket: true },
        DirEntryInfo { name: Some("other".to_string()), is_socket: true },
        DirEntryInfo { name: Some("kitty-main-22".to_string()), is_socket: true },
        DirEntryInfo { name: Some("kitty-main-33".to_string()), is_socket: true },
    ];
    assert_eq!(
        kitty_socket("/run/user/1000", &entries).as_deref(),
        Some("/run/user/1000/kitty-main-22")
    );
    assert_eq!(kitty_socket("/run/user/1000", &entries[..3]), None);
}

#[test]
fn join_follows_path_rules() {
    assert_eq!(join_path("/a", "/b"), "/b");
    assert_eq!(join_path("", "x"), "x");
    assert_eq!(join_path("a/", "x"), "a/x");
    assert_eq!(join_path("a", "x"), "a/x");
}

#[test]
fn file_name_of_paths() {
    assert_eq!(file_name_of("/a/b.png").as_deref(), Some("b.png"));
    assert_eq!(file_name_of("/a/b/").as_deref(), Some("b"));
    assert_eq!(file_name_of("a/.").as_deref(), Some("a"));
    assert_eq!(file_name_of("/a/.."), None);
    assert_eq!(file_name_of("/"), None);
    assert_eq!(file_name_of("."), None);
    assert_eq!(file_name_of(""), None);
}

#[test]
fn first_executable_candidate_is_picked() {
    let cands: Vec<String> = ["/o/x", "/p/tmux-paste-dispatch", "/p/tmux-paste-dispatch.sh", "/usr/bin/tmux-paste-dispatch"]
        .iter()
        .map(|s| s.to_string())
        .collect();
    assert_eq!(
        flashpaste::paths::first_executable(&cands, &[true, true, false, true]).as_deref(),
        Some("/o/x")
    );
    // A non-executable override falls through to the next executable one.
    assert_eq!(
        flashpaste::paths::first_executable(&cands, &[false, false, true, true]).as_deref(),
        Some("/p/tmux-paste-dispatch.sh")
    );
    assert_eq!(flashpaste::paths::first_executable(&cands, &[false, false, false, false]), None);
    // Candidates without a probe are not chosen.
    assert_eq!(flashpaste::paths::first_executable(&cands, &[false]), None);
    assert_eq!(flashpaste::paths::first_executable(&[], &[true]), None);
}
