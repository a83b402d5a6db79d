use termfold::runtime::{
    is_private_directory, owned_socket, root_path, unchanged_socket, valid_parent, PathFacts, RuntimeDir,
};

fn facts(is_dir: bool, is_socket: bool, owner: u32, mode: u32) -> PathFacts {
    PathFacts { is_dir, is_symlink: false, is_socket, owner, mode, device: 1, inode: 2 }
}

#[test]
fn socket_paths_are_inside_the_runtime_directory() {
    let runtime = RuntimeDir::new("/run/user/1000/termfold".to_string(), 1000);
    assert_eq!(runtime.socket_path("work"), Ok("/run/user/1000/termfold/work.sock".to_string()));
    assert_eq!(
        runtime.socket_path("../escape"),
        Err("session name must match [A-Za-z0-9_-]{1,64}".to_string())
    );
    assert_eq!(runtime.path(), "/run/user/1000/termfold");
    assert_eq!(runtime.uid(), 1000);
}

#[test]
fn runtime_root_prefers_a_trusted_xdg_directory() {
    assert_eq!(root_path(Some("/run/user/1000"), true, 1000), "/run/user/1000/termfold");
    assert_eq!(root_path(Some("/run/user/1000"), false, 1000), "/tmp/termfold-1000");
    assert_eq!(root_path(Some("relative"), true, 1000), "/tmp/termfold-1000");
    assert_eq!(root_path(None, true, 0), "/tmp/termfold-0");
}

#[test]
fn directory_and_socket_checks() {
    assert!(valid_parent(facts(true, false, 5, 0o755), 5));
    assert!(!valid_parent(facts(true, false, 5, 0o775), 5));
    assert!(!valid_parent(facts(true, false, 6, 0o700), 5));
    assert!(is_private_directory(facts(true, false, 5, 0o40700), 5));
    assert!(!is_private_directory(facts(true, false, 5, 0o755), 5));
    assert!(owned_socket(facts(false, true, 5, 0o600), 5));
    assert!(!owned_socket(facts(false, false, 5, 0o600), 5));
    let before = facts(false, true, 5, 0o600);
    assert!(unchanged_socket(before, before, 5));
    assert!(!unchanged_socket(before, PathFacts { inode: 3, ..before }, 5));
}
