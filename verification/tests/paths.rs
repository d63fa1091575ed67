use agent_procs::paths::{join_path, log_dir, pid_path, socket_base_dir, socket_dir_for, socket_path, state_dir, state_file};

#[test]
fn test_socket_path_format() {
    let path_str = socket_path("mysession");
    assert!(path_str.ends_with(".sock"), "socket path '{}' should end with .sock", path_str);
    assert!(path_str.contains("mysession"));
}

#[test]
fn test_pid_path_format() {
    let path_str = pid_path("mysession");
    assert!(path_str.ends_with(".pid"), "pid path '{}' should end with .pid", path_str);
    assert!(path_str.contains("mysession"));
}

#[test]
fn test_socket_path_is_short() {
    let path = socket_path("my-long-session-name-that-would-have-failed-before");
    assert!(path.len() < 100, "socket path too long: {}", path);
}

#[test]
fn test_socket_base_dir_uses_tmp() {
    let result = socket_base_dir();
    let uid = nix::unistd::getuid();
    assert_eq!(result, format!("/tmp/agent-procs-{}", uid));
}

#[test]
fn test_socket_path() {
    let result = socket_path("mysession");
    let uid = nix::unistd::getuid();
    assert_eq!(result, format!("/tmp/agent-procs-{}/mysession.sock", uid));
}

#[test]
fn test_pid_path() {
    let result = pid_path("mysession");
    let uid = nix::unistd::getuid();
    assert_eq!(result, format!("/tmp/agent-procs-{}/mysession.pid", uid));
}

#[test]
fn test_state_dir_uses_xdg_when_set() {
    let result = state_dir(Some("/x/state"), Some("/home/u"), "test-session");
    assert_eq!(result, "/x/state/agent-procs/sessions/test-session");
}

#[test]
fn test_state_dir_defaults_to_home() {
    let result = state_dir(None, Some("/home/u"), "test-session");
    assert_eq!(result, "/home/u/.local/state/agent-procs/sessions/test-session");
    assert_eq!(state_dir(None, None, "s"), "/tmp/.local/state/agent-procs/sessions/s");
}

#[test]
fn test_log_dir() {
    let result = log_dir(Some("/x"), None, "mysession");
    assert_eq!(result, "/x/agent-procs/sessions/mysession/logs");
}

#[test]
fn test_log_dir_under_state_dir() {
    let sdir = state_dir(None, Some("/h"), "test-session");
    let ldir = log_dir(None, Some("/h"), "test-session");
    assert!(ldir.starts_with(&sdir));
    assert_eq!(state_file(None, Some("/h"), "s"), "/h/.local/state/agent-procs/sessions/s/state.json");
}

#[test]
fn socket_dir_for_uid() {
    assert_eq!(socket_dir_for(1000), "/tmp/agent-procs-1000");
}

#[test]
fn join_paths_like_pathbuf() {
    assert_eq!(join_path("/a", "b"), "/a/b");
    assert_eq!(join_path("/a/", "b"), "/a/b");
    assert_eq!(join_path("/a", "/b"), "/b");
    assert_eq!(join_path("", "b"), "b");
}

#[test]
fn test_socket_base_dir_contains_uid() {
    let uid = nix::unistd::getuid();
    let dir_str = socket_base_dir();
    assert!(
        dir_str.contains(&uid.to_string()),
        "socket_base_dir '{}' should contain uid '{}'",
        dir_str,
        uid
    );
}
