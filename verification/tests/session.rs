use agent_procs::session::{IdCounter, daemon_alive_from_pid_text, pid_from_file_text};

#[test]
fn test_id_counter_sequential() {
    let mut counter = IdCounter::new();
    assert_eq!(counter.next_id(), "p1");
    assert_eq!(counter.next_id(), "p2");
    assert_eq!(counter.next_id(), "p3");
}

#[test]
fn test_id_counter_default() {
    let mut counter = IdCounter::default();
    assert_eq!(counter.next_id(), "p1");
}

#[test]
fn test_next_process_id_increments() {
    let mut counter = IdCounter::new();
    assert_eq!(counter.next(), "p1");
    assert_eq!(counter.next(), "p2");
    assert_eq!(counter.next(), "p3");
}

#[test]
fn pid_file_text_is_trimmed_and_parsed() {
    assert_eq!(pid_from_file_text("1234\n"), Some(1234));
    assert_eq!(pid_from_file_text("  -7 "), Some(-7));
    assert_eq!(pid_from_file_text("+5"), Some(5));
    assert_eq!(pid_from_file_text("abc"), None);
    assert_eq!(pid_from_file_text(""), None);
    assert_eq!(pid_from_file_text("-+5"), None);
    assert_eq!(pid_from_file_text("2147483648"), None);
    assert_eq!(pid_from_file_text("-2147483648"), Some(i32::MIN));
}

#[test]
fn test_is_daemon_alive_returns_false_for_dead_pid() {
    assert!(!daemon_alive_from_pid_text("99999999\n"));
    assert!(!daemon_alive_from_pid_text("not a pid"));
}

#[test]
fn test_is_daemon_alive_returns_true_for_current_process() {
    assert!(daemon_alive_from_pid_text(&format!("{}\n", nix::unistd::getpid().as_raw())));
}
