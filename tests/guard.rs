use status_notifier::guard::{is_running, parse_pid, MarkerVerdict};

#[test]
fn pid_is_read_from_trimmed_decimal() {
    assert_eq!(parse_pid("1234"), Some(1234));
    assert_eq!(parse_pid("  42\n"), Some(42));
    assert_eq!(parse_pid("+7"), Some(7));
    assert_eq!(parse_pid("4294967295"), Some(4294967295));
}

#[test]
fn bad_pid_text_is_rejected() {
    assert_eq!(parse_pid(""), None);
    assert_eq!(parse_pid("   "), None);
    assert_eq!(parse_pid("12a"), None);
    assert_eq!(parse_pid("-3"), None);
    assert_eq!(parse_pid("+"), None);
    assert_eq!(parse_pid("4294967296"), None);
    assert_eq!(parse_pid("99999999999"), None);
}

#[test]
fn marker_of_dead_process_is_stale() {
    assert_eq!(is_running(Some("999999\n".to_string()), false), MarkerVerdict::Stale);
    assert_eq!(is_running(Some("junk".to_string()), false), MarkerVerdict::Stale);
}

#[test]
fn marker_of_live_process_runs() {
    assert_eq!(is_running(Some("321".to_string()), true), MarkerVerdict::Running { pid: 321 });
}

#[test]
fn no_marker_means_not_running() {
    assert_eq!(is_running(None, false), MarkerVerdict::NotRunning);
    assert_eq!(is_running(None, true), MarkerVerdict::NotRunning);
}
