use kwaainet::daemon::{lock_outcome, parse_pid, shard_child_args, DaemonManager, LockAttempt, ShardManager};

#[test]
fn pid_files_hold_trimmed_numbers() {
    assert_eq!(parse_pid("1234\n"), Some(1234));
    assert_eq!(parse_pid("  42  "), Some(42));
    assert_eq!(parse_pid(""), None);
    assert_eq!(parse_pid("12a"), None);
    assert_eq!(parse_pid("4294967296"), None);
    assert_eq!(parse_pid("4294967295"), Some(u32::MAX));
}

#[test]
fn run_dir_files() {
    let m = DaemonManager::in_run_dir("/home/a/.kwaainet/run");
    assert_eq!(m.pid_file, "/home/a/.kwaainet/run/kwaainet.pid");
    assert_eq!(m.lock_file, "/home/a/.kwaainet/run/kwaainet.lock");
    assert_eq!(m.status_file, "/home/a/.kwaainet/run/kwaainet.status");
    assert_eq!(ShardManager::in_run_dir("/r").pid_file, "/r/shard.pid");
    assert_eq!(shard_child_args(), vec!["shard", "serve", "--auto-rebalance"]);
}

#[test]
fn lock_outcomes() {
    assert_eq!(lock_outcome(LockAttempt::Acquired), Ok(true));
    assert_eq!(lock_outcome(LockAttempt::WouldBlock), Ok(false));
    assert_eq!(
        lock_outcome(LockAttempt::Failed("EBADF: Bad file number".to_string())),
        Err("flock: EBADF: Bad file number".to_string())
    );
    // An invalid descriptor is reported as an error, not as "held elsewhere".
    let m = DaemonManager::in_run_dir("/r");
    let e = m.try_acquire_lock(-1).unwrap_err();
    assert!(e.starts_with("flock: EBADF"), "{e}");
}

#[test]
fn home_falls_back_to_current_dir() {
    assert_eq!(kwaainet::config::home_or_current(None), ".");
    assert_eq!(kwaainet::config::home_or_current(Some("/home/a".to_string())), "/home/a");
    assert!(!kwaainet::config::dirs_home().is_empty());
}
