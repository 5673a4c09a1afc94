//! Files that track the background node and shard-server processes: where
//! they live, what a PID file holds, and the exclusive lock that keeps two
//! nodes from running at once.

use vstd::prelude::*;

use crate::config::{join_path, join_path_spec, kwaainet_dir_spec, run_dir};
use crate::parse::{parse_unsigned, parse_unsigned_spec, trim_chars, trim_spec};
use crate::fmt::{push_all, push_lit};
use crate::text::{chars_of, string_of};

verus! {

/// Where the node daemon keeps its PID, lock and status files.
#[derive(Debug)]
pub struct DaemonManager {
    pub pid_file: String,
    pub lock_file: String,
    pub status_file: String,
}

/// The PID a PID file's text holds: the text without surrounding
/// whitespace, read as a `u32`.
pub open spec fn pid_from_text_spec(text: Seq<char>) -> Option<u32> {
    match parse_unsigned_spec(trim_spec(text), u32::MAX as int) {
        Some(n) => Some(n as u32),
        None => None,
    }
}

/// Reads the PID in a PID file's text.
pub fn parse_pid(text: &str) -> (r: Option<u32>)
    ensures
        r == pid_from_text_spec(text@),
{
    let t = trim_chars(&chars_of(text));
    match parse_unsigned(&t, 0xffff_ffffu64) {
        Some(n) => Some(n as u32),
        None => None,
    }
}

/// How an attempt at a non-blocking exclusive lock ended.
pub enum LockAttempt {
    Acquired,
    /// Another process holds the lock.
    WouldBlock,
    /// The lock call failed; the text is the error's description.
    Failed(String),
}

/// `nix::fcntl::flock(fd, LockExclusiveNonblock)`, its outcome told apart:
/// success, `EWOULDBLOCK` (another process holds the lock), or another
/// error with its description (nix's `Display` of the `Errno`).  It depends
/// on other processes, so nothing is stated of which comes back.
#[verifier::external_body]
#[allow(deprecated)]
fn flock_exclusive_nonblock(fd: i32) -> (r: LockAttempt) {
    match nix::fcntl::flock(fd, nix::fcntl::FlockArg::LockExclusiveNonblock) {
        Ok(()) => LockAttempt::Acquired,
        Err(nix::errno::Errno::EWOULDBLOCK) => LockAttempt::WouldBlock,
        Err(e) => LockAttempt::Failed(format!("{}", e)),
    }
}

/// What a lock attempt means for the caller: `Ok(true)` when we now hold
/// the lock, `Ok(false)` when another node holds it, else the error as
/// `flock: {description}`.
pub fn lock_outcome(attempt: LockAttempt) -> (r: Result<bool, String>)
    ensures
        match attempt {
            LockAttempt::Acquired => r == Ok::<bool, String>(true),
            LockAttempt::WouldBlock => r == Ok::<bool, String>(false),
            LockAttempt::Failed(m) => r matches Err(e) && e@ == "flock: "@ + m@,
        },
{
    match attempt {
        LockAttempt::Acquired => Ok(true),
        LockAttempt::WouldBlock => Ok(false),
        LockAttempt::Failed(m) => {
            let mut t: Vec<char> = Vec::new();
            push_lit(&mut t, "flock: ");
            let mc = chars_of(m.as_str());
            push_all(&mut t, &mc);
            Err(string_of(&t))
        },
    }
}

impl DaemonManager {
    /// The files of a daemon whose run directory is `run`.
    pub fn in_run_dir(run: &str) -> (r: Self)
        ensures
            r.pid_file@ == join_path_spec(run@, "kwaainet.pid"@),
            r.lock_file@ == join_path_spec(run@, "kwaainet.lock"@),
            r.status_file@ == join_path_spec(run@, "kwaainet.status"@),
    {
        DaemonManager {
            pid_file: join_path(run, "kwaainet.pid"),
            lock_file: join_path(run, "kwaainet.lock"),
            status_file: join_path(run, "kwaainet.status"),
        }
    }

    /// The daemon files in `~/.kwaainet/run`, for the home directory the
    /// environment gives.
    pub fn new() -> (r: Self)
        ensures
            exists|home: Seq<char>|
                home.len() > 0 && {
                    let run = join_path_spec(#[trigger] kwaainet_dir_spec(home), "run"@);
                    &&& r.pid_file@ == join_path_spec(run, "kwaainet.pid"@)
                    &&& r.lock_file@ == join_path_spec(run, "kwaainet.lock"@)
                    &&& r.status_file@ == join_path_spec(run, "kwaainet.status"@)
                },
    {
        let run = run_dir();
        Self::in_run_dir(run.as_str())
    }

    /// Tries to take the exclusive lock on the opened lock file `lock_fd`
    /// without waiting: `Ok(true)` when this process now holds it,
    /// `Ok(false)` when another node does, and when the call fails an error
    /// `flock: {description}`.  Which of these comes back depends on other
    /// processes.
    pub fn try_acquire_lock(&self, lock_fd: i32) -> (r: Result<bool, String>)
        ensures
            r matches Err(e) ==> exists|m: Seq<char>| e@ == "flock: "@ + m,
    {
        let attempt = flock_exclusive_nonblock(lock_fd);
        let ghost reason = match attempt {
            LockAttempt::Failed(ref m) => m@,
            _ => Seq::empty(),
        };
        let r = lock_outcome(attempt);
        assert(r matches Err(e) ==> e@ == "flock: "@ + reason);
        r
    }
}

/// Where the background shard server keeps its PID file.
#[derive(Debug)]
pub struct ShardManager {
    pub pid_file: String,
}

impl ShardManager {
    /// The shard server files of the run directory `run`.
    pub fn in_run_dir(run: &str) -> (r: Self)
        ensures
            r.pid_file@ == join_path_spec(run@, "shard.pid"@),
    {
        ShardManager { pid_file: join_path(run, "shard.pid") }
    }

    /// The shard server files in `~/.kwaainet/run`, for the home directory
    /// the environment gives.
    pub fn new() -> (r: Self)
        ensures
            exists|home: Seq<char>|
                home.len() > 0 && r.pid_file@ == join_path_spec(
                    join_path_spec(#[trigger] kwaainet_dir_spec(home), "run"@),
                    "shard.pid"@,
                ),
    {
        let run = run_dir();
        Self::in_run_dir(run.as_str())
    }
}

/// The arguments a detached shard server is started with.
pub fn shard_child_args() -> (r: Vec<String>)
    ensures
        r@.len() == 3,
        r@[0]@ == "shard"@,
        r@[1]@ == "serve"@,
        r@[2]@ == "--auto-rebalance"@,
{
    let mut v: Vec<String> = Vec::new();
    v.push(String::from_str("shard"));
    v.push(String::from_str("serve"));
    v.push(String::from_str("--auto-rebalance"));
    v
}

} // verus!
