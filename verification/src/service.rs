//! The auto-start service: the systemd user unit (Linux) and launchd agent
//! (macOS) that run the node at login, and how their state is reported.

use vstd::prelude::*;

use crate::config::{join_path, join_path_spec};
use crate::fmt::{push_all, push_lit};
use crate::text::{chars_of, string_of};

verus! {

/// State of the auto-start service.
#[derive(Debug, PartialEq, Eq)]
pub struct ServiceStatus {
    pub installed: bool,
    pub loaded: bool,
    pub running: bool,
    pub pid: Option<u32>,
}

/// Installs, removes, queries and restarts the auto-start service of one
/// platform.
pub trait ServiceManager {
    fn install(&self) -> Result<(), String>;

    fn uninstall(&self) -> Result<(), String>;

    fn status(&self) -> ServiceStatus;

    fn restart(&self) -> Result<(), String>;
}

/// Which auto-start service a platform uses.
#[derive(Debug, Clone, Copy, PartialEq, Eq, Structural)]
pub enum ServiceKind {
    /// launchd agent (macOS).
    Launchd,
    /// systemd user unit (Linux).
    Systemd,
    /// No auto-start service.
    Unsupported,
}

/// The service kind of an operating system as `std::env::consts::OS`
/// names it: launchd on `macos`, systemd on `linux`, none elsewhere.
pub open spec fn service_kind_spec(os: Seq<char>) -> ServiceKind {
    if os == "macos"@ {
        ServiceKind::Launchd
    } else if os == "linux"@ {
        ServiceKind::Systemd
    } else {
        ServiceKind::Unsupported
    }
}

/// The service kind of the operating system `os`.
pub fn service_kind(os: &str) -> (r: ServiceKind)
    ensures
        r == service_kind_spec(os@),
{
    let c = chars_of(os);
    if crate::parse::eq_lit(&c, "macos") {
        ServiceKind::Launchd
    } else if crate::parse::eq_lit(&c, "linux") {
        ServiceKind::Systemd
    } else {
        ServiceKind::Unsupported
    }
}

/// The service status on systemd: loaded whenever the unit file exists,
/// running when `systemctl --user is-active` succeeds.
pub fn systemd_status(unit_exists: bool, active: bool) -> (r: ServiceStatus)
    ensures
        r == (ServiceStatus { installed: unit_exists, loaded: unit_exists, running: active, pid: None }),
{
    ServiceStatus { installed: unit_exists, loaded: unit_exists, running: active, pid: None }
}

/// The service status on launchd: nothing when the agent file is missing,
/// else loaded and running exactly when `launchctl list` knows the agent.
pub fn launchd_status(plist_exists: bool, listed: bool) -> (r: ServiceStatus)
    ensures
        r == (if plist_exists {
            ServiceStatus { installed: true, loaded: listed, running: listed, pid: None }
        } else {
            ServiceStatus { installed: false, loaded: false, running: false, pid: None }
        }),
{
    if !plist_exists {
        return ServiceStatus { installed: false, loaded: false, running: false, pid: None };
    }
    ServiceStatus { installed: true, loaded: listed, running: listed, pid: None }
}

/// The status reported where no service manager is supported.
pub fn unsupported_status() -> (r: ServiceStatus)
    ensures
        r == (ServiceStatus { installed: false, loaded: false, running: false, pid: None }),
{
    ServiceStatus { installed: false, loaded: false, running: false, pid: None }
}

/// The systemd user unit file under the home directory `home`.
pub fn systemd_unit_path(home: &str) -> (r: String)
    ensures
        r@ == join_path_spec(home@, ".config/systemd/user/kwaainet.service"@),
{
    join_path(home, ".config/systemd/user/kwaainet.service")
}

/// The launchd agent file under the home directory `home`.
pub fn launchd_plist_path(home: &str) -> (r: String)
    ensures
        r@ == join_path_spec(home@, "Library/LaunchAgents/ai.kwaai.kwaainet.plist"@),
{
    join_path(home, "Library/LaunchAgents/ai.kwaai.kwaainet.plist")
}

/// The systemd unit that runs `EXE run-node`, restarting it, with its
/// output appended to `LOG`.
pub open spec fn systemd_unit_spec(exe: Seq<char>, log: Seq<char>) -> Seq<char> {
    "[Unit]\nDescription=KwaaiNet Node\nAfter=network.target\n\n[Service]\nExecStart="@ + exe
        + " run-node\nRestart=always\nRestartSec=10\nStandardOutput=append:"@ + log
        + "\nStandardError=append:"@ + log + "\n\n[Install]\nWantedBy=default.target\n"@
}

/// The text of the systemd user unit for the executable `exe` and the log
/// file `log`.
pub fn systemd_unit_content(exe: &str, log: &str) -> (r: String)
    ensures
        r@ == systemd_unit_spec(exe@, log@),
{
    let e = chars_of(exe);
    let l = chars_of(log);
    let mut s = chars_of(
        "[Unit]\nDescription=KwaaiNet Node\nAfter=network.target\n\n[Service]\nExecStart=",
    );
    push_all(&mut s, &e);
    push_lit(&mut s, " run-node\nRestart=always\nRestartSec=10\nStandardOutput=append:");
    push_all(&mut s, &l);
    push_lit(&mut s, "\nStandardError=append:");
    push_all(&mut s, &l);
    push_lit(&mut s, "\n\n[Install]\nWantedBy=default.target\n");
    string_of(&s)
}

/// The launchd agent that runs `EXE run-node` at load, keeps it alive, and
/// sends its output to `LOG`.
pub open spec fn launchd_plist_spec(exe: Seq<char>, log: Seq<char>) -> Seq<char> {
    "<?xml version=\"1.0\" encoding=\"UTF-8\"?>\n<!DOCTYPE plist PUBLIC \"-//Apple//DTD PLIST 1.0//EN\"\n  \"http://www.apple.com/DTDs/PropertyList-1.0.dtd\">\n<plist version=\"1.0\">\n<dict>\n    <key>Label</key>\n    <string>ai.kwaai.kwaainet</string>\n    <key>ProgramArguments</key>\n    <array>\n        <string>"@
        + exe
        + "</string>\n        <string>run-node</string>\n    </array>\n    <key>RunAtLoad</key>\n    <true/>\n    <key>KeepAlive</key>\n    <true/>\n    <key>StandardOutPath</key>\n    <string>"@
        + log + "</string>\n    <key>StandardErrorPath</key>\n    <string>"@ + log
        + "</string>\n</dict>\n</plist>"@
}

/// The text of the launchd agent for the executable `exe` and the log file
/// `log`.
pub fn launchd_plist_content(exe: &str, log: &str) -> (r: String)
    ensures
        r@ == launchd_plist_spec(exe@, log@),
{
    let e = chars_of(exe);
    let l = chars_of(log);
    let mut s = chars_of(
        "<?xml version=\"1.0\" encoding=\"UTF-8\"?>\n<!DOCTYPE plist PUBLIC \"-//Apple//DTD PLIST 1.0//EN\"\n  \"http://www.apple.com/DTDs/PropertyList-1.0.dtd\">\n<plist version=\"1.0\">\n<dict>\n    <key>Label</key>\n    <string>ai.kwaai.kwaainet</string>\n    <key>ProgramArguments</key>\n    <array>\n        <string>",
    );
    push_all(&mut s, &e);
    push_lit(
        &mut s,
        "</string>\n        <string>run-node</string>\n    </array>\n    <key>RunAtLoad</key>\n    <true/>\n    <key>KeepAlive</key>\n    <true/>\n    <key>StandardOutPath</key>\n    <string>",
    );
    push_all(&mut s, &l);
    push_lit(&mut s, "</string>\n    <key>StandardErrorPath</key>\n    <string>");
    push_all(&mut s, &l);
    push_lit(&mut s, "</string>\n</dict>\n</plist>");
    string_of(&s)
}

} // verus!
