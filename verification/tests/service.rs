use kwaainet::service::{service_kind, ServiceKind};
use kwaainet::service::{
    launchd_plist_content, launchd_plist_path, launchd_status, systemd_status, systemd_unit_content,
    systemd_unit_path, unsupported_status, ServiceStatus,
};

#[test]
fn systemd_unit_text() {
    assert_eq!(
        systemd_unit_content("/usr/bin/kwaainet", "/h/.kwaainet/logs/kwaainet.log"),
        "[Unit]\nDescription=KwaaiNet Node\nAfter=network.target\n\n\
         [Service]\nExecStart=/usr/bin/kwaainet run-node\nRestart=always\nRestartSec=10\n\
         StandardOutput=append:/h/.kwaainet/logs/kwaainet.log\nStandardError=append:/h/.kwaainet/logs/kwaainet.log\n\n\
         [Install]\nWantedBy=default.target\n"
    );
    assert_eq!(systemd_unit_path("/h"), "/h/.config/systemd/user/kwaainet.service");
}

#[test]
fn launchd_plist_text() {
    let exe = "/bin/k";
    let log = "/l.log";
    let expected = format!(
        r#"<?xml version="1.0" encoding="UTF-8"?>
<!DOCTYPE plist PUBLIC "-//Apple//DTD PLIST 1.0//EN"
  "http://www.apple.com/DTDs/PropertyList-1.0.dtd">
<plist version="1.0">
<dict>
    <key>Label</key>
    <string>ai.kwaai.kwaainet</string>
    <key>ProgramArguments</key>
    <array>
        <string>{exe}</string>
        <string>run-node</string>
    </array>
    <key>RunAtLoad</key>
    <true/>
    <key>KeepAlive</key>
    <true/>
    <key>StandardOutPath</key>
    <string>{log}</string>
    <key>StandardErrorPath</key>
    <string>{log}</string>
</dict>
</plist>"#
    );
    assert_eq!(launchd_plist_content(exe, log), expected);
    assert_eq!(launchd_plist_path("/Users/a"), "/Users/a/Library/LaunchAgents/ai.kwaai.kwaainet.plist");
}

#[test]
fn service_states() {
    assert_eq!(
        systemd_status(true, false),
        ServiceStatus { installed: true, loaded: true, running: false, pid: None }
    );
    assert_eq!(
        launchd_status(false, true),
        ServiceStatus { installed: false, loaded: false, running: false, pid: None }
    );
    assert_eq!(
        launchd_status(true, true),
        ServiceStatus { installed: true, loaded: true, running: true, pid: None }
    );
    assert_eq!(
        unsupported_status(),
        ServiceStatus { installed: false, loaded: false, running: false, pid: None }
    );
}

#[test]
fn service_kind_by_platform() {
    assert_eq!(service_kind("macos"), ServiceKind::Launchd);
    assert_eq!(service_kind("linux"), ServiceKind::Systemd);
    assert_eq!(service_kind("windows"), ServiceKind::Unsupported);
}
