use seer::monitor::filesystem_monitor::{
    calculate_file_hash, detect_changes, hex_of, FileFacts, FileMetadata, FileSystemMonitor,
    FileSystemMonitorConfig, FsAlertType, FsEventDetails, FsEventSeverity, FsEventType,
};
use seer::monitor::log_monitor::{
    entry_matches, extract_level, extract_message, extract_timestamp, trimmed_line, LogAlertSeverity,
    LogAlertType, LogEntry, LogLevel, LogMonitor, LogMonitorConfig,
};

#[test]
fn log_levels() {
    assert_eq!(extract_level("kernel: PANIC now"), LogLevel::Emergency);
    assert_eq!(extract_level("ALERT raised"), LogLevel::Alert);
    assert_eq!(extract_level("CRITICAL thing"), LogLevel::Critical);
    assert_eq!(extract_level("an ERROR here"), LogLevel::Error);
    assert_eq!(extract_level("WARNING: disk"), LogLevel::Warning);
    assert_eq!(extract_level("NOTICE x"), LogLevel::Notice);
    assert_eq!(extract_level("DEBUG y"), LogLevel::Debug);
    assert_eq!(extract_level("plain"), LogLevel::Info);
}

#[test]
fn log_messages() {
    assert_eq!(extract_message("Jan 15 10:30:00 host sshd[1]: Accepted key"), "00 host sshd[1]: Accepted key");
    assert_eq!(extract_message("host app: msg: detail "), "detail");
    assert_eq!(extract_message("no colon"), "no colon");
    assert_eq!(extract_message("one: colon"), "one: colon");
    assert_eq!(trimmed_line("  text \n").as_deref(), Some("text"));
    assert_eq!(trimmed_line("   "), None);
}

#[test]
fn log_timestamps() {
    assert_eq!(extract_timestamp("Jan 15 10:30:00 host sshd: ok"), Some(1705314600));
    assert_eq!(extract_timestamp("short line"), None);
    assert_eq!(extract_timestamp("not a time stamp at all"), None);
}

#[test]
fn log_patterns_match_without_case() {
    assert!(entry_matches("Failed LOGIN for root", "", "failed login"));
    assert!(entry_matches("", "sshd: Invalid user bob", "INVALID USER"));
    assert!(!entry_matches("all good", "all good", "port scan"));
    let c = LogMonitorConfig::default();
    assert_eq!(c.log_files.len(), 5);
    assert_eq!(c.log_files[0], "/var/log/syslog");
    assert!(c.follow_mode);
    assert_eq!(c.max_entries, 1000);
    assert_eq!(c.alert_patterns.len(), 21);
    assert_eq!(c.alert_patterns[16].pattern, "/etc/shadow");
    assert_eq!(c.alert_patterns[16].alert_type, LogAlertType::FileSystemAccess);
}

#[test]
fn file_severities() {
    let c = FileSystemMonitorConfig::default();
    assert_eq!(c.determine_severity("/etc/shadow", &FsEventType::FileDeleted), FsEventSeverity::Critical);
    assert_eq!(c.determine_severity("/etc/systemd/system/x.service", &FsEventType::FileModified), FsEventSeverity::High);
    assert_eq!(c.determine_severity("/etc/passwd", &FsEventType::FileAccessed), FsEventSeverity::Medium);
    assert_eq!(c.determine_severity("/etc/motd", &FsEventType::IntegrityViolation), FsEventSeverity::High);
    assert_eq!(c.determine_severity("/sbin/init", &FsEventType::PermissionChanged), FsEventSeverity::Medium);
    assert_eq!(c.determine_severity("/binaries/x", &FsEventType::FileCreated), FsEventSeverity::Low);
    assert_eq!(c.determine_severity("/home/a", &FsEventType::FileDeleted), FsEventSeverity::Low);
    assert_eq!(c.determine_severity("/etc/passwdx", &FsEventType::FileDeleted), FsEventSeverity::High);
    assert!(c.is_excluded_path("/proc/1/status"));
    assert!(!c.is_excluded_path("/process"));
    assert!(c.should_recurse("/usr/share/doc"));
    assert!(!c.should_recurse("/a/b/c/d/e/f/g/h/i"));
    assert!(!c.should_recurse("/tmp/x"));
    assert_eq!(c.scan_interval_seconds, 300);
}

#[test]
fn file_changes_between_scans() {
    let a = FileFacts { size: 10, permissions: "644".into(), owner: Some("root".into()), group: None, hash: Some("aa".into()) };
    let same = a.clone();
    assert!(detect_changes(&a, &same, true).is_empty());
    let b = FileFacts { size: 11, permissions: "600".into(), owner: Some("bob".into()), group: None, hash: Some("bb".into()) };
    assert_eq!(
        detect_changes(&a, &b, true),
        vec![FsEventType::FileModified, FsEventType::PermissionChanged, FsEventType::OwnershipChanged, FsEventType::IntegrityViolation]
    );
    let c = FileFacts { hash: None, ..a.clone() };
    assert_eq!(detect_changes(&a, &c, false), vec![FsEventType::FileModified]);
}

#[test]
fn content_hashes() {
    assert_eq!(calculate_file_hash(b""), "d41d8cd98f00b204e9800998ecf8427e");
    assert_eq!(calculate_file_hash(b"abc"), "900150983cd24fb0d6963f7d28e17f72");
    assert_eq!(hex_of(&[0, 15, 16, 255]), "000f10ff");
}

fn entry(timestamp: i64, level: LogLevel, message: &str, raw_line: &str) -> LogEntry {
    LogEntry {
        timestamp,
        source: "/var/log/auth.log".to_string(),
        level,
        message: message.to_string(),
        raw_line: raw_line.to_string(),
    }
}

#[test]
fn log_lines_become_entries() {
    let m = LogMonitor::with_default_config();
    let e = m.parse_log_line("  Jan 15 10:30:00 host sshd[7]: ERROR: Failed login for root \n", "/var/log/auth.log").unwrap();
    assert_eq!(e.timestamp, 1705314600);
    assert_eq!(e.level, LogLevel::Error);
    assert_eq!(e.message, "00 host sshd[7]: ERROR: Failed login for root");
    assert_eq!(e.raw_line, "Jan 15 10:30:00 host sshd[7]: ERROR: Failed login for root");
    assert_eq!(e.source, "/var/log/auth.log");
    assert!(m.parse_log_line("   ", "/var/log/auth.log").is_none());
    let (t, level) = m.extract_timestamp_and_level("Jan 15 10:31:00 host kernel: WARN low memory");
    assert_eq!(t, 1705314660);
    assert_eq!(level, LogLevel::Warning);
}

#[test]
fn log_reads_skip_taken_lines_and_keep_the_newest() {
    let mut m = LogMonitor::with_default_config();
    m.config.max_entries = 3;
    let lines: Vec<String> = vec![
        "Jan 15 10:30:00 host sshd: Failed login for root".to_string(),
        "".to_string(),
        "   ".to_string(),
        "Jan 15 10:31:00 host app: ERROR disk full".to_string(),
        "x".to_string(),
        "y".to_string(),
    ];
    m.read_log_lines("/var/log/auth.log", &lines);
    assert_eq!(m.file_position("/var/log/auth.log"), 4);
    assert_eq!(m.file_position("/var/log/syslog"), 0);
    let raw: Vec<&str> = m.log_entries.iter().map(|e| e.raw_line.as_str()).collect();
    assert_eq!(raw, vec!["Jan 15 10:31:00 host app: ERROR disk full", "x", "y"]);
    assert_eq!(m.log_entries[0].timestamp, 1705314660);
    m.read_log_lines("/var/log/auth.log", &lines);
    assert_eq!(m.file_position("/var/log/auth.log"), 6);
    let raw: Vec<&str> = m.log_entries.iter().map(|e| e.raw_line.as_str()).collect();
    assert_eq!(raw, vec!["y", "x", "y"]);
    m.set_file_position("/var/log/syslog", 9);
    m.set_file_position("/var/log/auth.log", 1);
    assert_eq!(m.file_position("/var/log/syslog"), 9);
    assert_eq!(m.file_position("/var/log/auth.log"), 1);
    assert_eq!(m.file_positions.len(), 2);
}

#[test]
fn log_reads_stop_after_a_hundred_and_one_entries() {
    let mut m = LogMonitor::with_default_config();
    let lines: Vec<String> = (0..150).map(|i| format!("line {}", i)).collect();
    m.read_log_lines("/var/log/syslog", &lines);
    assert_eq!(m.log_entries.len(), 101);
    assert_eq!(m.file_position("/var/log/syslog"), 101);
    assert_eq!(m.log_entries[100].raw_line, "line 100");
}

#[test]
fn log_store_queries() {
    let mut m = LogMonitor::with_default_config();
    m.log_entries = vec![
        entry(100, LogLevel::Info, "started", "host app: started"),
        entry(200, LogLevel::Error, "Disk FULL", "host app: Disk FULL"),
        entry(300, LogLevel::Error, "ok", "host app: ok"),
    ];
    let recent: Vec<i64> = m.get_recent_entries(2).iter().map(|e| e.timestamp).collect();
    assert_eq!(recent, vec![300, 200]);
    assert_eq!(m.get_recent_entries(9).len(), 3);
    let errors: Vec<i64> = m.get_entries_by_level(LogLevel::Error).iter().map(|e| e.timestamp).collect();
    assert_eq!(errors, vec![200, 300]);
    let found: Vec<i64> = m.search_logs("disk full").iter().map(|e| e.timestamp).collect();
    assert_eq!(found, vec![200]);
    assert!(m.search_logs("nothing").is_empty());
    m.clear_old_entries_at(86600);
    let kept: Vec<i64> = m.log_entries.iter().map(|e| e.timestamp).collect();
    assert_eq!(kept, vec![300]);
}

#[test]
fn log_alerts_are_raised_once_a_minute() {
    let mut m = LogMonitor::with_default_config();
    m.log_entries = vec![
        entry(1000, LogLevel::Info, "Failed login for root", "host sshd: Failed login for root"),
        entry(500, LogLevel::Info, "Failed login for bob", "host sshd: Failed login for bob"),
    ];
    m.analyze_logs_for_alerts_at(1010);
    assert_eq!(m.alerts.len(), 1);
    let a = &m.alerts[0];
    assert!(a.id.starts_with("log-alert-"));
    assert_eq!(a.timestamp, 1000);
    assert_eq!(a.log_source, "/var/log/auth.log");
    assert_eq!(a.alert_type, LogAlertType::AuthenticationFailure);
    assert_eq!(a.severity, LogAlertSeverity::Medium);
    assert_eq!(a.message, "Security pattern detected: failed login");
    assert_eq!(a.raw_log_entry, "host sshd: Failed login for root");
    assert_eq!(a.matched_pattern, "failed login");
    m.analyze_logs_for_alerts_at(1010);
    assert_eq!(m.alerts.len(), 1);
    m.analyze_logs_for_alerts_at(1120);
    assert_eq!(m.alerts.len(), 2);
    assert_eq!(m.get_alerts().len(), 2);
    assert_eq!(m.get_alerts_by_severity(LogAlertSeverity::Medium).len(), 2);
    assert!(m.get_alerts_by_severity(LogAlertSeverity::High).is_empty());
    assert_eq!(m.get_alert_count_by_type(), vec![("AuthenticationFailure".to_string(), 2)]);
    m.clear_old_alerts_at(22700);
    assert!(m.alerts.is_empty());
}

#[test]
fn log_alerts_follow_every_matching_pattern() {
    let mut m = LogMonitor::with_default_config();
    m.log_entries = vec![entry(50, LogLevel::Info, "sudo: cat /etc/shadow", "host sudo: cat /etc/shadow")];
    m.analyze_logs_for_alerts_at(60);
    let patterns: Vec<&str> = m.alerts.iter().map(|a| a.matched_pattern.as_str()).collect();
    assert_eq!(patterns, vec!["sudo:", "/etc/shadow"]);
    assert_eq!(
        m.get_alert_count_by_type(),
        vec![("PrivilegeEscalation".to_string(), 1), ("FileSystemAccess".to_string(), 1)]
    );
    assert_eq!(m.get_alerts_by_severity(LogAlertSeverity::Critical).len(), 1);
}

fn passwd(m: &FileSystemMonitor, size: u64, mode: u32, contents: &[u8]) -> FileMetadata {
    m.extract_file_metadata("/etc/passwd", size, 5, mode, true, false, false, Some(contents))
}

#[test]
fn file_metadata_as_a_scan_reads_it() {
    let m = FileSystemMonitor::with_default_config();
    let meta = passwd(&m, 10, 0o100644, b"abc");
    assert_eq!(meta.path, "/etc/passwd");
    assert_eq!(meta.permissions, "100644");
    assert_eq!(meta.file_type, "file");
    assert_eq!(meta.hash.as_deref(), Some("900150983cd24fb0d6963f7d28e17f72"));
    assert_eq!(meta.owner, None);
    let dir = m.extract_file_metadata("/etc", 4096, 5, 0o40755, false, true, false, None);
    assert_eq!(dir.file_type, "directory");
    assert_eq!(dir.permissions, "40755");
    assert_eq!(dir.hash, None);
    let big = m.extract_file_metadata("/var/log/big", 10_000_000, 5, 0o644, true, false, false, Some(b"x"));
    assert_eq!(big.hash, None);
    assert!(m.needs_hash(true, 9_999_999));
    assert!(!m.needs_hash(false, 1));
    let d = FsEventDetails::from(meta);
    assert_eq!(d.file_size, Some(10));
    assert_eq!(d.permissions.as_deref(), Some("100644"));
    assert_eq!(d.file_type.as_deref(), Some("file"));
    assert!(!d.hash_changed);
    assert_eq!(d.previous_hash, None);
    assert_eq!(d.current_hash.as_deref(), Some("900150983cd24fb0d6963f7d28e17f72"));
}

#[test]
fn file_rescans_record_what_changed() {
    let mut m = FileSystemMonitor::with_default_config();
    let first = passwd(&m, 10, 0o100644, b"abc");
    m.check_file(first.clone());
    assert_eq!(m.events.len(), 1);
    assert_eq!(m.events[0].event_type, FsEventType::FileCreated);
    assert_eq!(m.events[0].severity, FsEventSeverity::Medium);
    assert!(m.events[0].id.starts_with("fs-event-"));
    assert!(m.alerts.is_empty());
    m.check_file(first.clone());
    assert_eq!(m.events.len(), 1);
    let second = passwd(&m, 11, 0o100600, b"abd");
    m.check_file(second);
    let kinds: Vec<FsEventType> = m.events.iter().map(|e| e.event_type).collect();
    assert_eq!(
        kinds,
        vec![FsEventType::FileCreated, FsEventType::FileModified, FsEventType::PermissionChanged, FsEventType::IntegrityViolation]
    );
    let integrity = &m.events[3].details;
    assert!(integrity.hash_changed);
    assert_eq!(integrity.previous_hash.as_deref(), Some("900150983cd24fb0d6963f7d28e17f72"));
    let alerts: Vec<FsAlertType> = m.alerts.iter().map(|a| a.alert_type).collect();
    assert_eq!(
        alerts,
        vec![
            FsAlertType::CriticalSystemFileModified,
            FsAlertType::CriticalSystemFileModified,
            FsAlertType::CriticalSystemFileModified,
            FsAlertType::IntegrityBreach,
        ]
    );
    assert_eq!(m.alerts[0].message, "High-severity filesystem event: FileModified on \"/etc/passwd\"");
    assert_eq!(m.alerts[3].message, "File integrity violation detected: \"/etc/passwd\"");
    assert!(m.alerts[3].id.starts_with("fs-alert-"));
    assert_eq!(m.file_metadata.len(), 1);
    assert_eq!(m.file_metadata[0].size, 11);
    assert_eq!(m.get_events_by_severity(FsEventSeverity::High).len(), 3);
    assert_eq!(m.get_alerts_by_severity(FsEventSeverity::High).len(), 4);
    let recent: Vec<FsEventType> = m.get_recent_events(2).iter().map(|e| e.event_type).collect();
    assert_eq!(recent, vec![FsEventType::IntegrityViolation, FsEventType::PermissionChanged]);
    assert_eq!(m.search_events("PASSWD").len(), 4);
    assert!(m.search_events("shadow").is_empty());
    assert_eq!(m.get_events().len(), 4);
    assert_eq!(m.get_alerts().len(), 4);
}

#[test]
fn file_alerts_by_place_and_deletion() {
    let mut m = FileSystemMonitor::with_default_config();
    m.config.max_events = 2;
    let none = FsEventDetails {
        file_size: None,
        permissions: None,
        owner: None,
        group: None,
        file_type: None,
        hash_changed: false,
        previous_hash: None,
        current_hash: None,
    };
    m.create_event(FsEventType::FileDeleted, "/home/a".to_string(), none.clone(), FsEventSeverity::High);
    m.create_event(FsEventType::FileDeleted, "/usr/bin/b".to_string(), none.clone(), FsEventSeverity::Critical);
    m.create_event(FsEventType::FileAccessed, "/srv/c".to_string(), none.clone(), FsEventSeverity::Low);
    let paths: Vec<&str> = m.events.iter().map(|e| e.path.as_str()).collect();
    assert_eq!(paths, vec!["/usr/bin/b", "/srv/c"]);
    let alerts: Vec<FsAlertType> = m.alerts.iter().map(|a| a.alert_type).collect();
    assert_eq!(alerts, vec![FsAlertType::SuspiciousFileCreation, FsAlertType::SystemDirectoryTampering]);
    m.check_critical_file("/etc/shadow", None);
    let last = m.alerts.last().unwrap();
    assert_eq!(last.alert_type, FsAlertType::CriticalSystemFileModified);
    assert_eq!(last.severity, FsEventSeverity::Critical);
    assert_eq!(last.message, "Critical system file deleted: \"/etc/shadow\"");
    assert_eq!(last.affected_path, "/etc/shadow");
    m.cleanup_old_events_at(i64::MAX);
    assert!(m.events.is_empty());
    m.cleanup_old_alerts_at(i64::MIN);
    assert_eq!(m.alerts.len(), 3);
}

#[test]
fn file_scans_come_at_the_interval() {
    let mut m = FileSystemMonitor::with_default_config();
    m.last_scan = 1000;
    assert!(!m.scan_due(1299));
    assert!(m.scan_due(1300));
    assert_eq!(m.get_file_owner("/etc/passwd"), None);
    assert_eq!(m.get_file_group("/etc/passwd"), None);
}
