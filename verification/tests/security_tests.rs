use seer::monitor::security::{
    calculate_suspicious_points, detect_privilege_escalations, is_privilege_escalation, AlertType,
    AlertSeverity, SecurityDashboard, Uuid,
};

#[test]
fn privilege_escalation_rules() {
    assert!(!is_privilege_escalation("root", "alice"));
    assert!(is_privilege_escalation("alice", "root"));
    assert!(!is_privilege_escalation("administrator", "bob"));
    assert!(is_privilege_escalation("bob", "administrator"));
    assert!(!is_privilege_escalation("root", "root"));
    assert!(!is_privilege_escalation("alice", "bob"));
}

#[test]
fn suspicion_points_add_up() {
    // "bash" is a suspect name (20), root (10), no parent and not pid 1 (15).
    assert_eq!(calculate_suspicious_points("bash", false, &[], "bash", "root", None, 42), 45);
    assert_eq!(calculate_suspicious_points("init", false, &[], "", "root", None, 1), 10);
    // A CPU spike and many dashes in the command line.
    assert_eq!(calculate_suspicious_points("app", true, &[], "-a -b -c -d -e -f", "u", Some(1), 5), 25);
    // Memory doubling: newest five average 300, the five before average 100.
    let h = [100u64, 100, 100, 100, 100, 300, 300, 300, 300, 300];
    assert_eq!(calculate_suspicious_points("app", false, &h, "", "u", Some(1), 5), 25);
    let flat = [100u64; 10];
    assert_eq!(calculate_suspicious_points("app", false, &flat, "", "u", Some(1), 5), 0);
    // All six signs together.
    assert_eq!(calculate_suspicious_points("nc", true, &h, "----------", "root", None, 9), 95);
}

#[test]
fn escalations_between_listed_parents() {
    let pids = [1u32, 2, 3, 4];
    let parents = [None, Some(1), Some(2), Some(99)];
    let users: Vec<String> = ["root", "alice", "root", "root"].iter().map(|s| s.to_string()).collect();
    assert_eq!(detect_privilege_escalations(&pids, &parents, &users), vec![(2, 1)]);
}

#[test]
fn alert_kinds_and_ids() {
    assert_eq!(AlertType::SuspiciousProcess.discriminant(), 0);
    assert_eq!(AlertType::UnauthorizedFileAccess.discriminant(), 5);
    assert_ne!(AlertType::PrivilegeEscalation.discriminant(), AlertType::HighResourceUsage.discriminant());
    let id = Uuid::new_v4().to_string();
    assert!(id.starts_with("alert-"));
    assert!(id.len() > "alert-".len());
    assert!(id["alert-".len()..].parse::<i64>().is_ok());
}

#[test]
fn security_alerts_are_not_repeated_within_five_minutes() {
    let mut d = SecurityDashboard::new();
    assert_eq!(d.suspicious_process_names.len(), 11);
    assert_eq!(d.baseline_memory_threshold, 1024 * 1024 * 1024);
    assert_eq!(d.max_history_size, 1000);
    d.max_history_size = 2;
    d.create_alert_at(AlertType::PrivilegeEscalation, AlertSeverity::High, "escalated".to_string(), Some(7), Some("sh".to_string()), 1000);
    assert_eq!(d.alerts.len(), 1);
    assert!(d.alerts[0].id.starts_with("alert-"));
    assert_eq!(d.alerts[0].timestamp, 1000);
    assert_eq!(d.alerts[0].message, "escalated");
    assert_eq!(d.alerts[0].process_name.as_deref(), Some("sh"));
    assert!(d.alerts[0].details.is_empty());
    assert_eq!(d.alert_history[0].id, d.alerts[0].id);
    d.create_alert_at(AlertType::PrivilegeEscalation, AlertSeverity::High, "again".to_string(), Some(7), None, 1299);
    assert_eq!(d.alerts.len(), 1);
    d.create_alert_at(AlertType::HighResourceUsage, AlertSeverity::Medium, "memory".to_string(), Some(7), None, 1100);
    d.create_alert_at(AlertType::PrivilegeEscalation, AlertSeverity::High, "other".to_string(), Some(8), None, 1100);
    d.create_alert_at(AlertType::PrivilegeEscalation, AlertSeverity::High, "later".to_string(), Some(7), None, 1300);
    assert_eq!(d.alerts.len(), 4);
    let history: Vec<&str> = d.get_alert_history().iter().map(|a| a.message.as_str()).collect();
    assert_eq!(history, vec!["other", "later"]);
    assert_eq!(d.get_alerts_by_severity(AlertSeverity::High).len(), 3);
    assert_eq!(d.get_alerts_by_severity(AlertSeverity::Medium).len(), 1);
    d.clear_expired_alerts_at(4700);
    let kept: Vec<&str> = d.alerts.iter().map(|a| a.message.as_str()).collect();
    assert_eq!(kept, vec!["later"]);
    assert_eq!(d.alert_history.len(), 2);
}

#[test]
fn privileged_processes_are_tracked() {
    let mut d = SecurityDashboard::new();
    d.track_privileged(1, "root", "init");
    d.track_privileged(2, "alice", "vim");
    d.track_privileged(3, "administrator", "svc");
    d.track_privileged(1, "root", "systemd");
    let records: Vec<(u32, &str)> = d.privileged_processes.iter().map(|(p, n)| (*p, n.as_str())).collect();
    assert_eq!(records, vec![(3, "svc"), (1, "systemd")]);
    d.retain_privileged(&[1, 2]);
    let records: Vec<(u32, &str)> = d.privileged_processes.iter().map(|(p, n)| (*p, n.as_str())).collect();
    assert_eq!(records, vec![(1, "systemd")]);
}

#[test]
fn high_memory_draws_one_alert() {
    let mut d = SecurityDashboard::new();
    d.check_memory_usage(9, "db", 1024 * 1024 * 1024);
    assert!(d.alerts.is_empty());
    d.check_memory_usage(9, "db", 2 * 1024 * 1024 * 1024);
    assert_eq!(d.alerts.len(), 1);
    assert_eq!(d.alerts[0].message, "Process 'db' using high memory: 2048 MB");
    assert_eq!(d.alerts[0].severity, AlertSeverity::Medium);
    assert_eq!(d.alerts[0].process_pid, Some(9));
    d.check_memory_usage(9, "db", 3 * 1024 * 1024 * 1024);
    assert_eq!(d.alerts.len(), 1);
}
