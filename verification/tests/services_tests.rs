use seer::monitor::services::{init_script_service, openrc_services_from, runit_service, service_counts, ServiceCounts};
use seer::monitor::sessions::{count_failed_logins, session_counts, SessionCounts};
use seer::monitor::services::{
    fragment_path_from, service_details_from, systemd_service_names, ServiceManager, ServiceState,
    ServiceStatus, ServiceType,
};
use seer::monitor::sessions::{
    parse_passwd_entry, parse_who_output, session_list_entries, session_properties_from,
    session_type_for_tty, SessionManager, SessionState, SessionType,
};

#[test]
fn service_words() {
    assert_eq!(ServiceStatus::from_state("Active"), ServiceStatus::Active);
    assert_eq!(ServiceStatus::from_state("dead"), ServiceStatus::Inactive);
    assert_eq!(ServiceStatus::from_state("reloading"), ServiceStatus::Unknown);
    assert_eq!(ServiceStatus::default(), ServiceStatus::Unknown);
    assert_eq!(ServiceState::from_state("enabled"), ServiceState::Enabled);
    assert_eq!(ServiceState::from_state("MASKED"), ServiceState::Masked);
    assert_eq!(ServiceType::from_state("dbus"), ServiceType::DBus);
    assert_eq!(ServiceType::from_state("exec"), ServiceType::Unknown);
}

#[test]
fn service_manager_probes() {
    assert_eq!(ServiceManager::from_probes(true, true, true, true), ServiceManager::Systemd);
    assert_eq!(ServiceManager::from_probes(false, true, false, true), ServiceManager::OpenRC);
    assert_eq!(ServiceManager::from_probes(false, false, true, true), ServiceManager::Runit);
    assert_eq!(ServiceManager::from_probes(false, false, false, true), ServiceManager::InitD);
    assert_eq!(ServiceManager::from_probes(false, false, false, false), ServiceManager::Unknown);
}

#[test]
fn service_details_from_show_output() {
    let out = "Id=sshd.service\nDescription=OpenSSH server\nActiveState=active\nUnitFileState=enabled\nActiveEnterTimestamp=Mon 2024-01-15 10:30:00 UTC\nMainPID=812\nType=notify\nMemoryCurrent=5242880\nRequires=system.slice sysinit.target\nWantedBy=multi-user.target\nNRestarts=2\n";
    let d = service_details_from("sshd", out);
    assert_eq!(d.name, "sshd");
    assert_eq!(d.description, "OpenSSH server");
    assert_eq!(d.status, ServiceStatus::Active);
    assert_eq!(d.state, ServiceState::Enabled);
    assert!(d.enabled);
    assert_eq!(d.active_since, None);
    assert_eq!(d.main_pid, Some(812));
    assert_eq!(d.service_type, ServiceType::Notify);
    assert_eq!(d.memory_usage, 5242880);
    assert_eq!(d.restart_count, 2);
    assert_eq!(d.dependencies, vec!["system.slice".to_string(), "sysinit.target".to_string()]);
    assert_eq!(d.dependents, vec!["multi-user.target".to_string()]);
}

#[test]
fn service_details_defaults() {
    let d = service_details_from("x", "MainPID=0\nMemoryCurrent=[not set]\nActiveEnterTimestamp=\nDescription=a=b\nDescription=last\n");
    assert_eq!(d.description, "last");
    assert_eq!(d.status, ServiceStatus::Unknown);
    assert_eq!(d.state, ServiceState::Unknown);
    assert!(!d.enabled);
    assert_eq!(d.main_pid, None);
    assert_eq!(d.active_since, None);
    assert_eq!(d.memory_usage, 0);
    assert_eq!(d.service_type, ServiceType::Simple);
    assert!(d.dependencies.is_empty());
}

#[test]
fn unit_names_from_list() {
    let out = "UNIT LOAD ACTIVE SUB DESCRIPTION\n  cron.service loaded active running Regular background program\nsshd.service loaded active running OpenSSH\nLOAD   = Reflects whether the unit definition was properly loaded.\nfoo.socket loaded active listening Foo\nbar.service loaded\n\n";
    assert_eq!(systemd_service_names(out), vec!["cron".to_string(), "sshd".to_string()]);
    assert!(systemd_service_names("").is_empty());
}

#[test]
fn fragment_paths() {
    assert_eq!(fragment_path_from("Id=a\nFragmentPath=/lib/systemd/system/a.service\n"), "/lib/systemd/system/a.service");
    assert_eq!(fragment_path_from("Id=a\n"), "");
}

#[test]
fn session_words_and_probes() {
    assert_eq!(SessionType::from_state("X11"), SessionType::X11);
    assert_eq!(SessionType::from_state("mir"), SessionType::Unknown);
    assert_eq!(SessionType::default(), SessionType::Unknown);
    assert_eq!(SessionState::from_state("online"), SessionState::Online);
    assert_eq!(SessionManager::from_probes(false, true), SessionManager::ConsoleKit);
    assert_eq!(SessionManager::from_probes(false, false), SessionManager::Traditional);
    assert_eq!(session_type_for_tty("pts/0"), SessionType::SSH);
    assert_eq!(session_type_for_tty("tty1"), SessionType::TTY);
    assert_eq!(session_type_for_tty(":0"), SessionType::Unknown);
}

#[test]
fn session_lists_and_properties() {
    let list = "     2 1000 alice seat0 tty2\n\n  c1 abc bob\n  x y\n";
    let e = session_list_entries(list);
    assert_eq!(e.len(), 2);
    assert_eq!((e[0].session_id.as_str(), e[0].uid, e[0].user.as_str()), ("2", 1000, "alice"));
    assert_eq!((e[1].session_id.as_str(), e[1].uid, e[1].user.as_str()), ("c1", 0, "bob"));
    let p = session_properties_from("Type=wayland\nState=active\nTTY=\nDisplay=:0\nTimestamp=1705314600000000\nIdleSinceHint=0\n");
    assert_eq!(p.session_type, SessionType::Wayland);
    assert_eq!(p.state, SessionState::Active);
    assert_eq!(p.tty, None);
    assert_eq!(p.display.as_deref(), Some(":0"));
    assert_eq!(p.remote_host, None);
    assert_eq!(p.login_micros, Some(1705314600000000));
    assert_eq!(p.idle_since_micros, None);
}

#[test]
fn who_and_passwd() {
    let w = parse_who_output("alice    pts/0        2024-01-15 10:30   .          1234 (10.0.0.1)").unwrap();
    assert_eq!(w.user, "alice");
    assert_eq!(w.tty, "pts/0");
    assert_eq!(w.login_text, "2024-01-15 10:30");
    assert!(parse_who_output("alice pts/0 2024-01-15").is_none());
    let u = parse_passwd_entry("alice:x:1000:1001:Alice:/home/alice:/bin/bash").unwrap();
    assert_eq!((u.username.as_str(), u.uid, u.gid), ("alice", 1000, 1001));
    assert_eq!((u.home_dir.as_str(), u.shell.as_str()), ("/home/alice", "/bin/bash"));
    assert!(parse_passwd_entry("alice:x:abc:1001:A:/h:/s").is_none());
    assert!(parse_passwd_entry("alice:x:1000").is_none());
}

#[test]
fn openrc_listing() {
    let out = "Runlevel: default\n sshd   [ started ]\n cron   [ stopped ]\n\n   \nRunlevel: boot\n";
    let r = openrc_services_from(out);
    assert_eq!(r.len(), 2);
    assert_eq!(r[0].name, "sshd");
    assert_eq!(r[0].status, ServiceStatus::Active);
    assert_eq!(r[0].unit_file_path, "/etc/init.d/sshd");
    assert_eq!(r[1].name, "cron");
    assert_eq!(r[1].status, ServiceStatus::Inactive);
}

#[test]
fn init_and_runit_entries() {
    assert!(init_script_service(".hidden").is_none());
    let e = init_script_service("nginx").unwrap();
    assert_eq!((e.name.as_str(), e.unit_file_path.as_str()), ("nginx", "/etc/init.d/nginx"));
    assert_eq!(e.status, ServiceStatus::Unknown);
    let r = runit_service("getty-1");
    assert_eq!(r.unit_file_path, "/etc/sv/getty-1");
}

#[test]
fn failed_login_lines() {
    let log = "sshd: Failed password for root\nsshd: Accepted publickey\npam: authentication failure; user=x\nsshd: Invalid user bob\n";
    assert_eq!(count_failed_logins(log), 3);
    assert_eq!(count_failed_logins(""), 0);
}

#[test]
fn service_count_summary() {
    let statuses = [ServiceStatus::Active, ServiceStatus::Failed, ServiceStatus::Active, ServiceStatus::Inactive];
    let states = [ServiceState::Enabled, ServiceState::Disabled, ServiceState::Static, ServiceState::Enabled];
    let c = service_counts(&statuses, &states, &[100, 0, 50, 7]);
    assert_eq!(
        c,
        ServiceCounts {
            total_services: 4,
            active_services: 2,
            failed_services: 1,
            enabled_services: 2,
            disabled_services: 1,
            total_memory_usage: 157,
        }
    );
}

#[test]
fn session_count_summary() {
    let states = [SessionState::Active, SessionState::Online, SessionState::Active];
    let types = [SessionType::SSH, SessionType::TTY, SessionType::SSH];
    let users = vec!["alice".to_string(), "bob".to_string(), "alice".to_string()];
    let c = session_counts(&states, &types, &users, &[1, 2, 3]);
    assert_eq!(
        c,
        SessionCounts {
            total_sessions: 3,
            active_sessions: 2,
            unique_users: 2,
            ssh_sessions: 2,
            local_sessions: 1,
            total_memory_usage: 6,
        }
    );
}

#[test]
fn service_activation_times_read_as_rfc3339() {
    let d = service_details_from("web", "ActiveEnterTimestamp=2024-01-15T10:30:00Z\n");
    assert_eq!(d.active_since, Some((1705314600, 0)));
    let d = service_details_from("web", "ActiveEnterTimestamp=2024-01-15T12:30:00.5+02:00\n");
    assert_eq!(d.active_since, Some((1705314600, 500_000_000)));
    let d = service_details_from("web", "ActiveEnterTimestamp=0\n");
    assert_eq!(d.active_since, None);
}
