use seer::monitor::apm::{gc_pressure, go_metrics, is_runtime_process, jvm_metrics, python_metrics, GCMetrics, Runtime};
use seer::monitor::backup::{
    cron_backup_lines, is_backup_file, job_alerts, parse_cron_schedule, recovery_point_id, parse_df_output, rsync_job_ids,
    storage_location_id, storage_offline_alert, systemd_backup_services, BackupAlertSeverity,
    BackupAlertType, BackupFrequency, BackupStatus,
};
use seer::monitor::database::{collect_mongodb_metrics, mongodb_summary, mysql_status_var, parse_mysql_output, redis_summary, DatabaseConfig};
use seer::monitor::gpu::{get_supported_vendors, is_card_entry, parse_nvidia_processes, vendor_from_id, GPUVendor};
use seer::monitor::hardware_sensors::{
    determine_hwmon_sensor_type, determine_sensor_type, extract_unit, ipmi_sensor_lines, is_cpu_sensor,
    lm_sensor_lines, sensor_alerts, sensor_number_text,
    record_readings, sensors_of_type, SensorBackend, SensorCache, SensorStatus, SensorType,
};
use seer::monitor::io_analysis::{disk_movements, io_wait_ticks, parse_diskstats, process_io_stats, IoWaitError, ProcessIOStats, SystemIOStats};
use seer::monitor::iot::{
    classify_bluetooth_device, device_alerts, parse_bluetooth_output, parse_nmap_output, protocol_stats,
    DeviceType, IoTAlertType,
};
use seer::ui::{key_command, AppView, KeyInput, UiCommand};

#[test]
fn sensor_kinds_and_units() {
    assert_eq!(SensorType::from_state("TEMP"), SensorType::Temperature);
    assert_eq!(SensorType::from_state("curr"), SensorType::Current);
    assert_eq!(determine_sensor_type("CPU Thermal"), SensorType::Temperature);
    assert_eq!(determine_sensor_type("fan1"), SensorType::Fan);
    assert_eq!(determine_sensor_type("Vcore input"), SensorType::Voltage);
    assert_eq!(determine_sensor_type("xyz"), SensorType::Unknown);
    assert_eq!(determine_hwmon_sensor_type("in0"), SensorType::Voltage);
    assert_eq!(determine_hwmon_sensor_type("power1"), SensorType::Power);
    assert_eq!(extract_unit("+45.0°C"), "°C");
    assert_eq!(extract_unit("1200 RPM"), "RPM");
    assert_eq!(extract_unit("12.1 V"), "V");
    assert_eq!(extract_unit("50%"), "%");
    assert_eq!(extract_unit("42"), "");
    assert_eq!(SensorBackend::from_probes(false, true, true, true), SensorBackend::Hwmon);
    assert_eq!(SensorStatus::default(), SensorStatus::Unknown);
}

#[test]
fn sensor_groups() {
    let t = [SensorType::Fan, SensorType::Temperature, SensorType::Fan];
    assert_eq!(sensors_of_type(&t, SensorType::Fan), vec![0, 2]);
    let s = [SensorStatus::Normal, SensorStatus::Critical, SensorStatus::Warning, SensorStatus::Fault];
    assert_eq!(sensor_alerts(&s), vec![1, 2]);
    assert!(is_cpu_sensor("Package", "coretemp-CPU"));
    assert!(!is_cpu_sensor("gpu", "amdgpu"));
}

#[test]
fn mysql_counters() {
    let out = "Variable_name\tValue\nThreads_connected\t7\nmax_connections\t151\nConnections\t99\nCom_select\t12\nInnodb_buffer_pool_pages_total\t8\nUptime\t3600\nversion\t8.0.35\nQueries\t100\nCom_select\t13\n";
    let c = parse_mysql_output(out);
    assert_eq!(c.connections.current, 7);
    assert_eq!(c.connections.max, 151);
    assert_eq!(c.connections.total_created, 99);
    assert_eq!(c.connections.aborted, 0);
    assert_eq!(c.select, 13);
    assert_eq!(c.innodb.buffer_pool_pages_total, 8);
    assert_eq!(c.innodb.buffer_pool_size, 8 * 16384);
    assert_eq!(c.uptime, 3600);
    assert_eq!(c.version, "8.0.35");
    assert_eq!(parse_mysql_output("").version, "Unknown");
    assert_eq!(mysql_status_var(out, "Queries").as_deref(), Some("100"));
    let d = DatabaseConfig::default();
    assert_eq!((d.mysql_port, d.postgresql_port, d.mongodb_port, d.redis_port), (3306, 5432, 27017, 6379));
    assert!(!d.mysql_enabled);
}

#[test]
fn backup_reports() {
    let df = "Filesystem 1B-blocks Used Available Use% Mounted on\n/dev/sda1 1000 400 600 40% /backup\n";
    assert_eq!(parse_df_output(df), Some((1000, 400, 600)));
    assert_eq!(parse_df_output("header only\n"), None);
    let ps = "root 4321 0.0 0.1 1 2 ? S 10:00 0:00 rsync -a /home /backup\nroot 99 0 0 1 2 ? S 10:00 0:00 grep rsync x\n";
    assert_eq!(rsync_job_ids(ps), vec!["rsync_4321".to_string()]);
    assert_eq!(cron_backup_lines("0 2 * * * /usr/bin/backup.sh\n# comment\n5 * * * * tar czf x\n"), vec![0, 2]);
    let units = "backup-daily.service loaded active running Backup\nfoo.service loaded active running Foo\nold-backup.service loaded inactive dead Old\n";
    assert_eq!(
        systemd_backup_services(units),
        vec![("backup-daily.service".to_string(), true), ("old-backup.service".to_string(), true)]
    );
    assert_eq!(storage_location_id("/mnt/backup"), "storage__mnt_backup");
    let s = parse_cron_schedule("anything");
    assert_eq!(s.frequency, BackupFrequency::Daily);
    assert_eq!(s.days_of_week, vec![1, 2, 3, 4, 5]);
}

#[test]
fn backup_alerts() {
    let a = job_alerts("j1", "Nightly", BackupStatus::Failed, true);
    assert_eq!(a.len(), 2);
    assert_eq!(a[0].alert_id, "alert_job_failed_j1");
    assert_eq!(a[0].alert_type, BackupAlertType::JobFailed);
    assert_eq!(a[0].severity, BackupAlertSeverity::Error);
    assert_eq!(a[0].message, "Backup job 'Nightly' failed");
    assert_eq!(a[1].alert_id, "alert_job_missed_j1");
    assert_eq!(a[1].message, "Backup job 'Nightly' missed scheduled run");
    assert!(job_alerts("j2", "x", BackupStatus::Completed, false).is_empty());
    let o = storage_offline_alert("storage__b", "Backup Storage: /b");
    assert_eq!(o.alert_id, "alert_storage_offline_storage__b");
    assert_eq!(o.message, "Storage 'Backup Storage: /b' is not accessible");
    assert_eq!(o.storage_id.as_deref(), Some("storage__b"));
}

#[test]
fn iot_reports() {
    assert_eq!(classify_bluetooth_device("Bob's iPhone"), DeviceType::SmartPhone);
    assert_eq!(classify_bluetooth_device("Fitbit Charge"), DeviceType::SmartWatch);
    assert_eq!(classify_bluetooth_device("Echo Dot"), DeviceType::SmartSpeaker);
    assert_eq!(classify_bluetooth_device("Earbuds"), DeviceType::Unknown);
    let nmap = "Starting Nmap\nNmap scan report for 192.168.1.1\nHost is up.\nNmap scan report for router.lan (192.168.1.254)\n";
    assert_eq!(parse_nmap_output(nmap), vec!["192.168.1.1".to_string(), "(192.168.1.254)".to_string()]);
    let bt = "Scanning ...\n\tAA:BB:CC:DD:EE:FF\tMy Phone\nno colon here\n";
    let e = parse_bluetooth_output(bt);
    assert_eq!(e.len(), 1);
    assert_eq!(e[0].mac, "AA:BB:CC:DD:EE:FF");
    assert_eq!(e[0].name, "My Phone");
    assert_eq!(e[0].device_id, "bt_AABBCCDDEEFF");
    let alerts = device_alerts(false, Some(15));
    assert_eq!(alerts.len(), 2);
    assert_eq!(alerts[0].alert_type, IoTAlertType::DeviceOffline);
    assert_eq!(alerts[1].message, "Battery level low: 15%");
    assert!(device_alerts(true, Some(20)).is_empty());
    let p = protocol_stats(3, 1);
    assert_eq!((p.wifi_devices, p.bluetooth_connections, p.mqtt_messages), (3, 1, 1000));
}

#[test]
fn disk_counters() {
    let stats = "   8       0 sda 100 5 2000 30 50 6 900 40 0 70 80 0 0 0 0\n   7       0 loop0 1 2 3 4 5 6 7 8 9 10 11 0 0 0 0\n   8       1 sda1 x 5 2000 30 50 6 900 40 0 70 80\n";
    let d = parse_diskstats(stats);
    assert_eq!(d.len(), 2);
    assert_eq!(d[0].device, "sda");
    assert_eq!((d[0].reads_completed, d[0].sectors_read, d[0].writes_completed, d[0].sectors_written), (100, 2000, 50, 900));
    assert_eq!((d[0].time_spent_io, d[0].weighted_time_io), (70, 80));
    assert_eq!(d[1].reads_completed, 0);
    assert_eq!(SystemIOStats::zero().sectors_read, 0);
}

#[test]
fn disk_movement_since_last_reading() {
    let stats = "   8       0 sda 100 5 2000 30 50 6 900 40 0 70 80 0 0 0 0\n   8      16 sdb 1 0 10 0 2 0 20 0 0 5 3 0 0 0 0\n";
    let d = parse_diskstats(stats);
    let fresh = disk_movements(&d, &SystemIOStats::zero());
    assert_eq!(fresh.len(), 2);
    assert_eq!(fresh[0].device, "sda");
    assert_eq!((fresh[0].sectors_read, fresh[0].sectors_written), (2000, 900));
    assert_eq!((fresh[0].io_time_ms, fresh[0].operations, fresh[0].weighted_io_ms), (70, 150, 80));
    let last = SystemIOStats {
        sectors_read: 500,
        sectors_written: 1000,
        reads_completed: 60,
        writes_completed: 40,
        time_spent_reading: 0,
        time_spent_writing: 0,
        io_in_progress: 0,
        time_spent_io: 10,
    };
    let m = disk_movements(&d, &last);
    assert_eq!((m[0].sectors_read, m[0].sectors_written), (1500, 0));
    assert_eq!((m[0].io_time_ms, m[0].operations, m[0].weighted_io_ms), (60, 50, 70));
    assert_eq!((m[1].device.as_str(), m[1].operations, m[1].weighted_io_ms), ("sdb", 0, 0));
}

#[test]
fn application_runtimes_and_estimates() {
    assert!(is_runtime_process(Runtime::Jvm, "Java", ""));
    assert!(is_runtime_process(Runtime::Jvm, "x", "app.jar"));
    assert!(is_runtime_process(Runtime::Python, "x", "run.py"));
    assert!(is_runtime_process(Runtime::Go, "x", "go run main.go"));
    assert!(!is_runtime_process(Runtime::Go, "x", "./server"));
    assert!(!is_runtime_process(Runtime::Go, "x", "./server.sh"));
    assert!(!is_runtime_process(Runtime::NodeJs, "bash", "ls"));
    let j = jvm_metrics(7, "java", 1600, 30);
    assert_eq!((j.heap_memory.max, j.heap_memory.init), (3200, 800));
    assert_eq!((j.non_heap_memory.used, j.non_heap_memory.committed, j.non_heap_memory.max, j.non_heap_memory.init), (160, 200, 400, 100));
    assert_eq!(j.garbage_collection.len(), 2);
    assert_eq!(j.uptime, 30);
    assert_eq!(python_metrics(1, "py", 5).memory_usage, 5);
    let g = go_metrics(1, "go", 300);
    assert_eq!((g.heap_alloc, g.next_gc), (200, 600));
    let (total, d) = gc_pressure(&j.garbage_collection).map(|x| x).unwrap_or((0, String::new()));
    assert_eq!(total, 0);
    assert!(d.is_empty());
    let heavy = vec![GCMetrics { name: "a".into(), collection_count: 1, collection_time: 4000 }, GCMetrics { name: "b".into(), collection_count: 1, collection_time: 2000 }];
    let (t, desc) = gc_pressure(&heavy).unwrap();
    assert_eq!(t, 6000);
    assert_eq!(desc, "High GC time: 6000ms");
}

#[test]
fn gpu_process_rows() {
    let out = "1234, python3, 512\n99, Xorg , 10\nbad line\n x, y, z\n";
    let rows = parse_nvidia_processes(out);
    assert_eq!(rows.len(), 3);
    assert_eq!((rows[0].pid, rows[0].process_name.as_str(), rows[0].memory_usage), (1234, "python3", 512 * 1024 * 1024));
    assert_eq!(rows[1].process_name, "Xorg");
    assert_eq!((rows[2].pid, rows[2].memory_usage), (0, 0));
}

#[test]
fn key_commands() {
    assert_eq!(key_command(true, KeyInput::Char('q'), AppView::Dashboard), UiCommand::ClearError);
    assert_eq!(key_command(false, KeyInput::Char('q'), AppView::Dashboard), UiCommand::Quit);
    assert_eq!(key_command(false, KeyInput::Char('?'), AppView::Dashboard), UiCommand::ToggleHelp);
    assert_eq!(key_command(false, KeyInput::Up, AppView::ProcessGroups), UiCommand::PreviousGroup);
    assert_eq!(key_command(false, KeyInput::Down, AppView::Dashboard), UiCommand::NextProcess);
    assert_eq!(key_command(false, KeyInput::Char('x'), AppView::Dashboard), UiCommand::SearchChar('x'));
    assert_eq!(key_command(false, KeyInput::Other, AppView::Dashboard), UiCommand::Nothing);
}

#[test]
fn mongodb_sample_and_summary() {
    let m = collect_mongodb_metrics();
    assert_eq!((m.connections.current, m.connections.max), (25, 200));
    assert_eq!(m.memory.resident, 512 * 1024 * 1024);
    assert_eq!(m.version, "5.0");
    assert!(m.replication.is_none() && m.sharding.is_none());
    assert_eq!(mongodb_summary(&m), "MongoDB: 25 connections, 512MB memory");
}

#[test]
fn redis_summary_line() {
    assert_eq!(redis_summary(50000, 64 * 1024 * 1024), "Redis: 50000 keys, 64MB memory");
    assert_eq!(redis_summary(0, 1048575), "Redis: 0 keys, 0MB memory");
}

#[test]
fn process_io_counters() {
    let io = "rchar: 100\nwchar: 200\nsyscr: 3\nsyscw: 4\nread_bytes: 4096\nwrite_bytes: 8192\ncancelled_write_bytes: 0\n";
    assert_eq!(
        process_io_stats(io),
        ProcessIOStats {
            read_bytes: 100,
            write_bytes: 200,
            read_syscalls: 3,
            write_syscalls: 4,
            actual_read_bytes: 4096,
            actual_write_bytes: 8192,
        }
    );
    // Unreadable values count as 0, and a later line wins.
    let odd = process_io_stats("rchar: x\nwchar: 5\nwchar: 7\n");
    assert_eq!((odd.read_bytes, odd.write_bytes), (0, 7));
}

#[test]
fn io_wait_from_stat() {
    let mut fields: Vec<String> = (0..44).map(|i| i.to_string()).collect();
    assert_eq!(io_wait_ticks(&fields.join(" ")), Ok(41));
    fields[41] = "x".to_string();
    assert_eq!(io_wait_ticks(&fields.join(" ")), Err(IoWaitError::InvalidNumber));
    assert_eq!(io_wait_ticks("1 (a) S 0"), Err(IoWaitError::InvalidStatFormat));
}

#[test]
fn gpu_vendor_detection() {
    assert!(is_card_entry("card0"));
    assert!(!is_card_entry("card0-HDMI-A-1"));
    assert!(!is_card_entry("renderD128"));
    assert_eq!(vendor_from_id("0x1002\n"), Some(GPUVendor::AMD));
    assert_eq!(vendor_from_id(" 0x8086 "), Some(GPUVendor::Intel));
    assert_eq!(vendor_from_id("0x10de"), None);
    assert_eq!(get_supported_vendors(true, false, true), vec![GPUVendor::NVIDIA, GPUVendor::Intel]);
    assert_eq!(get_supported_vendors(false, false, false), Vec::<GPUVendor>::new());
}

#[test]
fn recovery_points_by_file_name() {
    assert!(is_backup_file("db-backup-monday.sql"));
    assert!(is_backup_file("home.tar.gz"));
    assert!(is_backup_file("site.zip"));
    assert!(is_backup_file("config.bak"));
    assert!(!is_backup_file("notes.txt"));
    assert!(!is_backup_file("archive.tar"));
    assert_eq!(recovery_point_id("storage__backup", "home.tar.gz"), "rp_storage__backup_home.tar.gz");
}

#[test]
fn sensor_cache_keeps_the_newest_readings() {
    let mut cache = SensorCache::new();
    assert_eq!(cache.history_limit, 100);
    cache.history_limit = 2;
    let names = vec!["cpu".to_string(), "fan".to_string(), "cpu".to_string()];
    record_readings(&mut cache, &names, &[40000, 1200, 42000], &[SensorStatus::Normal, SensorStatus::Normal, SensorStatus::Warning], 10);
    assert_eq!(cache.entries.len(), 2);
    let cpu = cache.entries.iter().find(|e| e.name == "cpu").unwrap();
    assert_eq!(cpu.current_value, 42000);
    assert_eq!(cpu.status, SensorStatus::Warning);
    assert_eq!(cpu.last_updated, 10);
    assert_eq!(cache.get_sensor_history("cpu"), Some(&vec![(10, 40000), (10, 42000)]));
    assert_eq!(cache.get_sensor_history("fan"), Some(&vec![(10, 1200)]));
    record_readings(&mut cache, &["cpu".to_string()], &[43000], &[SensorStatus::Critical], 20);
    assert_eq!(cache.get_sensor_history("cpu"), Some(&vec![(10, 42000), (20, 43000)]));
    assert_eq!(cache.get_sensor_history("fan"), Some(&vec![(10, 1200)]));
    assert_eq!(cache.get_sensor_history("disk"), None);
}

#[test]
fn backup_alerts_for_jobs_and_storage() {
    let jobs = vec![
        ("j1".to_string(), "Nightly".to_string(), BackupStatus::Failed, Some(0i64)),
        ("j2".to_string(), "Weekly".to_string(), BackupStatus::Completed, Some(1i64)),
        ("j3".to_string(), "Manual".to_string(), BackupStatus::Completed, None),
    ];
    let storage = vec![
        ("s1".to_string(), "Disk".to_string(), Some("95.0".to_string()), false),
        ("s2".to_string(), "Tape".to_string(), None, true),
    ];
    let alerts = seer::monitor::backup::backup_alerts(&jobs, &storage, 3601);
    let ids: Vec<&str> = alerts.iter().map(|a| a.alert_id.as_str()).collect();
    assert_eq!(ids, vec!["alert_job_failed_j1", "alert_job_missed_j1", "alert_storage_full_s1", "alert_storage_offline_s1"]);
    assert_eq!(alerts[1].message, "Backup job 'Nightly' missed scheduled run");
    assert_eq!(alerts[2].message, "Storage 'Disk' is 95.0% full");
    assert_eq!(alerts[2].severity, BackupAlertSeverity::Critical);
    assert_eq!(alerts[2].storage_id.as_deref(), Some("s1"));
    assert!(seer::monitor::backup::backup_alerts(&jobs[1..], &storage[1..], 3601).is_empty());
}

#[test]
fn sensor_value_numbers() {
    assert_eq!(sensor_number_text("+45.0°C"), "+45.0");
    assert_eq!(sensor_number_text("1234 RPM"), "1234");
    assert_eq!(sensor_number_text("  -3.25 V (min = +1.00 V)"), "-3.25");
    assert_eq!(sensor_number_text("1.2.3"), "1.2");
    assert_eq!(sensor_number_text("N/A"), "");
    assert_eq!(sensor_number_text("x+7"), "+7");
}

#[test]
fn lm_sensors_output_lines() {
    let out = "coretemp-isa-0000\nAdapter: ISA adapter\nCore 0:\n  temp2_input: 45.000\n  temp2_max: 80.000\n\nnct6775-isa-0290\nfan1:   1234 RPM\n";
    let r = lm_sensor_lines(out);
    let got: Vec<(&str, &str, &str)> = r.iter().map(|(a, b, c)| (a.as_str(), b.as_str(), c.as_str())).collect();
    assert_eq!(
        got,
        vec![
            ("coretemp-isa-0000", "Adapter", "ISA adapter"),
            ("coretemp-isa-0000", "Core 0", ""),
            ("coretemp-isa-0000", "temp2_input", "45.000"),
            ("coretemp-isa-0000", "temp2_max", "80.000"),
            ("nct6775-isa-0290", "fan1", "1234 RPM"),
        ]
    );
    assert!(lm_sensor_lines("temp1: 5\n")[0].0.is_empty());
}

#[test]
fn ipmi_sensor_output_lines() {
    let out = "CPU Temp         | 42.000     | degrees C  | ok\nFan1 | na | RPM | na\n\nbroken line\nPSU | 1\n";
    let r = ipmi_sensor_lines(out);
    let got: Vec<(&str, &str, &str)> = r.iter().map(|(a, b, c)| (a.as_str(), b.as_str(), c.as_str())).collect();
    assert_eq!(got, vec![("CPU Temp", "42.000", "degrees C"), ("Fan1", "na", "RPM")]);
}
