use seer::config::{AdvancedMonitoringConfig, APMConfig, BackupConfigWrapper, DatabaseConfigWrapper, IoTConfigWrapper};

#[test]
fn advanced_defaults() {
    let c = AdvancedMonitoringConfig::default();
    assert!(!c.database.enabled && !c.iot.enabled && !c.backup.enabled && c.apm.enabled);
    let d = DatabaseConfigWrapper::default();
    assert_eq!((d.mysql_port, d.postgresql_port, d.mongodb_port, d.redis_port), (3306, 5432, 27017, 6379));
    assert_eq!(d.mysql_user, "root");
    let i = IoTConfigWrapper::default();
    assert_eq!(i.network_ranges, vec!["192.168.1.0/24".to_string()]);
    assert!(i.enable_bluetooth_scan && !i.enable_zigbee_scan);
    let b = BackupConfigWrapper::default();
    assert_eq!(b.storage_locations, vec!["/mnt/backup".to_string(), "/backup".to_string()]);
    assert_eq!(b.integrity_check_interval_seconds, 3600);
    let a = APMConfig::default();
    assert!(a.monitor_jvm && a.monitor_golang && a.anomaly_detection_enabled);
}

#[test]
fn database_config_from_settings() {
    let mut c = AdvancedMonitoringConfig::default();
    c.database.mysql_enabled = true;
    c.database.mysql_host = "db.local".to_string();
    c.database.redis_port = 6380;
    let d = c.get_database_config();
    assert!(d.mysql_enabled && !d.postgresql_enabled);
    assert_eq!(d.mysql_host, "db.local");
    assert_eq!(d.redis_port, 6380);
    assert_eq!(d.mysql_password, "");
    assert_eq!(d.postgresql_password, "");
    assert_eq!(d.postgresql_database, "postgres");
}
