//! The settings of the advanced monitors, as the configuration file holds them.
use vstd::prelude::*;
use crate::monitor::database::DatabaseConfig;

verus! {

/// Which database servers are watched and where they are.
#[derive(Debug, Clone)]
pub struct DatabaseConfigWrapper {
    pub enabled: bool,
    pub mysql_enabled: bool,
    pub mysql_host: String,
    pub mysql_port: u16,
    pub mysql_user: String,
    pub postgresql_enabled: bool,
    pub postgresql_host: String,
    pub postgresql_port: u16,
    pub postgresql_user: String,
    pub postgresql_database: String,
    pub mongodb_enabled: bool,
    pub mongodb_host: String,
    pub mongodb_port: u16,
    pub redis_enabled: bool,
    pub redis_host: String,
    pub redis_port: u16,
}

/// How devices on the local network are discovered.
#[derive(Debug, Clone)]
pub struct IoTConfigWrapper {
    pub enabled: bool,
    pub discovery_interval_seconds: u64,
    pub health_check_interval_seconds: u64,
    pub network_ranges: Vec<String>,
    pub enable_bluetooth_scan: bool,
    pub enable_zigbee_scan: bool,
    pub enable_upnp_discovery: bool,
    pub enable_mdns_discovery: bool,
    pub device_timeout_seconds: u64,
}

/// Where backups are looked for and how often.
#[derive(Debug, Clone)]
pub struct BackupConfigWrapper {
    pub enabled: bool,
    pub monitor_interval_seconds: u64,
    pub backup_directories: Vec<String>,
    pub storage_locations: Vec<String>,
    pub log_file_paths: Vec<String>,
    pub enable_performance_monitoring: bool,
    pub integrity_check_interval_seconds: u64,
}

/// Which language runtimes are watched.
#[derive(Debug, Clone)]
pub struct APMConfig {
    pub enabled: bool,
    pub monitor_jvm: bool,
    pub monitor_dotnet: bool,
    pub monitor_python: bool,
    pub monitor_nodejs: bool,
    pub monitor_golang: bool,
    pub anomaly_detection_enabled: bool,
}

/// The settings of all the advanced monitors.
#[derive(Debug, Clone)]
pub struct AdvancedMonitoringConfig {
    pub database: DatabaseConfigWrapper,
    pub iot: IoTConfigWrapper,
    pub backup: BackupConfigWrapper,
    pub apm: APMConfig,
}

/// The views of a list of strings.
pub open spec fn texts(v: Seq<String>) -> Seq<Seq<char>> {
    Seq::new(v.len(), |i: int| v[i]@)
}

impl Default for DatabaseConfigWrapper {
    /// Database monitoring off; each server at its usual port on `localhost`.
    fn default() -> (r: Self)
        ensures
            !r.enabled && !r.mysql_enabled && !r.postgresql_enabled && !r.mongodb_enabled
                && !r.redis_enabled,
            r.mysql_host@ == "localhost"@ && r.mysql_port == 3306 && r.mysql_user@ == "root"@,
            r.postgresql_host@ == "localhost"@ && r.postgresql_port == 5432,
            r.postgresql_user@ == "postgres"@ && r.postgresql_database@ == "postgres"@,
            r.mongodb_host@ == "localhost"@ && r.mongodb_port == 27017,
            r.redis_host@ == "localhost"@ && r.redis_port == 6379,
    {
        DatabaseConfigWrapper {
            enabled: false,
            mysql_enabled: false,
            mysql_host: "localhost".to_owned(),
            mysql_port: 3306,
            mysql_user: "root".to_owned(),
            postgresql_enabled: false,
            postgresql_host: "localhost".to_owned(),
            postgresql_port: 5432,
            postgresql_user: "postgres".to_owned(),
            postgresql_database: "postgres".to_owned(),
            mongodb_enabled: false,
            mongodb_host: "localhost".to_owned(),
            mongodb_port: 27017,
            redis_enabled: false,
            redis_host: "localhost".to_owned(),
            redis_port: 6379,
        }
    }
}

impl Default for IoTConfigWrapper {
    /// Discovery off; when on, every five minutes over `192.168.1.0/24`, with Bluetooth,
    /// UPnP and mDNS discovery but no Zigbee scan.
    fn default() -> (r: Self)
        ensures
            !r.enabled,
            r.discovery_interval_seconds == 300 && r.health_check_interval_seconds == 60,
            texts(r.network_ranges@) == seq!["192.168.1.0/24"@],
            r.enable_bluetooth_scan && !r.enable_zigbee_scan,
            r.enable_upnp_discovery && r.enable_mdns_discovery,
            r.device_timeout_seconds == 300,
    {
        let ranges = vec!["192.168.1.0/24".to_owned()];
        let r = IoTConfigWrapper {
            enabled: false,
            discovery_interval_seconds: 300,
            health_check_interval_seconds: 60,
            network_ranges: ranges,
            enable_bluetooth_scan: true,
            enable_zigbee_scan: false,
            enable_upnp_discovery: true,
            enable_mdns_discovery: true,
            device_timeout_seconds: 300,
        };
        assert(texts(r.network_ranges@) =~= seq!["192.168.1.0/24"@]);
        r
    }
}

impl Default for BackupConfigWrapper {
    /// Backup monitoring off; the usual backup directories, mount points and logs.
    fn default() -> (r: Self)
        ensures
            !r.enabled,
            r.monitor_interval_seconds == 300,
            texts(r.backup_directories@) == seq!["/var/backups"@, "/backup"@, "/home/backups"@],
            texts(r.storage_locations@) == seq!["/mnt/backup"@, "/backup"@],
            texts(r.log_file_paths@) == seq!["/var/log/backup.log"@, "/var/log/rsync.log"@],
            r.enable_performance_monitoring,
            r.integrity_check_interval_seconds == 3600,
    {
        let r = BackupConfigWrapper {
            enabled: false,
            monitor_interval_seconds: 300,
            backup_directories: vec![
                "/var/backups".to_owned(),
                "/backup".to_owned(),
                "/home/backups".to_owned(),
            ],
            storage_locations: vec!["/mnt/backup".to_owned(), "/backup".to_owned()],
            log_file_paths: vec!["/var/log/backup.log".to_owned(), "/var/log/rsync.log".to_owned()],
            enable_performance_monitoring: true,
            integrity_check_interval_seconds: 3600,
        };
        assert(texts(r.backup_directories@) =~= seq!["/var/backups"@, "/backup"@, "/home/backups"@]);
        assert(texts(r.storage_locations@) =~= seq!["/mnt/backup"@, "/backup"@]);
        assert(texts(r.log_file_paths@) =~= seq!["/var/log/backup.log"@, "/var/log/rsync.log"@]);
        r
    }
}

impl Default for APMConfig {
    /// Every runtime watched, with anomaly detection.
    fn default() -> (r: Self)
        ensures
            r.enabled && r.monitor_jvm && r.monitor_dotnet && r.monitor_python,
            r.monitor_nodejs && r.monitor_golang && r.anomaly_detection_enabled,
    {
        APMConfig {
            enabled: true,
            monitor_jvm: true,
            monitor_dotnet: true,
            monitor_python: true,
            monitor_nodejs: true,
            monitor_golang: true,
            anomaly_detection_enabled: true,
        }
    }
}

impl Default for AdvancedMonitoringConfig {
    /// The default settings of each monitor.
    fn default() -> (r: Self)
        ensures
            !r.database.enabled && !r.iot.enabled && !r.backup.enabled && r.apm.enabled,
    {
        AdvancedMonitoringConfig {
            database: DatabaseConfigWrapper::default(),
            iot: IoTConfigWrapper::default(),
            backup: BackupConfigWrapper::default(),
            apm: APMConfig::default(),
        }
    }
}

/// The database monitor's settings from the file's: every field carried over, and the
/// passwords empty, since the file never holds them.
pub open spec fn database_config_matches(c: DatabaseConfig, d: DatabaseConfigWrapper) -> bool {
    &&& c.mysql_enabled == d.mysql_enabled && c.mysql_host@ == d.mysql_host@
    &&& c.mysql_port == d.mysql_port && c.mysql_user@ == d.mysql_user@
    &&& c.mysql_password@ == Seq::<char>::empty()
    &&& c.postgresql_enabled == d.postgresql_enabled && c.postgresql_host@ == d.postgresql_host@
    &&& c.postgresql_port == d.postgresql_port && c.postgresql_user@ == d.postgresql_user@
    &&& c.postgresql_password@ == Seq::<char>::empty()
    &&& c.postgresql_database@ == d.postgresql_database@
    &&& c.mongodb_enabled == d.mongodb_enabled && c.mongodb_host@ == d.mongodb_host@
    &&& c.mongodb_port == d.mongodb_port
    &&& c.redis_enabled == d.redis_enabled && c.redis_host@ == d.redis_host@
    &&& c.redis_port == d.redis_port
}

impl AdvancedMonitoringConfig {
    /// The settings the database monitor runs with.
    pub fn get_database_config(&self) -> (r: DatabaseConfig)
        ensures
            database_config_matches(r, self.database),
    {
        let d = &self.database;
        DatabaseConfig {
            mysql_enabled: d.mysql_enabled,
            mysql_host: d.mysql_host.clone(),
            mysql_port: d.mysql_port,
            mysql_user: d.mysql_user.clone(),
            mysql_password: String::new(),
            postgresql_enabled: d.postgresql_enabled,
            postgresql_host: d.postgresql_host.clone(),
            postgresql_port: d.postgresql_port,
            postgresql_user: d.postgresql_user.clone(),
            postgresql_password: String::new(),
            postgresql_database: d.postgresql_database.clone(),
            mongodb_enabled: d.mongodb_enabled,
            mongodb_host: d.mongodb_host.clone(),
            mongodb_port: d.mongodb_port,
            redis_enabled: d.redis_enabled,
            redis_host: d.redis_host.clone(),
            redis_port: d.redis_port,
        }
    }
}

} // verus!
