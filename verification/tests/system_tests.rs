use seer::monitor::limits::ResourceLimitsManager;
use seer::monitor::system::{format_uptime, SystemInfo};

#[test]
fn test_format_bytes() {
    assert_eq!(ResourceLimitsManager::format_bytes(0), "0 B");
    assert_eq!(ResourceLimitsManager::format_bytes(1023), "1023 B");
    assert_eq!(ResourceLimitsManager::format_bytes(1024), "1.0 KB");
    assert_eq!(ResourceLimitsManager::format_bytes(1536), "1.5 KB");
    assert_eq!(ResourceLimitsManager::format_bytes(1048576), "1.0 MB");
    assert_eq!(ResourceLimitsManager::format_bytes(1073741824), "1.0 GB");
}

#[test]
fn test_uptime_formatting() {
    assert_eq!(format_uptime(30), "0m");
    assert_eq!(format_uptime(120), "2m");
    assert_eq!(format_uptime(3720), "1h 2m");
    assert_eq!(format_uptime(90000), "1d 1h 0m");
}

/// The byte formatting as floating point computes it.
fn float_format(bytes: u64) -> String {
    const UNITS: &[&str] = &["B", "KB", "MB", "GB", "TB"];
    let mut size = bytes as f64;
    let mut unit_index = 0;
    while size >= 1024.0 && unit_index < UNITS.len() - 1 {
        size /= 1024.0;
        unit_index += 1;
    }
    if unit_index == 0 {
        format!("{} {}", bytes, UNITS[unit_index])
    } else {
        format!("{:.1} {}", size, UNITS[unit_index])
    }
}

#[test]
fn format_bytes_agrees_with_floating_point() {
    let mut samples: Vec<u64> = vec![
        1, 1000, 1024, 1075, 1126, 1280, 1331, 1536, 2047, 2048, 10240, 1048575, 1048576,
        1572864, 1073741823, 1073741824, 1099511627775, 1099511627776, 1125899906842624,
        9007199254740993, 18014398509481985, u64::MAX, u64::MAX - 1, 1 << 63,
    ];
    let mut x: u64 = 0x9e37_79b9_7f4a_7c15;
    for _ in 0..2000 {
        x ^= x << 13;
        x ^= x >> 7;
        x ^= x << 17;
        samples.push(x >> (x % 64));
    }
    for b in samples {
        assert_eq!(ResourceLimitsManager::format_bytes(b), float_format(b), "bytes = {}", b);
    }
}

#[test]
fn format_bytes_rounds_ties_to_even() {
    assert_eq!(ResourceLimitsManager::format_bytes(1280), "1.2 KB");
    assert_eq!(ResourceLimitsManager::format_bytes(1331), "1.3 KB");
    assert_eq!(ResourceLimitsManager::format_bytes(1099511627776 * 2048), "2048.0 TB");
}

#[test]
fn uptime_of_wrapped_counts_is_negative() {
    assert_eq!(format_uptime(u64::MAX), "0m");
    assert_eq!(format_uptime(u64::MAX - 119), "-2m");
    assert_eq!(format_uptime(86400 * 3 + 3600 * 5 + 60 * 7 + 59), "3d 5h 7m");
    assert_eq!(format_uptime(86400), "1d 0h 0m");
}

#[test]
fn system_info_line() {
    let info = SystemInfo {
        hostname: "box".to_string(),
        kernel_version: "6.1".to_string(),
        os_version: "Linux 12".to_string(),
        architecture: "x86_64".to_string(),
        cpu_count: 8,
    };
    assert_eq!(info.to_string(), "box | Linux 12 | x86_64 | 8 cores");
}
