use seer::monitor::thermal::{ThermalEntry, ThermalMonitor};

#[test]
fn thermal_paths() {
    let m = ThermalMonitor::new();
    assert_eq!(m.thermal_zones_path, "/sys/class/thermal");
    assert_eq!(m.cooling_devices_path, "/sys/class/thermal");
}

#[test]
fn thermal_entries_and_indices() {
    assert_eq!(ThermalMonitor::classify_entry("thermal_zone3"), ThermalEntry::Zone);
    assert_eq!(ThermalMonitor::classify_entry("cooling_device0"), ThermalEntry::CoolingDevice);
    assert_eq!(ThermalMonitor::classify_entry("power"), ThermalEntry::Other);
    assert_eq!(ThermalMonitor::index_from_name("thermal_zone12", "thermal_zone"), 12);
    assert_eq!(ThermalMonitor::index_from_name("thermal_zonex", "thermal_zone"), 0);
    assert_eq!(ThermalMonitor::index_from_name("other7", "thermal_zone"), 0);
}

#[test]
fn cooling_device_from_files() {
    let d = ThermalMonitor::cooling_device_from("cooling_device2", Some("Processor\n"), Some(" 3\n"), None);
    assert_eq!(d.device_id, 2);
    assert_eq!(d.device_type, "Processor");
    assert_eq!(d.current_state, 3);
    assert_eq!(d.max_state, 0);
    let e = ThermalMonitor::cooling_device_from("cooling_device", None, Some("x"), Some("10"));
    assert_eq!(e.device_id, 0);
    assert_eq!(e.device_type, "unknown");
    assert_eq!(e.current_state, 0);
    assert_eq!(e.max_state, 10);
}
