//! Thermal zones and cooling devices as the kernel lists them.
use vstd::prelude::*;
use crate::num::{parse_uint, parse_unsigned};
use crate::text::{chars_of, has_prefix, slice_chars, starts_with, string_of_all, trim, trim_chars};

verus! {

/// A fan or other cooling device and how hard it is working.
#[derive(Debug, Clone)]
pub struct CoolingDevice {
    pub device_id: u32,
    pub device_type: String,
    pub current_state: u32,
    pub max_state: u32,
}

/// Where the thermal information is read from.
#[derive(Debug, Clone)]
pub struct ThermalMonitor {
    pub thermal_zones_path: String,
    pub cooling_devices_path: String,
}

/// What a directory entry under the thermal class is.
#[derive(Debug, Clone, Copy, PartialEq, Eq, Structural)]
pub enum ThermalEntry {
    Zone,
    CoolingDevice,
    Other,
}

/// The kind of the entry named `name`.
pub open spec fn entry_kind(name: Seq<char>) -> ThermalEntry {
    if starts_with(name, "thermal_zone"@) {
        ThermalEntry::Zone
    } else if starts_with(name, "cooling_device"@) {
        ThermalEntry::CoolingDevice
    } else {
        ThermalEntry::Other
    }
}

/// The number after `prefix` in `name` (0 where `name` lacks the prefix or no `u32`
/// follows it).
pub open spec fn index_after(name: Seq<char>, prefix: Seq<char>) -> nat {
    if !starts_with(name, prefix) {
        0
    } else {
        match parse_unsigned(name.skip(prefix.len() as int), 10, u32::MAX as nat) {
            Some(n) => n,
            None => 0,
        }
    }
}

/// A state read from a file: the trimmed text as a `u32`, else 0 (also for no file).
pub open spec fn state_of(text: Option<Seq<char>>) -> nat {
    match text {
        Some(t) => match parse_unsigned(trim(t), 10, u32::MAX as nat) {
            Some(n) => n,
            None => 0,
        },
        None => 0,
    }
}

/// A type read from a file: the trimmed text, else `unknown`.
pub open spec fn type_of(text: Option<Seq<char>>) -> Seq<char> {
    match text {
        Some(t) => trim(t),
        None => "unknown"@,
    }
}

/// The text of an optional string slice.
pub open spec fn opt_str(o: Option<&str>) -> Option<Seq<char>> {
    match o {
        Some(s) => Some(s@),
        None => None,
    }
}

impl ThermalMonitor {
    /// Reads from `/sys/class/thermal`.
    pub fn new() -> (r: Self)
        ensures
            r.thermal_zones_path@ == "/sys/class/thermal"@,
            r.cooling_devices_path@ == "/sys/class/thermal"@,
    {
        ThermalMonitor {
            thermal_zones_path: "/sys/class/thermal".to_owned(),
            cooling_devices_path: "/sys/class/thermal".to_owned(),
        }
    }

    /// The kind of the thermal class entry named `name`.
    pub fn classify_entry(name: &str) -> (r: ThermalEntry)
        ensures
            r == entry_kind(name@),
    {
        proof {
            reveal_strlit("thermal_zone");
            reveal_strlit("cooling_device");
        }
        let v = chars_of(name);
        let zone = chars_of("thermal_zone");
        let dev = chars_of("cooling_device");
        if has_prefix(&v, &zone) {
            ThermalEntry::Zone
        } else if has_prefix(&v, &dev) {
            ThermalEntry::CoolingDevice
        } else {
            ThermalEntry::Other
        }
    }

    /// The number of a zone or device from its entry name (as `strip_prefix`, then
    /// `parse`, then `unwrap_or(0)`).
    pub fn index_from_name(name: &str, prefix: &str) -> (r: u32)
        ensures
            r == index_after(name@, prefix@),
    {
        let v = chars_of(name);
        let p = chars_of(prefix);
        if !has_prefix(&v, &p) {
            return 0;
        }
        let rest = slice_chars(&v, p.len(), v.len());
        assert(rest@ == name@.skip(prefix@.len() as int));
        match parse_uint(&rest, 10, 0xffff_ffff) {
            Some(n) => n as u32,
            None => 0,
        }
    }

    /// A cooling device from its entry name and the texts of its `type`, `cur_state`
    /// and `max_state` files (`None` where a file is missing).
    pub fn cooling_device_from(
        name: &str,
        type_text: Option<&str>,
        cur_text: Option<&str>,
        max_text: Option<&str>,
    ) -> (r: CoolingDevice)
        ensures
            r.device_id == index_after(name@, "cooling_device"@),
            r.device_type@ == type_of(opt_str(type_text)),
            r.current_state == state_of(opt_str(cur_text)),
            r.max_state == state_of(opt_str(max_text)),
    {
        let device_id = ThermalMonitor::index_from_name(name, "cooling_device");
        let device_type = match type_text {
            Some(t) => string_of_all(trim_chars(chars_of(t).as_slice()).as_slice()),
            None => "unknown".to_owned(),
        };
        let current_state = read_state(cur_text);
        let max_state = read_state(max_text);
        CoolingDevice { device_id, device_type, current_state, max_state }
    }
}

/// A state from the text of a file (see `state_of`).
fn read_state(text: Option<&str>) -> (r: u32)
    ensures
        r == state_of(opt_str(text)),
{
    match text {
        Some(t) => {
            let v = trim_chars(chars_of(t).as_slice());
            match parse_uint(&v, 10, 0xffff_ffff) {
                Some(n) => n as u32,
                None => 0,
            }
        },
        None => 0,
    }
}

} // verus!
