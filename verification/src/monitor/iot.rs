//! IoT devices: their kinds, the scanner reports they are found in, and their alerts.
use vstd::prelude::*;
use crate::num::dec_digits;
use crate::text::{
    chars_of, contains, has_prefix, has_sub, lines, lower_text, push_char, push_chars, split_lines,
    split_words, starts_with, string_of_all, to_lower, views_of, words,
};

verus! {

/// What kind of device was found.
#[derive(Debug, Clone, Copy, PartialEq, Eq, Structural)]
pub enum DeviceType {
    SmartPhone,
    Tablet,
    SmartTV,
    SmartSpeaker,
    SecurityCamera,
    SmartThermostat,
    SmartLight,
    SmartPlug,
    SmartLock,
    Sensor,
    Router,
    AccessPoint,
    Printer,
    SmartWatch,
    SmartHome,
    IndustrialIoT,
    MedicalDevice,
    VehicleIoT,
    Unknown,
}

/// A protocol a device speaks.
#[derive(Debug, Clone, Copy, PartialEq, Eq, Structural)]
pub enum IoTProtocol {
    WiFi,
    Bluetooth,
    Zigbee,
    ZWave,
    LoRaWAN,
    Mqtt,
    CoAP,
    HTTP,
    HTTPS,
    Modbus,
    BACnet,
    Thread,
    Matter,
    Cellular,
}

/// How devices were looked for.
#[derive(Debug, Clone, Copy, PartialEq, Eq, Structural)]
pub enum ScanType {
    PortScan,
    ArpScan,
    MdnsDiscovery,
    UPnPDiscovery,
    BluetoothScan,
    ZigbeeScan,
}

/// Whether a device answers.
#[derive(Debug, Clone, Copy, PartialEq, Eq, Structural)]
pub enum ConnectivityStatus {
    Online,
    Offline,
    Intermittent,
    Unknown,
}

/// What a device alert is about.
#[derive(Debug, Clone, Copy, PartialEq, Eq, Structural)]
pub enum IoTAlertType {
    DeviceOffline,
    LowBattery,
    HighTemperature,
    SecurityThreat,
    FirmwareOutdated,
    ConnectivityIssue,
    SensorMalfunction,
}

/// How serious a device alert is.
#[derive(Debug, Clone, Copy, PartialEq, Eq, Structural)]
pub enum IoTAlertSeverity {
    Info,
    Warning,
    Critical,
}

/// Message counts per protocol.
#[derive(Debug, Clone, Copy, PartialEq, Eq, Structural)]
pub struct ProtocolStats {
    pub mqtt_messages: u64,
    pub coap_requests: u64,
    pub http_requests: u64,
    pub bluetooth_connections: u32,
    pub zigbee_messages: u64,
    pub wifi_devices: u32,
}

/// The protocol figures for `wifi` Wi-Fi devices and `bluetooth` Bluetooth devices; the
/// message counts are fixed sample figures.
pub fn protocol_stats(wifi: u32, bluetooth: u32) -> (r: ProtocolStats)
    ensures
        r == (ProtocolStats {
            mqtt_messages: 1000,
            coap_requests: 500,
            http_requests: 2000,
            bluetooth_connections: bluetooth,
            zigbee_messages: 300,
            wifi_devices: wifi,
        }),
{
    ProtocolStats {
        mqtt_messages: 1000,
        coap_requests: 500,
        http_requests: 2000,
        bluetooth_connections: bluetooth,
        zigbee_messages: 300,
        wifi_devices: wifi,
    }
}

/// The device type a Bluetooth name suggests, once lower-cased: phones, watches and
/// speakers by their usual names; anything else is unknown.
pub open spec fn bluetooth_type(lower: Seq<char>) -> DeviceType {
    if contains(lower, "phone"@) || contains(lower, "iphone"@) || contains(lower, "samsung"@) {
        DeviceType::SmartPhone
    } else if contains(lower, "watch"@) || contains(lower, "fitbit"@) || contains(lower, "garmin"@) {
        DeviceType::SmartWatch
    } else if contains(lower, "speaker"@) || contains(lower, "echo"@) || contains(lower, "google"@) {
        DeviceType::SmartSpeaker
    } else {
        DeviceType::Unknown
    }
}

/// Whether `needle` occurs in `s`.
fn mentions(s: &str, needle: &str) -> (r: bool)
    ensures
        r == contains(s@, needle@),
{
    let a = chars_of(s);
    let b = chars_of(needle);
    has_sub(&a, &b)
}

/// The device type a Bluetooth name suggests (see `bluetooth_type`).
pub fn classify_bluetooth_device(name: &str) -> (r: DeviceType)
    ensures
        r == bluetooth_type(lower_text(name@)),
{
    let l = to_lower(name);
    let n = l.as_str();
    if mentions(n, "phone") || mentions(n, "iphone") || mentions(n, "samsung") {
        DeviceType::SmartPhone
    } else if mentions(n, "watch") || mentions(n, "fitbit") || mentions(n, "garmin") {
        DeviceType::SmartWatch
    } else if mentions(n, "speaker") || mentions(n, "echo") || mentions(n, "google") {
        DeviceType::SmartSpeaker
    } else {
        DeviceType::Unknown
    }
}

/// The host of each `Nmap scan report for` line, in order: its last field.
pub open spec fn nmap_hosts(ls: Seq<Seq<char>>) -> Seq<Seq<char>>
    decreases ls.len(),
{
    if ls.len() == 0 {
        Seq::empty()
    } else {
        let init = nmap_hosts(ls.drop_last());
        let l = ls.last();
        if starts_with(l, "Nmap scan report for"@) {
            init.push(words(l).last())
        } else {
            init
        }
    }
}

proof fn lemma_words_nonempty(l: Seq<char>)
    requires
        l.len() > 0,
        !crate::text::is_ws(l[0]),
    ensures
        words(l).len() > 0,
{
}

/// The hosts an `nmap -sn` report lists (see `nmap_hosts`); their number is the
/// number of devices found.
pub fn parse_nmap_output(output: &str) -> (r: Vec<String>)
    ensures
        crate::text::str_views(r@) == nmap_hosts(lines(output@)),
{
    proof {
        reveal_strlit("Nmap scan report for");
    }
    let v = chars_of(output);
    let ls = split_lines(&v);
    let key = chars_of("Nmap scan report for");
    let ghost all = lines(output@);
    let mut r: Vec<String> = Vec::new();
    let mut i: usize = 0;
    while i < ls.len()
        invariant
            i <= ls@.len(),
            views_of(ls@) == all,
            key@ == "Nmap scan report for"@,
            key@.len() == 20,
            crate::text::str_views(r@) == nmap_hosts(all.take(i as int)),
        decreases ls.len() - i,
    {
        assert(all.take(i + 1).drop_last() == all.take(i as int));
        assert(all.take(i + 1).last() == ls@[i as int]@);
        let l = &ls[i];
        if has_prefix(l, &key) {
            let w = split_words(l);
            proof {
                reveal_strlit("Nmap scan report for");
                assert(key@[0] == 'N');
                assert(l@[0] == key@[0]);
                lemma_words_nonempty(l@);
            }
            let n = w.len();
            assert(views_of(w@)[n - 1] == w@[n - 1]@);
            let host = string_of_all(&w[n - 1]);
            proof {
                crate::text::lemma_str_views_push(r@, host);
            }
            r.push(host);
        }
        i = i + 1;
    }
    assert(all.take(i as int) == all);
    r
}

/// A Bluetooth device found by a scan: its address, its name and its device id.
#[derive(Debug, Clone)]
pub struct BluetoothEntry {
    pub mac: String,
    pub name: String,
    pub device_id: String,
}

/// `s` without its colons.
pub open spec fn without_colons(s: Seq<char>) -> Seq<char>
    decreases s.len(),
{
    if s.len() == 0 {
        s
    } else if s.last() == ':' {
        without_colons(s.drop_last())
    } else {
        without_colons(s.drop_last()).push(s.last())
    }
}

/// Fields joined by single spaces.
pub open spec fn joined(ws: Seq<Seq<char>>) -> Seq<char>
    decreases ws.len(),
{
    if ws.len() == 0 {
        Seq::empty()
    } else if ws.len() == 1 {
        ws[0]
    } else {
        joined(ws.drop_last()) + seq![' '] + ws.last()
    }
}

/// The devices an `hcitool scan` report lists: each line with a colon that does not
/// begin with `Scanning` and has two fields or more gives the address (first field),
/// the name (the other fields joined by spaces) and the id `bt_` and the address
/// without colons.
pub open spec fn bluetooth_rows(ls: Seq<Seq<char>>) -> Seq<(Seq<char>, Seq<char>, Seq<char>)>
    decreases ls.len(),
{
    if ls.len() == 0 {
        Seq::empty()
    } else {
        let init = bluetooth_rows(ls.drop_last());
        let l = ls.last();
        let w = words(l);
        if l.contains(':') && !starts_with(l, "Scanning"@) && w.len() >= 2 {
            init.push((w[0], joined(w.drop_first()), "bt_"@ + without_colons(w[0])))
        } else {
            init
        }
    }
}

/// `e` holds the row `row`.
pub open spec fn bluetooth_entry_is(e: BluetoothEntry, row: (Seq<char>, Seq<char>, Seq<char>)) -> bool {
    e.mac@ == row.0 && e.name@ == row.1 && e.device_id@ == row.2
}

/// Appends the characters of `v` other than colons.
fn push_without_colons(s: &mut String, v: &Vec<char>)
    ensures
        final(s)@ == old(s)@ + without_colons(v@),
{
    let mut i: usize = 0;
    while i < v.len()
        invariant
            i <= v@.len(),
            s@ == old(s)@ + without_colons(v@.take(i as int)),
        decreases v.len() - i,
    {
        assert(v@.take(i + 1).drop_last() == v@.take(i as int));
        if v[i] != ':' {
            push_char(s, v[i]);
        }
        i = i + 1;
    }
    assert(v@.take(i as int) == v@);
}

/// The fields `w[from..]` joined by single spaces.
fn join_from(w: &Vec<Vec<char>>, from: usize) -> (r: String)
    requires
        from < w@.len(),
    ensures
        r@ == joined(views_of(w@).skip(from as int)),
{
    let ghost src = views_of(w@).skip(from as int);
    let total = w.len();
    let mut r = string_of_all(&w[from]);
    assert(src.take(1) =~= seq![w@[from as int]@]);
    let mut i: usize = from + 1;
    while i < total
        invariant
            from < i <= w@.len(),
            total == w@.len(),
            src == views_of(w@).skip(from as int),
            r@ == joined(src.take(i - from)),
        decreases total - i,
    {
        assert(src.take(i - from + 1).drop_last() == src.take(i - from));
        assert(src.take(i - from + 1).last() == w@[i as int]@);
        push_char(&mut r, ' ');
        let part = string_of_all(&w[i]);
        push_chars(&mut r, part.as_str());
        i = i + 1;
    }
    assert(src.take(i - from) == src);
    r
}

/// The devices an `hcitool scan` report lists (see `bluetooth_rows`).
pub fn parse_bluetooth_output(output: &str) -> (r: Vec<BluetoothEntry>)
    ensures
        r@.len() == bluetooth_rows(lines(output@)).len(),
        forall|k: int| 0 <= k < r@.len() ==> bluetooth_entry_is(#[trigger] r@[k], bluetooth_rows(lines(output@))[k]),
{
    proof {
        reveal_strlit("Scanning");
    }
    let v = chars_of(output);
    let ls = split_lines(&v);
    let scanning = chars_of("Scanning");
    let ghost all = lines(output@);
    let mut r: Vec<BluetoothEntry> = Vec::new();
    let mut i: usize = 0;
    while i < ls.len()
        invariant
            i <= ls@.len(),
            views_of(ls@) == all,
            scanning@ == "Scanning"@,
            r@.len() == bluetooth_rows(all.take(i as int)).len(),
            forall|k: int| 0 <= k < r@.len() ==> bluetooth_entry_is(#[trigger] r@[k], bluetooth_rows(all.take(i as int))[k]),
        decreases ls.len() - i,
    {
        assert(all.take(i + 1).drop_last() == all.take(i as int));
        assert(all.take(i + 1).last() == ls@[i as int]@);
        let l = &ls[i];
        let w = split_words(l);
        let colon = crate::text::find_char(l, ':');
        proof {
            crate::text::lemma_pos_of_bound(l@, ':');
            if colon is Some {
                assert(l@[colon->Some_0 as int] == ':');
            }
        }
        if colon.is_some() && !has_prefix(l, &scanning) && w.len() >= 2 {
            assert(views_of(w@)[0] == w@[0]@);
            let mac = string_of_all(&w[0]);
            let name = join_from(&w, 1);
            assert(views_of(w@).skip(1) == views_of(w@).drop_first());
            let mut id = "bt_".to_owned();
            push_without_colons(&mut id, &w[0]);
            r.push(BluetoothEntry { mac, name, device_id: id });
        }
        i = i + 1;
    }
    assert(all.take(i as int) == all);
    r
}

/// An alert about a device: its kind, severity and message.
#[derive(Debug, Clone)]
pub struct DeviceAlertInfo {
    pub alert_type: IoTAlertType,
    pub severity: IoTAlertSeverity,
    pub message: String,
}

/// The alerts a device raises for being offline and for a battery below 20%, in that
/// order (the temperature alert is judged by the caller).
pub fn device_alerts(is_online: bool, battery_level: Option<u8>) -> (r: Vec<DeviceAlertInfo>)
    ensures
        r@.len() == (if !is_online { 1int } else { 0int }) + (if battery_level matches Some(b) && b < 20 {
            1int
        } else {
            0int
        }),
        !is_online ==> r@[0].alert_type == IoTAlertType::DeviceOffline && r@[0].severity
            == IoTAlertSeverity::Critical && r@[0].message@ == "Device is offline"@,
        match battery_level {
            Some(b) => b < 20 ==> r@[r@.len() - 1].alert_type == IoTAlertType::LowBattery
                && r@[r@.len() - 1].severity == IoTAlertSeverity::Warning && r@[r@.len() - 1].message@
                == "Battery level low: "@ + dec_digits(b as nat) + "%"@,
            None => true,
        },
{
    let mut r: Vec<DeviceAlertInfo> = Vec::new();
    if !is_online {
        r.push(
            DeviceAlertInfo {
                alert_type: IoTAlertType::DeviceOffline,
                severity: IoTAlertSeverity::Critical,
                message: "Device is offline".to_owned(),
            },
        );
    }
    if let Some(b) = battery_level {
        if b < 20 {
            let mut m = "Battery level low: ".to_owned();
            crate::num::push_dec(&mut m, b as u64);
            push_char(&mut m, '%');
            proof {
                reveal_strlit("%");
                assert("%"@ == seq!['%']);
            }
            r.push(DeviceAlertInfo { alert_type: IoTAlertType::LowBattery, severity: IoTAlertSeverity::Warning, message: m });
        }
    }
    r
}

} // verus!
