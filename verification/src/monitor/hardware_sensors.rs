//! Hardware sensors: what kind a sensor is, its unit, and how readings are grouped.
use vstd::prelude::*;
use crate::text::{
    chars_of, contains, find_char, has_prefix, has_sub, lemma_pos_of_bound, lines, lower_text, pos_of, push_char,
    pieces, slice_chars, split_char, split_lines,
    starts_with, str_eq, string_of_all, to_lower, trim, trim_chars, views_of,
};

verus! {

/// What a sensor measures.
#[derive(Debug, Clone, Copy, PartialEq, Eq, Structural)]
pub enum SensorType {
    Temperature,
    Fan,
    Voltage,
    Power,
    Current,
    Energy,
    Humidity,
    Intrusion,
    Unknown,
}

/// How a sensor's reading stands.
#[derive(Debug, Clone, Copy, PartialEq, Eq, Structural)]
pub enum SensorStatus {
    Normal,
    Warning,
    Critical,
    Unknown,
    Fault,
}

/// Where sensor readings come from.
#[derive(Debug, Clone, Copy, PartialEq, Eq, Structural)]
pub enum SensorBackend {
    Lmsensors,
    Hwmon,
    Acpi,
    Ipmi,
    Manual,
    Unknown,
}

impl Default for SensorStatus {
    fn default() -> (r: Self)
        ensures
            r == SensorStatus::Unknown,
    {
        SensorStatus::Unknown
    }
}

/// The sensor type a lower-case word names.
pub open spec fn sensor_type_named(s: Seq<char>) -> SensorType {
    if s == "temp"@ || s == "temperature"@ {
        SensorType::Temperature
    } else if s == "fan"@ {
        SensorType::Fan
    } else if s == "in"@ || s == "voltage"@ {
        SensorType::Voltage
    } else if s == "power"@ {
        SensorType::Power
    } else if s == "curr"@ || s == "current"@ {
        SensorType::Current
    } else if s == "energy"@ {
        SensorType::Energy
    } else if s == "humidity"@ {
        SensorType::Humidity
    } else if s == "intrusion"@ {
        SensorType::Intrusion
    } else {
        SensorType::Unknown
    }
}

/// The sensor type a sensor's name suggests, by the first of these it contains once
/// lower-cased: temp or thermal, fan, in or volt, power, curr, energy, humidity,
/// intrusion.
pub open spec fn type_from_name(lower: Seq<char>) -> SensorType {
    if contains(lower, "temp"@) || contains(lower, "thermal"@) {
        SensorType::Temperature
    } else if contains(lower, "fan"@) {
        SensorType::Fan
    } else if contains(lower, "in"@) || contains(lower, "volt"@) {
        SensorType::Voltage
    } else if contains(lower, "power"@) {
        SensorType::Power
    } else if contains(lower, "curr"@) {
        SensorType::Current
    } else if contains(lower, "energy"@) {
        SensorType::Energy
    } else if contains(lower, "humidity"@) {
        SensorType::Humidity
    } else if contains(lower, "intrusion"@) {
        SensorType::Intrusion
    } else {
        SensorType::Unknown
    }
}

/// The sensor type a hwmon attribute base (such as `temp1`) names by its prefix.
pub open spec fn type_from_hwmon(base: Seq<char>) -> SensorType {
    if starts_with(base, "temp"@) {
        SensorType::Temperature
    } else if starts_with(base, "fan"@) {
        SensorType::Fan
    } else if starts_with(base, "in"@) {
        SensorType::Voltage
    } else if starts_with(base, "power"@) {
        SensorType::Power
    } else if starts_with(base, "curr"@) {
        SensorType::Current
    } else if starts_with(base, "energy"@) {
        SensorType::Energy
    } else if starts_with(base, "humidity"@) {
        SensorType::Humidity
    } else {
        SensorType::Unknown
    }
}

/// The unit a printed reading shows, by the first of these it contains: `°C`, `°F`,
/// `RPM`, ` V`, ` W`, ` A`, `%`; none otherwise.
pub open spec fn unit_in(v: Seq<char>) -> Seq<char> {
    if contains(v, "°C"@) {
        "°C"@
    } else if contains(v, "°F"@) {
        "°F"@
    } else if contains(v, "RPM"@) {
        "RPM"@
    } else if contains(v, " V"@) {
        "V"@
    } else if contains(v, " W"@) {
        "W"@
    } else if contains(v, " A"@) {
        "A"@
    } else if contains(v, "%"@) {
        "%"@
    } else {
        Seq::empty()
    }
}

/// Whether `needle` occurs in `s`.
fn mentions(s: &str, needle: &str) -> (r: bool)
    ensures
        r == contains(s@, needle@),
{
    let a = chars_of(s);
    let b = chars_of(needle);
    has_sub(&a, &b)
}

/// Whether `s` begins with `p`.
fn begins(s: &str, p: &str) -> (r: bool)
    ensures
        r == starts_with(s@, p@),
{
    let a = chars_of(s);
    let b = chars_of(p);
    has_prefix(&a, &b)
}

impl SensorType {
    /// The sensor type named by `s`, in any letter case.
    pub fn from_state(s: &str) -> (r: SensorType)
        ensures
            r == sensor_type_named(lower_text(s@)),
    {
        let l = to_lower(s);
        let w = l.as_str();
        if str_eq(w, "temp") || str_eq(w, "temperature") {
            SensorType::Temperature
        } else if str_eq(w, "fan") {
            SensorType::Fan
        } else if str_eq(w, "in") || str_eq(w, "voltage") {
            SensorType::Voltage
        } else if str_eq(w, "power") {
            SensorType::Power
        } else if str_eq(w, "curr") || str_eq(w, "current") {
            SensorType::Current
        } else if str_eq(w, "energy") {
            SensorType::Energy
        } else if str_eq(w, "humidity") {
            SensorType::Humidity
        } else if str_eq(w, "intrusion") {
            SensorType::Intrusion
        } else {
            SensorType::Unknown
        }
    }
}

impl SensorBackend {
    /// The backend in use, from what was found, tried in order: `sensors` answering,
    /// `/sys/class/hwmon`, `/sys/class/thermal`, `ipmitool` answering.
    pub fn from_probes(sensors_cmd: bool, hwmon_dir: bool, thermal_dir: bool, ipmitool: bool) -> (r:
        SensorBackend)
        ensures
            r == if sensors_cmd {
                SensorBackend::Lmsensors
            } else if hwmon_dir {
                SensorBackend::Hwmon
            } else if thermal_dir {
                SensorBackend::Acpi
            } else if ipmitool {
                SensorBackend::Ipmi
            } else {
                SensorBackend::Unknown
            },
    {
        if sensors_cmd {
            SensorBackend::Lmsensors
        } else if hwmon_dir {
            SensorBackend::Hwmon
        } else if thermal_dir {
            SensorBackend::Acpi
        } else if ipmitool {
            SensorBackend::Ipmi
        } else {
            SensorBackend::Unknown
        }
    }
}

/// The sensor type a sensor's name suggests (see `type_from_name`).
pub fn determine_sensor_type(sensor_name: &str) -> (r: SensorType)
    ensures
        r == type_from_name(lower_text(sensor_name@)),
{
    let l = to_lower(sensor_name);
    let n = l.as_str();
    if mentions(n, "temp") || mentions(n, "thermal") {
        SensorType::Temperature
    } else if mentions(n, "fan") {
        SensorType::Fan
    } else if mentions(n, "in") || mentions(n, "volt") {
        SensorType::Voltage
    } else if mentions(n, "power") {
        SensorType::Power
    } else if mentions(n, "curr") {
        SensorType::Current
    } else if mentions(n, "energy") {
        SensorType::Energy
    } else if mentions(n, "humidity") {
        SensorType::Humidity
    } else if mentions(n, "intrusion") {
        SensorType::Intrusion
    } else {
        SensorType::Unknown
    }
}

/// The sensor type of a hwmon attribute base (see `type_from_hwmon`).
pub fn determine_hwmon_sensor_type(sensor_base: &str) -> (r: SensorType)
    ensures
        r == type_from_hwmon(sensor_base@),
{
    if begins(sensor_base, "temp") {
        SensorType::Temperature
    } else if begins(sensor_base, "fan") {
        SensorType::Fan
    } else if begins(sensor_base, "in") {
        SensorType::Voltage
    } else if begins(sensor_base, "power") {
        SensorType::Power
    } else if begins(sensor_base, "curr") {
        SensorType::Current
    } else if begins(sensor_base, "energy") {
        SensorType::Energy
    } else if begins(sensor_base, "humidity") {
        SensorType::Humidity
    } else {
        SensorType::Unknown
    }
}

/// The unit a printed reading shows (see `unit_in`).
pub fn extract_unit(value_str: &str) -> (r: String)
    ensures
        r@ == unit_in(value_str@),
{
    if mentions(value_str, "°C") {
        "°C".to_owned()
    } else if mentions(value_str, "°F") {
        "°F".to_owned()
    } else if mentions(value_str, "RPM") {
        "RPM".to_owned()
    } else if mentions(value_str, " V") {
        "V".to_owned()
    } else if mentions(value_str, " W") {
        "W".to_owned()
    } else if mentions(value_str, " A") {
        "A".to_owned()
    } else if mentions(value_str, "%") {
        "%".to_owned()
    } else {
        String::new()
    }
}

/// A decimal digit.
pub open spec fn is_digit(c: char) -> bool {
    '0' <= c && c <= '9'
}

/// The number that a printed reading starts with, read from `s` with `acc` taken so
/// far and `dot` telling whether a decimal point was taken: characters before the
/// first one that can start a number are skipped; then digits, one decimal point, and
/// a sign at the very start are taken, up to the first other character.
pub open spec fn number_from(s: Seq<char>, acc: Seq<char>, dot: bool) -> Seq<char>
    decreases s.len(),
{
    if s.len() == 0 {
        acc
    } else {
        let c = s[0];
        if is_digit(c) || (c == '.' && !dot) || ((c == '-' || c == '+') && acc.len() == 0) {
            number_from(s.drop_first(), acc.push(c), dot || c == '.')
        } else if acc.len() > 0 {
            acc
        } else {
            number_from(s.drop_first(), acc, dot)
        }
    }
}

/// The text of the number a printed reading such as `+45.0°C` or `1234 RPM` starts
/// with (see `number_from`); it is empty when there is none.
pub fn sensor_number_text(value_str: &str) -> (r: String)
    ensures
        r@ == number_from(value_str@, seq![], false),
{
    let v = chars_of(value_str);
    let mut acc = String::new();
    let mut taken: usize = 0;
    let mut dot = false;
    let mut i: usize = 0;
    assert(v@.skip(0) == v@);
    assert(acc@ == Seq::<char>::empty());
    while i < v.len()
        invariant
            i <= v@.len(),
            v@ == value_str@,
            taken == acc@.len(),
            taken <= i,
            number_from(v@, seq![], false) == number_from(v@.skip(i as int), acc@, dot),
        decreases v.len() - i,
    {
        let c = v[i];
        proof {
            assert(v@.skip(i as int)[0] == c);
            assert(v@.skip(i as int).drop_first() == v@.skip(i + 1));
        }
        if ('0' <= c && c <= '9') || (c == '.' && !dot) || ((c == '-' || c == '+') && taken == 0) {
            push_char(&mut acc, c);
            taken = taken + 1;
            if c == '.' {
                dot = true;
            }
        } else if taken > 0 {
            return acc;
        }
        i = i + 1;
    }
    assert(v@.skip(i as int).len() == 0);
    acc
}

/// What a line of `sensors -A -u` output gives: the chip it stands under, the sensor's
/// name, and the text of its value.
pub type LmEntry = (Seq<char>, Seq<char>, Seq<char>);

/// The readings that the lines `ls` give under the chip `chip`. Each line is trimmed;
/// a blank line gives nothing; a line with a `-` names the chip of the lines after it;
/// any other line with a `:` is a reading, named by what stands before its first `:`
/// and valued by what stands after it, both trimmed.
pub open spec fn lm_entries(ls: Seq<Seq<char>>, chip: Seq<char>) -> Seq<LmEntry>
    decreases ls.len(),
{
    if ls.len() == 0 {
        seq![]
    } else {
        let t = trim(ls[0]);
        let p = pos_of(t, ':') as int;
        if t.len() == 0 {
            lm_entries(ls.drop_first(), chip)
        } else if t.contains('-') {
            lm_entries(ls.drop_first(), t)
        } else if t.contains(':') {
            seq![(chip, trim(t.take(p)), trim(t.skip(p + 1)))] + lm_entries(ls.drop_first(), chip)
        } else {
            lm_entries(ls.drop_first(), chip)
        }
    }
}

/// The entries of `r` as character sequences.
pub open spec fn entry_views(r: Seq<(String, String, String)>) -> Seq<LmEntry> {
    r.map_values(|e: (String, String, String)| (e.0@, e.1@, e.2@))
}

/// The readings of a `sensors -A -u` output, in order, as (chip, sensor, value text);
/// the chip is empty before the first chip line (see `lm_entries`).
pub fn lm_sensor_lines(output: &str) -> (r: Vec<(String, String, String)>)
    ensures
        entry_views(r@) == lm_entries(lines(output@), seq![]),
{
    let v = chars_of(output);
    let ls = split_lines(&v);
    let ghost all = lines(output@);
    let mut r: Vec<(String, String, String)> = Vec::new();
    let mut chip: Vec<char> = Vec::new();
    let mut i: usize = 0;
    assert(all.skip(0) == all);
    assert(entry_views(r@) + lm_entries(all, chip@) == lm_entries(all, seq![]));
    while i < ls.len()
        invariant
            i <= ls@.len(),
            views_of(ls@) == all,
            all == lines(output@),
            lm_entries(all, seq![]) == entry_views(r@) + lm_entries(all.skip(i as int), chip@),
        decreases ls.len() - i,
    {
        let ghost before = entry_views(r@);
        let ghost old_chip = chip@;
        proof {
            assert(all.skip(i as int)[0] == ls@[i as int]@);
            assert(all.skip(i as int).drop_first() == all.skip(i + 1));
        }
        let t = trim_chars(&ls[i]);
        if t.len() == 0 {
        } else if let Some(_) = find_char(&t, '-') {
            proof {
                lemma_pos_of_bound(t@, '-');
                assert(t@[pos_of(t@, '-') as int] == '-');
            }
            chip = t;
        } else if let Some(k) = find_char(&t, ':') {
            proof {
                lemma_pos_of_bound(t@, ':');
                assert(t@[k as int] == ':');
            }
            let name = trim_chars(&slice_chars(&t, 0, k));
            let value = trim_chars(&slice_chars(&t, k + 1, t.len()));
            let e = (string_of_all(&chip), string_of_all(&name), string_of_all(&value));
            r.push(e);
            proof {
                assert(t@.take(k as int) == t@.subrange(0, k as int));
                assert(t@.skip(k + 1) == t@.subrange(k + 1, t@.len() as int));
                assert(entry_views(r@) == before.push((old_chip, name@, value@)));
                assert(before.push((old_chip, name@, value@)) + lm_entries(all.skip(i + 1), chip@)
                    == before + (seq![(old_chip, name@, value@)] + lm_entries(all.skip(i + 1), chip@)));
            }
        }
        i = i + 1;
    }
    assert(all.skip(i as int) == Seq::<Seq<char>>::empty());
    assert(entry_views(r@) + Seq::<LmEntry>::empty() == entry_views(r@));
    r
}

/// The readings that the lines `ls` of `ipmitool sensor` output give: each line is
/// trimmed, and one with at least three `|`-separated fields gives its first three,
/// trimmed (name, value text, unit).
pub open spec fn ipmi_entries(ls: Seq<Seq<char>>) -> Seq<LmEntry>
    decreases ls.len(),
{
    if ls.len() == 0 {
        seq![]
    } else {
        let f = pieces(trim(ls.last()), '|');
        if f.len() >= 3 {
            ipmi_entries(ls.drop_last()).push((trim(f[0]), trim(f[1]), trim(f[2])))
        } else {
            ipmi_entries(ls.drop_last())
        }
    }
}

/// The readings of an `ipmitool sensor` output, in order, as (sensor, value text,
/// unit) (see `ipmi_entries`).
pub fn ipmi_sensor_lines(output: &str) -> (r: Vec<(String, String, String)>)
    ensures
        entry_views(r@) == ipmi_entries(lines(output@)),
{
    let v = chars_of(output);
    let ls = split_lines(&v);
    let ghost all = lines(output@);
    let mut r: Vec<(String, String, String)> = Vec::new();
    let mut i: usize = 0;
    assert(entry_views(r@) == ipmi_entries(all.take(0)));
    while i < ls.len()
        invariant
            i <= ls@.len(),
            views_of(ls@) == all,
            all == lines(output@),
            entry_views(r@) == ipmi_entries(all.take(i as int)),
        decreases ls.len() - i,
    {
        let ghost before = entry_views(r@);
        proof {
            assert(all.take(i + 1).drop_last() == all.take(i as int));
            assert(all.take(i + 1).last() == ls@[i as int]@);
        }
        let t = trim_chars(&ls[i]);
        let f = split_char(&t, '|');
        if f.len() >= 3 {
            proof {
                assert(views_of(f@)[0] == f@[0]@);
                assert(views_of(f@)[1] == f@[1]@);
                assert(views_of(f@)[2] == f@[2]@);
            }
            let a = trim_chars(&f[0]);
            let b = trim_chars(&f[1]);
            let c = trim_chars(&f[2]);
            r.push((string_of_all(&a), string_of_all(&b), string_of_all(&c)));
            assert(entry_views(r@) == before.push((a@, b@, c@)));
        }
        i = i + 1;
    }
    assert(all.take(i as int) == all);
    r
}

/// The positions of `types` holding `t`, in order.
pub open spec fn positions_of_type(types: Seq<SensorType>, t: SensorType) -> Seq<int>
    decreases types.len(),
{
    if types.len() == 0 {
        Seq::empty()
    } else {
        let init = positions_of_type(types.drop_last(), t);
        if types.last() == t {
            init.push(types.len() - 1)
        } else {
            init
        }
    }
}

/// The positions of `statuses` that call for attention (Critical or Warning), in order.
pub open spec fn alert_positions(statuses: Seq<SensorStatus>) -> Seq<int>
    decreases statuses.len(),
{
    if statuses.len() == 0 {
        Seq::empty()
    } else {
        let init = alert_positions(statuses.drop_last());
        let s = statuses.last();
        if s == SensorStatus::Critical || s == SensorStatus::Warning {
            init.push(statuses.len() - 1)
        } else {
            init
        }
    }
}

/// A list of positions as integers.
pub open spec fn usize_view(v: Seq<usize>) -> Seq<int> {
    Seq::new(v.len(), |i: int| v[i] as int)
}

/// The positions of the readings of type `t`, in order.
pub fn sensors_of_type(types: &[SensorType], t: SensorType) -> (r: Vec<usize>)
    ensures
        usize_view(r@) == positions_of_type(types@, t),
{
    let mut r: Vec<usize> = Vec::new();
    let mut i: usize = 0;
    while i < types.len()
        invariant
            i <= types@.len(),
            usize_view(r@) == positions_of_type(types@.take(i as int), t),
        decreases types.len() - i,
    {
        assert(types@.take(i + 1).drop_last() == types@.take(i as int));
        if types[i] == t {
            let ghost before = usize_view(r@);
            r.push(i);
            assert(usize_view(r@) =~= before.push(i as int));
        }
        i = i + 1;
    }
    assert(types@.take(i as int) == types@);
    r
}

/// The positions of the readings that call for attention, in order.
pub fn sensor_alerts(statuses: &[SensorStatus]) -> (r: Vec<usize>)
    ensures
        usize_view(r@) == alert_positions(statuses@),
{
    let mut r: Vec<usize> = Vec::new();
    let mut i: usize = 0;
    while i < statuses.len()
        invariant
            i <= statuses@.len(),
            usize_view(r@) == alert_positions(statuses@.take(i as int)),
        decreases statuses.len() - i,
    {
        assert(statuses@.take(i + 1).drop_last() == statuses@.take(i as int));
        let s = statuses[i];
        if s == SensorStatus::Critical || s == SensorStatus::Warning {
            let ghost before = usize_view(r@);
            r.push(i);
            assert(usize_view(r@) =~= before.push(i as int));
        }
        i = i + 1;
    }
    assert(statuses@.take(i as int) == statuses@);
    r
}

/// A temperature reading that belongs to the CPU: `cpu` in its name or chip, letter
/// case aside.
pub fn is_cpu_sensor(name: &str, chip: &str) -> (r: bool)
    ensures
        r == (contains(lower_text(name@), "cpu"@) || contains(lower_text(chip@), "cpu"@)),
{
    let n = to_lower(name);
    let c = to_lower(chip);
    mentions(n.as_str(), "cpu") || mentions(c.as_str(), "cpu")
}

/// What the cache holds of one sensor: its name, its latest reading (fixed-point, in
/// thousandths of the sensor's unit) and status, when it was last read (seconds since
/// the epoch), and its readings as (time, value), oldest first.
#[derive(Debug, Clone)]
pub struct CachedSensor {
    pub name: String,
    pub current_value: i64,
    pub status: SensorStatus,
    pub last_updated: i64,
    pub history: Vec<(i64, i64)>,
}

/// The sensors read so far, by name (the latest entry for a name counts), each with
/// at most `history_limit` readings kept.
#[derive(Debug, Clone)]
pub struct SensorCache {
    pub entries: Vec<CachedSensor>,
    pub history_limit: usize,
}

/// A cached sensor as plain values: name, current value, status, last update, history.
pub type CachedView = (Seq<char>, i64, SensorStatus, i64, Seq<(i64, i64)>);

/// The sensor `e` as plain values.
pub open spec fn cached_view(e: CachedSensor) -> CachedView {
    (e.name@, e.current_value, e.status, e.last_updated, e.history@)
}

/// What the cache `es` holds for the sensor `name`, if anything (the latest entry counts).
pub open spec fn cached(es: Seq<CachedSensor>, name: Seq<char>) -> Option<CachedView>
    decreases es.len(),
{
    if es.len() == 0 {
        None
    } else if es.last().name@ == name {
        Some(cached_view(es.last()))
    } else {
        cached(es.drop_last(), name)
    }
}

/// The newest `max` items of `s` (all of them when there are no more).
pub open spec fn keep_newest<T>(s: Seq<T>, max: nat) -> Seq<T> {
    if s.len() > max {
        s.skip(s.len() - max)
    } else {
        s
    }
}

/// The values of the readings among the first `n` that are of the sensor `q`, in order.
pub open spec fn readings_of(names: Seq<String>, values: Seq<i64>, q: Seq<char>, n: int) -> Seq<i64>
    decreases n,
{
    if n <= 0 {
        Seq::empty()
    } else {
        let r = readings_of(names, values, q, n - 1);
        if names[n - 1]@ == q {
            r.push(values[n - 1])
        } else {
            r
        }
    }
}

/// The position of the last reading among the first `n` that is of the sensor `q`, or -1.
pub open spec fn last_reading(names: Seq<String>, q: Seq<char>, n: int) -> int
    decreases n,
{
    if n <= 0 {
        -1
    } else if names[n - 1]@ == q {
        n - 1
    } else {
        last_reading(names, q, n - 1)
    }
}

proof fn lemma_no_readings(names: Seq<String>, values: Seq<i64>, q: Seq<char>, n: int)
    requires
        last_reading(names, q, n) < 0,
    ensures
        readings_of(names, values, q, n) == Seq::<i64>::empty(),
    decreases n,
{
    if n > 0 {
        lemma_no_readings(names, values, q, n - 1);
    }
}

/// The readings `vs` stamped with the time `now`.
pub open spec fn stamped(vs: Seq<i64>, now: i64) -> Seq<(i64, i64)> {
    Seq::new(vs.len(), |i: int| (now, vs[i]))
}

/// What the cache holds for the sensor `q` after the first `n` readings are recorded at
/// `now` into the cache `old`: unchanged when none of them is of `q`; else the latest
/// value and status of `q`, updated at `now`, with the old history (none for a new
/// sensor) followed by the new readings, of which the newest `limit` are kept.
pub open spec fn cached_after(
    old: Seq<CachedSensor>,
    names: Seq<String>,
    values: Seq<i64>,
    statuses: Seq<SensorStatus>,
    now: i64,
    limit: nat,
    q: Seq<char>,
    n: int,
) -> Option<CachedView> {
    let k = last_reading(names, q, n);
    if k < 0 {
        cached(old, q)
    } else {
        let before = match cached(old, q) {
            Some(v) => v.4,
            None => Seq::empty(),
        };
        Some((q, values[k], statuses[k], now, keep_newest(before + stamped(readings_of(names, values, q, n), now), limit)))
    }
}

proof fn lemma_cached_absent(es: Seq<CachedSensor>, name: Seq<char>)
    requires
        forall|i: int| 0 <= i < es.len() ==> (#[trigger] es[i]).name@ != name,
    ensures
        cached(es, name) is None,
    decreases es.len(),
{
    if es.len() > 0 {
        assert(es.last() == es[es.len() - 1]);
        lemma_cached_absent(es.drop_last(), name);
    }
}

proof fn lemma_cached_at(es: Seq<CachedSensor>, name: Seq<char>, j: int)
    requires
        0 <= j < es.len(),
        es[j].name@ == name,
        forall|i: int| j < i < es.len() ==> (#[trigger] es[i]).name@ != name,
    ensures
        cached(es, name) == Some(cached_view(es[j])),
    decreases es.len(),
{
    if j < es.len() - 1 {
        assert(es.last() == es[es.len() - 1]);
        lemma_cached_at(es.drop_last(), name, j);
    }
}

proof fn lemma_cached_update(es: Seq<CachedSensor>, j: int, e: CachedSensor, q: Seq<char>)
    requires
        0 <= j < es.len(),
        e.name@ == es[j].name@,
        forall|i: int| j < i < es.len() ==> (#[trigger] es[i]).name@ != es[j].name@,
    ensures
        cached(es.update(j, e), q) == if q == e.name@ { Some(cached_view(e)) } else { cached(es, q) },
    decreases es.len(),
{
    let es2 = es.update(j, e);
    assert(es.last() == es[es.len() - 1]);
    if j == es.len() - 1 {
        assert(es2.drop_last() == es.drop_last());
    } else {
        assert(es2.drop_last() == es.drop_last().update(j, e));
        lemma_cached_update(es.drop_last(), j, e, q);
    }
}

proof fn lemma_keep_newest_push<T>(h: Seq<T>, x: T, max: nat)
    requires
        max > 0,
    ensures
        keep_newest(keep_newest(h, max).push(x), max) == keep_newest(h.push(x), max),
{
    let a = keep_newest(h, max).push(x);
    let b = h.push(x);
    if h.len() > max {
        assert(keep_newest(a, max) =~= keep_newest(b, max));
    } else if h.len() == max {
        assert(keep_newest(a, max) =~= keep_newest(b, max));
    } else {
        assert(a =~= b);
    }
}

/// The latest entry for `name` in `es`, if any.
fn last_sensor(es: &Vec<CachedSensor>, name: &str) -> (r: Option<usize>)
    ensures
        match r {
            Some(j) => j < es@.len() && es@[j as int].name@ == name@ && forall|i: int|
                j < i < es@.len() ==> (#[trigger] es@[i]).name@ != name@,
            None => forall|i: int| 0 <= i < es@.len() ==> (#[trigger] es@[i]).name@ != name@,
        },
{
    let mut j: usize = es.len();
    while j > 0
        invariant
            j <= es@.len(),
            forall|i: int| j <= i < es@.len() ==> (#[trigger] es@[i]).name@ != name@,
        decreases j,
    {
        if str_eq(es[j - 1].name.as_str(), name) {
            return Some(j - 1);
        }
        j = j - 1;
    }
    None
}

impl SensorCache {
    /// An empty cache keeping the newest 100 readings of each sensor.
    pub fn new() -> (r: Self)
        ensures
            r.entries@.len() == 0,
            r.history_limit == 100,
    {
        SensorCache { entries: Vec::new(), history_limit: 100 }
    }

    /// The readings kept of the sensor `name`, oldest first, if it is cached.
    pub fn get_sensor_history(&self, name: &str) -> (r: Option<&Vec<(i64, i64)>>)
        ensures
            match cached(self.entries@, name@) {
                Some(v) => r matches Some(h) && h@ == v.4,
                None => r is None,
            },
    {
        match last_sensor(&self.entries, name) {
            Some(j) => {
                proof {
                    lemma_cached_at(self.entries@, name@, j as int);
                }
                Some(&self.entries[j].history)
            },
            None => {
                proof {
                    lemma_cached_absent(self.entries@, name@);
                }
                None
            },
        }
    }

    /// Records one reading of the sensor `name` at `now`: its value and status become
    /// current, and `(now, value)` joins its history, of which the newest
    /// `history_limit` are kept; a sensor not cached yet starts with that one reading.
    fn record_one(&mut self, name: &str, value: i64, status: SensorStatus, now: i64)
        requires
            old(self).history_limit > 0,
        ensures
            final(self).history_limit == old(self).history_limit,
            cached(final(self).entries@, name@) == Some(
                (
                    name@,
                    value,
                    status,
                    now,
                    keep_newest(
                        match cached(old(self).entries@, name@) {
                            Some(v) => v.4,
                            None => Seq::<(i64, i64)>::empty(),
                        }.push((now, value)),
                        old(self).history_limit as nat,
                    ),
                ),
            ),
            forall|q: Seq<char>|
                q != name@ ==> #[trigger] cached(final(self).entries@, q) == cached(old(self).entries@, q),
    {
        let limit = self.history_limit;
        match last_sensor(&self.entries, name) {
            Some(j) => {
                proof {
                    lemma_cached_at(self.entries@, name@, j as int);
                }
                let ghost es = self.entries@;
                let mut e = self.entries.remove(j);
                let ghost h0 = e.history@;
                e.history.push((now, value));
                let ghost all = e.history@;
                let ghost mut dropped: int = 0;
                while e.history.len() > limit
                    invariant
                        0 <= dropped <= all.len(),
                        e.history@ == all.skip(dropped),
                        dropped > 0 ==> all.len() - dropped >= limit,
                        e.name == es[j as int].name,
                        j < es.len(),
                        es[j as int].name@ == name@,
                        limit > 0,
                    decreases e.history@.len(),
                {
                    e.history.remove(0);
                    proof {
                        assert(all.skip(dropped).drop_first() == all.skip(dropped + 1));
                        dropped = dropped + 1;
                    }
                }
                assert(all.skip(0) == all);
                assert(e.history@ == keep_newest(h0.push((now, value)), limit as nat));
                e.current_value = value;
                e.status = status;
                e.last_updated = now;
                let ghost ev = e;
                self.entries.insert(j, e);
                assert(self.entries@ =~= es.update(j as int, ev));
                proof {
                    assert forall|q: Seq<char>| true implies #[trigger] cached(self.entries@, q) == if q == ev.name@ {
                        Some(cached_view(ev))
                    } else {
                        cached(es, q)
                    } by {
                        lemma_cached_update(es, j as int, ev, q);
                    }
                }
            },
            None => {
                proof {
                    lemma_cached_absent(self.entries@, name@);
                }
                let ghost es = self.entries@;
                let mut history: Vec<(i64, i64)> = Vec::new();
                history.push((now, value));
                assert(history@ =~= keep_newest(Seq::<(i64, i64)>::empty().push((now, value)), limit as nat));
                self.entries.push(
                    CachedSensor { name: name.to_owned(), current_value: value, status, last_updated: now, history },
                );
                assert(self.entries@.drop_last() == es);
            },
        }
    }
}

/// Records readings at `now` into `cache`: reading `i` is the value `values[i]`
/// (fixed-point) with status `statuses[i]` of the sensor `names[i]`, taken in order (see
/// `cached_after`).
pub fn record_readings(cache: &mut SensorCache, names: &[String], values: &[i64], statuses: &[SensorStatus], now: i64)
    requires
        values@.len() == names@.len(),
        statuses@.len() == names@.len(),
        old(cache).history_limit > 0,
    ensures
        final(cache).history_limit == old(cache).history_limit,
        forall|q: Seq<char>|
            #[trigger] cached(final(cache).entries@, q) == cached_after(
                old(cache).entries@,
                names@,
                values@,
                statuses@,
                now,
                old(cache).history_limit as nat,
                q,
                names@.len() as int,
            ),
{
    let ghost start = cache.entries@;
    let ghost limit = cache.history_limit as nat;
    let mut i: usize = 0;
    while i < names.len()
        invariant
            i <= names@.len(),
            values@.len() == names@.len(),
            statuses@.len() == names@.len(),
            cache.history_limit == old(cache).history_limit,
            cache.history_limit > 0,
            start == old(cache).entries@,
            limit == cache.history_limit as nat,
            forall|q: Seq<char>|
                #[trigger] cached(cache.entries@, q) == cached_after(start, names@, values@, statuses@, now, limit, q, i as int),
        decreases names.len() - i,
    {
        let ghost before = cache.entries@;
        cache.record_one(names[i].as_str(), values[i], statuses[i], now);
        proof {
            let p = names@[i as int]@;
            assert forall|q: Seq<char>| true implies #[trigger] cached(cache.entries@, q) == cached_after(
                start,
                names@,
                values@,
                statuses@,
                now,
                limit,
                q,
                i + 1,
            ) by {
                assert(cached(before, q) == cached_after(start, names@, values@, statuses@, now, limit, q, i as int));
                if q == p {
                    let old_h = match cached(start, q) {
                        Some(v) => v.4,
                        None => Seq::<(i64, i64)>::empty(),
                    };
                    let rs = readings_of(names@, values@, q, i as int);
                    let rs1 = readings_of(names@, values@, q, i + 1);
                    assert(rs1 == rs.push(values@[i as int]));
                    assert(stamped(rs1, now) =~= stamped(rs, now).push((now, values@[i as int])));
                    assert(old_h + stamped(rs1, now) =~= (old_h + stamped(rs, now)).push((now, values@[i as int])));
                    if last_reading(names@, q, i as int) < 0 {
                        lemma_no_readings(names@, values@, q, i as int);
                        assert(old_h + stamped(rs, now) =~= old_h);
                    } else {
                        lemma_keep_newest_push(old_h + stamped(rs, now), (now, values@[i as int]), limit);
                    }
                }
            }
        }
        i = i + 1;
    }
}

proof fn lemma_last_reading_value(names: Seq<String>, values: Seq<i64>, q: Seq<char>, n: int)
    requires
        last_reading(names, q, n) >= 0,
    ensures
        readings_of(names, values, q, n).len() > 0,
        readings_of(names, values, q, n).last() == values[last_reading(names, q, n)],
    decreases n,
{
    if n > 0 && names[n - 1]@ != q {
        lemma_last_reading_value(names, values, q, n - 1);
    }
}

/// A sensor that was not read in a round keeps what the cache held for it.
pub proof fn lemma_unread_sensor_kept(
    old: Seq<CachedSensor>,
    names: Seq<String>,
    values: Seq<i64>,
    statuses: Seq<SensorStatus>,
    now: i64,
    limit: nat,
    q: Seq<char>,
)
    requires
        last_reading(names, q, names.len() as int) < 0,
    ensures
        cached_after(old, names, values, statuses, now, limit, q, names.len() as int) == cached(old, q),
{
}

/// After readings are recorded, each sensor that was read holds between one and
/// `limit` readings, the newest being `(now, v)` for the value `v` of its last reading,
/// and its current value and status are those of that reading.
pub proof fn lemma_reported_sensor_history(
    old: Seq<CachedSensor>,
    names: Seq<String>,
    values: Seq<i64>,
    statuses: Seq<SensorStatus>,
    now: i64,
    limit: nat,
    q: Seq<char>,
)
    requires
        limit > 0,
        last_reading(names, q, names.len() as int) >= 0,
    ensures
        cached_after(old, names, values, statuses, now, limit, q, names.len() as int) matches Some(v) && {
            let k = last_reading(names, q, names.len() as int);
            &&& 1 <= v.4.len() <= limit
            &&& v.4.last() == (now, values[k])
            &&& v.1 == values[k]
            &&& v.2 == statuses[k]
        },
{
    let n = names.len() as int;
    let k = last_reading(names, q, n);
    lemma_last_reading_value(names, values, q, n);
    let before = match cached(old, q) {
        Some(v) => v.4,
        None => Seq::<(i64, i64)>::empty(),
    };
    let rs = readings_of(names, values, q, n);
    let all = before + stamped(rs, now);
    assert(all.last() == (now, rs.last()));
    let kept = keep_newest(all, limit);
    assert(kept.len() >= 1 && kept.len() <= limit);
    assert(kept.last() == all.last());
}

} // verus!
