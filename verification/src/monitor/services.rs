//! System services: their states, and the reports of the service manager.
use vstd::prelude::*;
use crate::monitor::network::rows_after_header;
use crate::monitor::properties::{opt_view, property_in, PropertyText};
use crate::num::{parse_uint, parse_unsigned};
use crate::text::{
    chars_of, contains, ends_with, has_prefix, has_sub, push_chars, has_suffix, lines, lower_text, slice_chars, split_lines,
    split_words, starts_with, str_eq, str_views, string_of_all, strings_of, to_lower, trim,
    trim_chars, views_of, words,
};

verus! {

/// Whether a service is running.
#[derive(Debug, Clone, Copy, PartialEq, Eq, Structural)]
pub enum ServiceStatus {
    Active,
    Inactive,
    Failed,
    Activating,
    Deactivating,
    Unknown,
}

/// Whether a service starts at boot.
#[derive(Debug, Clone, Copy, PartialEq, Eq, Structural)]
pub enum ServiceState {
    Enabled,
    Disabled,
    Static,
    Masked,
    Unknown,
}

/// How a service's process is started.
#[derive(Debug, Clone, Copy, PartialEq, Eq, Structural)]
pub enum ServiceType {
    Simple,
    Forking,
    Oneshot,
    Notify,
    Idle,
    DBus,
    Unknown,
}

/// The init system managing services.
#[derive(Debug, Clone, Copy, PartialEq, Eq, Structural)]
pub enum ServiceManager {
    Systemd,
    InitD,
    Runit,
    OpenRC,
    Unknown,
}

/// The status a lower-case word names.
pub open spec fn service_status_named(s: Seq<char>) -> ServiceStatus {
    if s == "active"@ {
        ServiceStatus::Active
    } else if s == "inactive"@ || s == "dead"@ {
        ServiceStatus::Inactive
    } else if s == "failed"@ {
        ServiceStatus::Failed
    } else if s == "activating"@ {
        ServiceStatus::Activating
    } else if s == "deactivating"@ {
        ServiceStatus::Deactivating
    } else {
        ServiceStatus::Unknown
    }
}

/// The state a lower-case word names.
pub open spec fn service_state_named(s: Seq<char>) -> ServiceState {
    if s == "enabled"@ {
        ServiceState::Enabled
    } else if s == "disabled"@ {
        ServiceState::Disabled
    } else if s == "static"@ {
        ServiceState::Static
    } else if s == "masked"@ {
        ServiceState::Masked
    } else {
        ServiceState::Unknown
    }
}

/// The type a lower-case word names.
pub open spec fn service_type_named(s: Seq<char>) -> ServiceType {
    if s == "simple"@ {
        ServiceType::Simple
    } else if s == "forking"@ {
        ServiceType::Forking
    } else if s == "oneshot"@ {
        ServiceType::Oneshot
    } else if s == "notify"@ {
        ServiceType::Notify
    } else if s == "idle"@ {
        ServiceType::Idle
    } else if s == "dbus"@ {
        ServiceType::DBus
    } else {
        ServiceType::Unknown
    }
}

impl Default for ServiceStatus {
    fn default() -> (r: Self)
        ensures
            r == ServiceStatus::Unknown,
    {
        ServiceStatus::Unknown
    }
}

impl ServiceStatus {
    /// The status named by `s`, in any letter case.
    pub fn from_state(s: &str) -> (r: ServiceStatus)
        ensures
            r == service_status_named(lower_text(s@)),
    {
        let l = to_lower(s);
        let w = l.as_str();
        if str_eq(w, "active") {
            ServiceStatus::Active
        } else if str_eq(w, "inactive") || str_eq(w, "dead") {
            ServiceStatus::Inactive
        } else if str_eq(w, "failed") {
            ServiceStatus::Failed
        } else if str_eq(w, "activating") {
            ServiceStatus::Activating
        } else if str_eq(w, "deactivating") {
            ServiceStatus::Deactivating
        } else {
            ServiceStatus::Unknown
        }
    }
}

impl ServiceState {
    /// The state named by `s`, in any letter case.
    pub fn from_state(s: &str) -> (r: ServiceState)
        ensures
            r == service_state_named(lower_text(s@)),
    {
        let l = to_lower(s);
        let w = l.as_str();
        if str_eq(w, "enabled") {
            ServiceState::Enabled
        } else if str_eq(w, "disabled") {
            ServiceState::Disabled
        } else if str_eq(w, "static") {
            ServiceState::Static
        } else if str_eq(w, "masked") {
            ServiceState::Masked
        } else {
            ServiceState::Unknown
        }
    }
}

impl ServiceType {
    /// The type named by `s`, in any letter case.
    pub fn from_state(s: &str) -> (r: ServiceType)
        ensures
            r == service_type_named(lower_text(s@)),
    {
        let l = to_lower(s);
        let w = l.as_str();
        if str_eq(w, "simple") {
            ServiceType::Simple
        } else if str_eq(w, "forking") {
            ServiceType::Forking
        } else if str_eq(w, "oneshot") {
            ServiceType::Oneshot
        } else if str_eq(w, "notify") {
            ServiceType::Notify
        } else if str_eq(w, "idle") {
            ServiceType::Idle
        } else if str_eq(w, "dbus") {
            ServiceType::DBus
        } else {
            ServiceType::Unknown
        }
    }
}

impl ServiceManager {
    /// The service manager in use, from what was found on the host, tried in order:
    /// `systemctl` answering, `rc-service` answering, `/etc/runit`, `/etc/init.d`.
    pub fn from_probes(systemctl: bool, rc_service: bool, runit_dir: bool, initd_dir: bool) -> (r:
        ServiceManager)
        ensures
            r == if systemctl {
                ServiceManager::Systemd
            } else if rc_service {
                ServiceManager::OpenRC
            } else if runit_dir {
                ServiceManager::Runit
            } else if initd_dir {
                ServiceManager::InitD
            } else {
                ServiceManager::Unknown
            },
    {
        if systemctl {
            ServiceManager::Systemd
        } else if rc_service {
            ServiceManager::OpenRC
        } else if runit_dir {
            ServiceManager::Runit
        } else if initd_dir {
            ServiceManager::InitD
        } else {
            ServiceManager::Unknown
        }
    }
}

/// What the service manager reports of one service.
#[derive(Debug, Clone)]
pub struct ServiceDetails {
    pub name: String,
    pub description: String,
    pub status: ServiceStatus,
    pub state: ServiceState,
    pub enabled: bool,
    /// When the service became active, as seconds since the epoch and nanoseconds,
    /// where the property gives an RFC 3339 time.
    pub active_since: Option<(i64, u32)>,
    pub memory_usage: u64,
    pub restart_count: u32,
    pub main_pid: Option<u32>,
    pub service_type: ServiceType,
    pub dependencies: Vec<String>,
    pub dependents: Vec<String>,
}

/// `o`'s text, or `d` where there is none.
pub open spec fn text_or(o: Option<Seq<char>>, d: Seq<char>) -> Seq<char> {
    match o {
        Some(t) => t,
        None => d,
    }
}

/// A number property: the value parsed as a decimal no larger than `max`, else 0.
pub open spec fn number_or_zero(o: Option<Seq<char>>, max: nat) -> nat {
    match o {
        Some(t) => match parse_unsigned(t, 10, max) {
            Some(n) => n,
            None => 0,
        },
        None => 0,
    }
}

/// The main pid property: none where absent, `0` or not a `u32`.
pub open spec fn main_pid_of(o: Option<Seq<char>>) -> Option<nat> {
    match o {
        Some(t) => if t == "0"@ {
            None
        } else {
            parse_unsigned(t, 10, u32::MAX as nat)
        },
        None => None,
    }
}

/// A time property: none where absent, empty or `0`.
pub open spec fn set_time_of(o: Option<Seq<char>>) -> Option<Seq<char>> {
    match o {
        Some(t) => if t.len() == 0 || t == "0"@ {
            None
        } else {
            Some(t)
        },
        None => None,
    }
}

/// The instant that chrono reads in `text` as an RFC 3339 date and time, as seconds
/// since the epoch and the nanoseconds past them, if it reads.
pub uninterp spec fn rfc3339_time(text: Seq<char>) -> Option<(i64, u32)>;

/// Reads an RFC 3339 date and time (chrono `DateTime::parse_from_rfc3339`, then
/// `timestamp` and `timestamp_subsec_nanos`). Claimed: the result is `rfc3339_time` of
/// the text; chrono's reading itself is left unstated.
#[verifier::external_body]
fn rfc3339_seconds(text: &str) -> (r: Option<(i64, u32)>)
    ensures
        r == rfc3339_time(text@),
{
    chrono::DateTime::parse_from_rfc3339(text).ok().map(|dt| (dt.timestamp(), dt.timestamp_subsec_nanos()))
}

/// The activation time a property gives: none where absent, empty, `0`, or not an
/// RFC 3339 time.
pub open spec fn active_time_of(o: Option<Seq<char>>) -> Option<(i64, u32)> {
    match set_time_of(o) {
        Some(t) => rfc3339_time(t),
        None => None,
    }
}

/// A list property: its white-space separated words, none where absent.
pub open spec fn list_of(o: Option<Seq<char>>) -> Seq<Seq<char>> {
    match o {
        Some(t) => words(t),
        None => Seq::empty(),
    }
}

/// `details` is what the `systemctl show` listing `ls` says of the service `name`.
pub open spec fn details_match(d: ServiceDetails, name: Seq<char>, ls: Seq<Seq<char>>) -> bool {
    let state = service_state_named(lower_text(text_or(property_in(ls, "UnitFileState"@), "unknown"@)));
    &&& d.name@ == name
    &&& d.description@ == text_or(property_in(ls, "Description"@), Seq::empty())
    &&& d.status == service_status_named(lower_text(text_or(property_in(ls, "ActiveState"@), "unknown"@)))
    &&& d.state == state
    &&& d.enabled == (state == ServiceState::Enabled)
    &&& d.active_since == active_time_of(property_in(ls, "ActiveEnterTimestamp"@))
    &&& d.memory_usage == number_or_zero(property_in(ls, "MemoryCurrent"@), u64::MAX as nat)
    &&& d.restart_count == number_or_zero(property_in(ls, "NRestarts"@), u32::MAX as nat)
    &&& match (d.main_pid, main_pid_of(property_in(ls, "MainPID"@))) {
        (Some(p), Some(q)) => p == q,
        (None, None) => true,
        _ => false,
    }
    &&& d.service_type == service_type_named(lower_text(text_or(property_in(ls, "Type"@), "simple"@)))
    &&& str_views(d.dependencies@) == list_of(property_in(ls, "Requires"@))
    &&& str_views(d.dependents@) == list_of(property_in(ls, "WantedBy"@))
}

/// The words of an optional property value.
fn list_from(o: &Option<String>) -> (r: Vec<String>)
    ensures
        str_views(r@) == list_of(opt_view(*o)),
{
    match o {
        Some(t) => {
            let v = chars_of(t.as_str());
            let ws = split_words(&v);
            strings_of(&ws)
        },
        None => {
            let r: Vec<String> = Vec::new();
            assert(str_views(r@) =~= Seq::<Seq<char>>::empty());
            r
        },
    }
}

/// A number property (see `number_or_zero`).
fn number_from(o: &Option<String>, max: u64) -> (r: u64)
    ensures
        r == number_or_zero(opt_view(*o), max as nat),
{
    match o {
        Some(t) => {
            let v = chars_of(t.as_str());
            match parse_uint(&v, 10, max) {
                Some(n) => n,
                None => 0,
            }
        },
        None => 0,
    }
}

/// The details of the service `name` from the text `systemctl show` printed for it.
pub fn service_details_from(name: &str, show_output: &str) -> (r: ServiceDetails)
    ensures
        details_match(r, name@, lines(show_output@)),
{
    let props = PropertyText::from_text(show_output);
    let description = match props.get("Description") {
        Some(d) => d,
        None => String::new(),
    };
    let active = props.get("ActiveState");
    let status = match &active {
        Some(a) => ServiceStatus::from_state(a.as_str()),
        None => ServiceStatus::from_state("unknown"),
    };
    let file_state = props.get("UnitFileState");
    let state = match &file_state {
        Some(a) => ServiceState::from_state(a.as_str()),
        None => ServiceState::from_state("unknown"),
    };
    let since = props.get("ActiveEnterTimestamp");
    let active_since = match since {
        Some(t) => if t.as_str().is_empty() || str_eq(t.as_str(), "0") {
            None
        } else {
            rfc3339_seconds(t.as_str())
        },
        None => None,
    };
    let pid_text = props.get("MainPID");
    let main_pid = match &pid_text {
        Some(t) => if str_eq(t.as_str(), "0") {
            None
        } else {
            let v = chars_of(t.as_str());
            match parse_uint(&v, 10, 0xffff_ffff) {
                Some(n) => Some(n as u32),
                None => None,
            }
        },
        None => None,
    };
    let type_text = props.get("Type");
    let service_type = match &type_text {
        Some(a) => ServiceType::from_state(a.as_str()),
        None => ServiceType::from_state("simple"),
    };
    let memory_usage = number_from(&props.get("MemoryCurrent"), u64::MAX);
    let restart_count = number_from(&props.get("NRestarts"), 0xffff_ffff) as u32;
    let dependencies = list_from(&props.get("Requires"));
    let dependents = list_from(&props.get("WantedBy"));
    let enabled = state == ServiceState::Enabled;
    ServiceDetails {
        name: name.to_owned(),
        description,
        status,
        state,
        enabled,
        active_since,
        memory_usage,
        restart_count,
        main_pid,
        service_type,
        dependencies,
        dependents,
    }
}

/// The unit names in the rows of `systemctl list-units` after its header: each row
/// trimmed, blank rows and the `LOAD` legend skipped, at least four fields, the first
/// ending in `.service`, which is taken off.
pub open spec fn unit_names(rows: Seq<Seq<char>>) -> Seq<Seq<char>>
    decreases rows.len(),
{
    if rows.len() == 0 {
        Seq::empty()
    } else {
        let init = unit_names(rows.drop_last());
        let t = trim(rows.last());
        let ws = words(t);
        if t.len() == 0 || starts_with(t, "LOAD"@) || ws.len() < 4 || !ends_with(ws[0], ".service"@) {
            init
        } else {
            init.push(ws[0].take(ws[0].len() - 8))
        }
    }
}

/// The names of the services `systemctl list-units --type=service` lists.
pub fn systemd_service_names(list_output: &str) -> (r: Vec<String>)
    ensures
        str_views(r@) == unit_names(rows_after_header(lines(list_output@))),
{
    proof {
        reveal_strlit("LOAD");
        reveal_strlit(".service");
    }
    let v = chars_of(list_output);
    let ls = split_lines(&v);
    let ghost rows = rows_after_header(lines(list_output@));
    let mut r: Vec<String> = Vec::new();
    if ls.len() == 0 {
        assert(str_views(r@) =~= Seq::<Seq<char>>::empty());
        return r;
    }
    let load = chars_of("LOAD");
    let suffix = chars_of(".service");
    assert(str_views(r@) =~= unit_names(rows.take(0)));
    let mut i: usize = 1;
    while i < ls.len()
        invariant
            1 <= i <= ls@.len(),
            views_of(ls@) == lines(list_output@),
            rows == rows_after_header(lines(list_output@)),
            load@ == "LOAD"@,
            suffix@ == ".service"@,
            suffix@.len() == 8,
            str_views(r@) == unit_names(rows.take(i - 1)),
        decreases ls.len() - i,
    {
        let ghost k = i - 1;
        assert(rows[k] == views_of(ls@)[i as int]);
        assert(rows.take(k + 1).drop_last() == rows.take(k));
        assert(rows.take(k + 1).last() == ls@[i as int]@);
        let t = trim_chars(ls[i].as_slice());
        let ws = split_words(&t);
        if t.len() > 0 && !has_prefix(&t, &load) && ws.len() >= 4 && has_suffix(&ws[0], &suffix) {
            let n = ws[0].len();
            let base = slice_chars(ws[0].as_slice(), 0, n - 8);
            let s = string_of_all(base.as_slice());
            proof {
                crate::text::lemma_str_views_push(r@, s);
            }
            r.push(s);
        }
        i = i + 1;
    }
    assert(rows.take(i - 1) =~= rows);
    r
}

/// The unit file path `systemctl show --property=FragmentPath` printed: the rest of the
/// first line that begins with `FragmentPath=`, else empty.
pub open spec fn fragment_path_in(ls: Seq<Seq<char>>) -> Seq<char>
    decreases ls.len(),
{
    if ls.len() == 0 {
        Seq::empty()
    } else if starts_with(ls[0], "FragmentPath="@) {
        ls[0].skip(13)
    } else {
        fragment_path_in(ls.drop_first())
    }
}

/// The unit file path from `systemctl show --property=FragmentPath` output.
pub fn fragment_path_from(output: &str) -> (r: String)
    ensures
        r@ == fragment_path_in(lines(output@)),
{
    proof {
        reveal_strlit("FragmentPath=");
    }
    let v = chars_of(output);
    let ls = split_lines(&v);
    let key = chars_of("FragmentPath=");
    let ghost all = lines(output@);
    let mut i: usize = 0;
    assert(all.skip(0) == all);
    while i < ls.len()
        invariant
            i <= ls@.len(),
            views_of(ls@) == all,
            all == lines(output@),
            key@ == "FragmentPath="@,
            key@.len() == 13,
            fragment_path_in(all) == fragment_path_in(all.skip(i as int)),
        decreases ls.len() - i,
    {
        assert(all.skip(i as int)[0] == ls@[i as int]@);
        assert(all.skip(i as int).drop_first() == all.skip(i + 1));
        if has_prefix(ls[i].as_slice(), &key) {
            let n = ls[i].len();
            let rest = slice_chars(ls[i].as_slice(), 13, n);
            return string_of_all(rest.as_slice());
        }
        i = i + 1;
    }
    assert(all.skip(i as int) =~= Seq::<Seq<char>>::empty());
    String::new()
}

/// A service as a listing of the service manager names it.
#[derive(Debug, Clone)]
pub struct ServiceListing {
    pub name: String,
    pub status: ServiceStatus,
    pub unit_file_path: String,
}

/// A line of `rc-status -a` names a service: trimmed, it is not empty, is not a
/// `Runlevel:` heading, and has a first word.
pub open spec fn openrc_row(l: Seq<char>) -> bool {
    let t = trim(l);
    t.len() > 0 && !starts_with(t, "Runlevel:"@) && words(t).len() > 0
}

/// The trimmed lines of `ls` that name services, in order.
pub open spec fn openrc_rows(ls: Seq<Seq<char>>) -> Seq<Seq<char>>
    decreases ls.len(),
{
    if ls.len() == 0 {
        Seq::empty()
    } else {
        let init = openrc_rows(ls.drop_last());
        if openrc_row(ls.last()) {
            init.push(trim(ls.last()))
        } else {
            init
        }
    }
}

/// `e` is the service that the trimmed `rc-status` line `t` names: its first word, active
/// when the line says `started`, with its script under `/etc/init.d`.
pub open spec fn openrc_entry(e: ServiceListing, t: Seq<char>) -> bool {
    &&& e.name@ == words(t)[0]
    &&& e.status == if contains(t, "started"@) {
        ServiceStatus::Active
    } else {
        ServiceStatus::Inactive
    }
    &&& e.unit_file_path@ == "/etc/init.d/"@ + words(t)[0]
}

/// The services that `rc-status -a` lists.
pub fn openrc_services_from(output: &str) -> (r: Vec<ServiceListing>)
    ensures
        r@.len() == openrc_rows(lines(output@)).len(),
        forall|i: int| 0 <= i < r@.len() ==> openrc_entry(#[trigger] r@[i], openrc_rows(lines(output@))[i]),
{
    let v = chars_of(output);
    let ls = split_lines(&v);
    let ghost all = lines(output@);
    let heading: [char; 9] = ['R', 'u', 'n', 'l', 'e', 'v', 'e', 'l', ':'];
    let started: [char; 7] = ['s', 't', 'a', 'r', 't', 'e', 'd'];
    proof {
        reveal_strlit("Runlevel:");
        reveal_strlit("started");
    }
    assert(heading@ == "Runlevel:"@);
    assert(started@ == "started"@);
    let mut r: Vec<ServiceListing> = Vec::new();
    let mut i: usize = 0;
    while i < ls.len()
        invariant
            i <= ls@.len(),
            views_of(ls@) == all,
            heading@ == "Runlevel:"@,
            started@ == "started"@,
            r@.len() == openrc_rows(all.take(i as int)).len(),
            forall|j: int| 0 <= j < r@.len() ==> openrc_entry(#[trigger] r@[j], openrc_rows(all.take(i as int))[j]),
        decreases ls.len() - i,
    {
        assert(all.take(i + 1).drop_last() == all.take(i as int));
        assert(all.take(i + 1).last() == ls@[i as int]@);
        let t = trim_chars(ls[i].as_slice());
        let ws = split_words(&t);
        if t.len() > 0 && !has_prefix(&t, &heading) && ws.len() > 0 {
            assert(views_of(ws@)[0] == ws@[0]@);
            let name = string_of_all(ws[0].as_slice());
            let status = if has_sub(&t, &started) {
                ServiceStatus::Active
            } else {
                ServiceStatus::Inactive
            };
            let mut path = "/etc/init.d/".to_owned();
            push_chars(&mut path, name.as_str());
            r.push(ServiceListing { name, status, unit_file_path: path });
        }
        i = i + 1;
    }
    assert(all.take(i as int) == all);
    r
}

/// The service an `/etc/init.d` entry named `name` stands for: none for a hidden
/// entry (its name starts with `.`); else its status unknown.
pub fn init_script_service(name: &str) -> (r: Option<ServiceListing>)
    ensures
        match r {
            Some(e) => !(name@.len() > 0 && name@[0] == '.') && e.name@ == name@
                && e.status == ServiceStatus::Unknown && e.unit_file_path@ == "/etc/init.d/"@ + name@,
            None => name@.len() > 0 && name@[0] == '.',
        },
{
    let v = chars_of(name);
    if v.len() > 0 && v[0] == '.' {
        return None;
    }
    let mut path = "/etc/init.d/".to_owned();
    push_chars(&mut path, name);
    Some(ServiceListing { name: name.to_owned(), status: ServiceStatus::Unknown, unit_file_path: path })
}

/// The service a runit service directory named `name` stands for, its status unknown.
pub fn runit_service(name: &str) -> (r: ServiceListing)
    ensures
        r.name@ == name@ && r.status == ServiceStatus::Unknown,
        r.unit_file_path@ == "/etc/sv/"@ + name@,
{
    let mut path = "/etc/sv/".to_owned();
    push_chars(&mut path, name);
    ServiceListing { name: name.to_owned(), status: ServiceStatus::Unknown, unit_file_path: path }
}

/// The counts of a list of services.
#[derive(Debug, Clone, Copy, PartialEq, Eq, Structural)]
pub struct ServiceCounts {
    pub total_services: usize,
    pub active_services: usize,
    pub failed_services: usize,
    pub enabled_services: usize,
    pub disabled_services: usize,
    pub total_memory_usage: u64,
}

/// How many of `s` are `v`.
pub open spec fn count_status(s: Seq<ServiceStatus>, v: ServiceStatus) -> nat
    decreases s.len(),
{
    if s.len() == 0 {
        0
    } else {
        count_status(s.drop_last(), v) + if s.last() == v {
            1nat
        } else {
            0nat
        }
    }
}

/// How many of `s` are `v`.
pub open spec fn count_state(s: Seq<ServiceState>, v: ServiceState) -> nat
    decreases s.len(),
{
    if s.len() == 0 {
        0
    } else {
        count_state(s.drop_last(), v) + if s.last() == v {
            1nat
        } else {
            0nat
        }
    }
}

/// The counts of the services whose statuses, boot states and memory use (in bytes)
/// are `statuses[i]`, `states[i]` and `memory[i]`: how many there are, are active, have
/// failed, are enabled, are disabled, and the memory they use together.
pub fn service_counts(statuses: &[ServiceStatus], states: &[ServiceState], memory: &[u64]) -> (r: ServiceCounts)
    requires
        states@.len() == statuses@.len(),
        memory@.len() == statuses@.len(),
        crate::monitor::security::sum_of(memory@) <= u64::MAX,
    ensures
        r.total_services == statuses@.len(),
        r.active_services == count_status(statuses@, ServiceStatus::Active),
        r.failed_services == count_status(statuses@, ServiceStatus::Failed),
        r.enabled_services == count_state(states@, ServiceState::Enabled),
        r.disabled_services == count_state(states@, ServiceState::Disabled),
        r.total_memory_usage == crate::monitor::security::sum_of(memory@),
{
    let n = statuses.len();
    let mut c = ServiceCounts {
        total_services: n,
        active_services: 0,
        failed_services: 0,
        enabled_services: 0,
        disabled_services: 0,
        total_memory_usage: 0,
    };
    let mut i: usize = 0;
    while i < n
        invariant
            n == statuses@.len() == states@.len() == memory@.len(),
            i <= n,
            c.total_services == n,
            c.active_services == count_status(statuses@.take(i as int), ServiceStatus::Active),
            c.failed_services == count_status(statuses@.take(i as int), ServiceStatus::Failed),
            c.enabled_services == count_state(states@.take(i as int), ServiceState::Enabled),
            c.disabled_services == count_state(states@.take(i as int), ServiceState::Disabled),
            c.active_services <= i && c.failed_services <= i && c.enabled_services <= i && c.disabled_services <= i,
            c.total_memory_usage == crate::monitor::security::sum_of(memory@.take(i as int)),
            crate::monitor::security::sum_of(memory@) <= u64::MAX,
        decreases n - i,
    {
        assert(statuses@.take(i + 1).drop_last() == statuses@.take(i as int));
        assert(states@.take(i + 1).drop_last() == states@.take(i as int));
        assert(memory@.take(i + 1).drop_last() == memory@.take(i as int));
        proof {
            crate::monitor::security::lemma_sum_prefix_le(memory@, i + 1);
        }
        if statuses[i] == ServiceStatus::Active {
            c.active_services = c.active_services + 1;
        } else if statuses[i] == ServiceStatus::Failed {
            c.failed_services = c.failed_services + 1;
        }
        if states[i] == ServiceState::Enabled {
            c.enabled_services = c.enabled_services + 1;
        } else if states[i] == ServiceState::Disabled {
            c.disabled_services = c.disabled_services + 1;
        }
        c.total_memory_usage = c.total_memory_usage + memory[i];
        i = i + 1;
    }
    assert(statuses@.take(n as int) == statuses@);
    assert(states@.take(n as int) == states@);
    assert(memory@.take(n as int) == memory@);
    c
}

} // verus!
