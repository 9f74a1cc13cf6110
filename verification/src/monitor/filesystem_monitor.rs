//! File-system watching: how serious a change is, which changes a rescan shows, and
//! the content hashes that reveal tampering.
use vstd::prelude::*;
use crate::monitor::export::{components_of, components_start_with, path_components, path_starts_with};
use crate::monitor::properties::opt_view;
use crate::text::{
    chars_of, contains, lower_text, to_lower, has_prefix, has_sub, push_char, push_chars, starts_with, str_eq, strings_of, str_views, views_of,
};
use crate::monitor::log_monitor::utc_seconds;
use crate::monitor::security::{push_signed64, utc_nanos};
use crate::monitor::system::signed_digits;

verus! {

/// What happened to a file.
#[derive(Debug, Clone, Copy, PartialEq, Eq, Structural)]
pub enum FsEventType {
    FileCreated,
    FileModified,
    FileDeleted,
    FileAccessed,
    PermissionChanged,
    OwnershipChanged,
    DirectoryCreated,
    DirectoryDeleted,
    SymlinkCreated,
    IntegrityViolation,
}

/// How serious a file-system event is.
#[derive(Debug, Clone, Copy, PartialEq, Eq, Structural)]
pub enum FsEventSeverity {
    Low,
    Medium,
    High,
    Critical,
}

/// What a file-system alert is about.
#[derive(Debug, Clone, Copy, PartialEq, Eq, Structural)]
pub enum FsAlertType {
    CriticalSystemFileModified,
    UnauthorizedAccess,
    SuspiciousFileCreation,
    IntegrityBreach,
    PermissionEscalation,
    SystemDirectoryTampering,
}

/// What is known of a file when an event is recorded.
#[derive(Debug, Clone)]
pub struct FsEventDetails {
    pub file_size: Option<u64>,
    pub permissions: Option<String>,
    pub owner: Option<String>,
    pub group: Option<String>,
    pub file_type: Option<String>,
    pub hash_changed: bool,
    pub previous_hash: Option<String>,
    pub current_hash: Option<String>,
}

/// What is watched, what matters most, and what is left alone.
#[derive(Debug, Clone)]
pub struct FileSystemMonitorConfig {
    pub watch_paths: Vec<String>,
    pub critical_paths: Vec<String>,
    pub excluded_paths: Vec<String>,
    pub check_integrity: bool,
    pub max_events: usize,
    pub scan_interval_seconds: u64,
}

/// The directories watched by default.
pub open spec fn default_watch_paths() -> Seq<Seq<char>> {
    seq![
        "/etc"@,
        "/bin"@,
        "/sbin"@,
        "/usr/bin"@,
        "/usr/sbin"@,
        "/lib"@,
        "/usr/lib"@,
        "/boot"@,
        "/var/log"@,
        "/home"@,
    ]
}

/// The files whose changes matter most by default.
pub open spec fn default_critical_paths() -> Seq<Seq<char>> {
    seq![
        "/etc/passwd"@,
        "/etc/shadow"@,
        "/etc/sudoers"@,
        "/etc/ssh/sshd_config"@,
        "/etc/hosts"@,
        "/etc/fstab"@,
        "/etc/crontab"@,
        "/boot/grub/grub.cfg"@,
        "/etc/systemd"@,
    ]
}

/// The trees left alone by default.
pub open spec fn default_excluded_paths() -> Seq<Seq<char>> {
    seq!["/proc"@, "/sys"@, "/dev"@, "/tmp"@, "/var/tmp"@, "/var/cache"@, "/var/run"@]
}

/// A list of owned strings from string slices.
fn owned_all(v: &[&str]) -> (r: Vec<String>)
    ensures
        r@.len() == v@.len(),
        forall|i: int| 0 <= i < v@.len() ==> #[trigger] r@[i]@ == v@[i]@,
{
    let mut r: Vec<String> = Vec::new();
    let mut i: usize = 0;
    while i < v.len()
        invariant
            i <= v@.len(),
            r@.len() == i,
            forall|j: int| 0 <= j < i ==> #[trigger] r@[j]@ == v@[j]@,
        decreases v.len() - i,
    {
        r.push(v[i].to_owned());
        i = i + 1;
    }
    r
}

/// The configuration by default: the system directories, with integrity checks, 1000
/// events, every five minutes.
pub open spec fn default_fs_config(r: FileSystemMonitorConfig) -> bool {
    &&& str_views(r.watch_paths@) == default_watch_paths()
    &&& str_views(r.critical_paths@) == default_critical_paths()
    &&& str_views(r.excluded_paths@) == default_excluded_paths()
    &&& r.check_integrity
    &&& r.max_events == 1000
    &&& r.scan_interval_seconds == 300
}

impl Default for FileSystemMonitorConfig {
    /// The system directories, with integrity checks, 1000 events, every five minutes.
    fn default() -> (r: Self)
        ensures
            default_fs_config(r),
    {
        let w = owned_all(
            &[
                "/etc",
                "/bin",
                "/sbin",
                "/usr/bin",
                "/usr/sbin",
                "/lib",
                "/usr/lib",
                "/boot",
                "/var/log",
                "/home",
            ],
        );
        let c = owned_all(
            &[
                "/etc/passwd",
                "/etc/shadow",
                "/etc/sudoers",
                "/etc/ssh/sshd_config",
                "/etc/hosts",
                "/etc/fstab",
                "/etc/crontab",
                "/boot/grub/grub.cfg",
                "/etc/systemd",
            ],
        );
        let e = owned_all(&["/proc", "/sys", "/dev", "/tmp", "/var/tmp", "/var/cache", "/var/run"]);
        assert(str_views(w@) =~= default_watch_paths());
        assert(str_views(c@) =~= default_critical_paths());
        assert(str_views(e@) =~= default_excluded_paths());
        FileSystemMonitorConfig {
            watch_paths: w,
            critical_paths: c,
            excluded_paths: e,
            check_integrity: true,
            max_events: 1000,
            scan_interval_seconds: 300,
        }
    }
}

/// Some path of `list` begins `path` component by component.
pub open spec fn under_any(path: Seq<char>, list: Seq<Seq<char>>) -> bool {
    exists|i: int| 0 <= i < list.len() && path_starts_with(path, #[trigger] list[i])
}

/// How serious an event on `path` is: under a critical path, Critical for deletions and
/// integrity breaks, High for modifications and permission changes, Medium otherwise;
/// under `/etc`, `/bin` or `/sbin` (a text prefix), one step lower; Low elsewhere.
pub open spec fn severity_of(critical: Seq<Seq<char>>, path: Seq<char>, e: FsEventType) -> FsEventSeverity {
    let severe = e == FsEventType::FileDeleted || e == FsEventType::IntegrityViolation;
    let changed = e == FsEventType::FileModified || e == FsEventType::PermissionChanged;
    if under_any(path, critical) {
        if severe {
            FsEventSeverity::Critical
        } else if changed {
            FsEventSeverity::High
        } else {
            FsEventSeverity::Medium
        }
    } else if starts_with(path, "/etc"@) || starts_with(path, "/bin"@) || starts_with(path, "/sbin"@) {
        if severe {
            FsEventSeverity::High
        } else if changed {
            FsEventSeverity::Medium
        } else {
            FsEventSeverity::Low
        }
    } else {
        FsEventSeverity::Low
    }
}

/// Whether `path` lies under one of `list` (see `under_any`).
fn lies_under(list: &Vec<String>, path: &str) -> (r: bool)
    ensures
        r == under_any(path@, str_views(list@)),
{
    let p = chars_of(path);
    let mut i: usize = 0;
    while i < list.len()
        invariant
            i <= list@.len(),
            p@ == path@,
            forall|j: int| 0 <= j < i ==> !path_starts_with(path@, #[trigger] str_views(list@)[j]),
        decreases list.len() - i,
    {
        let base = chars_of(list[i].as_str());
        if components_start_with(&p, &base) {
            assert(str_views(list@)[i as int] == list@[i as int]@);
            return true;
        }
        assert(str_views(list@)[i as int] == list@[i as int]@);
        i = i + 1;
    }
    false
}

impl FileSystemMonitorConfig {
    /// How serious an event on `path` is (see `severity_of`).
    pub fn determine_severity(&self, path: &str, event_type: &FsEventType) -> (r: FsEventSeverity)
        ensures
            r == severity_of(str_views(self.critical_paths@), path@, *event_type),
    {
        proof {
            reveal_strlit("/etc");
            reveal_strlit("/bin");
            reveal_strlit("/sbin");
        }
        let e = *event_type;
        let severe = e == FsEventType::FileDeleted || e == FsEventType::IntegrityViolation;
        let changed = e == FsEventType::FileModified || e == FsEventType::PermissionChanged;
        if lies_under(&self.critical_paths, path) {
            if severe {
                FsEventSeverity::Critical
            } else if changed {
                FsEventSeverity::High
            } else {
                FsEventSeverity::Medium
            }
        } else {
            let p = chars_of(path);
            let etc = chars_of("/etc");
            let bin = chars_of("/bin");
            let sbin = chars_of("/sbin");
            if has_prefix(&p, &etc) || has_prefix(&p, &bin) || has_prefix(&p, &sbin) {
                if severe {
                    FsEventSeverity::High
                } else if changed {
                    FsEventSeverity::Medium
                } else {
                    FsEventSeverity::Low
                }
            } else {
                FsEventSeverity::Low
            }
        }
    }

    /// Whether `path` lies in an excluded tree.
    pub fn is_excluded_path(&self, path: &str) -> (r: bool)
        ensures
            r == under_any(path@, str_views(self.excluded_paths@)),
    {
        lies_under(&self.excluded_paths, path)
    }

    /// Whether a scan descends into `path`: fewer than ten components deep and not
    /// excluded.
    pub fn should_recurse(&self, path: &str) -> (r: bool)
        ensures
            r == (path_components(path@).len() < 10 && !under_any(path@, str_views(self.excluded_paths@))),
    {
        let p = chars_of(path);
        let comps = components_of(&p);
        assert(views_of(comps@).len() == comps@.len());
        comps.len() < 10 && !self.is_excluded_path(path)
    }
}

/// What a scan knows of a file, for comparing one scan with the next.
#[derive(Debug, Clone)]
pub struct FileFacts {
    pub size: u64,
    pub permissions: String,
    pub owner: Option<String>,
    pub group: Option<String>,
    pub hash: Option<String>,
}

/// The events a rescan shows for a file, in order: a modification when its time stamp
/// (`same_mtime` false) or size changed, a permission change, an ownership change, and
/// an integrity violation when both scans hashed it and the hashes differ.
pub open spec fn changes_between(prev: FileFacts, cur: FileFacts, same_mtime: bool) -> Seq<FsEventType> {
    let m = if !same_mtime || prev.size != cur.size {
        seq![FsEventType::FileModified]
    } else {
        Seq::empty()
    };
    let p = if prev.permissions@ != cur.permissions@ {
        seq![FsEventType::PermissionChanged]
    } else {
        Seq::empty()
    };
    let o = if opt_view(prev.owner) != opt_view(cur.owner) || opt_view(prev.group) != opt_view(
        cur.group,
    ) {
        seq![FsEventType::OwnershipChanged]
    } else {
        Seq::empty()
    };
    let h = match (prev.hash, cur.hash) {
        (Some(a), Some(b)) => if a@ != b@ {
            seq![FsEventType::IntegrityViolation]
        } else {
            Seq::empty()
        },
        _ => Seq::empty(),
    };
    m + p + o + h
}

/// Whether two optional strings hold the same text.
fn opt_eq(a: &Option<String>, b: &Option<String>) -> (r: bool)
    ensures
        r == (opt_view(*a) == opt_view(*b)),
{
    match (a, b) {
        (Some(x), Some(y)) => str_eq(x.as_str(), y.as_str()),
        (None, None) => true,
        _ => false,
    }
}

/// The events a rescan shows for a file (see `changes_between`).
pub fn detect_changes(prev: &FileFacts, cur: &FileFacts, same_mtime: bool) -> (r: Vec<FsEventType>)
    ensures
        r@ == changes_between(*prev, *cur, same_mtime),
{
    let mut r: Vec<FsEventType> = Vec::new();
    if !same_mtime || prev.size != cur.size {
        r.push(FsEventType::FileModified);
    }
    let ghost m = r@;
    if !str_eq(prev.permissions.as_str(), cur.permissions.as_str()) {
        r.push(FsEventType::PermissionChanged);
    }
    let ghost mp = r@;
    if !opt_eq(&prev.owner, &cur.owner) || !opt_eq(&prev.group, &cur.group) {
        r.push(FsEventType::OwnershipChanged);
    }
    let ghost mpo = r@;
    match (&prev.hash, &cur.hash) {
        (Some(a), Some(b)) => {
            if !str_eq(a.as_str(), b.as_str()) {
                r.push(FsEventType::IntegrityViolation);
            }
        },
        _ => {},
    }
    assert(r@ =~= changes_between(*prev, *cur, same_mtime));
    r
}

/// The MD5 digest of `data`, as the md5 crate computes it.
pub uninterp spec fn md5_of(data: Seq<u8>) -> Seq<u8>;

/// The MD5 digest of `data` (md5 `compute`). Claimed: the 16 bytes are `md5_of` the
/// data; the digest algorithm itself is left unstated.
#[verifier::external_body]
fn md5_digest(data: &[u8]) -> (r: [u8; 16])
    ensures
        r@ == md5_of(data@),
{
    md5::compute(data).0
}

/// The lower-case hexadecimal digit of `d` (below 16).
pub open spec fn hex_digit(d: nat) -> char {
    if d < 10 {
        ((d + 48) as u8) as char
    } else {
        ((d + 87) as u8) as char
    }
}

/// Each byte of `b` as two lower-case hexadecimal digits (as `{:02x}` prints it).
pub open spec fn hex_bytes(b: Seq<u8>) -> Seq<char>
    decreases b.len(),
{
    if b.len() == 0 {
        Seq::empty()
    } else {
        hex_bytes(b.drop_last()) + seq![hex_digit((b.last() / 16) as nat), hex_digit((b.last() % 16) as nat)]
    }
}

/// The character of the hexadecimal digit `d`.
fn hex_char_of(d: u8) -> (c: char)
    requires
        d < 16,
    ensures
        c == hex_digit(d as nat),
{
    if d < 10 {
        (d + 48u8) as char
    } else {
        (d + 87u8) as char
    }
}

/// The bytes of `b` in lower-case hexadecimal, two digits each.
pub fn hex_of(b: &[u8]) -> (r: String)
    ensures
        r@ == hex_bytes(b@),
{
    let mut r = String::new();
    let mut i: usize = 0;
    while i < b.len()
        invariant
            i <= b@.len(),
            r@ == hex_bytes(b@.take(i as int)),
        decreases b.len() - i,
    {
        assert(b@.take(i + 1).drop_last() == b@.take(i as int));
        let x = b[i];
        push_char(&mut r, hex_char_of(x / 16));
        push_char(&mut r, hex_char_of(x % 16));
        i = i + 1;
    }
    assert(b@.take(i as int) == b@);
    r
}

/// The content hash of a file: the MD5 digest of its bytes in lower-case hexadecimal.
pub fn calculate_file_hash(contents: &[u8]) -> (r: String)
    ensures
        r@ == hex_bytes(md5_of(contents@)),
{
    let d = md5_digest(contents);
    hex_of(&d)
}

/// What a scan reads of a file.
#[derive(Debug, Clone)]
pub struct FileMetadata {
    pub path: String,
    pub size: u64,
    /// Modification time, nanoseconds since the epoch (negative before it).
    pub modified: i128,
    pub permissions: String,
    pub owner: Option<String>,
    pub group: Option<String>,
    pub file_type: String,
    pub hash: Option<String>,
    /// When it was read, seconds since the epoch, UTC.
    pub last_checked: i64,
}

impl From<FileMetadata> for FsEventDetails {
    /// What an event records of a file: its size, permissions, owner, group, type and
    /// hash, with no hash change.
    fn from(m: FileMetadata) -> (r: Self) {
        FsEventDetails {
            file_size: Some(m.size),
            permissions: Some(m.permissions),
            owner: m.owner,
            group: m.group,
            file_type: Some(m.file_type),
            hash_changed: false,
            previous_hash: None,
            current_hash: m.hash,
        }
    }
}

impl vstd::std_specs::convert::FromSpecImpl<FileMetadata> for FsEventDetails {
    open spec fn obeys_from_spec() -> bool {
        true
    }

    open spec fn from_spec(m: FileMetadata) -> FsEventDetails {
        FsEventDetails {
            file_size: Some(m.size),
            permissions: Some(m.permissions),
            owner: m.owner,
            group: m.group,
            file_type: Some(m.file_type),
            hash_changed: false,
            previous_hash: None,
            current_hash: m.hash,
        }
    }
}

/// Something that happened to a watched file.
#[derive(Debug, Clone)]
pub struct FileSystemEvent {
    pub id: String,
    /// When it was recorded, seconds since the epoch, UTC.
    pub timestamp: i64,
    pub event_type: FsEventType,
    pub path: String,
    pub details: FsEventDetails,
    pub severity: FsEventSeverity,
}

/// An alert about a watched file.
#[derive(Debug, Clone)]
pub struct FileSystemAlert {
    pub id: String,
    /// When it was raised, seconds since the epoch, UTC.
    pub timestamp: i64,
    pub alert_type: FsAlertType,
    pub severity: FsEventSeverity,
    pub message: String,
    pub affected_path: String,
    pub event_details: FsEventDetails,
}

/// The watched files as last read, the events and alerts recorded, and the time of the
/// last scan.
pub struct FileSystemMonitor {
    pub config: FileSystemMonitorConfig,
    /// The latest record for a path counts.
    pub file_metadata: Vec<FileMetadata>,
    pub events: Vec<FileSystemEvent>,
    pub alerts: Vec<FileSystemAlert>,
    /// Seconds since the epoch, UTC.
    pub last_scan: i64,
}

/// Event details as plain values: size, permissions, owner, group, file type, whether the
/// hash changed, previous hash, current hash.
pub type DetailsView = (
    Option<u64>,
    Option<Seq<char>>,
    Option<Seq<char>>,
    Option<Seq<char>>,
    Option<Seq<char>>,
    bool,
    Option<Seq<char>>,
    Option<Seq<char>>,
);

/// The details `d` as plain values.
pub open spec fn details_view(d: FsEventDetails) -> DetailsView {
    (
        d.file_size,
        opt_view(d.permissions),
        opt_view(d.owner),
        opt_view(d.group),
        opt_view(d.file_type),
        d.hash_changed,
        opt_view(d.previous_hash),
        opt_view(d.current_hash),
    )
}

/// What an event says, its identifier and time aside: type, path, details, severity.
pub type EventFacts = (FsEventType, Seq<char>, DetailsView, FsEventSeverity);

/// What an alert says, its identifier and time aside: type, severity, message, path,
/// details.
pub type FsAlertFacts = (FsAlertType, FsEventSeverity, Seq<char>, Seq<char>, DetailsView);

/// What the event `e` says.
pub open spec fn event_facts(e: FileSystemEvent) -> EventFacts {
    (e.event_type, e.path@, details_view(e.details), e.severity)
}

/// What the alert `a` says.
pub open spec fn fs_alert_facts(a: FileSystemAlert) -> FsAlertFacts {
    (a.alert_type, a.severity, a.message@, a.affected_path@, details_view(a.event_details))
}

/// What each event of `es` says, in order.
pub open spec fn events_facts(es: Seq<FileSystemEvent>) -> Seq<EventFacts> {
    Seq::new(es.len(), |i: int| event_facts(es[i]))
}

/// What each alert of `als` says, in order.
pub open spec fn fs_alerts_facts(als: Seq<FileSystemAlert>) -> Seq<FsAlertFacts> {
    Seq::new(als.len(), |i: int| fs_alert_facts(als[i]))
}

/// `s` with `x` added at the end, less its first item when that makes it longer than
/// `max`.
pub open spec fn trimmed_push<T>(s: Seq<T>, x: T, max: nat) -> Seq<T> {
    if s.len() + 1 > max {
        s.push(x).drop_first()
    } else {
        s.push(x)
    }
}

/// An event identifier: `fs-event-` and a number (the clock's, in nanoseconds).
pub open spec fn fs_event_id(id: Seq<char>) -> bool {
    exists|n: i64| id == "fs-event-"@ + signed_digits(n as int)
}

/// An alert identifier: `fs-alert-` and a number (the clock's, in nanoseconds).
pub open spec fn fs_alert_id(id: Seq<char>) -> bool {
    exists|n: i64| id == "fs-alert-"@ + signed_digits(n as int)
}

/// The text that `{:?}` writes for a path.
pub uninterp spec fn path_debug(path: Seq<char>) -> Seq<char>;

/// A path as `{:?}` writes a `std::path::Path` (std `Debug`). Claimed: the text is
/// `path_debug` of the path; the quoting and escaping themselves are left unstated.
#[verifier::external_body]
fn path_debug_text(path: &str) -> (r: String)
    ensures
        r@ == path_debug(path@),
{
    format!("{:?}", std::path::Path::new(path))
}

/// The name of an event type, as `{:?}` writes it.
pub open spec fn fs_event_name(t: FsEventType) -> Seq<char> {
    match t {
        FsEventType::FileCreated => "FileCreated"@,
        FsEventType::FileModified => "FileModified"@,
        FsEventType::FileDeleted => "FileDeleted"@,
        FsEventType::FileAccessed => "FileAccessed"@,
        FsEventType::PermissionChanged => "PermissionChanged"@,
        FsEventType::OwnershipChanged => "OwnershipChanged"@,
        FsEventType::DirectoryCreated => "DirectoryCreated"@,
        FsEventType::DirectoryDeleted => "DirectoryDeleted"@,
        FsEventType::SymlinkCreated => "SymlinkCreated"@,
        FsEventType::IntegrityViolation => "IntegrityViolation"@,
    }
}

/// The name of an event type (see `fs_event_name`).
fn fs_event_text(t: FsEventType) -> (r: String)
    ensures
        r@ == fs_event_name(t),
{
    match t {
        FsEventType::FileCreated => "FileCreated".to_owned(),
        FsEventType::FileModified => "FileModified".to_owned(),
        FsEventType::FileDeleted => "FileDeleted".to_owned(),
        FsEventType::FileAccessed => "FileAccessed".to_owned(),
        FsEventType::PermissionChanged => "PermissionChanged".to_owned(),
        FsEventType::OwnershipChanged => "OwnershipChanged".to_owned(),
        FsEventType::DirectoryCreated => "DirectoryCreated".to_owned(),
        FsEventType::DirectoryDeleted => "DirectoryDeleted".to_owned(),
        FsEventType::SymlinkCreated => "SymlinkCreated".to_owned(),
        FsEventType::IntegrityViolation => "IntegrityViolation".to_owned(),
    }
}

/// The kind of alert a severe event on `path` raises: a critical path given exactly,
/// then a path mentioning `/etc`, `/bin` or `/sbin`, then anything else.
pub open spec fn fs_alert_kind(critical: Seq<Seq<char>>, path: Seq<char>) -> FsAlertType {
    if critical.contains(path) {
        FsAlertType::CriticalSystemFileModified
    } else if contains(path, "/etc"@) || contains(path, "/bin"@) || contains(path, "/sbin"@) {
        FsAlertType::SystemDirectoryTampering
    } else {
        FsAlertType::SuspiciousFileCreation
    }
}

/// The alert a High or Critical event raises.
pub open spec fn severe_event_alert(critical: Seq<Seq<char>>, ev: EventFacts) -> FsAlertFacts {
    (
        fs_alert_kind(critical, ev.1),
        ev.3,
        "High-severity filesystem event: "@ + fs_event_name(ev.0) + " on "@ + path_debug(ev.1),
        ev.1,
        ev.2,
    )
}

/// Whether a severity calls for an alert.
pub open spec fn is_severe(s: FsEventSeverity) -> bool {
    s == FsEventSeverity::High || s == FsEventSeverity::Critical
}

/// The alerts `fin` are `old` followed by new ones with alert identifiers.
pub open spec fn fs_alerts_extend(fin: Seq<FileSystemAlert>, old: Seq<FileSystemAlert>) -> bool {
    &&& old.len() <= fin.len()
    &&& forall|k: int| 0 <= k < old.len() ==> #[trigger] fin[k] == old[k]
    &&& forall|k: int| old.len() <= k < fin.len() ==> fs_alert_id((#[trigger] fin[k]).id@)
}

/// Every event of `fin` is one of `old` or a new one with an event identifier.
pub open spec fn fs_events_from(fin: Seq<FileSystemEvent>, old: Seq<FileSystemEvent>) -> bool {
    forall|k: int| 0 <= k < fin.len() ==> old.contains(#[trigger] fin[k]) || fs_event_id(fin[k].id@)
}

/// A copy of an optional string.
fn copy_opt(o: &Option<String>) -> (r: Option<String>)
    ensures
        opt_view(r) == opt_view(*o),
{
    match o {
        Some(s) => Some(s.clone()),
        None => None,
    }
}

/// A copy of event details.
fn copy_details(d: &FsEventDetails) -> (r: FsEventDetails)
    ensures
        details_view(r) == details_view(*d),
{
    FsEventDetails {
        file_size: d.file_size,
        permissions: copy_opt(&d.permissions),
        owner: copy_opt(&d.owner),
        group: copy_opt(&d.group),
        file_type: copy_opt(&d.file_type),
        hash_changed: d.hash_changed,
        previous_hash: copy_opt(&d.previous_hash),
        current_hash: copy_opt(&d.current_hash),
    }
}

/// Whether `critical` holds `path` exactly.
fn lists_exactly(critical: &Vec<String>, path: &str) -> (r: bool)
    ensures
        r == str_views(critical@).contains(path@),
{
    let mut i: usize = 0;
    while i < critical.len()
        invariant
            i <= critical@.len(),
            forall|j: int| 0 <= j < i ==> (#[trigger] str_views(critical@)[j]) != path@,
        decreases critical.len() - i,
    {
        assert(str_views(critical@)[i as int] == critical@[i as int]@);
        if str_eq(critical[i].as_str(), path) {
            return true;
        }
        i = i + 1;
    }
    false
}

/// Whether `needle` occurs in `text`.
fn mentions_text(text: &str, needle: &str) -> (r: bool)
    ensures
        r == contains(text@, needle@),
{
    let t = chars_of(text);
    let n = chars_of(needle);
    has_sub(&t, &n)
}

impl FileSystemMonitor {
    /// Records an alert, with an identifier and time taken from the clock.
    pub fn create_alert(
        &mut self,
        alert_type: FsAlertType,
        severity: FsEventSeverity,
        message: String,
        affected_path: String,
        event_details: FsEventDetails,
    )
        ensures
            exists|a: FileSystemAlert|
                fs_alert_facts(a) == (alert_type, severity, message@, affected_path@, details_view(
                    event_details,
                )) && fs_alert_id(a.id@) && final(self).alerts@ == old(self).alerts@.push(a),
            final(self).config == old(self).config,
            final(self).file_metadata == old(self).file_metadata,
            final(self).events == old(self).events,
            final(self).last_scan == old(self).last_scan,
    {
        let n = match utc_nanos() {
            Some(x) => x,
            None => 0,
        };
        let mut id = "fs-alert-".to_owned();
        push_signed64(&mut id, n);
        assert(fs_alert_id(id@)) by {
            assert(id@ == "fs-alert-"@ + signed_digits(n as int));
        }
        let alert = FileSystemAlert {
            id,
            timestamp: utc_seconds(),
            alert_type,
            severity,
            message,
            affected_path,
            event_details,
        };
        let ghost a = alert;
        self.alerts.push(alert);
        assert(fs_alert_facts(a) == (alert_type, severity, message@, affected_path@, details_view(event_details)));
        assert(fs_alert_id(a.id@));
    }

    /// Records an event, with an identifier and time taken from the clock; a High or
    /// Critical one also raises an alert (see `severe_event_alert`); the oldest event
    /// goes when there are more than `max_events`.
    pub fn create_event(
        &mut self,
        event_type: FsEventType,
        path: String,
        details: FsEventDetails,
        severity: FsEventSeverity,
    )
        ensures
            exists|e: FileSystemEvent|
                event_facts(e) == (event_type, path@, details_view(details), severity) && fs_event_id(
                    e.id@,
                ) && final(self).events@ == #[trigger] trimmed_push(
                    old(self).events@,
                    e,
                    old(self).config.max_events as nat,
                ),
            is_severe(severity) ==> exists|a: FileSystemAlert|
                fs_alert_facts(a) == severe_event_alert(
                    str_views(old(self).config.critical_paths@),
                    (event_type, path@, details_view(details), severity),
                ) && fs_alert_id(a.id@) && final(self).alerts@ == old(self).alerts@.push(a),
            !is_severe(severity) ==> final(self).alerts == old(self).alerts,
            final(self).config == old(self).config,
            final(self).file_metadata == old(self).file_metadata,
            final(self).last_scan == old(self).last_scan,
    {
        let n = match utc_nanos() {
            Some(x) => x,
            None => 0,
        };
        let mut id = "fs-event-".to_owned();
        push_signed64(&mut id, n);
        assert(fs_event_id(id@)) by {
            assert(id@ == "fs-event-"@ + signed_digits(n as int));
        }
        let severe = severity == FsEventSeverity::High || severity == FsEventSeverity::Critical;
        let mut message = String::new();
        let mut alert_type = FsAlertType::SuspiciousFileCreation;
        if severe {
            proof {
                reveal_strlit("/etc");
                reveal_strlit("/bin");
                reveal_strlit("/sbin");
            }
            alert_type = if lists_exactly(&self.config.critical_paths, path.as_str()) {
                FsAlertType::CriticalSystemFileModified
            } else if mentions_text(path.as_str(), "/etc") || mentions_text(path.as_str(), "/bin")
                || mentions_text(path.as_str(), "/sbin") {
                FsAlertType::SystemDirectoryTampering
            } else {
                FsAlertType::SuspiciousFileCreation
            };
            message = "High-severity filesystem event: ".to_owned();
            let name = fs_event_text(event_type);
            push_chars(&mut message, name.as_str());
            push_chars(&mut message, " on ");
            let shown = path_debug_text(path.as_str());
            push_chars(&mut message, shown.as_str());
        }
        let event = FileSystemEvent {
            id,
            timestamp: utc_seconds(),
            event_type,
            path: path.clone(),
            details: copy_details(&details),
            severity,
        };
        let ghost e = event;
        let ghost before = self.events@;
        self.events.push(event);
        if severe {
            self.create_alert(alert_type, severity, message, path, details);
        }
        if self.events.len() > self.config.max_events {
            self.events.remove(0);
            assert(self.events@ =~= before.push(e).drop_first());
        }
        assert(event_facts(e) == (event_type, path@, details_view(details), severity));
        assert(fs_event_id(e.id@));
        assert(self.events@ == trimmed_push(before, e, self.config.max_events as nat));
    }
}

/// What an event records of the file `m` (as `FsEventDetails::from`).
pub open spec fn metadata_details(m: FileMetadata) -> DetailsView {
    (
        Some(m.size),
        Some(m.permissions@),
        opt_view(m.owner),
        opt_view(m.group),
        Some(m.file_type@),
        false,
        None,
        opt_view(m.hash),
    )
}

/// What an integrity event records of the file `cur`, whose hash was `prev_hash`.
pub open spec fn integrity_details(cur: FileMetadata, prev_hash: Seq<char>) -> DetailsView {
    (
        Some(cur.size),
        Some(cur.permissions@),
        opt_view(cur.owner),
        opt_view(cur.group),
        Some(cur.file_type@),
        true,
        Some(prev_hash),
        opt_view(cur.hash),
    )
}

/// Both scans hashed the file and the hashes differ.
pub open spec fn hash_broken(prev: FileMetadata, cur: FileMetadata) -> bool {
    &&& prev.hash is Some
    &&& cur.hash is Some
    &&& prev.hash->0@ != cur.hash->0@
}

/// The events a rescan records for a file, in order: a modification when its time or
/// size changed, a permission change, an ownership change (each as serious as
/// `severity_of` says), and a High integrity violation when the hashes differ.
pub open spec fn change_events(prev: FileMetadata, cur: FileMetadata, critical: Seq<Seq<char>>) -> Seq<EventFacts> {
    let p = cur.path@;
    let d = metadata_details(cur);
    let m = if prev.modified != cur.modified || prev.size != cur.size {
        seq![(FsEventType::FileModified, p, d, severity_of(critical, p, FsEventType::FileModified))]
    } else {
        Seq::empty()
    };
    let pm = if prev.permissions@ != cur.permissions@ {
        seq![(FsEventType::PermissionChanged, p, d, severity_of(critical, p, FsEventType::PermissionChanged))]
    } else {
        Seq::empty()
    };
    let o = if opt_view(prev.owner) != opt_view(cur.owner) || opt_view(prev.group) != opt_view(cur.group) {
        seq![(FsEventType::OwnershipChanged, p, d, severity_of(critical, p, FsEventType::OwnershipChanged))]
    } else {
        Seq::empty()
    };
    let h = if hash_broken(prev, cur) {
        seq![(FsEventType::IntegrityViolation, p, integrity_details(cur, prev.hash->0@), FsEventSeverity::High)]
    } else {
        Seq::empty()
    };
    m + pm + o + h
}

/// Some event of `ev` is of the kind `k`.
pub open spec fn raises(ev: Seq<EventFacts>, k: FsEventType) -> bool {
    exists|i: int| 0 <= i < ev.len() && (#[trigger] ev[i]).0 == k
}

/// A rescan records events for the rescanned file only, at most one of each kind, and
/// each kind exactly when its reason holds: a modification when the time stamp or the
/// size changed, a permission change when the permissions changed, an ownership change
/// when the owner or the group changed, and an integrity violation when both scans
/// hashed the file and the hashes differ.
pub proof fn lemma_change_events_reasons(prev: FileMetadata, cur: FileMetadata, critical: Seq<Seq<char>>)
    ensures
        ({
            let ev = change_events(prev, cur, critical);
            &&& ev.len() <= 4
            &&& forall|i: int| 0 <= i < ev.len() ==> (#[trigger] ev[i]).1 == cur.path@
            &&& raises(ev, FsEventType::FileModified) <==> (prev.modified != cur.modified || prev.size != cur.size)
            &&& raises(ev, FsEventType::PermissionChanged) <==> prev.permissions@ != cur.permissions@
            &&& raises(ev, FsEventType::OwnershipChanged) <==> (opt_view(prev.owner) != opt_view(cur.owner)
                || opt_view(prev.group) != opt_view(cur.group))
            &&& raises(ev, FsEventType::IntegrityViolation) <==> (prev.hash is Some && cur.hash is Some
                && prev.hash->0@ != cur.hash->0@)
        }),
{
    let ev = change_events(prev, cur, critical);
    let cm = prev.modified != cur.modified || prev.size != cur.size;
    let cp = prev.permissions@ != cur.permissions@;
    let co = opt_view(prev.owner) != opt_view(cur.owner) || opt_view(prev.group) != opt_view(cur.group);
    let ch = prev.hash is Some && cur.hash is Some && prev.hash->0@ != cur.hash->0@;
    let nm: int = if cm { 1 } else { 0 };
    let np: int = if cp { 1 } else { 0 };
    let no: int = if co { 1 } else { 0 };
    let nh: int = if ch { 1 } else { 0 };
    assert(ev.len() == nm + np + no + nh);
    assert forall|i: int| 0 <= i < ev.len() implies {
        &&& (#[trigger] ev[i]).1 == cur.path@
        &&& (i < nm ==> ev[i].0 == FsEventType::FileModified)
        &&& (nm <= i < nm + np ==> ev[i].0 == FsEventType::PermissionChanged)
        &&& (nm + np <= i < nm + np + no ==> ev[i].0 == FsEventType::OwnershipChanged)
        &&& (nm + np + no <= i ==> ev[i].0 == FsEventType::IntegrityViolation)
    } by {}
    if cm {
        assert(ev[0].0 == FsEventType::FileModified);
    }
    if cp {
        assert(ev[nm].0 == FsEventType::PermissionChanged);
    }
    if co {
        assert(ev[nm + np].0 == FsEventType::OwnershipChanged);
    }
    if ch {
        assert(ev[nm + np + no].0 == FsEventType::IntegrityViolation);
    }
}

/// The alert an integrity violation raises besides the event's own.
pub open spec fn breach_alert(cur: FileMetadata) -> FsAlertFacts {
    (
        FsAlertType::IntegrityBreach,
        FsEventSeverity::High,
        "File integrity violation detected: "@ + path_debug(cur.path@),
        cur.path@,
        metadata_details(cur),
    )
}

/// The events after each of `new` is recorded in turn (see `create_event`).
pub open spec fn events_with(evs: Seq<EventFacts>, new: Seq<EventFacts>, max: nat) -> Seq<EventFacts>
    decreases new.len(),
{
    if new.len() == 0 {
        evs
    } else {
        trimmed_push(events_with(evs, new.drop_last(), max), new.last(), max)
    }
}

/// The alerts after each of `new` is recorded in turn: one for each High or Critical
/// event (see `severe_event_alert`).
pub open spec fn alerts_with(als: Seq<FsAlertFacts>, new: Seq<EventFacts>, critical: Seq<Seq<char>>) -> Seq<FsAlertFacts>
    decreases new.len(),
{
    if new.len() == 0 {
        als
    } else {
        let before = alerts_with(als, new.drop_last(), critical);
        if is_severe(new.last().3) {
            before.push(severe_event_alert(critical, new.last()))
        } else {
            before
        }
    }
}

proof fn lemma_facts_trimmed_push(s: Seq<FileSystemEvent>, e: FileSystemEvent, max: nat)
    ensures
        events_facts(trimmed_push(s, e, max)) == trimmed_push(events_facts(s), event_facts(e), max),
{
    assert(events_facts(s.push(e)) =~= events_facts(s).push(event_facts(e)));
    if s.len() + 1 > max {
        assert(events_facts(s.push(e).drop_first()) =~= events_facts(s.push(e)).drop_first());
    }
}

proof fn lemma_events_from_trans(fin: Seq<FileSystemEvent>, mid: Seq<FileSystemEvent>, old: Seq<FileSystemEvent>)
    requires
        fs_events_from(fin, mid),
        fs_events_from(mid, old),
    ensures
        fs_events_from(fin, old),
{
    assert forall|k: int| 0 <= k < fin.len() implies old.contains(#[trigger] fin[k]) || fs_event_id(fin[k].id@) by {
        if mid.contains(fin[k]) {
            let j = choose|j: int| 0 <= j < mid.len() && mid[j] == fin[k];
            assert(old.contains(mid[j]) || fs_event_id(mid[j].id@));
        }
    }
}

proof fn lemma_events_from_push(s: Seq<FileSystemEvent>, e: FileSystemEvent, max: nat)
    requires
        fs_event_id(e.id@),
    ensures
        fs_events_from(trimmed_push(s, e, max), s),
{
    let r = trimmed_push(s, e, max);
    assert forall|k: int| 0 <= k < r.len() implies s.contains(#[trigger] r[k]) || fs_event_id(r[k].id@) by {
        let j = if s.len() + 1 > max { k + 1 } else { k };
        assert(r[k] == s.push(e)[j]);
        if j < s.len() {
            assert(s[j] == r[k]);
        }
    }
}

proof fn lemma_alerts_extend_trans(fin: Seq<FileSystemAlert>, mid: Seq<FileSystemAlert>, old: Seq<FileSystemAlert>)
    requires
        fs_alerts_extend(fin, mid),
        fs_alerts_extend(mid, old),
    ensures
        fs_alerts_extend(fin, old),
{
    assert forall|k: int| old.len() <= k < fin.len() implies fs_alert_id((#[trigger] fin[k]).id@) by {
        if k < mid.len() {
            assert(fin[k] == mid[k]);
        }
    }
    assert forall|k: int| 0 <= k < old.len() implies #[trigger] fin[k] == old[k] by {
        assert(fin[k] == mid[k]);
    }
}

/// What an event records of the file `m` (see `metadata_details`).
fn details_of(m: &FileMetadata) -> (r: FsEventDetails)
    ensures
        details_view(r) == metadata_details(*m),
{
    FsEventDetails {
        file_size: Some(m.size),
        permissions: Some(m.permissions.clone()),
        owner: copy_opt(&m.owner),
        group: copy_opt(&m.group),
        file_type: Some(m.file_type.clone()),
        hash_changed: false,
        previous_hash: None,
        current_hash: copy_opt(&m.hash),
    }
}

impl FileSystemMonitor {
    /// Records an event (see `create_event`), stated over what the events and alerts say.
    fn push_event(&mut self, event_type: FsEventType, path: String, details: FsEventDetails, severity: FsEventSeverity)
        ensures
            events_facts(final(self).events@) == trimmed_push(
                events_facts(old(self).events@),
                (event_type, path@, details_view(details), severity),
                old(self).config.max_events as nat,
            ),
            fs_alerts_facts(final(self).alerts@) == if is_severe(severity) {
                fs_alerts_facts(old(self).alerts@).push(
                    severe_event_alert(
                        str_views(old(self).config.critical_paths@),
                        (event_type, path@, details_view(details), severity),
                    ),
                )
            } else {
                fs_alerts_facts(old(self).alerts@)
            },
            fs_events_from(final(self).events@, old(self).events@),
            fs_alerts_extend(final(self).alerts@, old(self).alerts@),
            final(self).config == old(self).config,
            final(self).file_metadata == old(self).file_metadata,
            final(self).last_scan == old(self).last_scan,
    {
        let ghost ev = (event_type, path@, details_view(details), severity);
        let ghost crit = str_views(self.config.critical_paths@);
        let ghost es0 = self.events@;
        let ghost as0 = self.alerts@;
        self.create_event(event_type, path, details, severity);
        proof {
            let e = choose|e: FileSystemEvent|
                event_facts(e) == ev && fs_event_id(e.id@) && self.events@ == #[trigger] trimmed_push(
                    es0,
                    e,
                    self.config.max_events as nat,
                );
            lemma_facts_trimmed_push(es0, e, self.config.max_events as nat);
            lemma_events_from_push(es0, e, self.config.max_events as nat);
            if is_severe(severity) {
                let a = choose|a: FileSystemAlert|
                    fs_alert_facts(a) == severe_event_alert(crit, ev) && fs_alert_id(a.id@) && self.alerts@
                        == as0.push(a);
                assert(fs_alerts_facts(self.alerts@) =~= fs_alerts_facts(as0).push(fs_alert_facts(a)));
            }
        }
    }

    /// Records what a rescan shows of a file (see `change_events`), and for a broken
    /// hash also a High integrity-breach alert (see `breach_alert`).
    pub fn compare_and_generate_events(&mut self, previous: &FileMetadata, current: &FileMetadata)
        ensures
            ({
                let crit = str_views(old(self).config.critical_paths@);
                let new = change_events(*previous, *current, crit);
                &&& events_facts(final(self).events@) == events_with(
                    events_facts(old(self).events@),
                    new,
                    old(self).config.max_events as nat,
                )
                &&& fs_alerts_facts(final(self).alerts@) == alerts_with(fs_alerts_facts(old(self).alerts@), new, crit)
                    + if hash_broken(*previous, *current) {
                    seq![breach_alert(*current)]
                } else {
                    Seq::empty()
                }
            }),
            fs_events_from(final(self).events@, old(self).events@),
            fs_alerts_extend(final(self).alerts@, old(self).alerts@),
            final(self).config == old(self).config,
            final(self).file_metadata == old(self).file_metadata,
            final(self).last_scan == old(self).last_scan,
    {
        let ghost crit = str_views(self.config.critical_paths@);
        let ghost max = self.config.max_events as nat;
        let ghost e0 = events_facts(self.events@);
        let ghost a0 = fs_alerts_facts(self.alerts@);
        let ghost es0 = self.events@;
        let ghost as0 = self.alerts@;
        let ghost mut planned: Seq<EventFacts> = Seq::empty();
        let ghost p = current.path@;
        let ghost d = metadata_details(*current);
        assert(events_with(e0, planned, max) == e0);
        assert(alerts_with(a0, planned, crit) == a0);
        if previous.modified != current.modified || previous.size != current.size {
            let sev = self.config.determine_severity(current.path.as_str(), &FsEventType::FileModified);
            let ghost mid = self.events@;
            let ghost amid = self.alerts@;
            self.push_event(FsEventType::FileModified, current.path.clone(), details_of(current), sev);
            proof {
                lemma_events_from_trans(self.events@, mid, es0);
                lemma_alerts_extend_trans(self.alerts@, amid, as0);
                let ev = (FsEventType::FileModified, p, d, sev);
                assert(planned.push(ev).drop_last() == planned);
                planned = planned.push(ev);
            }
        }
        assert(events_facts(self.events@) == events_with(e0, planned, max));
        assert(fs_alerts_facts(self.alerts@) == alerts_with(a0, planned, crit));
        if !str_eq(previous.permissions.as_str(), current.permissions.as_str()) {
            let sev = self.config.determine_severity(current.path.as_str(), &FsEventType::PermissionChanged);
            let ghost mid = self.events@;
            let ghost amid = self.alerts@;
            self.push_event(FsEventType::PermissionChanged, current.path.clone(), details_of(current), sev);
            proof {
                lemma_events_from_trans(self.events@, mid, es0);
                lemma_alerts_extend_trans(self.alerts@, amid, as0);
                let ev = (FsEventType::PermissionChanged, p, d, sev);
                assert(planned.push(ev).drop_last() == planned);
                planned = planned.push(ev);
            }
        }
        assert(events_facts(self.events@) == events_with(e0, planned, max));
        assert(fs_alerts_facts(self.alerts@) == alerts_with(a0, planned, crit));
        if !opt_eq(&previous.owner, &current.owner) || !opt_eq(&previous.group, &current.group) {
            let sev = self.config.determine_severity(current.path.as_str(), &FsEventType::OwnershipChanged);
            let ghost mid = self.events@;
            let ghost amid = self.alerts@;
            self.push_event(FsEventType::OwnershipChanged, current.path.clone(), details_of(current), sev);
            proof {
                lemma_events_from_trans(self.events@, mid, es0);
                lemma_alerts_extend_trans(self.alerts@, amid, as0);
                let ev = (FsEventType::OwnershipChanged, p, d, sev);
                assert(planned.push(ev).drop_last() == planned);
                planned = planned.push(ev);
            }
        }
        assert(events_facts(self.events@) == events_with(e0, planned, max));
        assert(fs_alerts_facts(self.alerts@) == alerts_with(a0, planned, crit));
        let ghost before_hash = planned;
        match (&previous.hash, &current.hash) {
            (Some(prev_hash), Some(curr_hash)) => {
                if !str_eq(prev_hash.as_str(), curr_hash.as_str()) {
                    let mut details = details_of(current);
                    details.hash_changed = true;
                    details.previous_hash = Some(prev_hash.clone());
                    let ghost mid = self.events@;
                    let ghost amid = self.alerts@;
                    self.push_event(
                        FsEventType::IntegrityViolation,
                        current.path.clone(),
                        details,
                        FsEventSeverity::High,
                    );
                    proof {
                        lemma_events_from_trans(self.events@, mid, es0);
                        lemma_alerts_extend_trans(self.alerts@, amid, as0);
                        let ev = (FsEventType::IntegrityViolation, p, integrity_details(*current, prev_hash@), FsEventSeverity::High);
                        assert(planned.push(ev).drop_last() == planned);
                        planned = planned.push(ev);
                    }
                    assert(fs_alerts_facts(self.alerts@) == alerts_with(a0, planned, crit));
                    let mut message = "File integrity violation detected: ".to_owned();
                    let shown = path_debug_text(current.path.as_str());
                    push_chars(&mut message, shown.as_str());
                    let ghost amid2 = self.alerts@;
                    self.create_alert(
                        FsAlertType::IntegrityBreach,
                        FsEventSeverity::High,
                        message,
                        current.path.clone(),
                        details_of(current),
                    );
                    proof {
                        let a = choose|a: FileSystemAlert|
                            fs_alert_facts(a) == breach_alert(*current) && fs_alert_id(a.id@) && self.alerts@
                                == amid2.push(a);
                        assert(fs_alerts_facts(self.alerts@) =~= fs_alerts_facts(amid2).push(fs_alert_facts(a)));
                        assert(fs_alerts_extend(self.alerts@, amid2));
                        lemma_alerts_extend_trans(self.alerts@, amid2, as0);
                        assert(fs_alerts_facts(self.alerts@) =~= alerts_with(a0, planned, crit) + seq![breach_alert(*current)]);
                    }
                }
            },
            _ => {},
        }
        assert(planned =~= change_events(*previous, *current, crit));
        proof {
            if !hash_broken(*previous, *current) {
                assert(fs_alerts_facts(self.alerts@) =~= alerts_with(a0, planned, crit) + Seq::<FsAlertFacts>::empty());
            }
        }
    }
}

/// What was last read of the file `path`, if it was read (the latest record counts).
pub open spec fn metadata_of(ms: Seq<FileMetadata>, path: Seq<char>) -> Option<FileMetadata>
    decreases ms.len(),
{
    if ms.len() == 0 {
        None
    } else if ms.last().path@ == path {
        Some(ms.last())
    } else {
        metadata_of(ms.drop_last(), path)
    }
}

proof fn lemma_metadata_absent(ms: Seq<FileMetadata>, path: Seq<char>)
    requires
        forall|i: int| 0 <= i < ms.len() ==> (#[trigger] ms[i]).path@ != path,
    ensures
        metadata_of(ms, path) is None,
    decreases ms.len(),
{
    if ms.len() > 0 {
        assert(ms.last() == ms[ms.len() - 1]);
        lemma_metadata_absent(ms.drop_last(), path);
    }
}

proof fn lemma_metadata_at(ms: Seq<FileMetadata>, path: Seq<char>, j: int)
    requires
        0 <= j < ms.len(),
        ms[j].path@ == path,
        forall|i: int| j < i < ms.len() ==> (#[trigger] ms[i]).path@ != path,
    ensures
        metadata_of(ms, path) == Some(ms[j]),
    decreases ms.len(),
{
    if j < ms.len() - 1 {
        assert(ms.last() == ms[ms.len() - 1]);
        lemma_metadata_at(ms.drop_last(), path, j);
    }
}

proof fn lemma_metadata_update(ms: Seq<FileMetadata>, j: int, m: FileMetadata, q: Seq<char>)
    requires
        0 <= j < ms.len(),
        m.path@ == ms[j].path@,
        forall|i: int| j < i < ms.len() ==> (#[trigger] ms[i]).path@ != ms[j].path@,
    ensures
        metadata_of(ms.update(j, m), q) == if q == m.path@ { Some(m) } else { metadata_of(ms, q) },
    decreases ms.len(),
{
    let ms2 = ms.update(j, m);
    assert(ms.last() == ms[ms.len() - 1]);
    if j == ms.len() - 1 {
        assert(ms2.drop_last() == ms.drop_last());
    } else {
        assert(ms2.drop_last() == ms.drop_last().update(j, m));
        lemma_metadata_update(ms.drop_last(), j, m, q);
    }
}

/// The latest record for `path` in `ms`, if any.
fn last_metadata(ms: &Vec<FileMetadata>, path: &str) -> (r: Option<usize>)
    ensures
        match r {
            Some(j) => j < ms@.len() && ms@[j as int].path@ == path@ && forall|i: int|
                j < i < ms@.len() ==> (#[trigger] ms@[i]).path@ != path@,
            None => forall|i: int| 0 <= i < ms@.len() ==> (#[trigger] ms@[i]).path@ != path@,
        },
{
    let mut j: usize = ms.len();
    while j > 0
        invariant
            j <= ms@.len(),
            forall|i: int| j <= i < ms@.len() ==> (#[trigger] ms@[i]).path@ != path@,
        decreases j,
    {
        if str_eq(ms[j - 1].path.as_str(), path) {
            return Some(j - 1);
        }
        j = j - 1;
    }
    None
}

/// An exact copy of an optional string.
fn copy_opt_exact(o: &Option<String>) -> (r: Option<String>)
    ensures
        r == *o,
{
    match o {
        Some(s) => Some(s.clone()),
        None => None,
    }
}

/// An exact copy of what was read of a file.
fn copy_metadata(m: &FileMetadata) -> (r: FileMetadata)
    ensures
        r == *m,
{
    FileMetadata {
        path: m.path.clone(),
        size: m.size,
        modified: m.modified,
        permissions: m.permissions.clone(),
        owner: copy_opt_exact(&m.owner),
        group: copy_opt_exact(&m.group),
        file_type: m.file_type.clone(),
        hash: copy_opt_exact(&m.hash),
        last_checked: m.last_checked,
    }
}

/// The event recorded for a file seen for the first time.
pub open spec fn created_event(critical: Seq<Seq<char>>, cur: FileMetadata) -> EventFacts {
    (FsEventType::FileCreated, cur.path@, metadata_details(cur), severity_of(critical, cur.path@, FsEventType::FileCreated))
}

/// The alert raised when a critical file is gone.
pub open spec fn deleted_alert(path: Seq<char>) -> FsAlertFacts {
    (
        FsAlertType::CriticalSystemFileModified,
        FsEventSeverity::Critical,
        "Critical system file deleted: "@ + path_debug(path),
        path,
        (None, None, None, None, None, false, None, None),
    )
}

impl FileSystemMonitor {
    /// Records `m` as what was last read of its file.
    fn remember_metadata(&mut self, m: FileMetadata)
        ensures
            metadata_of(final(self).file_metadata@, m.path@) == Some(m),
            forall|q: Seq<char>|
                q != m.path@ ==> #[trigger] metadata_of(final(self).file_metadata@, q) == metadata_of(
                    old(self).file_metadata@,
                    q,
                ),
            final(self).config == old(self).config,
            final(self).events == old(self).events,
            final(self).alerts == old(self).alerts,
            final(self).last_scan == old(self).last_scan,
    {
        match last_metadata(&self.file_metadata, m.path.as_str()) {
            Some(j) => {
                let ghost ms = self.file_metadata@;
                let ghost mm = m;
                self.file_metadata.set(j, m);
                proof {
                    assert(self.file_metadata@ == ms.update(j as int, mm));
                    assert forall|q: Seq<char>| true implies #[trigger] metadata_of(self.file_metadata@, q) == if q == mm.path@ {
                        Some(mm)
                    } else {
                        metadata_of(ms, q)
                    } by {
                        lemma_metadata_update(ms, j as int, mm, q);
                    }
                }
            },
            None => {
                let ghost ms = self.file_metadata@;
                self.file_metadata.push(m);
                assert(self.file_metadata@.drop_last() == ms);
            },
        }
    }

    /// Takes in what was just read of a file: the changes since it was last read (see
    /// `compare_and_generate_events`), or a FileCreated event for a file not read before;
    /// then remembers it.
    pub fn check_file(&mut self, current: FileMetadata)
        ensures
            ({
                let crit = str_views(old(self).config.critical_paths@);
                let new = match metadata_of(old(self).file_metadata@, current.path@) {
                    Some(prev) => change_events(prev, current, crit),
                    None => seq![created_event(crit, current)],
                };
                let breach = match metadata_of(old(self).file_metadata@, current.path@) {
                    Some(prev) => hash_broken(prev, current),
                    None => false,
                };
                &&& events_facts(final(self).events@) == events_with(
                    events_facts(old(self).events@),
                    new,
                    old(self).config.max_events as nat,
                )
                &&& fs_alerts_facts(final(self).alerts@) == alerts_with(fs_alerts_facts(old(self).alerts@), new, crit)
                    + if breach {
                    seq![breach_alert(current)]
                } else {
                    Seq::empty()
                }
            }),
            metadata_of(final(self).file_metadata@, current.path@) == Some(current),
            forall|q: Seq<char>|
                q != current.path@ ==> #[trigger] metadata_of(final(self).file_metadata@, q) == metadata_of(
                    old(self).file_metadata@,
                    q,
                ),
            fs_events_from(final(self).events@, old(self).events@),
            fs_alerts_extend(final(self).alerts@, old(self).alerts@),
            final(self).config == old(self).config,
            final(self).last_scan == old(self).last_scan,
    {
        let ghost crit = str_views(self.config.critical_paths@);
        let ghost e0 = events_facts(self.events@);
        let ghost a0 = fs_alerts_facts(self.alerts@);
        match last_metadata(&self.file_metadata, current.path.as_str()) {
            Some(j) => {
                proof {
                    lemma_metadata_at(self.file_metadata@, current.path@, j as int);
                }
                let prev = copy_metadata(&self.file_metadata[j]);
                self.compare_and_generate_events(&prev, &current);
            },
            None => {
                proof {
                    lemma_metadata_absent(self.file_metadata@, current.path@);
                }
                let sev = self.config.determine_severity(current.path.as_str(), &FsEventType::FileCreated);
                self.push_event(FsEventType::FileCreated, current.path.clone(), details_of(&current), sev);
                proof {
                    let ev = created_event(crit, current);
                    assert(seq![ev].drop_last() == Seq::<EventFacts>::empty());
                    assert(events_with(e0, Seq::<EventFacts>::empty(), self.config.max_events as nat) == e0);
                    assert(alerts_with(a0, Seq::<EventFacts>::empty(), crit) == a0);
                    assert(fs_alerts_facts(self.alerts@) =~= alerts_with(a0, seq![ev], crit) + Seq::<FsAlertFacts>::empty());
                }
            },
        }
        self.remember_metadata(current);
    }

    /// Looks at a critical file: a Critical alert when it is gone (`current` is
    /// `None`), else what `check_file` does with what was read of it.
    pub fn check_critical_file(&mut self, path: &str, current: Option<FileMetadata>)
        requires
            current matches Some(m) ==> m.path@ == path@,
        ensures
            current is None ==> exists|a: FileSystemAlert|
                fs_alert_facts(a) == deleted_alert(path@) && fs_alert_id(a.id@) && final(self).alerts@
                    == old(self).alerts@.push(a),
            current is None ==> final(self).events == old(self).events && final(self).file_metadata
                == old(self).file_metadata,
            current matches Some(m) ==> metadata_of(final(self).file_metadata@, path@) == Some(m),
            fs_alerts_extend(final(self).alerts@, old(self).alerts@),
            final(self).config == old(self).config,
            final(self).last_scan == old(self).last_scan,
    {
        match current {
            None => {
                let mut message = "Critical system file deleted: ".to_owned();
                let shown = path_debug_text(path);
                push_chars(&mut message, shown.as_str());
                let details = FsEventDetails {
                    file_size: None,
                    permissions: None,
                    owner: None,
                    group: None,
                    file_type: None,
                    hash_changed: false,
                    previous_hash: None,
                    current_hash: None,
                };
                let ghost as0 = self.alerts@;
                self.create_alert(
                    FsAlertType::CriticalSystemFileModified,
                    FsEventSeverity::Critical,
                    message,
                    path.to_owned(),
                    details,
                );
                proof {
                    let a = choose|a: FileSystemAlert|
                        fs_alert_facts(a) == deleted_alert(path@) && fs_alert_id(a.id@) && self.alerts@
                            == as0.push(a);
                    assert(self.alerts@[as0.len() as int] == a);
                }
            },
            Some(m) => {
                self.check_file(m);
            },
        }
    }
}

/// The events of `es` recorded after `cutoff`, in order.
pub open spec fn events_after(es: Seq<FileSystemEvent>, cutoff: int) -> Seq<FileSystemEvent>
    decreases es.len(),
{
    if es.len() == 0 {
        Seq::empty()
    } else {
        let init = events_after(es.drop_last(), cutoff);
        if es.last().timestamp > cutoff {
            init.push(es.last())
        } else {
            init
        }
    }
}

/// The alerts of `als` raised after `cutoff`, in order.
pub open spec fn fs_alerts_after(als: Seq<FileSystemAlert>, cutoff: int) -> Seq<FileSystemAlert>
    decreases als.len(),
{
    if als.len() == 0 {
        Seq::empty()
    } else {
        let init = fs_alerts_after(als.drop_last(), cutoff);
        if als.last().timestamp > cutoff {
            init.push(als.last())
        } else {
            init
        }
    }
}

/// The events of `es` of severity `severity`, in order.
pub open spec fn events_of_severity(es: Seq<FileSystemEvent>, severity: FsEventSeverity) -> Seq<FileSystemEvent>
    decreases es.len(),
{
    if es.len() == 0 {
        Seq::empty()
    } else {
        let init = events_of_severity(es.drop_last(), severity);
        if es.last().severity == severity {
            init.push(es.last())
        } else {
            init
        }
    }
}

/// The alerts of `als` of severity `severity`, in order.
pub open spec fn fs_alerts_of_severity(als: Seq<FileSystemAlert>, severity: FsEventSeverity) -> Seq<FileSystemAlert>
    decreases als.len(),
{
    if als.len() == 0 {
        Seq::empty()
    } else {
        let init = fs_alerts_of_severity(als.drop_last(), severity);
        if als.last().severity == severity {
            init.push(als.last())
        } else {
            init
        }
    }
}

/// The events of `es` whose path holds `query`, letter case aside, in order.
pub open spec fn events_on(es: Seq<FileSystemEvent>, query: Seq<char>) -> Seq<FileSystemEvent>
    decreases es.len(),
{
    if es.len() == 0 {
        Seq::empty()
    } else {
        let init = events_on(es.drop_last(), query);
        if contains(lower_text(es.last().path@), lower_text(query)) {
            init.push(es.last())
        } else {
            init
        }
    }
}

/// The kind of file a scan saw, by the first test that holds.
pub open spec fn file_kind_name(is_file: bool, is_dir: bool, is_symlink: bool) -> Seq<char> {
    if is_file {
        "file"@
    } else if is_dir {
        "directory"@
    } else if is_symlink {
        "symlink"@
    } else {
        "other"@
    }
}

/// The scan interval as chrono reads `scan_interval_seconds as i64`.
pub open spec fn interval_secs(x: u64) -> int {
    if x <= i64::MAX {
        x as int
    } else {
        x - 0x1_0000_0000_0000_0000int
    }
}

impl FileSystemMonitor {
    /// A monitor with nothing read or recorded yet, last scanned now.
    pub fn new(config: FileSystemMonitorConfig) -> (r: Self)
        ensures
            r.config == config,
            r.file_metadata@.len() == 0,
            r.events@.len() == 0,
            r.alerts@.len() == 0,
    {
        FileSystemMonitor {
            config,
            file_metadata: Vec::new(),
            events: Vec::new(),
            alerts: Vec::new(),
            last_scan: utc_seconds(),
        }
    }

    /// A monitor with the default configuration.
    pub fn with_default_config() -> (r: Self)
        ensures
            default_fs_config(r.config),
            r.file_metadata@.len() == 0,
            r.events@.len() == 0,
            r.alerts@.len() == 0,
    {
        FileSystemMonitor::new(FileSystemMonitorConfig::default())
    }

    /// Whether a scan is due at `now`: at least the scan interval has passed since the
    /// last one.
    pub fn scan_due(&self, now: i64) -> (r: bool)
        requires
            -crate::monitor::system::max_duration_secs() <= interval_secs(self.config.scan_interval_seconds)
                <= crate::monitor::system::max_duration_secs(),
        ensures
            r == (now - self.last_scan >= interval_secs(self.config.scan_interval_seconds)),
    {
        let x = self.config.scan_interval_seconds;
        let interval: i128 = if x <= 0x7fff_ffff_ffff_ffffu64 {
            x as i128
        } else {
            x as i128 - 0x1_0000_0000_0000_0000i128
        };
        (now as i128) - (self.last_scan as i128) >= interval
    }

    /// Whether a file gets a content hash: integrity checks are on, it is a regular file
    /// and smaller than 10 MB.
    pub fn needs_hash(&self, is_file: bool, size: u64) -> (r: bool)
        ensures
            r == (self.config.check_integrity && is_file && size < 10_000_000),
    {
        self.config.check_integrity && is_file && size < 10_000_000
    }

    /// The owner of a file: not looked up, so always `None`.
    pub fn get_file_owner(&self, path: &str) -> (r: Option<String>)
        ensures
            r is None,
    {
        None
    }

    /// The group of a file: not looked up, so always `None`.
    pub fn get_file_group(&self, path: &str) -> (r: Option<String>)
        ensures
            r is None,
    {
        None
    }

    /// What a scan records of a file from what was read of it: its permission bits in
    /// octal, its kind, and its content hash when `needs_hash` says so and the contents
    /// could be read (`contents`); read at the current time.
    pub fn extract_file_metadata(
        &self,
        path: &str,
        size: u64,
        modified: i128,
        mode: u32,
        is_file: bool,
        is_dir: bool,
        is_symlink: bool,
        contents: Option<&[u8]>,
    ) -> (r: FileMetadata)
        ensures
            r.path@ == path@,
            r.size == size,
            r.modified == modified,
            r.permissions@ == crate::num::oct_digits(mode as nat),
            r.owner is None,
            r.group is None,
            r.file_type@ == file_kind_name(is_file, is_dir, is_symlink),
            opt_view(r.hash) == if self.config.check_integrity && is_file && size < 10_000_000 {
                match contents {
                    Some(c) => Some(hex_bytes(md5_of(c@))),
                    None => None,
                }
            } else {
                None
            },
    {
        let mut permissions = String::new();
        crate::num::push_oct(&mut permissions, mode);
        let file_type = if is_file {
            "file".to_owned()
        } else if is_dir {
            "directory".to_owned()
        } else if is_symlink {
            "symlink".to_owned()
        } else {
            "other".to_owned()
        };
        let hash = if self.needs_hash(is_file, size) {
            match contents {
                Some(c) => Some(calculate_file_hash(c)),
                None => None,
            }
        } else {
            None
        };
        FileMetadata {
            path: path.to_owned(),
            size,
            modified,
            permissions,
            owner: self.get_file_owner(path),
            group: self.get_file_group(path),
            file_type,
            hash,
            last_checked: utc_seconds(),
        }
    }

    /// Drops the events recorded a day or more before `now` (seconds since the epoch).
    pub fn cleanup_old_events_at(&mut self, now: i64)
        ensures
            final(self).events@ == events_after(old(self).events@, now - 86400),
            final(self).config == old(self).config,
            final(self).file_metadata == old(self).file_metadata,
            final(self).alerts == old(self).alerts,
            final(self).last_scan == old(self).last_scan,
    {
        let mut rest: Vec<FileSystemEvent> = Vec::new();
        std::mem::swap(&mut rest, &mut self.events);
        let ghost all = rest@;
        let mut kept: Vec<FileSystemEvent> = Vec::new();
        let ghost mut i: int = 0;
        while rest.len() > 0
            invariant
                0 <= i <= all.len(),
                rest@ == all.skip(i),
                kept@ == events_after(all.take(i), now - 86400),
            decreases rest.len(),
        {
            let e = rest.remove(0);
            assert(all.take(i + 1).drop_last() == all.take(i));
            if (e.timestamp as i128) > (now as i128) - 86400 {
                kept.push(e);
            }
            proof {
                i = i + 1;
            }
        }
        assert(all.take(i) == all);
        self.events = kept;
    }

    /// Drops the events recorded a day or more ago (what is kept is what
    /// `cleanup_old_events_at` keeps for the current time).
    pub fn cleanup_old_events(&mut self)
        ensures
            exists|cutoff: int| final(self).events@ == #[trigger] events_after(old(self).events@, cutoff),
            final(self).config == old(self).config,
            final(self).file_metadata == old(self).file_metadata,
            final(self).alerts == old(self).alerts,
            final(self).last_scan == old(self).last_scan,
    {
        let now = utc_seconds();
        self.cleanup_old_events_at(now);
    }

    /// Drops the alerts raised six hours or more before `now` (seconds since the epoch).
    pub fn cleanup_old_alerts_at(&mut self, now: i64)
        ensures
            final(self).alerts@ == fs_alerts_after(old(self).alerts@, now - 21600),
            final(self).config == old(self).config,
            final(self).file_metadata == old(self).file_metadata,
            final(self).events == old(self).events,
            final(self).last_scan == old(self).last_scan,
    {
        let mut rest: Vec<FileSystemAlert> = Vec::new();
        std::mem::swap(&mut rest, &mut self.alerts);
        let ghost all = rest@;
        let mut kept: Vec<FileSystemAlert> = Vec::new();
        let ghost mut i: int = 0;
        while rest.len() > 0
            invariant
                0 <= i <= all.len(),
                rest@ == all.skip(i),
                kept@ == fs_alerts_after(all.take(i), now - 21600),
            decreases rest.len(),
        {
            let a = rest.remove(0);
            assert(all.take(i + 1).drop_last() == all.take(i));
            if (a.timestamp as i128) > (now as i128) - 21600 {
                kept.push(a);
            }
            proof {
                i = i + 1;
            }
        }
        assert(all.take(i) == all);
        self.alerts = kept;
    }

    /// Drops the alerts raised six hours or more ago (what is kept is what
    /// `cleanup_old_alerts_at` keeps for the current time).
    pub fn cleanup_old_alerts(&mut self)
        ensures
            exists|cutoff: int| final(self).alerts@ == #[trigger] fs_alerts_after(old(self).alerts@, cutoff),
            final(self).config == old(self).config,
            final(self).file_metadata == old(self).file_metadata,
            final(self).events == old(self).events,
            final(self).last_scan == old(self).last_scan,
    {
        let now = utc_seconds();
        self.cleanup_old_alerts_at(now);
    }

    /// The events recorded, in order.
    pub fn get_events(&self) -> (r: &[FileSystemEvent])
        ensures
            r@ == self.events@,
    {
        self.events.as_slice()
    }

    /// The alerts raised, in order.
    pub fn get_alerts(&self) -> (r: &[FileSystemAlert])
        ensures
            r@ == self.alerts@,
    {
        self.alerts.as_slice()
    }

    /// The events of severity `severity`, in order.
    pub fn get_events_by_severity(&self, severity: FsEventSeverity) -> (r: Vec<&FileSystemEvent>)
        ensures
            crate::monitor::log_monitor::derefs(r@) == events_of_severity(self.events@, severity),
    {
        let mut r: Vec<&FileSystemEvent> = Vec::new();
        let mut i: usize = 0;
        while i < self.events.len()
            invariant
                i <= self.events@.len(),
                crate::monitor::log_monitor::derefs(r@) == events_of_severity(self.events@.take(i as int), severity),
            decreases self.events.len() - i,
        {
            assert(self.events@.take(i + 1).drop_last() == self.events@.take(i as int));
            let e = &self.events[i];
            if e.severity == severity {
                let ghost before = crate::monitor::log_monitor::derefs(r@);
                r.push(e);
                assert(crate::monitor::log_monitor::derefs(r@) == before.push(*e));
            }
            i = i + 1;
        }
        assert(self.events@.take(i as int) == self.events@);
        r
    }

    /// The alerts of severity `severity`, in order.
    pub fn get_alerts_by_severity(&self, severity: FsEventSeverity) -> (r: Vec<&FileSystemAlert>)
        ensures
            crate::monitor::log_monitor::derefs(r@) == fs_alerts_of_severity(self.alerts@, severity),
    {
        let mut r: Vec<&FileSystemAlert> = Vec::new();
        let mut i: usize = 0;
        while i < self.alerts.len()
            invariant
                i <= self.alerts@.len(),
                crate::monitor::log_monitor::derefs(r@) == fs_alerts_of_severity(self.alerts@.take(i as int), severity),
            decreases self.alerts.len() - i,
        {
            assert(self.alerts@.take(i + 1).drop_last() == self.alerts@.take(i as int));
            let a = &self.alerts[i];
            if a.severity == severity {
                let ghost before = crate::monitor::log_monitor::derefs(r@);
                r.push(a);
                assert(crate::monitor::log_monitor::derefs(r@) == before.push(*a));
            }
            i = i + 1;
        }
        assert(self.alerts@.take(i as int) == self.alerts@);
        r
    }

    /// The newest events, newest first, at most `limit` of them.
    pub fn get_recent_events(&self, limit: usize) -> (r: Vec<&FileSystemEvent>)
        ensures
            r@.len() == if limit < self.events@.len() { limit as int } else { self.events@.len() as int },
            forall|k: int| 0 <= k < r@.len() ==> *r@[k] == self.events@[self.events@.len() - 1 - k],
    {
        let n = self.events.len();
        let mut r: Vec<&FileSystemEvent> = Vec::new();
        let mut k: usize = 0;
        while k < n && k < limit
            invariant
                n == self.events@.len(),
                k <= n,
                k <= limit,
                r@.len() == k,
                forall|j: int| 0 <= j < k ==> *r@[j] == self.events@[n - 1 - j],
            decreases n - k,
        {
            r.push(&self.events[n - 1 - k]);
            k = k + 1;
        }
        r
    }

    /// The events whose path holds `query`, letter case aside, in order.
    pub fn search_events(&self, query: &str) -> (r: Vec<&FileSystemEvent>)
        ensures
            crate::monitor::log_monitor::derefs(r@) == events_on(self.events@, query@),
    {
        let q = to_lower(query);
        let qv = chars_of(q.as_str());
        let mut r: Vec<&FileSystemEvent> = Vec::new();
        let mut i: usize = 0;
        while i < self.events.len()
            invariant
                i <= self.events@.len(),
                qv@ == lower_text(query@),
                crate::monitor::log_monitor::derefs(r@) == events_on(self.events@.take(i as int), query@),
            decreases self.events.len() - i,
        {
            assert(self.events@.take(i + 1).drop_last() == self.events@.take(i as int));
            let e = &self.events[i];
            let p = to_lower(e.path.as_str());
            let pv = chars_of(p.as_str());
            if has_sub(&pv, &qv) {
                let ghost before = crate::monitor::log_monitor::derefs(r@);
                r.push(e);
                assert(crate::monitor::log_monitor::derefs(r@) == before.push(*e));
            }
            i = i + 1;
        }
        assert(self.events@.take(i as int) == self.events@);
        r
    }
}

/// Recording an event never takes the events past the limit, and (with room for any)
/// the event just recorded is the newest.
pub proof fn lemma_events_stay_bounded<T>(s: Seq<T>, x: T, max: nat)
    requires
        s.len() <= max,
    ensures
        trimmed_push(s, x, max).len() <= max,
        max > 0 ==> trimmed_push(s, x, max).last() == x,
{
}

/// A file read again unchanged gives no events.
pub proof fn lemma_unchanged_file_is_quiet(m: FileMetadata, critical: Seq<Seq<char>>)
    ensures
        change_events(m, m, critical) == Seq::<EventFacts>::empty(),
        !hash_broken(m, m),
{
    assert(change_events(m, m, critical) =~= Seq::<EventFacts>::empty());
}

} // verus!
