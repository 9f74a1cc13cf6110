//! System log lines: their level, message and time, and the security patterns sought in them.
use vstd::prelude::*;
use crate::monitor::system::signed_digits;
use crate::text::{
    chars_of, contains, push_chars, find_char, has_sub, lower_text, pos_of, slice_chars, str_eq, string_of_all,
    to_lower, trim, trim_chars, utf8_len, utf8_width,
};

verus! {

/// The severity of a log line.
#[derive(Debug, Clone, Copy, PartialEq, Eq, Structural)]
pub enum LogLevel {
    Emergency,
    Alert,
    Critical,
    Error,
    Warning,
    Notice,
    Info,
    Debug,
}

/// What a security pattern in the logs points to.
#[derive(Debug, Clone, Copy, PartialEq, Eq, Structural)]
pub enum LogAlertType {
    AuthenticationFailure,
    PrivilegeEscalation,
    SuspiciousCommand,
    NetworkIntrusion,
    FileSystemAccess,
    ServiceFailure,
    SystemAnomaly,
}

/// How serious a log alert is.
#[derive(Debug, Clone, Copy, PartialEq, Eq, Structural)]
pub enum LogAlertSeverity {
    Low,
    Medium,
    High,
    Critical,
}

/// A text sought in log lines, and the alert it raises.
#[derive(Debug, Clone)]
pub struct AlertPattern {
    pub pattern: String,
    pub alert_type: LogAlertType,
    pub severity: LogAlertSeverity,
}

/// Which logs are read and what is sought in them.
#[derive(Debug, Clone)]
pub struct LogMonitorConfig {
    pub log_files: Vec<String>,
    pub follow_mode: bool,
    pub max_entries: usize,
    pub alert_patterns: Vec<AlertPattern>,
}

/// The patterns sought by default, with the alerts they raise.
pub open spec fn default_patterns() -> Seq<(Seq<char>, LogAlertType, LogAlertSeverity)> {
    seq![
        ("authentication failure"@, LogAlertType::AuthenticationFailure, LogAlertSeverity::Medium),
        ("failed login"@, LogAlertType::AuthenticationFailure, LogAlertSeverity::Medium),
        ("invalid user"@, LogAlertType::AuthenticationFailure, LogAlertSeverity::Medium),
        ("connection closed by authenticating user"@, LogAlertType::AuthenticationFailure, LogAlertSeverity::Low),
        ("sudo:"@, LogAlertType::PrivilegeEscalation, LogAlertSeverity::Medium),
        ("su:"@, LogAlertType::PrivilegeEscalation, LogAlertSeverity::Medium),
        ("became user"@, LogAlertType::PrivilegeEscalation, LogAlertSeverity::High),
        ("nc -"@, LogAlertType::SuspiciousCommand, LogAlertSeverity::High),
        ("netcat"@, LogAlertType::SuspiciousCommand, LogAlertSeverity::High),
        ("/bin/sh"@, LogAlertType::SuspiciousCommand, LogAlertSeverity::Medium),
        ("wget http"@, LogAlertType::SuspiciousCommand, LogAlertSeverity::Medium),
        ("curl http"@, LogAlertType::SuspiciousCommand, LogAlertSeverity::Medium),
        ("port scan"@, LogAlertType::NetworkIntrusion, LogAlertSeverity::High),
        ("connection reset by peer"@, LogAlertType::NetworkIntrusion, LogAlertSeverity::Low),
        ("refused connect"@, LogAlertType::NetworkIntrusion, LogAlertSeverity::Low),
        ("/etc/passwd"@, LogAlertType::FileSystemAccess, LogAlertSeverity::High),
        ("/etc/shadow"@, LogAlertType::FileSystemAccess, LogAlertSeverity::Critical),
        ("permission denied"@, LogAlertType::FileSystemAccess, LogAlertSeverity::Low),
        ("service failed"@, LogAlertType::ServiceFailure, LogAlertSeverity::Medium),
        ("segmentation fault"@, LogAlertType::ServiceFailure, LogAlertSeverity::High),
        ("out of memory"@, LogAlertType::SystemAnomaly, LogAlertSeverity::High),
    ]
}

/// The log files read by default.
pub open spec fn default_log_files() -> Seq<Seq<char>> {
    seq![
        "/var/log/syslog"@,
        "/var/log/auth.log"@,
        "/var/log/secure"@,
        "/var/log/messages"@,
        "/var/log/kern.log"@,
    ]
}

/// A pattern entry.
fn pattern(p: &str, t: LogAlertType, s: LogAlertSeverity) -> (r: AlertPattern)
    ensures
        r.pattern@ == p@,
        r.alert_type == t,
        r.severity == s,
{
    AlertPattern { pattern: p.to_owned(), alert_type: t, severity: s }
}

/// The configuration by default: the system logs, followed, keeping 1000 entries, with
/// the default patterns.
pub open spec fn default_log_config(r: LogMonitorConfig) -> bool {
    &&& r.log_files@.len() == default_log_files().len()
    &&& forall|i: int| 0 <= i < r.log_files@.len() ==> #[trigger] r.log_files@[i]@ == default_log_files()[i]
    &&& r.follow_mode
    &&& r.max_entries == 1000
    &&& r.alert_patterns@.len() == default_patterns().len()
    &&& forall|i: int|
        0 <= i < r.alert_patterns@.len() ==> {
            let p = #[trigger] r.alert_patterns@[i];
            (p.pattern@, p.alert_type, p.severity) == default_patterns()[i]
        }
}

impl Default for LogMonitorConfig {
    /// The system logs, followed, keeping 1000 entries, with the default patterns.
    fn default() -> (r: Self)
        ensures
            default_log_config(r),
    {
        let mut log_files: Vec<String> = Vec::new();
        log_files.push("/var/log/syslog".to_owned());
        log_files.push("/var/log/auth.log".to_owned());
        log_files.push("/var/log/secure".to_owned());
        log_files.push("/var/log/messages".to_owned());
        log_files.push("/var/log/kern.log".to_owned());
        let mut ps: Vec<AlertPattern> = Vec::new();
        ps.push(pattern("authentication failure", LogAlertType::AuthenticationFailure, LogAlertSeverity::Medium));
        ps.push(pattern("failed login", LogAlertType::AuthenticationFailure, LogAlertSeverity::Medium));
        ps.push(pattern("invalid user", LogAlertType::AuthenticationFailure, LogAlertSeverity::Medium));
        ps.push(pattern("connection closed by authenticating user", LogAlertType::AuthenticationFailure, LogAlertSeverity::Low));
        ps.push(pattern("sudo:", LogAlertType::PrivilegeEscalation, LogAlertSeverity::Medium));
        ps.push(pattern("su:", LogAlertType::PrivilegeEscalation, LogAlertSeverity::Medium));
        ps.push(pattern("became user", LogAlertType::PrivilegeEscalation, LogAlertSeverity::High));
        ps.push(pattern("nc -", LogAlertType::SuspiciousCommand, LogAlertSeverity::High));
        ps.push(pattern("netcat", LogAlertType::SuspiciousCommand, LogAlertSeverity::High));
        ps.push(pattern("/bin/sh", LogAlertType::SuspiciousCommand, LogAlertSeverity::Medium));
        ps.push(pattern("wget http", LogAlertType::SuspiciousCommand, LogAlertSeverity::Medium));
        ps.push(pattern("curl http", LogAlertType::SuspiciousCommand, LogAlertSeverity::Medium));
        ps.push(pattern("port scan", LogAlertType::NetworkIntrusion, LogAlertSeverity::High));
        ps.push(pattern("connection reset by peer", LogAlertType::NetworkIntrusion, LogAlertSeverity::Low));
        ps.push(pattern("refused connect", LogAlertType::NetworkIntrusion, LogAlertSeverity::Low));
        ps.push(pattern("/etc/passwd", LogAlertType::FileSystemAccess, LogAlertSeverity::High));
        ps.push(pattern("/etc/shadow", LogAlertType::FileSystemAccess, LogAlertSeverity::Critical));
        ps.push(pattern("permission denied", LogAlertType::FileSystemAccess, LogAlertSeverity::Low));
        ps.push(pattern("service failed", LogAlertType::ServiceFailure, LogAlertSeverity::Medium));
        ps.push(pattern("segmentation fault", LogAlertType::ServiceFailure, LogAlertSeverity::High));
        ps.push(pattern("out of memory", LogAlertType::SystemAnomaly, LogAlertSeverity::High));
        LogMonitorConfig { log_files, follow_mode: true, max_entries: 1000, alert_patterns: ps }
    }
}

/// The level a log line shows, by the first of these words it contains: EMERGENCY or
/// PANIC, ALERT, CRIT, ERR, WARN, NOTICE, INFO, DEBUG; Info when none.
pub open spec fn level_of(line: Seq<char>) -> LogLevel {
    if contains(line, "EMERGENCY"@) || contains(line, "PANIC"@) {
        LogLevel::Emergency
    } else if contains(line, "ALERT"@) {
        LogLevel::Alert
    } else if contains(line, "CRIT"@) || contains(line, "CRITICAL"@) {
        LogLevel::Critical
    } else if contains(line, "ERR"@) || contains(line, "ERROR"@) {
        LogLevel::Error
    } else if contains(line, "WARN"@) || contains(line, "WARNING"@) {
        LogLevel::Warning
    } else if contains(line, "NOTICE"@) {
        LogLevel::Notice
    } else if contains(line, "INFO"@) {
        LogLevel::Info
    } else if contains(line, "DEBUG"@) {
        LogLevel::Debug
    } else {
        LogLevel::Info
    }
}

/// Whether `needle` occurs in `line` (as `str::contains`).
fn has_text(line: &str, needle: &str) -> (r: bool)
    ensures
        r == contains(line@, needle@),
{
    let v = chars_of(line);
    let n = chars_of(needle);
    has_sub(&v, &n)
}

/// The level a log line shows (see `level_of`).
pub fn extract_level(line: &str) -> (r: LogLevel)
    ensures
        r == level_of(line@),
{
    if has_text(line, "EMERGENCY") || has_text(line, "PANIC") {
        LogLevel::Emergency
    } else if has_text(line, "ALERT") {
        LogLevel::Alert
    } else if has_text(line, "CRIT") || has_text(line, "CRITICAL") {
        LogLevel::Critical
    } else if has_text(line, "ERR") || has_text(line, "ERROR") {
        LogLevel::Error
    } else if has_text(line, "WARN") || has_text(line, "WARNING") {
        LogLevel::Warning
    } else if has_text(line, "NOTICE") {
        LogLevel::Notice
    } else if has_text(line, "INFO") {
        LogLevel::Info
    } else if has_text(line, "DEBUG") {
        LogLevel::Debug
    } else {
        LogLevel::Info
    }
}

/// The message of a log line: what follows its second colon, trimmed; the whole line
/// when it has fewer than two colons.
pub open spec fn message_of(line: Seq<char>) -> Seq<char> {
    if !line.contains(':') {
        line
    } else {
        let rest = line.skip(pos_of(line, ':') as int + 1);
        if !rest.contains(':') {
            line
        } else {
            trim(rest.skip(pos_of(rest, ':') as int + 1))
        }
    }
}

/// The message of a log line (see `message_of`).
pub fn extract_message(line: &str) -> (r: String)
    ensures
        r@ == message_of(line@),
{
    let v = chars_of(line);
    match find_char(&v, ':') {
        None => line.to_owned(),
        Some(c) => {
            proof {
                crate::text::lemma_pos_of_bound(v@, ':');
            }
            assert(v@[c as int] == ':');
            let n = v.len();
            let rest = slice_chars(&v, c + 1, n);
            assert(rest@ == v@.skip(c + 1));
            match find_char(&rest, ':') {
                None => line.to_owned(),
                Some(d) => {
                    proof {
                        crate::text::lemma_pos_of_bound(rest@, ':');
                    }
                    assert(rest@[d as int] == ':');
                    let m = rest.len();
                    let tail = slice_chars(&rest, d + 1, m);
                    assert(tail@ == rest@.skip(d + 1));
                    let t = trim_chars(&tail);
                    string_of_all(&t)
                },
            }
        },
    }
}

/// A log line worth keeping: the trimmed line, unless that is empty.
pub fn trimmed_line(line: &str) -> (r: Option<String>)
    ensures
        match r {
            Some(t) => t@ == trim(line@) && t@.len() > 0,
            None => trim(line@).len() == 0,
        },
{
    let v = chars_of(line);
    let t = trim_chars(&v);
    if t.len() == 0 {
        None
    } else {
        Some(string_of_all(&t))
    }
}

/// The time that chrono reads in `text` with the format `format`, as seconds since the
/// epoch in UTC, if it reads.
pub uninterp spec fn datetime_seconds(text: Seq<char>, format: Seq<char>) -> Option<i64>;

/// Reads a date and time (chrono `NaiveDateTime::parse_from_str`, then
/// `and_utc().timestamp()`). Claimed: the result is `datetime_seconds` of the text and
/// the format; chrono's reading itself is left unstated.
#[verifier::external_body]
fn parse_datetime(text: &str, format: &str) -> (r: Option<i64>)
    ensures
        r == datetime_seconds(text@, format@),
{
    chrono::NaiveDateTime::parse_from_str(text, format).ok().map(|dt| dt.and_utc().timestamp())
}

/// The time a syslog stamp such as `Jan 15 10:30:00` stands for: read in the year 2024
/// with the format `%Y %b %d %H:%M:%S`.
pub open spec fn syslog_time(stamp: Seq<char>) -> Option<i64> {
    datetime_seconds("2024 "@ + stamp, "%Y %b %d %H:%M:%S"@)
}

proof fn lemma_utf8_take_grows(s: Seq<char>, a: int, b: int)
    requires
        0 <= a < b <= s.len(),
    ensures
        utf8_len(s.take(a)) < utf8_len(s.take(b)),
    decreases b - a,
{
    assert(s.take(b).drop_last() == s.take(b - 1));
    if a < b - 1 {
        lemma_utf8_take_grows(s, a, b - 1);
    }
}

/// The first fifteen bytes of `line` end at a character boundary.
pub open spec fn stamp_boundary(line: Seq<char>) -> bool {
    exists|k: int| 0 <= k <= line.len() && utf8_len(#[trigger] line.take(k)) == 15
}

/// How many characters make up the first fifteen bytes of `line` (where they end at a
/// character boundary).
pub open spec fn stamp_chars(line: Seq<char>) -> int {
    choose|k: int| 0 <= k <= line.len() && utf8_len(#[trigger] line.take(k)) == 15
}

/// The time a log line shows: for a line longer than fifteen bytes, its first fifteen
/// bytes read as a syslog stamp; `None` for shorter lines and unreadable stamps.
pub open spec fn line_time(line: Seq<char>) -> Option<i64> {
    if utf8_len(line) <= 15 {
        None
    } else {
        syslog_time(line.take(stamp_chars(line)))
    }
}

/// The time stamp of a log line (see `line_time`; the caller takes the current time
/// where there is none).
pub fn extract_timestamp(line: &str) -> (r: Option<i64>)
    requires
        utf8_len(line@) > 15 ==> stamp_boundary(line@),
    ensures
        r == line_time(line@),
{
    let v = chars_of(line);
    if crate::text::utf8_len_upto(&v, 15).is_some() {
        return None;
    }
    let mut n: usize = 0;
    let mut i: usize = 0;
    assert(v@.take(0) =~= Seq::<char>::empty());
    while n < 15
        invariant
            i <= v@.len(),
            n == utf8_len(v@.take(i as int)),
            n <= 18,
            v@ == line@,
            utf8_len(line@) > 15,
            i > 0 ==> utf8_len(v@.take(i - 1)) < 15,
        decreases v@.len() - i,
    {
        if i >= v.len() {
            assert(v@.take(i as int) == v@);
            assert(false);
        }
        let c = v[i];
        let w: usize = if (c as u32) < 0x80 {
            1
        } else if (c as u32) < 0x800 {
            2
        } else if (c as u32) < 0x10000 {
            3
        } else {
            4
        };
        assert(v@.take(i + 1).drop_last() == v@.take(i as int));
        assert(w == utf8_width(c));
        n = n + w;
        i = i + 1;
    }
    proof {
        let k = choose|k: int| 0 <= k <= line@.len() && utf8_len(#[trigger] line@.take(k)) == 15;
        if k < i {
            if k < i - 1 {
                lemma_utf8_take_grows(line@, k, i - 1);
            }
            assert(false) by {
                if k == i - 1 {
                } else {
                    lemma_utf8_take_grows(line@, k, i - 1);
                }
            }
        } else if k > i {
            lemma_utf8_take_grows(line@, i as int, k);
        }
        assert(k == i);
    }
    let stamp = string_of_all(slice_chars(&v, 0, i).as_slice());
    assert(v@.subrange(0, i as int) == v@.take(i as int));
    let mut text = "2024 ".to_owned();
    push_chars(&mut text, stamp.as_str());
    parse_datetime(text.as_str(), "%Y %b %d %H:%M:%S")
}

/// Whether `needle`, lower-cased, occurs in the lower-cased message or raw line.
pub open spec fn text_matches(message: Seq<char>, raw_line: Seq<char>, needle: Seq<char>) -> bool {
    contains(lower_text(message), lower_text(needle)) || contains(lower_text(raw_line), lower_text(needle))
}

/// Whether a log entry matches a pattern or search query, letter case aside (see
/// `text_matches`).
pub fn entry_matches(message: &str, raw_line: &str, needle: &str) -> (r: bool)
    ensures
        r == text_matches(message@, raw_line@, needle@),
{
    let n = to_lower(needle);
    let m = to_lower(message);
    let l = to_lower(raw_line);
    has_text(m.as_str(), n.as_str()) || has_text(l.as_str(), n.as_str())
}

/// One line kept from a log file.
#[derive(Debug, Clone)]
pub struct LogEntry {
    /// Seconds since the epoch, UTC.
    pub timestamp: i64,
    pub source: String,
    pub level: LogLevel,
    pub message: String,
    pub raw_line: String,
}

/// An alert raised by a security pattern found in a log entry.
#[derive(Debug, Clone)]
pub struct SecurityLogAlert {
    pub id: String,
    /// The time of the entry that raised it, seconds since the epoch, UTC.
    pub timestamp: i64,
    pub log_source: String,
    pub alert_type: LogAlertType,
    pub severity: LogAlertSeverity,
    pub message: String,
    pub raw_log_entry: String,
    pub matched_pattern: String,
}

/// The entries read from the configured logs, the alerts raised from them, and how many
/// lines of each file were taken in.
pub struct LogMonitor {
    pub config: LogMonitorConfig,
    pub log_entries: Vec<LogEntry>,
    pub alerts: Vec<SecurityLogAlert>,
    /// For each file read, the position reached in it.
    pub file_positions: Vec<(String, u64)>,
    /// When the logs were last looked at, seconds since the epoch, UTC.
    pub last_check: i64,
}

/// Seconds since the epoch, now (chrono `Utc::now().timestamp()`). Nothing is claimed of
/// the value: it is the clock's.
#[verifier::external_body]
pub(crate) fn utc_seconds() -> i64 {
    chrono::Utc::now().timestamp()
}

/// `e` is the entry read from `line` of the file `source`: the trimmed line, its level
/// and message, and the time it shows where it shows one (else the time it was read).
pub open spec fn entry_of_line(e: LogEntry, line: Seq<char>, source: Seq<char>) -> bool {
    let t = trim(line);
    &&& e.source@ == source
    &&& e.level == level_of(t)
    &&& e.message@ == message_of(t)
    &&& e.raw_line@ == t
    &&& (line_time(t) matches Some(s) ==> e.timestamp == s)
}

/// The lines whose stamp can be cut out: a trimmed line longer than fifteen bytes has
/// a character boundary at its fifteenth byte.
pub open spec fn stamp_readable(line: Seq<char>) -> bool {
    utf8_len(trim(line)) > 15 ==> stamp_boundary(trim(line))
}

impl LogMonitor {
    /// A monitor with no entries, alerts or file positions yet, last checked now.
    pub fn new(config: LogMonitorConfig) -> (r: Self)
        ensures
            r.config == config,
            r.log_entries@.len() == 0,
            r.alerts@.len() == 0,
            r.file_positions@.len() == 0,
    {
        LogMonitor {
            config,
            log_entries: Vec::new(),
            alerts: Vec::new(),
            file_positions: Vec::new(),
            last_check: utc_seconds(),
        }
    }

    /// A monitor with the default configuration.
    pub fn with_default_config() -> (r: Self)
        ensures
            default_log_config(r.config),
            r.log_entries@.len() == 0,
            r.alerts@.len() == 0,
            r.file_positions@.len() == 0,
    {
        LogMonitor::new(LogMonitorConfig::default())
    }

    /// The time a log line shows (the current time where it shows none), and its level.
    pub fn extract_timestamp_and_level(&self, line: &str) -> (r: (i64, LogLevel))
        requires
            utf8_len(line@) > 15 ==> stamp_boundary(line@),
        ensures
            line_time(line@) matches Some(s) ==> r.0 == s,
            r.1 == level_of(line@),
    {
        let timestamp = match extract_timestamp(line) {
            Some(s) => s,
            None => utc_seconds(),
        };
        (timestamp, extract_level(line))
    }

    /// The entry read from `line` of the file `source`; `None` for a blank line.
    pub fn parse_log_line(&self, line: &str, source: &str) -> (r: Option<LogEntry>)
        requires
            stamp_readable(line@),
        ensures
            match r {
                None => trim(line@).len() == 0,
                Some(e) => trim(line@).len() > 0 && entry_of_line(e, line@, source@),
            },
    {
        let t = match trimmed_line(line) {
            None => return None,
            Some(t) => t,
        };
        let (timestamp, level) = self.extract_timestamp_and_level(t.as_str());
        Some(
            LogEntry {
                timestamp,
                source: source.to_owned(),
                level,
                message: extract_message(t.as_str()),
                raw_line: t,
            },
        )
    }
}

/// The entries of `es` stamped after `cutoff`, in order.
pub open spec fn entries_after(es: Seq<LogEntry>, cutoff: int) -> Seq<LogEntry>
    decreases es.len(),
{
    if es.len() == 0 {
        Seq::empty()
    } else {
        let init = entries_after(es.drop_last(), cutoff);
        if es.last().timestamp > cutoff {
            init.push(es.last())
        } else {
            init
        }
    }
}

/// The alerts of `als` stamped after `cutoff`, in order.
pub open spec fn alerts_after(als: Seq<SecurityLogAlert>, cutoff: int) -> Seq<SecurityLogAlert>
    decreases als.len(),
{
    if als.len() == 0 {
        Seq::empty()
    } else {
        let init = alerts_after(als.drop_last(), cutoff);
        if als.last().timestamp > cutoff {
            init.push(als.last())
        } else {
            init
        }
    }
}

/// The entries of `es` at level `level`, in order.
pub open spec fn entries_at_level(es: Seq<LogEntry>, level: LogLevel) -> Seq<LogEntry>
    decreases es.len(),
{
    if es.len() == 0 {
        Seq::empty()
    } else {
        let init = entries_at_level(es.drop_last(), level);
        if es.last().level == level {
            init.push(es.last())
        } else {
            init
        }
    }
}

/// The entries of `es` that match `query` (see `text_matches`), in order.
pub open spec fn entries_matching(es: Seq<LogEntry>, query: Seq<char>) -> Seq<LogEntry>
    decreases es.len(),
{
    if es.len() == 0 {
        Seq::empty()
    } else {
        let init = entries_matching(es.drop_last(), query);
        if text_matches(es.last().message@, es.last().raw_line@, query) {
            init.push(es.last())
        } else {
            init
        }
    }
}

/// The alerts of `als` of severity `severity`, in order.
pub open spec fn alerts_of_severity(als: Seq<SecurityLogAlert>, severity: LogAlertSeverity) -> Seq<SecurityLogAlert>
    decreases als.len(),
{
    if als.len() == 0 {
        Seq::empty()
    } else {
        let init = alerts_of_severity(als.drop_last(), severity);
        if als.last().severity == severity {
            init.push(als.last())
        } else {
            init
        }
    }
}

/// The values behind a list of references.
pub open spec fn derefs<T>(r: Seq<&T>) -> Seq<T> {
    Seq::new(r.len(), |i: int| *r[i])
}

impl LogMonitor {
    /// Drops the entries stamped a day or more before `now` (seconds since the epoch).
    pub fn clear_old_entries_at(&mut self, now: i64)
        ensures
            final(self).log_entries@ == entries_after(old(self).log_entries@, now - 86400),
            final(self).config == old(self).config,
            final(self).alerts == old(self).alerts,
            final(self).file_positions == old(self).file_positions,
            final(self).last_check == old(self).last_check,
    {
        let mut rest: Vec<LogEntry> = Vec::new();
        std::mem::swap(&mut rest, &mut self.log_entries);
        let ghost all = rest@;
        let mut kept: Vec<LogEntry> = Vec::new();
        let ghost mut i: int = 0;
        while rest.len() > 0
            invariant
                0 <= i <= all.len(),
                rest@ == all.skip(i),
                kept@ == entries_after(all.take(i), now - 86400),
            decreases rest.len(),
        {
            let e = rest.remove(0);
            assert(all.take(i + 1).drop_last() == all.take(i));
            if (e.timestamp as i128) > (now as i128) - 86400 {
                kept.push(e);
            }
            proof {
                i = i + 1;
            }
        }
        assert(all.take(i) == all);
        self.log_entries = kept;
    }

    /// Drops the entries stamped a day or more ago (what is kept is what
    /// `clear_old_entries_at` keeps for the current time).
    pub fn clear_old_entries(&mut self)
        ensures
            exists|cutoff: int| final(self).log_entries@ == #[trigger] entries_after(old(self).log_entries@, cutoff),
            final(self).config == old(self).config,
            final(self).alerts == old(self).alerts,
            final(self).file_positions == old(self).file_positions,
            final(self).last_check == old(self).last_check,
    {
        let now = utc_seconds();
        self.clear_old_entries_at(now);
    }

    /// Drops the alerts stamped six hours or more before `now` (seconds since the epoch).
    pub fn clear_old_alerts_at(&mut self, now: i64)
        ensures
            final(self).alerts@ == alerts_after(old(self).alerts@, now - 21600),
            final(self).config == old(self).config,
            final(self).log_entries == old(self).log_entries,
            final(self).file_positions == old(self).file_positions,
            final(self).last_check == old(self).last_check,
    {
        let mut rest: Vec<SecurityLogAlert> = Vec::new();
        std::mem::swap(&mut rest, &mut self.alerts);
        let ghost all = rest@;
        let mut kept: Vec<SecurityLogAlert> = Vec::new();
        let ghost mut i: int = 0;
        while rest.len() > 0
            invariant
                0 <= i <= all.len(),
                rest@ == all.skip(i),
                kept@ == alerts_after(all.take(i), now - 21600),
            decreases rest.len(),
        {
            let a = rest.remove(0);
            assert(all.take(i + 1).drop_last() == all.take(i));
            if (a.timestamp as i128) > (now as i128) - 21600 {
                kept.push(a);
            }
            proof {
                i = i + 1;
            }
        }
        assert(all.take(i) == all);
        self.alerts = kept;
    }

    /// Drops the alerts stamped six hours or more ago (what is kept is what
    /// `clear_old_alerts_at` keeps for the current time).
    pub fn clear_old_alerts(&mut self)
        ensures
            exists|cutoff: int| final(self).alerts@ == #[trigger] alerts_after(old(self).alerts@, cutoff),
            final(self).config == old(self).config,
            final(self).log_entries == old(self).log_entries,
            final(self).file_positions == old(self).file_positions,
            final(self).last_check == old(self).last_check,
    {
        let now = utc_seconds();
        self.clear_old_alerts_at(now);
    }

    /// The newest entries, newest first, at most `limit` of them.
    pub fn get_recent_entries(&self, limit: usize) -> (r: Vec<&LogEntry>)
        ensures
            r@.len() == if limit < self.log_entries@.len() { limit as int } else { self.log_entries@.len() as int },
            forall|k: int| 0 <= k < r@.len() ==> *r@[k] == self.log_entries@[self.log_entries@.len() - 1 - k],
    {
        let n = self.log_entries.len();
        let mut r: Vec<&LogEntry> = Vec::new();
        let mut k: usize = 0;
        while k < n && k < limit
            invariant
                n == self.log_entries@.len(),
                k <= n,
                k <= limit,
                r@.len() == k,
                forall|j: int| 0 <= j < k ==> *r@[j] == self.log_entries@[n - 1 - j],
            decreases n - k,
        {
            r.push(&self.log_entries[n - 1 - k]);
            k = k + 1;
        }
        r
    }

    /// The entries at level `level`, in order.
    pub fn get_entries_by_level(&self, level: LogLevel) -> (r: Vec<&LogEntry>)
        ensures
            derefs(r@) == entries_at_level(self.log_entries@, level),
    {
        let mut r: Vec<&LogEntry> = Vec::new();
        let mut i: usize = 0;
        while i < self.log_entries.len()
            invariant
                i <= self.log_entries@.len(),
                derefs(r@) == entries_at_level(self.log_entries@.take(i as int), level),
            decreases self.log_entries.len() - i,
        {
            assert(self.log_entries@.take(i + 1).drop_last() == self.log_entries@.take(i as int));
            let e = &self.log_entries[i];
            if e.level == level {
                let ghost before = derefs(r@);
                r.push(e);
                assert(derefs(r@) == before.push(*e));
            }
            i = i + 1;
        }
        assert(self.log_entries@.take(i as int) == self.log_entries@);
        r
    }
}

/// The name of an alert type, as `{:?}` writes it.
pub open spec fn alert_type_name(t: LogAlertType) -> Seq<char> {
    match t {
        LogAlertType::AuthenticationFailure => "AuthenticationFailure"@,
        LogAlertType::PrivilegeEscalation => "PrivilegeEscalation"@,
        LogAlertType::SuspiciousCommand => "SuspiciousCommand"@,
        LogAlertType::NetworkIntrusion => "NetworkIntrusion"@,
        LogAlertType::FileSystemAccess => "FileSystemAccess"@,
        LogAlertType::ServiceFailure => "ServiceFailure"@,
        LogAlertType::SystemAnomaly => "SystemAnomaly"@,
    }
}

/// Every alert type, in declaration order.
pub open spec fn all_alert_types() -> Seq<LogAlertType> {
    seq![
        LogAlertType::AuthenticationFailure,
        LogAlertType::PrivilegeEscalation,
        LogAlertType::SuspiciousCommand,
        LogAlertType::NetworkIntrusion,
        LogAlertType::FileSystemAccess,
        LogAlertType::ServiceFailure,
        LogAlertType::SystemAnomaly,
    ]
}

/// How many alerts of `als` are of type `t`.
pub open spec fn count_of_type(als: Seq<SecurityLogAlert>, t: LogAlertType) -> nat
    decreases als.len(),
{
    if als.len() == 0 {
        0
    } else {
        count_of_type(als.drop_last(), t) + if als.last().alert_type == t { 1nat } else { 0nat }
    }
}

/// For the types of `ts` that some alert of `als` has, in order: the type's name and
/// how many alerts have it.
pub open spec fn type_counts(als: Seq<SecurityLogAlert>, ts: Seq<LogAlertType>) -> Seq<(Seq<char>, nat)>
    decreases ts.len(),
{
    if ts.len() == 0 {
        Seq::empty()
    } else {
        let init = type_counts(als, ts.drop_last());
        let c = count_of_type(als, ts.last());
        if c > 0 {
            init.push((alert_type_name(ts.last()), c))
        } else {
            init
        }
    }
}

/// A list of named counts as names and numbers.
pub open spec fn named_counts(r: Seq<(String, usize)>) -> Seq<(Seq<char>, nat)> {
    Seq::new(r.len(), |i: int| (r[i].0@, r[i].1 as nat))
}

/// The name of an alert type (see `alert_type_name`).
fn alert_type_text(t: LogAlertType) -> (r: String)
    ensures
        r@ == alert_type_name(t),
{
    match t {
        LogAlertType::AuthenticationFailure => "AuthenticationFailure".to_owned(),
        LogAlertType::PrivilegeEscalation => "PrivilegeEscalation".to_owned(),
        LogAlertType::SuspiciousCommand => "SuspiciousCommand".to_owned(),
        LogAlertType::NetworkIntrusion => "NetworkIntrusion".to_owned(),
        LogAlertType::FileSystemAccess => "FileSystemAccess".to_owned(),
        LogAlertType::ServiceFailure => "ServiceFailure".to_owned(),
        LogAlertType::SystemAnomaly => "SystemAnomaly".to_owned(),
    }
}

impl LogMonitor {
    /// The alerts raised, in order.
    pub fn get_alerts(&self) -> (r: &[SecurityLogAlert])
        ensures
            r@ == self.alerts@,
    {
        self.alerts.as_slice()
    }

    /// The alerts of severity `severity`, in order.
    pub fn get_alerts_by_severity(&self, severity: LogAlertSeverity) -> (r: Vec<&SecurityLogAlert>)
        ensures
            derefs(r@) == alerts_of_severity(self.alerts@, severity),
    {
        let mut r: Vec<&SecurityLogAlert> = Vec::new();
        let mut i: usize = 0;
        while i < self.alerts.len()
            invariant
                i <= self.alerts@.len(),
                derefs(r@) == alerts_of_severity(self.alerts@.take(i as int), severity),
            decreases self.alerts.len() - i,
        {
            assert(self.alerts@.take(i + 1).drop_last() == self.alerts@.take(i as int));
            let a = &self.alerts[i];
            if a.severity == severity {
                let ghost before = derefs(r@);
                r.push(a);
                assert(derefs(r@) == before.push(*a));
            }
            i = i + 1;
        }
        assert(self.alerts@.take(i as int) == self.alerts@);
        r
    }

    /// How many alerts there are of each type that occurs, by the type's name (types in
    /// declaration order).
    pub fn get_alert_count_by_type(&self) -> (r: Vec<(String, usize)>)
        ensures
            named_counts(r@) == type_counts(self.alerts@, all_alert_types()),
    {
        let ts: [LogAlertType; 7] = [
            LogAlertType::AuthenticationFailure,
            LogAlertType::PrivilegeEscalation,
            LogAlertType::SuspiciousCommand,
            LogAlertType::NetworkIntrusion,
            LogAlertType::FileSystemAccess,
            LogAlertType::ServiceFailure,
            LogAlertType::SystemAnomaly,
        ];
        assert(ts@ == all_alert_types());
        let mut r: Vec<(String, usize)> = Vec::new();
        let mut j: usize = 0;
        while j < 7
            invariant
                j <= 7,
                ts@ == all_alert_types(),
                named_counts(r@) == type_counts(self.alerts@, ts@.take(j as int)),
            decreases 7 - j,
        {
            assert(ts@.take(j + 1).drop_last() == ts@.take(j as int));
            let t = ts[j];
            let mut c: usize = 0;
            let mut i: usize = 0;
            while i < self.alerts.len()
                invariant
                    i <= self.alerts@.len(),
                    c == count_of_type(self.alerts@.take(i as int), t),
                    c <= i,
                decreases self.alerts.len() - i,
            {
                assert(self.alerts@.take(i + 1).drop_last() == self.alerts@.take(i as int));
                if self.alerts[i].alert_type == t {
                    c = c + 1;
                }
                i = i + 1;
            }
            assert(self.alerts@.take(i as int) == self.alerts@);
            if c > 0 {
                let ghost before = named_counts(r@);
                r.push((alert_type_text(t), c));
                assert(named_counts(r@) =~= before.push((alert_type_name(t), c as nat)));
            }
            j = j + 1;
        }
        assert(ts@.take(7) == ts@);
        r
    }

    /// The entries that match `query`, letter case aside (see `text_matches`), in order.
    pub fn search_logs(&self, query: &str) -> (r: Vec<&LogEntry>)
        ensures
            derefs(r@) == entries_matching(self.log_entries@, query@),
    {
        let mut r: Vec<&LogEntry> = Vec::new();
        let mut i: usize = 0;
        while i < self.log_entries.len()
            invariant
                i <= self.log_entries@.len(),
                derefs(r@) == entries_matching(self.log_entries@.take(i as int), query@),
            decreases self.log_entries.len() - i,
        {
            assert(self.log_entries@.take(i + 1).drop_last() == self.log_entries@.take(i as int));
            let e = &self.log_entries[i];
            if entry_matches(e.message.as_str(), e.raw_line.as_str(), query) {
                let ghost before = derefs(r@);
                r.push(e);
                assert(derefs(r@) == before.push(*e));
            }
            i = i + 1;
        }
        assert(self.log_entries@.take(i as int) == self.log_entries@);
        r
    }
}

/// The position reached in the file `path`, 0 for a file not read yet (the latest
/// record for the path counts).
pub open spec fn position_of(ps: Seq<(String, u64)>, path: Seq<char>) -> u64
    decreases ps.len(),
{
    if ps.len() == 0 {
        0
    } else if ps.last().0@ == path {
        ps.last().1
    } else {
        position_of(ps.drop_last(), path)
    }
}

proof fn lemma_position_absent(ps: Seq<(String, u64)>, path: Seq<char>)
    requires
        forall|i: int| 0 <= i < ps.len() ==> (#[trigger] ps[i]).0@ != path,
    ensures
        position_of(ps, path) == 0,
    decreases ps.len(),
{
    if ps.len() > 0 {
        assert(ps.last() == ps[ps.len() - 1]);
        lemma_position_absent(ps.drop_last(), path);
    }
}

proof fn lemma_position_at(ps: Seq<(String, u64)>, path: Seq<char>, j: int)
    requires
        0 <= j < ps.len(),
        ps[j].0@ == path,
        forall|i: int| j < i < ps.len() ==> (#[trigger] ps[i]).0@ != path,
    ensures
        position_of(ps, path) == ps[j].1,
    decreases ps.len(),
{
    if j < ps.len() - 1 {
        assert(ps.last() == ps[ps.len() - 1]);
        lemma_position_at(ps.drop_last(), path, j);
    }
}

proof fn lemma_position_update(ps: Seq<(String, u64)>, j: int, v: u64, q: Seq<char>)
    requires
        0 <= j < ps.len(),
        forall|i: int| j < i < ps.len() ==> (#[trigger] ps[i]).0@ != ps[j].0@,
    ensures
        position_of(ps.update(j, (ps[j].0, v)), q) == if q == ps[j].0@ { v } else { position_of(ps, q) },
    decreases ps.len(),
{
    let ps2 = ps.update(j, (ps[j].0, v));
    assert(ps.last() == ps[ps.len() - 1]);
    if j == ps.len() - 1 {
        assert(ps2.drop_last() == ps.drop_last());
    } else {
        assert(ps2.drop_last() == ps.drop_last().update(j, (ps[j].0, v)));
        lemma_position_update(ps.drop_last(), j, v, q);
    }
}

/// The lines of `lines` that are not blank once trimmed, in order.
pub open spec fn nonblank_lines(lines: Seq<String>) -> Seq<Seq<char>>
    decreases lines.len(),
{
    if lines.len() == 0 {
        Seq::empty()
    } else {
        let init = nonblank_lines(lines.drop_last());
        if trim(lines.last()@).len() > 0 {
            init.push(lines.last()@)
        } else {
            init
        }
    }
}

proof fn lemma_nonblank_prefix(s: Seq<String>, j: int)
    requires
        0 <= j <= s.len(),
    ensures
        nonblank_lines(s.take(j)).len() <= nonblank_lines(s).len(),
        forall|k: int|
            0 <= k < nonblank_lines(s.take(j)).len() ==> nonblank_lines(s)[k] == nonblank_lines(
                s.take(j),
            )[k],
    decreases s.len(),
{
    if j < s.len() {
        assert(s.drop_last().take(j) == s.take(j));
        lemma_nonblank_prefix(s.drop_last(), j);
    } else {
        assert(s.take(j) == s);
    }
}

/// The lines after the first `pos`.
pub open spec fn unread_lines(lines: Seq<String>, pos: u64) -> Seq<String> {
    if pos >= lines.len() {
        Seq::empty()
    } else {
        lines.skip(pos as int)
    }
}

/// The lines taken in on a read of `lines` from position `pos`: the non-blank lines
/// after the first `pos`, at most 101 of them.
pub open spec fn lines_taken(lines: Seq<String>, pos: u64) -> Seq<Seq<char>> {
    let f = nonblank_lines(unread_lines(lines, pos));
    if f.len() > 101 {
        f.take(101)
    } else {
        f
    }
}

/// The lines from `pos` up to (not including) `i`.
pub open spec fn lines_between(lines: Seq<String>, pos: u64, i: int) -> Seq<String> {
    if pos >= i {
        Seq::empty()
    } else {
        lines.subrange(pos as int, i)
    }
}

/// Every line looked at on a read from position `pos` (those after `pos` met before
/// 101 entries were taken) has a readable stamp.
pub open spec fn lines_readable(lines: Seq<String>, pos: u64) -> bool {
    forall|i: int|
        pos <= i < lines.len() && nonblank_lines(lines_between(lines, pos, i)).len() <= 100
            ==> stamp_readable(#[trigger] lines[i]@)
}

/// The latest record for `path` in `ps`, if any.
fn last_record(ps: &Vec<(String, u64)>, path: &str) -> (r: Option<usize>)
    ensures
        match r {
            Some(j) => j < ps@.len() && ps@[j as int].0@ == path@ && forall|i: int|
                j < i < ps@.len() ==> (#[trigger] ps@[i]).0@ != path@,
            None => forall|i: int| 0 <= i < ps@.len() ==> (#[trigger] ps@[i]).0@ != path@,
        },
{
    let mut j: usize = ps.len();
    while j > 0
        invariant
            j <= ps@.len(),
            forall|i: int| j <= i < ps@.len() ==> (#[trigger] ps@[i]).0@ != path@,
        decreases j,
    {
        if crate::text::str_eq(ps[j - 1].0.as_str(), path) {
            return Some(j - 1);
        }
        j = j - 1;
    }
    None
}

impl LogMonitor {
    /// The position reached in the file `path` (0 for a file not read yet).
    pub fn file_position(&self, path: &str) -> (r: u64)
        ensures
            r == position_of(self.file_positions@, path@),
    {
        match last_record(&self.file_positions, path) {
            Some(j) => {
                proof {
                    lemma_position_at(self.file_positions@, path@, j as int);
                }
                self.file_positions[j].1
            },
            None => {
                proof {
                    lemma_position_absent(self.file_positions@, path@);
                }
                0
            },
        }
    }

    /// Records `pos` as the position reached in the file `path`.
    pub fn set_file_position(&mut self, path: &str, pos: u64)
        ensures
            position_of(final(self).file_positions@, path@) == pos,
            forall|q: Seq<char>|
                q != path@ ==> #[trigger] position_of(final(self).file_positions@, q) == position_of(
                    old(self).file_positions@,
                    q,
                ),
            final(self).config == old(self).config,
            final(self).log_entries == old(self).log_entries,
            final(self).alerts == old(self).alerts,
            final(self).last_check == old(self).last_check,
    {
        match last_record(&self.file_positions, path) {
            Some(j) => {
                let key = self.file_positions[j].0.clone();
                let ghost ps = self.file_positions@;
                self.file_positions.set(j, (key, pos));
                proof {
                    assert(self.file_positions@ == ps.update(j as int, (ps[j as int].0, pos)));
                    assert forall|q: Seq<char>| true implies #[trigger] position_of(self.file_positions@, q) == if q == path@ {
                        pos
                    } else {
                        position_of(ps, q)
                    } by {
                        lemma_position_update(ps, j as int, pos, q);
                    }
                }
            },
            None => {
                let ghost ps = self.file_positions@;
                self.file_positions.push((path.to_owned(), pos));
                assert(self.file_positions@.drop_last() == ps);
            },
        }
    }
}

/// The newest `max` entries of `all` (all of them when there are no more than `max`).
pub open spec fn newest(all: Seq<LogEntry>, max: nat) -> Seq<LogEntry> {
    if all.len() > max {
        all.skip(all.len() - max)
    } else {
        all
    }
}

/// Adding entries never leaves more than the limit, and what stays is the newest: the
/// end of what was held followed by what was added.
pub proof fn lemma_newest_kept(all: Seq<LogEntry>, max: nat)
    ensures
        newest(all, max).len() == if all.len() > max { max } else { all.len() },
        newest(all, max) == all.skip(all.len() - newest(all, max).len()),
{
    if all.len() <= max {
        assert(all.skip(0) == all);
    }
}

/// `fresh` holds the entries read from the lines `taken` of the file `path`, in order.
pub open spec fn read_from(fresh: Seq<LogEntry>, taken: Seq<Seq<char>>, path: Seq<char>) -> bool {
    &&& fresh.len() == taken.len()
    &&& forall|k: int| 0 <= k < fresh.len() ==> entry_of_line(#[trigger] fresh[k], taken[k], path)
}

impl LogMonitor {
    /// The entries read from the lines of `file_path` after the first `pos`: one for each
    /// non-blank line, at most 101.
    fn entries_from_lines(&self, file_path: &str, lines: &Vec<String>, pos: u64) -> (r: Vec<LogEntry>)
        requires
            lines_readable(lines@, pos),
        ensures
            read_from(r@, lines_taken(lines@, pos), file_path@),
    {
        let ghost unread = unread_lines(lines@, pos);
        let mut new_entries: Vec<LogEntry> = Vec::new();
        let mut i: usize = 0;
        while i < lines.len() && new_entries.len() <= 100
            invariant
                i <= lines@.len(),
                new_entries@.len() <= 101,
                read_from(new_entries@, nonblank_lines(lines_between(lines@, pos, i as int)), file_path@),
                lines_readable(lines@, pos),
            decreases lines.len() - i,
        {
            if (i as u64) >= pos {
                let ghost before = lines_between(lines@, pos, i as int);
                assert(lines_between(lines@, pos, i + 1) == before.push(lines@[i as int]));
                assert(lines_between(lines@, pos, i + 1).drop_last() == before);
                assert(stamp_readable(lines@[i as int]@));
                match self.parse_log_line(lines[i].as_str(), file_path) {
                    Some(e) => {
                        new_entries.push(e);
                    },
                    None => {},
                }
            } else {
                assert(lines_between(lines@, pos, i + 1) == Seq::<String>::empty());
            }
            i = i + 1;
        }
        proof {
            let seen = lines_between(lines@, pos, i as int);
            if pos < lines@.len() {
                assert(unread.take(i - pos) == seen) by {
                    if pos < i {
                        assert(unread.take(i - pos) =~= lines@.subrange(pos as int, i as int));
                    }
                }
                lemma_nonblank_prefix(unread, i - pos);
                if i == lines@.len() {
                    assert(unread.take(i - pos) == unread);
                }
            } else {
                assert(seen == Seq::<String>::empty()) by {
                    if pos < i {
                        assert(false);
                    }
                }
                assert(unread == Seq::<String>::empty());
            }
            assert(new_entries@.len() == lines_taken(lines@, pos).len());
            assert forall|k: int| 0 <= k < new_entries@.len() implies entry_of_line(
                #[trigger] new_entries@[k],
                lines_taken(lines@, pos)[k],
                file_path@,
            ) by {
                assert(lines_taken(lines@, pos)[k] == nonblank_lines(seen)[k]);
            }
        }
        new_entries
    }

    /// Adds `fresh` after the entries held and keeps only the newest `max_entries`.
    pub fn add_entries(&mut self, fresh: Vec<LogEntry>)
        ensures
            final(self).log_entries@ == newest(old(self).log_entries@ + fresh@, old(self).config.max_entries as nat),
            final(self).config == old(self).config,
            final(self).alerts == old(self).alerts,
            final(self).file_positions == old(self).file_positions,
            final(self).last_check == old(self).last_check,
    {
        let mut fresh = fresh;
        self.log_entries.append(&mut fresh);
        let len = self.log_entries.len();
        if len > self.config.max_entries {
            let excess = len - self.config.max_entries;
            let kept = self.log_entries.split_off(excess);
            self.log_entries = kept;
        }
    }

    /// Takes in the lines of the file `file_path`: skips as many lines as the position
    /// recorded for the file, reads entries from the non-blank lines after them (at most
    /// 101), advances the position by the number of entries read, adds the entries and
    /// keeps only the newest `max_entries`.
    pub fn read_log_lines(&mut self, file_path: &str, lines: &Vec<String>)
        requires
            lines_readable(lines@, position_of(old(self).file_positions@, file_path@)),
            position_of(old(self).file_positions@, file_path@) <= u64::MAX - 101,
        ensures
            ({
                let pos = position_of(old(self).file_positions@, file_path@);
                let taken = lines_taken(lines@, pos);
                &&& position_of(final(self).file_positions@, file_path@) == pos + taken.len()
                &&& exists|fresh: Seq<LogEntry>|
                    read_from(fresh, taken, file_path@) && final(self).log_entries@ == #[trigger] newest(
                        old(self).log_entries@ + fresh,
                        old(self).config.max_entries as nat,
                    )
            }),
            forall|q: Seq<char>|
                q != file_path@ ==> #[trigger] position_of(final(self).file_positions@, q) == position_of(
                    old(self).file_positions@,
                    q,
                ),
            final(self).config == old(self).config,
            final(self).alerts == old(self).alerts,
            final(self).last_check == old(self).last_check,
    {
        let pos = self.file_position(file_path);
        let fresh = self.entries_from_lines(file_path, lines, pos);
        let n = fresh.len();
        assert(n <= 101);
        self.set_file_position(file_path, pos + n as u64);
        let ghost f = fresh@;
        self.add_entries(fresh);
        assert(read_from(f, lines_taken(lines@, pos), file_path@));
    }
}

/// What an alert says, its identifier aside: time, source, type, severity, message,
/// log line and pattern.
pub type AlertFacts = (i64, Seq<char>, LogAlertType, LogAlertSeverity, Seq<char>, Seq<char>, Seq<char>);

/// What `a` says, its identifier aside.
pub open spec fn alert_facts(a: SecurityLogAlert) -> AlertFacts {
    (a.timestamp, a.log_source@, a.alert_type, a.severity, a.message@, a.raw_log_entry@, a.matched_pattern@)
}

/// What each alert of `als` says, in order.
pub open spec fn alerts_facts(als: Seq<SecurityLogAlert>) -> Seq<AlertFacts> {
    Seq::new(als.len(), |i: int| alert_facts(als[i]))
}

/// The alert that the entry `e` raises for the pattern `p`, its identifier aside.
pub open spec fn raised_alert(e: LogEntry, p: AlertPattern) -> AlertFacts {
    (
        e.timestamp,
        e.source@,
        p.alert_type,
        p.severity,
        "Security pattern detected: "@ + p.pattern@,
        e.raw_line@,
        p.pattern@,
    )
}

/// Some alert of `facts` was raised for `pattern` less than a minute before `now`.
pub open spec fn alerted_lately(facts: Seq<AlertFacts>, pattern: Seq<char>, now: int) -> bool {
    exists|k: int| 0 <= k < facts.len() && (#[trigger] facts[k]).6 == pattern && now - facts[k].0 < 60
}

/// The alerts after the entry `e` is held against the patterns `ps` in turn: a pattern
/// that the entry matches raises an alert unless one was raised for it lately.
pub open spec fn scan_patterns(facts: Seq<AlertFacts>, e: LogEntry, ps: Seq<AlertPattern>, now: int) -> Seq<AlertFacts>
    decreases ps.len(),
{
    if ps.len() == 0 {
        facts
    } else {
        let before = scan_patterns(facts, e, ps.drop_last(), now);
        let p = ps.last();
        if text_matches(e.message@, e.raw_line@, p.pattern@) && !alerted_lately(before, p.pattern@, now) {
            before.push(raised_alert(e, p))
        } else {
            before
        }
    }
}

/// The alerts after the entries `es` stamped less than five minutes before `now` are
/// held against the patterns `ps`, in order.
pub open spec fn scan_entries(facts: Seq<AlertFacts>, es: Seq<LogEntry>, ps: Seq<AlertPattern>, now: int) -> Seq<AlertFacts>
    decreases es.len(),
{
    if es.len() == 0 {
        facts
    } else {
        let before = scan_entries(facts, es.drop_last(), ps, now);
        if now - es.last().timestamp < 300 {
            scan_patterns(before, es.last(), ps, now)
        } else {
            before
        }
    }
}

/// An alert identifier: `log-alert-` and a number (the clock's, in nanoseconds).
pub open spec fn log_alert_id(id: Seq<char>) -> bool {
    exists|n: i64| id == "log-alert-"@ + signed_digits(n as int)
}

/// The alerts `fin` are `old` followed by new ones with alert identifiers.
pub open spec fn alerts_extend(fin: Seq<SecurityLogAlert>, old: Seq<SecurityLogAlert>) -> bool {
    &&& old.len() <= fin.len()
    &&& forall|k: int| 0 <= k < old.len() ==> #[trigger] fin[k] == old[k]
    &&& forall|k: int| old.len() <= k < fin.len() ==> log_alert_id((#[trigger] fin[k]).id@)
}

/// Whether an alert was raised for `pattern` less than a minute before `now`.
fn alerted_lately_in(alerts: &Vec<SecurityLogAlert>, pattern: &str, now: i64) -> (r: bool)
    ensures
        r == alerted_lately(alerts_facts(alerts@), pattern@, now as int),
{
    let ghost facts = alerts_facts(alerts@);
    let mut k: usize = 0;
    while k < alerts.len()
        invariant
            k <= alerts@.len(),
            facts == alerts_facts(alerts@),
            forall|j: int| 0 <= j < k ==> !((#[trigger] facts[j]).6 == pattern@ && now - facts[j].0 < 60),
        decreases alerts.len() - k,
    {
        let a = &alerts[k];
        if crate::text::str_eq(a.matched_pattern.as_str(), pattern) && (now as i128) - (a.timestamp as i128) < 60 {
            assert(facts[k as int].6 == pattern@);
            return true;
        }
        k = k + 1;
    }
    false
}

impl LogMonitor {
    /// Holds the entry at `i` against every pattern in turn (see `scan_patterns`).
    fn scan_entry(&mut self, i: usize, now: i64)
        requires
            i < old(self).log_entries@.len(),
        ensures
            alerts_facts(final(self).alerts@) == scan_patterns(
                alerts_facts(old(self).alerts@),
                old(self).log_entries@[i as int],
                old(self).config.alert_patterns@,
                now as int,
            ),
            alerts_extend(final(self).alerts@, old(self).alerts@),
            final(self).config == old(self).config,
            final(self).log_entries == old(self).log_entries,
            final(self).file_positions == old(self).file_positions,
            final(self).last_check == old(self).last_check,
    {
        let ghost e = self.log_entries@[i as int];
        let ghost ps = self.config.alert_patterns@;
        let ghost start = self.alerts@;
        let mut j: usize = 0;
        while j < self.config.alert_patterns.len()
            invariant
                i < self.log_entries@.len(),
                e == self.log_entries@[i as int],
                ps == self.config.alert_patterns@,
                j <= ps.len(),
                alerts_facts(self.alerts@) == scan_patterns(alerts_facts(start), e, ps.take(j as int), now as int),
                alerts_extend(self.alerts@, start),
                self.config == old(self).config,
                self.log_entries == old(self).log_entries,
                self.file_positions == old(self).file_positions,
                self.last_check == old(self).last_check,
            decreases ps.len() - j,
        {
            assert(ps.take(j + 1).drop_last() == ps.take(j as int));
            let matched = entry_matches(
                self.log_entries[i].message.as_str(),
                self.log_entries[i].raw_line.as_str(),
                self.config.alert_patterns[j].pattern.as_str(),
            );
            if matched && !alerted_lately_in(&self.alerts, self.config.alert_patterns[j].pattern.as_str(), now) {
                let n = match crate::monitor::security::utc_nanos() {
                    Some(x) => x,
                    None => 0,
                };
                let mut id = "log-alert-".to_owned();
                crate::monitor::security::push_signed64(&mut id, n);
                assert(id@ == "log-alert-"@ + signed_digits(n as int));
                let mut message = "Security pattern detected: ".to_owned();
                push_chars(&mut message, self.config.alert_patterns[j].pattern.as_str());
                let alert = SecurityLogAlert {
                    id,
                    timestamp: self.log_entries[i].timestamp,
                    log_source: self.log_entries[i].source.clone(),
                    alert_type: self.config.alert_patterns[j].alert_type,
                    severity: self.config.alert_patterns[j].severity,
                    message,
                    raw_log_entry: self.log_entries[i].raw_line.clone(),
                    matched_pattern: self.config.alert_patterns[j].pattern.clone(),
                };
                let ghost before = self.alerts@;
                self.alerts.push(alert);
                assert(alerts_facts(self.alerts@) =~= alerts_facts(before).push(raised_alert(e, ps[j as int])));
            }
            j = j + 1;
        }
        assert(ps.take(j as int) == ps);
    }

    /// Raises the alerts that the entries stamped less than five minutes before `now`
    /// call for (see `scan_entries`): each pattern an entry matches raises an alert,
    /// unless an alert was raised for that pattern less than a minute before `now`.
    pub fn analyze_logs_for_alerts_at(&mut self, now: i64)
        ensures
            alerts_facts(final(self).alerts@) == scan_entries(
                alerts_facts(old(self).alerts@),
                old(self).log_entries@,
                old(self).config.alert_patterns@,
                now as int,
            ),
            alerts_extend(final(self).alerts@, old(self).alerts@),
            final(self).config == old(self).config,
            final(self).log_entries == old(self).log_entries,
            final(self).file_positions == old(self).file_positions,
            final(self).last_check == old(self).last_check,
    {
        let ghost es = self.log_entries@;
        let ghost ps = self.config.alert_patterns@;
        let ghost start = self.alerts@;
        let mut i: usize = 0;
        while i < self.log_entries.len()
            invariant
                es == self.log_entries@,
                ps == self.config.alert_patterns@,
                i <= es.len(),
                alerts_facts(self.alerts@) == scan_entries(alerts_facts(start), es.take(i as int), ps, now as int),
                alerts_extend(self.alerts@, start),
                self.config == old(self).config,
                self.log_entries == old(self).log_entries,
                self.file_positions == old(self).file_positions,
                self.last_check == old(self).last_check,
            decreases es.len() - i,
        {
            assert(es.take(i + 1).drop_last() == es.take(i as int));
            assert(es.take(i + 1).last() == es[i as int]);
            if (now as i128) - (self.log_entries[i].timestamp as i128) < 300 {
                let ghost mid = self.alerts@;
                self.scan_entry(i, now);
                assert(alerts_extend(self.alerts@, start)) by {
                    assert forall|k: int| start.len() <= k < self.alerts@.len() implies log_alert_id(
                        (#[trigger] self.alerts@[k]).id@,
                    ) by {
                        if k < mid.len() {
                            assert(self.alerts@[k] == mid[k]);
                        }
                    }
                }
            }
            i = i + 1;
        }
        assert(es.take(i as int) == es);
    }

    /// Raises the alerts that the recent entries call for, as
    /// `analyze_logs_for_alerts_at` does for the current time.
    pub fn analyze_logs_for_alerts(&mut self)
        ensures
            exists|now: i64|
                alerts_facts(final(self).alerts@) == #[trigger] scan_entries(
                    alerts_facts(old(self).alerts@),
                    old(self).log_entries@,
                    old(self).config.alert_patterns@,
                    now as int,
                ),
            alerts_extend(final(self).alerts@, old(self).alerts@),
            final(self).config == old(self).config,
            final(self).log_entries == old(self).log_entries,
            final(self).file_positions == old(self).file_positions,
            final(self).last_check == old(self).last_check,
    {
        let now = utc_seconds();
        self.analyze_logs_for_alerts_at(now);
    }
}

} // verus!
