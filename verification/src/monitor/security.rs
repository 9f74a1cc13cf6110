//! Security analysis of processes: suspicion points, privilege escalations, alert ids.
use vstd::prelude::*;
use crate::monitor::system::signed_digits;
use crate::text::{chars_of, contains, has_sub, push_char, push_chars, str_eq};

verus! {

/// How serious an alert is.
#[derive(Debug, Clone, Copy, PartialEq, Eq, Structural)]
pub enum AlertSeverity {
    Low,
    Medium,
    High,
    Critical,
}

/// What an alert is about.
#[derive(Debug, Clone, Copy, PartialEq, Eq, Structural)]
pub enum AlertType {
    SuspiciousProcess,
    PrivilegeEscalation,
    UnusualNetworkActivity,
    HighResourceUsage,
    ProcessAnomalyDetection,
    UnauthorizedFileAccess,
}

/// The position of an alert type among the variants.
pub open spec fn alert_type_index(t: AlertType) -> nat {
    match t {
        AlertType::SuspiciousProcess => 0,
        AlertType::PrivilegeEscalation => 1,
        AlertType::UnusualNetworkActivity => 2,
        AlertType::HighResourceUsage => 3,
        AlertType::ProcessAnomalyDetection => 4,
        AlertType::UnauthorizedFileAccess => 5,
    }
}

impl AlertType {
    /// Which variant the alert type is, as a number: two alert types are of one kind
    /// exactly when their numbers agree.
    pub fn discriminant(&self) -> (r: usize)
        ensures
            r == alert_type_index(*self),
    {
        match self {
            AlertType::SuspiciousProcess => 0,
            AlertType::PrivilegeEscalation => 1,
            AlertType::UnusualNetworkActivity => 2,
            AlertType::HighResourceUsage => 3,
            AlertType::ProcessAnomalyDetection => 4,
            AlertType::UnauthorizedFileAccess => 5,
        }
    }
}

/// A process starting one with more privilege: a child running as `root` or
/// `administrator` under a parent that runs as neither (checked in that order).
pub open spec fn escalates(parent_user: Seq<char>, child_user: Seq<char>) -> bool {
    if parent_user == "root"@ {
        false
    } else if child_user == "root"@ {
        true
    } else if parent_user == "administrator"@ {
        false
    } else {
        child_user == "administrator"@
    }
}

/// Whether a process of `child_user` started by one of `parent_user` gains privilege.
pub fn is_privilege_escalation(parent_user: &str, child_user: &str) -> (r: bool)
    ensures
        r == escalates(parent_user@, child_user@),
{
    if str_eq(parent_user, "root") {
        false
    } else if str_eq(child_user, "root") {
        true
    } else if str_eq(parent_user, "administrator") {
        false
    } else {
        str_eq(child_user, "administrator")
    }
}

/// The program names that make a process suspect when they occur in its name.
pub open spec fn suspicious_names() -> Seq<Seq<char>> {
    seq![
        "nc"@,
        "netcat"@,
        "nmap"@,
        "wget"@,
        "curl"@,
        "python"@,
        "perl"@,
        "bash"@,
        "sh"@,
        "powershell"@,
        "cmd"@,
    ]
}

/// The sum of `s`.
pub open spec fn sum_of(s: Seq<u64>) -> nat
    decreases s.len(),
{
    if s.len() == 0 {
        0
    } else {
        sum_of(s.drop_last()) + s.last() as nat
    }
}

/// The readings from `k` back from the newest, `n` of them (oldest first).
pub open spec fn window(h: Seq<u64>, back: int, n: int) -> Seq<u64> {
    h.subrange(h.len() - back - n, h.len() - back)
}

/// Memory grew quickly: with ten readings or more, the mean of the newest five is more
/// than twice the mean of the five before (means rounded down).
pub open spec fn rapid_growth(h: Seq<u64>) -> bool {
    h.len() >= 10 && sum_of(window(h, 0, 5)) / 5 > (sum_of(window(h, 5, 5)) / 5) * 2
}

/// The sums in `rapid_growth` fit a `u64`.
pub open spec fn growth_fits(h: Seq<u64>) -> bool {
    h.len() >= 10 ==> {
        &&& sum_of(window(h, 0, 5)) <= u64::MAX
        &&& sum_of(window(h, 5, 5)) <= u64::MAX
        &&& (sum_of(window(h, 5, 5)) / 5) * 2 <= u64::MAX
    }
}

/// How many times `c` occurs in `s`.
pub open spec fn count_char(s: Seq<char>, c: char) -> nat
    decreases s.len(),
{
    if s.len() == 0 {
        0
    } else {
        count_char(s.drop_last(), c) + if s.last() == c {
            1nat
        } else {
            0nat
        }
    }
}

/// The suspicion points of a process: 20 for a suspect program name in its name, 15
/// for a CPU spike, 25 for rapid memory growth, 10 for more than five `-` in its
/// command line, 10 for running as `root` or `administrator`, 15 for having no parent
/// while not being pid 1; at most 100.
pub open spec fn suspicion_points(
    name: Seq<char>,
    cpu_spike: bool,
    memory_history: Seq<u64>,
    command: Seq<char>,
    user: Seq<char>,
    parent_pid: Option<u32>,
    pid: u32,
) -> nat {
    let total = (if exists|i: int|
        0 <= i < suspicious_names().len() && contains(name, #[trigger] suspicious_names()[i]) {
        20nat
    } else {
        0nat
    }) + (if cpu_spike {
        15nat
    } else {
        0nat
    }) + (if rapid_growth(memory_history) {
        25nat
    } else {
        0nat
    }) + (if count_char(command, '-') > 5 {
        10nat
    } else {
        0nat
    }) + (if user == "root"@ || user == "administrator"@ {
        10nat
    } else {
        0nat
    }) + (if parent_pid is None && pid != 1 {
        15nat
    } else {
        0nat
    });
    if total > 100 {
        100
    } else {
        total
    }
}

/// The sum of `v[lo..hi]`.
pub(crate) fn sum_range(v: &[u64], lo: usize, hi: usize) -> (r: u64)
    requires
        lo <= hi <= v@.len(),
        sum_of(v@.subrange(lo as int, hi as int)) <= u64::MAX,
    ensures
        r == sum_of(v@.subrange(lo as int, hi as int)),
{
    let mut s: u64 = 0;
    let mut i: usize = lo;
    while i < hi
        invariant
            lo <= i <= hi <= v@.len(),
            s == sum_of(v@.subrange(lo as int, i as int)),
            sum_of(v@.subrange(lo as int, hi as int)) <= u64::MAX,
        decreases hi - i,
    {
        proof {
            assert(v@.subrange(lo as int, i + 1).drop_last() == v@.subrange(lo as int, i as int));
            lemma_sum_prefix_le(v@.subrange(lo as int, hi as int), i + 1 - lo);
            assert(v@.subrange(lo as int, hi as int).take(i + 1 - lo) == v@.subrange(lo as int, i + 1));
        }
        s = s + v[i];
        i = i + 1;
    }
    s
}

pub(crate) proof fn lemma_sum_prefix_le(s: Seq<u64>, k: int)
    requires
        0 <= k <= s.len(),
    ensures
        sum_of(s.take(k)) <= sum_of(s),
    decreases s.len(),
{
    if k < s.len() {
        assert(s.drop_last().take(k) == s.take(k));
        lemma_sum_prefix_le(s.drop_last(), k);
    } else {
        assert(s.take(k) == s);
    }
}

/// How many times `c` occurs in `v`.
fn count_in(v: &[char], c: char) -> (r: usize)
    ensures
        r == count_char(v@, c),
{
    let mut n: usize = 0;
    let mut i: usize = 0;
    while i < v.len()
        invariant
            i <= v@.len(),
            n == count_char(v@.take(i as int), c),
            n <= i,
        decreases v.len() - i,
    {
        assert(v@.take(i + 1).drop_last() == v@.take(i as int));
        if v[i] == c {
            n = n + 1;
        }
        i = i + 1;
    }
    assert(v@.take(i as int) == v@);
    n
}

/// Whether some suspect program name occurs in `name`.
fn has_suspicious_name(name: &str) -> (r: bool)
    ensures
        r == exists|i: int|
            0 <= i < suspicious_names().len() && contains(name@, #[trigger] suspicious_names()[i]),
{
    let v = chars_of(name);
    let list: [&str; 11] = [
        "nc",
        "netcat",
        "nmap",
        "wget",
        "curl",
        "python",
        "perl",
        "bash",
        "sh",
        "powershell",
        "cmd",
    ];
    assert(list@ == seq!["nc", "netcat", "nmap", "wget", "curl", "python", "perl", "bash", "sh", "powershell", "cmd"]);
    let mut i: usize = 0;
    while i < 11
        invariant
            i <= 11,
            v@ == name@,
            list@ == seq!["nc", "netcat", "nmap", "wget", "curl", "python", "perl", "bash", "sh", "powershell", "cmd"],
            forall|j: int| 0 <= j < i ==> !contains(name@, #[trigger] suspicious_names()[j]),
        decreases 11 - i,
    {
        let p = chars_of(list[i]);
        assert(p@ == suspicious_names()[i as int]);
        if has_sub(&v, &p) {
            return true;
        }
        i = i + 1;
    }
    false
}

/// The suspicion points of a process (see `suspicion_points`); `cpu_spike` tells
/// whether its recent CPU use went over the alert threshold.
pub fn calculate_suspicious_points(
    name: &str,
    cpu_spike: bool,
    memory_history: &[u64],
    command: &str,
    user: &str,
    parent_pid: Option<u32>,
    pid: u32,
) -> (r: u32)
    requires
        growth_fits(memory_history@),
    ensures
        r == suspicion_points(name@, cpu_spike, memory_history@, command@, user@, parent_pid, pid),
{
    let mut total: u32 = 0;
    if has_suspicious_name(name) {
        total = total + 20;
    }
    if cpu_spike {
        total = total + 15;
    }
    let n = memory_history.len();
    if n >= 10 {
        let recent = sum_range(memory_history, n - 5, n) / 5;
        let older = sum_range(memory_history, n - 10, n - 5) / 5;
        if recent > older * 2 {
            total = total + 25;
        }
    }
    let cmd = chars_of(command);
    if count_in(&cmd, '-') > 5 {
        total = total + 10;
    }
    if str_eq(user, "root") || str_eq(user, "administrator") {
        total = total + 10;
    }
    if parent_pid.is_none() && pid != 1 {
        total = total + 15;
    }
    if total > 100 {
        100
    } else {
        total
    }
}

/// The position of the first `pid` in `pids`, or -1.
pub open spec fn first_pid_pos(pids: Seq<u32>, pid: u32) -> int
    decreases pids.len(),
{
    if pids.len() == 0 {
        -1
    } else if pids[0] == pid {
        0
    } else {
        let r = first_pid_pos(pids.drop_first(), pid);
        if r < 0 {
            -1
        } else {
            r + 1
        }
    }
}

proof fn lemma_first_pid_pos(pids: Seq<u32>, pid: u32, i: int)
    requires
        0 <= i <= pids.len(),
        forall|j: int| 0 <= j < i ==> pids[j] != pid,
        i < pids.len() ==> pids[i] == pid,
    ensures
        first_pid_pos(pids, pid) == if i < pids.len() { i } else { -1 },
    decreases pids.len(),
{
    if pids.len() > 0 && i > 0 {
        assert forall|j: int| 0 <= j < i - 1 implies pids.drop_first()[j] != pid by {
            assert(pids.drop_first()[j] == pids[j + 1]);
        }
        lemma_first_pid_pos(pids.drop_first(), pid, i - 1);
    }
}

/// The escalations among processes (pids, parents and users given position by
/// position): for each process in order whose parent is listed (its first entry),
/// the pair of its position and its parent's where the parent's user does not
/// dominate its own.
pub open spec fn escalation_pairs(
    pids: Seq<u32>,
    parents: Seq<Option<u32>>,
    users: Seq<Seq<char>>,
    n: int,
) -> Seq<(int, int)>
    decreases n,
{
    if n <= 0 {
        Seq::empty()
    } else {
        let init = escalation_pairs(pids, parents, users, n - 1);
        let c = n - 1;
        match parents[c] {
            Some(pp) => {
                let p = first_pid_pos(pids, pp);
                if p >= 0 && escalates(users[p], users[c]) {
                    init.push((c, p))
                } else {
                    init
                }
            },
            None => init,
        }
    }
}

/// The user names held by a list of strings.
pub open spec fn user_views(v: Seq<String>) -> Seq<Seq<char>> {
    Seq::new(v.len(), |i: int| v[i]@)
}

/// The privilege escalations among processes: pairs of the position of a process and
/// that of its parent (see `escalation_pairs`).
pub fn detect_privilege_escalations(pids: &[u32], parents: &[Option<u32>], users: &Vec<String>) -> (r:
    Vec<(usize, usize)>)
    requires
        parents@.len() == pids@.len(),
        users@.len() == pids@.len(),
    ensures
        r@.len() == escalation_pairs(pids@, parents@, user_views(users@), pids@.len() as int).len(),
        forall|k: int|
            0 <= k < r@.len() ==> (#[trigger] r@[k].0 as int, r@[k].1 as int) == escalation_pairs(
                pids@,
                parents@,
                user_views(users@),
                pids@.len() as int,
            )[k],
{
    let mut r: Vec<(usize, usize)> = Vec::new();
    let mut c: usize = 0;
    while c < pids.len()
        invariant
            c <= pids@.len(),
            parents@.len() == pids@.len(),
            users@.len() == pids@.len(),
            r@.len() == escalation_pairs(pids@, parents@, user_views(users@), c as int).len(),
            forall|k: int|
                0 <= k < r@.len() ==> (#[trigger] r@[k].0 as int, r@[k].1 as int) == escalation_pairs(
                    pids@,
                    parents@,
                    user_views(users@),
                    c as int,
                )[k],
        decreases pids.len() - c,
    {
        let ghost before = r@;
        if let Some(pp) = parents[c] {
            let mut p: usize = 0;
            while p < pids.len() && pids[p] != pp
                invariant
                    p <= pids@.len(),
                    forall|j: int| 0 <= j < p ==> pids@[j] != pp,
                decreases pids.len() - p,
            {
                p = p + 1;
            }
            proof {
                lemma_first_pid_pos(pids@, pp, p as int);
            }
            if p < pids.len() && is_privilege_escalation(users[p].as_str(), users[c].as_str()) {
                r.push((c, p));
            }
        }
        c = c + 1;
    }
    r
}

/// An alert identifier.
pub struct Uuid;

impl Uuid {
    /// A new identifier; its text is taken from the clock.
    pub fn new_v4() -> (r: Uuid) {
        Uuid
    }

    /// The identifier's text: `alert-` and the current UTC time in nanoseconds since
    /// the epoch (0 where that does not fit an `i64`).
    pub fn to_string(&self) -> (r: String)
        ensures
            exists|n: i64| r@ == "alert-"@ + signed_digits(n as int),
    {
        let n = match utc_nanos() {
            Some(x) => x,
            None => 0,
        };
        let mut r = "alert-".to_owned();
        push_signed64(&mut r, n);
        r
    }
}

/// Nanoseconds since the epoch, now (chrono `Utc::now().timestamp_nanos_opt()`).
/// Nothing is claimed of the value: it is the clock's.
#[verifier::external_body]
pub(crate) fn utc_nanos() -> Option<i64> {
    chrono::Utc::now().timestamp_nanos_opt()
}

/// Appends the decimal form of `n` (as `{}` formats an `i64`).
pub(crate) fn push_signed64(s: &mut String, n: i64)
    ensures
        final(s)@ == old(s)@ + signed_digits(n as int),
{
    if n < 0 {
        push_char(s, '-');
        let m: u64 = if n == i64::MIN {
            0x8000_0000_0000_0000u64
        } else {
            (-n) as u64
        };
        crate::num::push_dec(s, m);
        assert(old(s)@.push('-') + crate::num::dec_digits(m as nat) == old(s)@ + (seq!['-']
            + crate::num::dec_digits(m as nat)));
    } else {
        crate::num::push_dec(s, n as u64);
    }
}

/// A security alert about a process.
#[derive(Debug, Clone)]
pub struct SecurityAlert {
    pub id: String,
    /// When it was raised, seconds since the epoch, UTC.
    pub timestamp: i64,
    pub severity: AlertSeverity,
    pub alert_type: AlertType,
    pub message: String,
    pub process_pid: Option<u32>,
    pub process_name: Option<String>,
    /// Further details as name and value.
    pub details: Vec<(String, String)>,
}

/// The alerts raised about processes, the program names held suspect, the privileged
/// processes seen, and the history of alerts (bounded). The behaviour profiles, which
/// hold CPU readings as floating-point numbers, are kept beside it by the program.
pub struct SecurityDashboard {
    pub alerts: Vec<SecurityAlert>,
    pub suspicious_process_names: Vec<String>,
    /// Process ids with their names (the latest record for a pid counts).
    pub privileged_processes: Vec<(u32, String)>,
    pub alert_history: Vec<SecurityAlert>,
    pub max_history_size: usize,
    /// Memory use in bytes above which a process draws an alert.
    pub baseline_memory_threshold: u64,
}

/// An alert as plain values: id, time, severity, type, message, pid, process name, and
/// the details.
pub type SecurityAlertView = (
    Seq<char>,
    i64,
    AlertSeverity,
    AlertType,
    Seq<char>,
    Option<u32>,
    Option<Seq<char>>,
    Seq<(Seq<char>, Seq<char>)>,
);

/// The alert `a` as plain values.
pub open spec fn security_alert_view(a: SecurityAlert) -> SecurityAlertView {
    (
        a.id@,
        a.timestamp,
        a.severity,
        a.alert_type,
        a.message@,
        a.process_pid,
        crate::monitor::properties::opt_view(a.process_name),
        Seq::new(a.details@.len(), |i: int| (a.details@[i].0@, a.details@[i].1@)),
    )
}

/// The alerts `als` as plain values, in order.
pub open spec fn security_alert_views(als: Seq<SecurityAlert>) -> Seq<SecurityAlertView> {
    Seq::new(als.len(), |i: int| security_alert_view(als[i]))
}

/// An alert identifier as `Uuid::to_string` gives one.
pub open spec fn alert_id(id: Seq<char>) -> bool {
    exists|n: i64| id == "alert-"@ + signed_digits(n as int)
}

/// An alert of the same type about the same process was raised less than five
/// minutes before `now`.
pub open spec fn alerted_recently(als: Seq<SecurityAlert>, t: AlertType, pid: Option<u32>, now: int) -> bool {
    exists|k: int|
        0 <= k < als.len() && alert_type_index((#[trigger] als[k]).alert_type) == alert_type_index(t)
            && als[k].process_pid == pid && now - als[k].timestamp < 300
}

/// The alerts of `als` raised less than an hour before `now`, in order.
pub open spec fn alerts_within_hour(als: Seq<SecurityAlert>, now: int) -> Seq<SecurityAlert>
    decreases als.len(),
{
    if als.len() == 0 {
        Seq::empty()
    } else {
        let init = alerts_within_hour(als.drop_last(), now);
        if now - als.last().timestamp < 3600 {
            init.push(als.last())
        } else {
            init
        }
    }
}

/// The alerts of `als` of severity `severity`, in order.
pub open spec fn security_alerts_of_severity(als: Seq<SecurityAlert>, severity: AlertSeverity) -> Seq<SecurityAlert>
    decreases als.len(),
{
    if als.len() == 0 {
        Seq::empty()
    } else {
        let init = security_alerts_of_severity(als.drop_last(), severity);
        if als.last().severity == severity {
            init.push(als.last())
        } else {
            init
        }
    }
}

/// What raising an alert at `now` does: nothing when an alert of the same type about
/// the same process was raised less than five minutes before; else the alert (with an
/// alert identifier, no details) is added to the alerts and to the history, whose
/// oldest alert goes when it grows past its size.
pub open spec fn alert_step(
    old: SecurityDashboard,
    fin: SecurityDashboard,
    t: AlertType,
    severity: AlertSeverity,
    message: Seq<char>,
    pid: Option<u32>,
    name: Option<Seq<char>>,
    now: i64,
) -> bool {
    if alerted_recently(old.alerts@, t, pid, now as int) {
        fin.alerts == old.alerts && fin.alert_history == old.alert_history
    } else {
        exists|id: Seq<char>|
            #![trigger alert_id(id)]
            {
                let v = (id, now, severity, t, message, pid, name, Seq::<(Seq<char>, Seq<char>)>::empty());
                &&& alert_id(id)
                &&& security_alert_views(fin.alerts@) == security_alert_views(old.alerts@).push(v)
                &&& security_alert_views(fin.alert_history@) == crate::monitor::filesystem_monitor::trimmed_push(
                    security_alert_views(old.alert_history@),
                    v,
                    old.max_history_size as nat,
                )
            }
    }
}

/// Whether an alert of the same type about the same process was raised less than five
/// minutes before `now`.
fn alerted_recently_in(als: &Vec<SecurityAlert>, t: AlertType, pid: Option<u32>, now: i64) -> (r: bool)
    ensures
        r == alerted_recently(als@, t, pid, now as int),
{
    let d = t.discriminant();
    let mut k: usize = 0;
    while k < als.len()
        invariant
            k <= als@.len(),
            d == alert_type_index(t),
            forall|j: int|
                0 <= j < k ==> !(alert_type_index((#[trigger] als@[j]).alert_type) == alert_type_index(t)
                    && als@[j].process_pid == pid && now - als@[j].timestamp < 300),
        decreases als.len() - k,
    {
        let a = &als[k];
        if a.alert_type.discriminant() == d && a.process_pid == pid && (now as i128) - (a.timestamp as i128) < 300 {
            return true;
        }
        k = k + 1;
    }
    false
}

impl SecurityDashboard {
    /// A dashboard with no alerts, the usual suspect program names, a history of at most
    /// 1000 alerts and a memory threshold of 1 GiB.
    pub fn new() -> (r: Self)
        ensures
            r.alerts@.len() == 0,
            r.alert_history@.len() == 0,
            r.privileged_processes@.len() == 0,
            crate::text::str_views(r.suspicious_process_names@) == suspicious_names(),
            r.max_history_size == 1000,
            r.baseline_memory_threshold == 1024 * 1024 * 1024,
    {
        let mut names: Vec<String> = Vec::new();
        names.push("nc".to_owned());
        names.push("netcat".to_owned());
        names.push("nmap".to_owned());
        names.push("wget".to_owned());
        names.push("curl".to_owned());
        names.push("python".to_owned());
        names.push("perl".to_owned());
        names.push("bash".to_owned());
        names.push("sh".to_owned());
        names.push("powershell".to_owned());
        names.push("cmd".to_owned());
        assert(crate::text::str_views(names@) =~= suspicious_names());
        SecurityDashboard {
            alerts: Vec::new(),
            suspicious_process_names: names,
            privileged_processes: Vec::new(),
            alert_history: Vec::new(),
            max_history_size: 1000,
            baseline_memory_threshold: 1024 * 1024 * 1024,
        }
    }

    /// Raises an alert at `now` (seconds since the epoch), unless one of the same type
    /// about the same process was raised less than five minutes before; a raised alert
    /// also enters the history, whose oldest alert goes when it grows past its size.
    pub fn create_alert_at(
        &mut self,
        alert_type: AlertType,
        severity: AlertSeverity,
        message: String,
        process_pid: Option<u32>,
        process_name: Option<String>,
        now: i64,
    )
        ensures
            alert_step(
                *old(self),
                *final(self),
                alert_type,
                severity,
                message@,
                process_pid,
                crate::monitor::properties::opt_view(process_name),
                now,
            ),
            final(self).suspicious_process_names == old(self).suspicious_process_names,
            final(self).privileged_processes == old(self).privileged_processes,
            final(self).max_history_size == old(self).max_history_size,
            final(self).baseline_memory_threshold == old(self).baseline_memory_threshold,
    {
        if alerted_recently_in(&self.alerts, alert_type, process_pid, now) {
            return;
        }
        let id = Uuid::new_v4().to_string();
        let ghost idv = id@;
        assert(alert_id(idv));
        let name_copy = match &process_name {
            Some(n) => Some(n.clone()),
            None => None,
        };
        let alert = SecurityAlert {
            id: id.clone(),
            timestamp: now,
            severity,
            alert_type,
            message: message.clone(),
            process_pid,
            process_name,
            details: Vec::new(),
        };
        let entry = SecurityAlert {
            id,
            timestamp: now,
            severity,
            alert_type,
            message,
            process_pid,
            process_name: name_copy,
            details: Vec::new(),
        };
        let ghost v = security_alert_view(alert);
        assert(security_alert_view(entry) == v) by {
            assert(security_alert_view(entry).7 =~= security_alert_view(alert).7);
        }
        let ghost a0 = self.alerts@;
        let ghost h0 = self.alert_history@;
        self.alerts.push(alert);
        self.alert_history.push(entry);
        assert(security_alert_views(self.alerts@) =~= security_alert_views(a0).push(v));
        if self.alert_history.len() > self.max_history_size {
            self.alert_history.remove(0);
            assert(security_alert_views(self.alert_history@) =~= security_alert_views(h0).push(v).drop_first());
        } else {
            assert(security_alert_views(self.alert_history@) =~= security_alert_views(h0).push(v));
        }
        assert(v.7 =~= Seq::<(Seq<char>, Seq<char>)>::empty());
        assert(v.0 == idv);
        assert(alert_id(idv));
    }

    /// Raises an alert now (as `create_alert_at` does for the current time).
    pub fn create_alert(
        &mut self,
        alert_type: AlertType,
        severity: AlertSeverity,
        message: String,
        process_pid: Option<u32>,
        process_name: Option<String>,
    )
        ensures
            exists|now: i64|
                #[trigger] alert_step(
                    *old(self),
                    *final(self),
                    alert_type,
                    severity,
                    message@,
                    process_pid,
                    crate::monitor::properties::opt_view(process_name),
                    now,
                ),
            final(self).suspicious_process_names == old(self).suspicious_process_names,
            final(self).privileged_processes == old(self).privileged_processes,
            final(self).max_history_size == old(self).max_history_size,
            final(self).baseline_memory_threshold == old(self).baseline_memory_threshold,
    {
        let now = crate::monitor::log_monitor::utc_seconds();
        self.create_alert_at(alert_type, severity, message, process_pid, process_name, now);
    }

    /// Drops the alerts raised an hour or more before `now` (the history keeps them).
    pub fn clear_expired_alerts_at(&mut self, now: i64)
        ensures
            final(self).alerts@ == alerts_within_hour(old(self).alerts@, now as int),
            final(self).alert_history == old(self).alert_history,
            final(self).suspicious_process_names == old(self).suspicious_process_names,
            final(self).privileged_processes == old(self).privileged_processes,
            final(self).max_history_size == old(self).max_history_size,
            final(self).baseline_memory_threshold == old(self).baseline_memory_threshold,
    {
        let mut rest: Vec<SecurityAlert> = Vec::new();
        std::mem::swap(&mut rest, &mut self.alerts);
        let ghost all = rest@;
        let mut kept: Vec<SecurityAlert> = Vec::new();
        let ghost mut i: int = 0;
        while rest.len() > 0
            invariant
                0 <= i <= all.len(),
                rest@ == all.skip(i),
                kept@ == alerts_within_hour(all.take(i), now as int),
            decreases rest.len(),
        {
            let a = rest.remove(0);
            assert(all.take(i + 1).drop_last() == all.take(i));
            if (now as i128) - (a.timestamp as i128) < 3600 {
                kept.push(a);
            }
            proof {
                i = i + 1;
            }
        }
        assert(all.take(i) == all);
        self.alerts = kept;
    }

    /// Drops the alerts raised an hour or more ago (as `clear_expired_alerts_at` does
    /// for the current time).
    pub fn clear_expired_alerts(&mut self)
        ensures
            exists|now: int| final(self).alerts@ == #[trigger] alerts_within_hour(old(self).alerts@, now),
            final(self).alert_history == old(self).alert_history,
            final(self).suspicious_process_names == old(self).suspicious_process_names,
            final(self).privileged_processes == old(self).privileged_processes,
            final(self).max_history_size == old(self).max_history_size,
            final(self).baseline_memory_threshold == old(self).baseline_memory_threshold,
    {
        let now = crate::monitor::log_monitor::utc_seconds();
        self.clear_expired_alerts_at(now);
    }

    /// The current alerts of severity `severity`, in order.
    pub fn get_alerts_by_severity(&self, severity: AlertSeverity) -> (r: Vec<&SecurityAlert>)
        ensures
            crate::monitor::log_monitor::derefs(r@) == security_alerts_of_severity(self.alerts@, severity),
    {
        let mut r: Vec<&SecurityAlert> = Vec::new();
        let mut i: usize = 0;
        while i < self.alerts.len()
            invariant
                i <= self.alerts@.len(),
                crate::monitor::log_monitor::derefs(r@) == security_alerts_of_severity(self.alerts@.take(i as int), severity),
            decreases self.alerts.len() - i,
        {
            assert(self.alerts@.take(i + 1).drop_last() == self.alerts@.take(i as int));
            let a = &self.alerts[i];
            if a.severity == severity {
                let ghost before = crate::monitor::log_monitor::derefs(r@);
                r.push(a);
                assert(crate::monitor::log_monitor::derefs(r@) == before.push(*a));
            }
            i = i + 1;
        }
        assert(self.alerts@.take(i as int) == self.alerts@);
        r
    }

    /// Every alert raised and still in the history, oldest first.
    pub fn get_alert_history(&self) -> (r: &[SecurityAlert])
        ensures
            r@ == self.alert_history@,
    {
        self.alert_history.as_slice()
    }
}

/// After an alert is raised (or found raised lately) about a process, an alert of that
/// type about that process counts as recent at that time: raising it again then changes
/// nothing.
pub proof fn lemma_alert_not_repeated(
    d0: SecurityDashboard,
    d1: SecurityDashboard,
    t: AlertType,
    severity: AlertSeverity,
    message: Seq<char>,
    pid: Option<u32>,
    name: Option<Seq<char>>,
    now: i64,
)
    requires
        alert_step(d0, d1, t, severity, message, pid, name, now),
    ensures
        alerted_recently(d1.alerts@, t, pid, now as int),
{
    if !alerted_recently(d0.alerts@, t, pid, now as int) {
        let id = choose|id: Seq<char>|
            #![trigger alert_id(id)]
            {
                let v = (id, now, severity, t, message, pid, name, Seq::<(Seq<char>, Seq<char>)>::empty());
                &&& alert_id(id)
                &&& security_alert_views(d1.alerts@) == security_alert_views(d0.alerts@).push(v)
                &&& security_alert_views(d1.alert_history@) == crate::monitor::filesystem_monitor::trimmed_push(
                    security_alert_views(d0.alert_history@),
                    v,
                    d0.max_history_size as nat,
                )
            };
        let n = d0.alerts@.len() as int;
        assert(security_alert_views(d1.alerts@).len() == n + 1);
        assert(security_alert_views(d1.alerts@)[n] == security_alert_view(d1.alerts@[n]));
        assert(d1.alerts@[n].timestamp == now);
    }
}

/// The name recorded for the privileged process `pid`, if any (the latest record
/// counts).
pub open spec fn privileged_name(ps: Seq<(u32, String)>, pid: u32) -> Option<Seq<char>>
    decreases ps.len(),
{
    if ps.len() == 0 {
        None
    } else if ps.last().0 == pid {
        Some(ps.last().1@)
    } else {
        privileged_name(ps.drop_last(), pid)
    }
}

/// The records of `ps` about processes other than `pid`, in order.
pub open spec fn records_without(ps: Seq<(u32, String)>, pid: u32) -> Seq<(u32, String)>
    decreases ps.len(),
{
    if ps.len() == 0 {
        Seq::empty()
    } else {
        let init = records_without(ps.drop_last(), pid);
        if ps.last().0 == pid {
            init
        } else {
            init.push(ps.last())
        }
    }
}

/// The records of `ps` about processes listed in `current`, in order.
pub open spec fn records_among(ps: Seq<(u32, String)>, current: Seq<u32>) -> Seq<(u32, String)>
    decreases ps.len(),
{
    if ps.len() == 0 {
        Seq::empty()
    } else {
        let init = records_among(ps.drop_last(), current);
        if current.contains(ps.last().0) {
            init.push(ps.last())
        } else {
            init
        }
    }
}

proof fn lemma_records_without(ps: Seq<(u32, String)>, pid: u32, q: u32)
    ensures
        privileged_name(records_without(ps, pid), q) == if q == pid { None } else { privileged_name(ps, q) },
    decreases ps.len(),
{
    if ps.len() > 0 {
        lemma_records_without(ps.drop_last(), pid, q);
        let init = records_without(ps.drop_last(), pid);
        if ps.last().0 != pid {
            assert(init.push(ps.last()).drop_last() == init);
        }
    }
}

/// A user with full privilege: `root` or `administrator`.
pub open spec fn privileged_user(user: Seq<char>) -> bool {
    user == "root"@ || user == "administrator"@
}

impl SecurityDashboard {
    /// Records a process running as `root` or `administrator` among the privileged ones
    /// (with its name); any other process leaves the records as they are.
    pub fn track_privileged(&mut self, pid: u32, user: &str, name: &str)
        ensures
            privileged_user(user@) ==> privileged_name(final(self).privileged_processes@, pid) == Some(name@),
            privileged_user(user@) ==> forall|q: u32|
                q != pid ==> #[trigger] privileged_name(final(self).privileged_processes@, q) == privileged_name(
                    old(self).privileged_processes@,
                    q,
                ),
            !privileged_user(user@) ==> final(self).privileged_processes == old(self).privileged_processes,
            final(self).alerts == old(self).alerts,
            final(self).alert_history == old(self).alert_history,
            final(self).suspicious_process_names == old(self).suspicious_process_names,
            final(self).max_history_size == old(self).max_history_size,
            final(self).baseline_memory_threshold == old(self).baseline_memory_threshold,
    {
        if !(str_eq(user, "root") || str_eq(user, "administrator")) {
            return;
        }
        let mut rest: Vec<(u32, String)> = Vec::new();
        std::mem::swap(&mut rest, &mut self.privileged_processes);
        let ghost all = rest@;
        let mut kept: Vec<(u32, String)> = Vec::new();
        let ghost mut i: int = 0;
        while rest.len() > 0
            invariant
                0 <= i <= all.len(),
                rest@ == all.skip(i),
                kept@ == records_without(all.take(i), pid),
            decreases rest.len(),
        {
            let r = rest.remove(0);
            assert(all.take(i + 1).drop_last() == all.take(i));
            if r.0 != pid {
                kept.push(r);
            }
            proof {
                i = i + 1;
            }
        }
        assert(all.take(i) == all);
        let ghost without = kept@;
        kept.push((pid, name.to_owned()));
        assert(kept@.drop_last() == without);
        proof {
            assert forall|q: u32| q != pid implies #[trigger] privileged_name(kept@, q) == privileged_name(all, q) by {
                lemma_records_without(all, pid, q);
            }
        }
        self.privileged_processes = kept;
    }

    /// Keeps the privileged records of the processes in `current_pids` only.
    pub fn retain_privileged(&mut self, current_pids: &[u32])
        ensures
            final(self).privileged_processes@ == records_among(old(self).privileged_processes@, current_pids@),
            final(self).alerts == old(self).alerts,
            final(self).alert_history == old(self).alert_history,
            final(self).suspicious_process_names == old(self).suspicious_process_names,
            final(self).max_history_size == old(self).max_history_size,
            final(self).baseline_memory_threshold == old(self).baseline_memory_threshold,
    {
        let mut rest: Vec<(u32, String)> = Vec::new();
        std::mem::swap(&mut rest, &mut self.privileged_processes);
        let ghost all = rest@;
        let mut kept: Vec<(u32, String)> = Vec::new();
        let ghost mut i: int = 0;
        while rest.len() > 0
            invariant
                0 <= i <= all.len(),
                rest@ == all.skip(i),
                kept@ == records_among(all.take(i), current_pids@),
            decreases rest.len(),
        {
            let r = rest.remove(0);
            assert(all.take(i + 1).drop_last() == all.take(i));
            if crate::text::contains_u32(current_pids, r.0) {
                kept.push(r);
            }
            proof {
                i = i + 1;
            }
        }
        assert(all.take(i) == all);
        self.privileged_processes = kept;
    }
}

/// The message of a high-memory alert about the process `name` using `memory` bytes:
/// the use in whole MiB.
pub open spec fn high_memory_message(name: Seq<char>, memory: u64) -> Seq<char> {
    "Process '"@ + name + "' using high memory: "@ + crate::num::dec_digits((memory / 1024 / 1024) as nat) + " MB"@
}

impl SecurityDashboard {
    /// Raises a Medium high-resource alert about the process `pid` named `name` when it
    /// uses more memory than the threshold (see `high_memory_message`), as
    /// `create_alert` does at the current time; a process within the threshold leaves
    /// the dashboard as it is.
    pub fn check_memory_usage(&mut self, pid: u32, name: &str, memory_usage: u64)
        ensures
            memory_usage <= old(self).baseline_memory_threshold ==> final(self).alerts == old(self).alerts
                && final(self).alert_history == old(self).alert_history,
            memory_usage > old(self).baseline_memory_threshold ==> exists|now: i64|
                #[trigger] alert_step(
                    *old(self),
                    *final(self),
                    AlertType::HighResourceUsage,
                    AlertSeverity::Medium,
                    high_memory_message(name@, memory_usage),
                    Some(pid),
                    Some(name@),
                    now,
                ),
            final(self).suspicious_process_names == old(self).suspicious_process_names,
            final(self).privileged_processes == old(self).privileged_processes,
            final(self).max_history_size == old(self).max_history_size,
            final(self).baseline_memory_threshold == old(self).baseline_memory_threshold,
    {
        if memory_usage <= self.baseline_memory_threshold {
            return;
        }
        let mut message = "Process '".to_owned();
        push_chars(&mut message, name);
        push_chars(&mut message, "' using high memory: ");
        crate::num::push_dec(&mut message, memory_usage / 1024 / 1024);
        push_chars(&mut message, " MB");
        assert(message@ =~= high_memory_message(name@, memory_usage));
        let owned = name.to_owned();
        assert(crate::monitor::properties::opt_view(Some(owned)) == Some(name@));
        let ghost before = *self;
        let ghost mv = message@;
        self.create_alert(AlertType::HighResourceUsage, AlertSeverity::Medium, message, Some(pid), Some(owned));
        proof {
            let now = choose|now: i64|
                #[trigger] alert_step(
                    before,
                    *self,
                    AlertType::HighResourceUsage,
                    AlertSeverity::Medium,
                    mv,
                    Some(pid),
                    crate::monitor::properties::opt_view(Some(owned)),
                    now,
                );
            assert(alert_step(
                before,
                *self,
                AlertType::HighResourceUsage,
                AlertSeverity::Medium,
                high_memory_message(name@, memory_usage),
                Some(pid),
                Some(name@),
                now,
            ));
        }
    }
}

} // verus!
