//! Resource limits and resource usage of processes, and the byte sizes shown for them.
use vstd::prelude::*;
use crate::num::{dec_digits, parse_i64, parse_signed64, parse_uint, parse_unsigned, push_dec};
use vstd::arithmetic::power2::{lemma2_to64, lemma_pow2_strictly_increases, lemma_pow2_unfold, pow2};
use crate::text::{chars_eq, chars_of, lines, push_char, split_lines, split_words, views_of, words};

verus! {

/// The soft resource limits of a process (`None`: no limit read).
#[derive(Debug, Clone)]
pub struct ResourceLimits {
    pub pid: u32,
    pub max_cpu_time: Option<u64>,
    pub max_file_size: Option<u64>,
    pub max_data_size: Option<u64>,
    pub max_stack_size: Option<u64>,
    pub max_core_file_size: Option<u64>,
    pub max_resident_set: Option<u64>,
    pub max_processes: Option<u64>,
    pub max_open_files: Option<u64>,
    pub max_locked_memory: Option<u64>,
    pub max_address_space: Option<u64>,
    pub max_file_locks: Option<u64>,
    pub max_pending_signals: Option<u64>,
    pub max_msgqueue_size: Option<u64>,
    pub max_nice_priority: Option<i64>,
    pub max_realtime_priority: Option<u64>,
    pub max_realtime_timeout: Option<u64>,
}

/// What a process uses of its resources.
#[derive(Debug, Clone)]
pub struct ResourceUsage {
    pub pid: u32,
    pub user_time: u64,
    pub system_time: u64,
    pub virtual_memory: u64,
    pub resident_memory: u64,
    pub num_threads: u64,
    pub minor_faults: u64,
    pub major_faults: u64,
    pub open_files: u64,
}

/// The limits and the usage of one process.
#[derive(Debug, Clone)]
pub struct ResourceSummary {
    pub pid: u32,
    pub limits: ResourceLimits,
    pub usage: ResourceUsage,
}

/// How close a process is to a limit.
#[derive(Debug, Clone, Copy, PartialEq, Eq)]
pub enum WarningLevel {
    Warning,
    Critical,
}

/// Reads resource limits and usage from `/proc` reports.
pub struct ResourceLimitsManager;

impl ResourceLimits {
    /// No limit read yet for `pid`.
    pub open spec fn none_for(pid: u32) -> ResourceLimits {
        ResourceLimits {
            pid,
            max_cpu_time: None,
            max_file_size: None,
            max_data_size: None,
            max_stack_size: None,
            max_core_file_size: None,
            max_resident_set: None,
            max_processes: None,
            max_open_files: None,
            max_locked_memory: None,
            max_address_space: None,
            max_file_locks: None,
            max_pending_signals: None,
            max_msgqueue_size: None,
            max_nice_priority: None,
            max_realtime_priority: None,
            max_realtime_timeout: None,
        }
    }

    /// Limits of `pid` with none read.
    pub fn new(pid: u32) -> (r: Self)
        ensures
            r == Self::none_for(pid),
    {
        ResourceLimits {
            pid,
            max_cpu_time: None,
            max_file_size: None,
            max_data_size: None,
            max_stack_size: None,
            max_core_file_size: None,
            max_resident_set: None,
            max_processes: None,
            max_open_files: None,
            max_locked_memory: None,
            max_address_space: None,
            max_file_locks: None,
            max_pending_signals: None,
            max_msgqueue_size: None,
            max_nice_priority: None,
            max_realtime_priority: None,
            max_realtime_timeout: None,
        }
    }
}

impl ResourceUsage {
    /// Usage of `pid` with every count at zero.
    pub fn new(pid: u32) -> (r: Self)
        ensures
            r.pid == pid,
            r.user_time == 0 && r.system_time == 0 && r.virtual_memory == 0 && r.resident_memory == 0,
            r.num_threads == 0 && r.minor_faults == 0 && r.major_faults == 0 && r.open_files == 0,
    {
        ResourceUsage {
            pid,
            user_time: 0,
            system_time: 0,
            virtual_memory: 0,
            resident_memory: 0,
            num_threads: 0,
            minor_faults: 0,
            major_faults: 0,
            open_files: 0,
        }
    }
}

/// The words that begin each resource's row of a `/proc/<pid>/limits` report, in the
/// order of the fields of `ResourceLimits`.
pub open spec fn limit_row_names() -> Seq<Seq<Seq<char>>> {
    seq![
        seq!["Max"@, "cpu"@, "time"@],
        seq!["Max"@, "file"@, "size"@],
        seq!["Max"@, "data"@, "size"@],
        seq!["Max"@, "stack"@, "size"@],
        seq!["Max"@, "core"@, "file"@, "size"@],
        seq!["Max"@, "resident"@, "set"@],
        seq!["Max"@, "processes"@],
        seq!["Max"@, "open"@, "files"@],
        seq!["Max"@, "locked"@, "memory"@],
        seq!["Max"@, "address"@, "space"@],
        seq!["Max"@, "file"@, "locks"@],
        seq!["Max"@, "pending"@, "signals"@],
        seq!["Max"@, "msgqueue"@, "size"@],
        seq!["Max"@, "nice"@, "priority"@],
        seq!["Max"@, "realtime"@, "priority"@],
        seq!["Max"@, "realtime"@, "timeout"@],
    ]
}

/// The row words `ws` begin with `name` and go on with a soft limit.
pub open spec fn row_names_at(ws: Seq<Seq<char>>, name: Seq<Seq<char>>) -> bool {
    ws.len() > name.len() && ws.take(name.len() as int) == name
}

/// The soft limit `soft` of resource `k`: a signed number for the nice priority, else
/// `None` for `unlimited` and otherwise the decimal number (`None` where it does not
/// read).
pub open spec fn soft_limit_value(soft: Seq<char>, k: int) -> Option<int> {
    if k == 13 {
        parse_signed64(soft)
    } else if soft == "unlimited"@ {
        None
    } else {
        match parse_unsigned(soft, 10, u64::MAX as nat) {
            Some(x) => Some(x as int),
            None => None,
        }
    }
}

/// What the row `line` says of resource `k`: `Some` of its soft limit when the row is
/// that resource's, `None` when it is another row.
pub open spec fn row_limit(line: Seq<char>, k: int) -> Option<Option<int>> {
    let ws = words(line);
    let name = limit_row_names()[k];
    if row_names_at(ws, name) {
        Some(soft_limit_value(ws[name.len() as int], k))
    } else {
        None
    }
}

/// The limit of resource `k` that the rows `ls` give: that of the last row for it,
/// `None` when there is none.
pub open spec fn limit_from(ls: Seq<Seq<char>>, k: int) -> Option<int>
    decreases ls.len(),
{
    if ls.len() == 0 {
        None
    } else {
        match row_limit(ls.last(), k) {
            Some(v) => v,
            None => limit_from(ls.drop_last(), k),
        }
    }
}

/// An optional unsigned limit as an optional integer.
pub open spec fn opt_int(o: Option<u64>) -> Option<int> {
    match o {
        Some(x) => Some(x as int),
        None => None,
    }
}

/// An optional signed limit as an optional integer.
pub open spec fn opt_signed(o: Option<i64>) -> Option<int> {
    match o {
        Some(x) => Some(x as int),
        None => None,
    }
}

/// The field of `r` for resource `k`, as an optional integer.
pub open spec fn limit_field(r: ResourceLimits, k: int) -> Option<int> {
    if k == 0 {
        opt_int(r.max_cpu_time)
    } else if k == 1 {
        opt_int(r.max_file_size)
    } else if k == 2 {
        opt_int(r.max_data_size)
    } else if k == 3 {
        opt_int(r.max_stack_size)
    } else if k == 4 {
        opt_int(r.max_core_file_size)
    } else if k == 5 {
        opt_int(r.max_resident_set)
    } else if k == 6 {
        opt_int(r.max_processes)
    } else if k == 7 {
        opt_int(r.max_open_files)
    } else if k == 8 {
        opt_int(r.max_locked_memory)
    } else if k == 9 {
        opt_int(r.max_address_space)
    } else if k == 10 {
        opt_int(r.max_file_locks)
    } else if k == 11 {
        opt_int(r.max_pending_signals)
    } else if k == 12 {
        opt_int(r.max_msgqueue_size)
    } else if k == 13 {
        opt_signed(r.max_nice_priority)
    } else if k == 14 {
        opt_int(r.max_realtime_priority)
    } else {
        opt_int(r.max_realtime_timeout)
    }
}

/// `r` holds, for `pid`, the soft limits that the limits report `content` gives.
pub open spec fn limits_read(pid: u32, content: Seq<char>, r: ResourceLimits) -> bool {
    &&& r.pid == pid
    &&& forall|k: int| 0 <= k < 16 ==> #[trigger] limit_field(r, k) == limit_from(limit_rows(content), k)
}

/// Two sets of limits for one process that agree on every limit are the same.
proof fn lemma_limits_by_field(a: ResourceLimits, b: ResourceLimits)
    requires
        a.pid == b.pid,
        forall|k: int| 0 <= k < 16 ==> #[trigger] limit_field(a, k) == limit_field(b, k),
    ensures
        a == b,
{
    assert(limit_field(a, 0) == limit_field(b, 0));
    assert(limit_field(a, 1) == limit_field(b, 1));
    assert(limit_field(a, 2) == limit_field(b, 2));
    assert(limit_field(a, 3) == limit_field(b, 3));
    assert(limit_field(a, 4) == limit_field(b, 4));
    assert(limit_field(a, 5) == limit_field(b, 5));
    assert(limit_field(a, 6) == limit_field(b, 6));
    assert(limit_field(a, 7) == limit_field(b, 7));
    assert(limit_field(a, 8) == limit_field(b, 8));
    assert(limit_field(a, 9) == limit_field(b, 9));
    assert(limit_field(a, 10) == limit_field(b, 10));
    assert(limit_field(a, 11) == limit_field(b, 11));
    assert(limit_field(a, 12) == limit_field(b, 12));
    assert(limit_field(a, 13) == limit_field(b, 13));
    assert(limit_field(a, 14) == limit_field(b, 14));
    assert(limit_field(a, 15) == limit_field(b, 15));
}

/// A summary holds exactly the limits and the usage that the two readers give for the
/// same process and the same reports.
pub proof fn lemma_summary_is_its_parts(
    pid: u32,
    limits_content: Seq<char>,
    stat_content: Seq<char>,
    open_fd_count: Option<u64>,
    summary: ResourceSummary,
    limits: ResourceLimits,
    usage: ResourceUsage,
)
    requires
        summary.pid == pid,
        limits_read(pid, limits_content, summary.limits),
        summary.usage == stat_usage(pid, stat_content, open_fd_count),
        limits_read(pid, limits_content, limits),
        usage == stat_usage(pid, stat_content, open_fd_count),
    ensures
        summary.limits == limits,
        summary.usage == usage,
{
    lemma_limits_by_field(summary.limits, limits);
}

/// The rows of a limits report: its lines after the header.
pub open spec fn limit_rows(content: Seq<char>) -> Seq<Seq<char>> {
    if lines(content).len() == 0 {
        Seq::empty()
    } else {
        lines(content).drop_first()
    }
}

/// The words of `ws` as owned character lists.
fn words_of(ws: &[&str]) -> (r: Vec<Vec<char>>)
    ensures
        views_of(r@) == Seq::new(ws@.len(), |i: int| ws@[i]@),
{
    let mut r: Vec<Vec<char>> = Vec::new();
    let mut i: usize = 0;
    while i < ws.len()
        invariant
            i <= ws@.len(),
            r@.len() == i,
            views_of(r@) == Seq::new(i as nat, |j: int| ws@[j]@),
        decreases ws.len() - i,
    {
        let ghost before = r@;
        let c = chars_of(ws[i]);
        r.push(c);
        assert forall|j: int| 0 <= j < i + 1 implies #[trigger] views_of(r@)[j] == ws@[j]@ by {
            if j < i {
                assert(r@[j] == before[j]);
                assert(views_of(before)[j] == before[j]@);
                assert(views_of(before)[j] == ws@[j]@);
            }
        }
        assert(views_of(r@) =~= Seq::new((i + 1) as nat, |j: int| ws@[j]@));
        i = i + 1;
    }
    r
}

/// The words that begin the row of resource `k` (see `limit_row_names`).
fn row_words(k: usize) -> (r: Vec<Vec<char>>)
    requires
        k < 16,
    ensures
        views_of(r@) == limit_row_names()[k as int],
{
    let r = match k {
        0 => words_of(&["Max", "cpu", "time"]),
        1 => words_of(&["Max", "file", "size"]),
        2 => words_of(&["Max", "data", "size"]),
        3 => words_of(&["Max", "stack", "size"]),
        4 => words_of(&["Max", "core", "file", "size"]),
        5 => words_of(&["Max", "resident", "set"]),
        6 => words_of(&["Max", "processes"]),
        7 => words_of(&["Max", "open", "files"]),
        8 => words_of(&["Max", "locked", "memory"]),
        9 => words_of(&["Max", "address", "space"]),
        10 => words_of(&["Max", "file", "locks"]),
        11 => words_of(&["Max", "pending", "signals"]),
        12 => words_of(&["Max", "msgqueue", "size"]),
        13 => words_of(&["Max", "nice", "priority"]),
        14 => words_of(&["Max", "realtime", "priority"]),
        15 => words_of(&["Max", "realtime", "timeout"]),
        _ => words_of(&["Max", "realtime", "timeout"]),
    };
    assert(views_of(r@) =~= limit_row_names()[k as int]);
    r
}

/// Whether the row words `ws` begin with `name` and go on (see `row_names_at`).
fn starts_with_words(ws: &Vec<Vec<char>>, name: &Vec<Vec<char>>) -> (r: bool)
    ensures
        r == row_names_at(views_of(ws@), views_of(name@)),
{
    if ws.len() <= name.len() {
        return false;
    }
    let mut j: usize = 0;
    while j < name.len()
        invariant
            j <= name@.len(),
            name@.len() < ws@.len(),
            forall|m: int| 0 <= m < j ==> views_of(ws@)[m] == views_of(name@)[m],
        decreases name.len() - j,
    {
        assert(views_of(ws@)[j as int] == ws@[j as int]@);
        assert(views_of(name@)[j as int] == name@[j as int]@);
        if !chars_eq(&ws[j], &name[j]) {
            assert(views_of(ws@).take(name@.len() as int)[j as int] != views_of(name@)[j as int]);
            return false;
        }
        j = j + 1;
    }
    assert(views_of(ws@).take(name@.len() as int) =~= views_of(name@));
    true
}

/// Sets the field of resource `k` to the soft limit `soft` (see `soft_limit_value`).
fn set_limit(l: &mut ResourceLimits, k: usize, soft: &[char])
    requires
        k < 16,
    ensures
        limit_field(*final(l), k as int) == soft_limit_value(soft@, k as int),
        forall|j: int| 0 <= j < 16 && j != k ==> limit_field(*final(l), j) == limit_field(*old(l), j),
        final(l).pid == old(l).pid,
{
    if k == 13 {
        l.max_nice_priority = parse_i64(soft);
        return;
    }
    let unlimited = chars_of("unlimited");
    let parsed = if chars_eq(soft, &unlimited) {
        None
    } else {
        parse_uint(soft, 10, u64::MAX)
    };
        if k == 0 {
            l.max_cpu_time = parsed;
        } else if k == 1 {
            l.max_file_size = parsed;
        } else if k == 2 {
            l.max_data_size = parsed;
        } else if k == 3 {
            l.max_stack_size = parsed;
        } else if k == 4 {
            l.max_core_file_size = parsed;
        } else if k == 5 {
            l.max_resident_set = parsed;
        } else if k == 6 {
            l.max_processes = parsed;
        } else if k == 7 {
            l.max_open_files = parsed;
        } else if k == 8 {
            l.max_locked_memory = parsed;
        } else if k == 9 {
            l.max_address_space = parsed;
        } else if k == 10 {
            l.max_file_locks = parsed;
        } else if k == 11 {
            l.max_pending_signals = parsed;
        } else if k == 12 {
            l.max_msgqueue_size = parsed;
        } else if k == 14 {
            l.max_realtime_priority = parsed;
        } else if k == 15 {
            l.max_realtime_timeout = parsed;
        }
}

impl ResourceLimitsManager {
    /// The limits that a `/proc/<pid>/limits` report gives: after the header line, each
    /// row `Max <resource> <soft> <hard> …` sets that resource's limit to its soft limit
    /// (`None` for `unlimited`, else the decimal number; a signed number for the nice
    /// priority); a resource without a row has no limit.
    pub fn get_process_limits(pid: u32, limits_content: &str) -> (r: ResourceLimits)
        ensures
            limits_read(pid, limits_content@, r),
            r.pid == pid,
            forall|k: int| 0 <= k < 16 ==> #[trigger] limit_field(r, k) == limit_from(limit_rows(limits_content@), k),
    {
        let mut limits = ResourceLimits::new(pid);
        let v = chars_of(limits_content);
        let ls = split_lines(&v);
        let ghost rows = limit_rows(limits_content@);
        if ls.len() == 0 {
            return limits;
        }
        assert(rows == views_of(ls@).drop_first());
        let mut i: usize = 1;
        while i < ls.len()
            invariant
                1 <= i <= ls@.len(),
                rows == views_of(ls@).drop_first(),
                limits.pid == pid,
                forall|k: int| 0 <= k < 16 ==> #[trigger] limit_field(limits, k) == limit_from(rows.take(i - 1), k),
            decreases ls.len() - i,
        {
            let ws = split_words(&ls[i]);
            assert(rows[i - 1] == ls@[i as int]@);
            assert(rows.take(i as int).drop_last() == rows.take(i - 1));
            assert(rows.take(i as int).last() == ls@[i as int]@);
            let mut kk: usize = 0;
            while kk < 16
                invariant
                    kk <= 16,
                    1 <= i < ls@.len(),
                    rows == views_of(ls@).drop_first(),
                    rows.take(i as int).drop_last() == rows.take(i - 1),
                    rows.take(i as int).last() == ls@[i as int]@,
                    views_of(ws@) == words(ls@[i as int]@),
                    limits.pid == pid,
                    forall|k: int| 0 <= k < kk ==> #[trigger] limit_field(limits, k) == limit_from(rows.take(i as int), k),
                    forall|k: int| kk <= k < 16 ==> #[trigger] limit_field(limits, k) == limit_from(rows.take(i - 1), k),
                decreases 16 - kk,
            {
                let name = row_words(kk);
                if starts_with_words(&ws, &name) {
                    let n = name.len();
                    assert(views_of(ws@)[n as int] == ws@[n as int]@);
                    set_limit(&mut limits, kk, &ws[n]);
                }
                kk = kk + 1;
            }
            i = i + 1;
        }
        assert(rows.take(i - 1) == rows);
        limits
    }
}

/// The number that field `i` of `ws` reads as, or 0.
pub open spec fn field_or_zero(ws: Seq<Seq<char>>, i: int) -> nat {
    match parse_unsigned(ws[i], 10, u64::MAX as nat) {
        Some(x) => x,
        None => 0,
    }
}

/// A stat report whose resident-page field would overflow when turned into bytes.
pub open spec fn stat_overflows(stat_content: Seq<char>) -> bool {
    let ws = words(stat_content);
    ws.len() >= 52 && field_or_zero(ws, 23) * 4096 > u64::MAX
}

/// The usage that a stat report gives for `pid`, with the count of open descriptors.
pub open spec fn stat_usage(pid: u32, stat_content: Seq<char>, open_fd_count: Option<u64>) -> ResourceUsage {
    let ws = words(stat_content);
    let big = ws.len() >= 52;
    ResourceUsage {
        pid,
        user_time: if big { field_or_zero(ws, 13) as u64 } else { 0 },
        system_time: if big { field_or_zero(ws, 14) as u64 } else { 0 },
        virtual_memory: if big { field_or_zero(ws, 22) as u64 } else { 0 },
        resident_memory: if big { (field_or_zero(ws, 23) * 4096) as u64 } else { 0 },
        num_threads: if big { field_or_zero(ws, 19) as u64 } else { 0 },
        minor_faults: if big { field_or_zero(ws, 9) as u64 } else { 0 },
        major_faults: if big { field_or_zero(ws, 11) as u64 } else { 0 },
        open_files: match open_fd_count {
            Some(n) => n,
            None => 0,
        },
    }
}

fn field_u64(ws: &Vec<Vec<char>>, i: usize) -> (r: u64)
    requires
        i < ws@.len(),
    ensures
        r as nat == field_or_zero(views_of(ws@), i as int),
{
    assert(views_of(ws@)[i as int] == ws@[i as int]@);
    match parse_uint(&ws[i], 10, u64::MAX) {
        Some(x) => x,
        None => 0,
    }
}

impl ResourceLimitsManager {
    /// The usage that a `/proc/<pid>/stat` report gives, with the count of open file
    /// descriptors when the descriptor directory could be listed. Fields that do not
    /// read count as 0; a report of fewer than 52 fields gives no counts from it.
    pub fn get_process_resource_usage(pid: u32, stat_content: &str, open_fd_count: Option<u64>) -> (r: ResourceUsage)
        requires
            !stat_overflows(stat_content@),
        ensures
            r == stat_usage(pid, stat_content@, open_fd_count),
    {
        let v = chars_of(stat_content);
        let ws = split_words(&v);
        let mut usage = ResourceUsage::new(pid);
        if ws.len() >= 52 {
            usage.user_time = field_u64(&ws, 13);
            usage.system_time = field_u64(&ws, 14);
            usage.num_threads = field_u64(&ws, 19);
            usage.virtual_memory = field_u64(&ws, 22);
            usage.resident_memory = field_u64(&ws, 23) * 4096;
            usage.minor_faults = field_u64(&ws, 9);
            usage.major_faults = field_u64(&ws, 11);
        }
        match open_fd_count {
            Some(n) => {
                usage.open_files = n;
            },
            None => {},
        }
        usage
    }

    /// The limits and usage of `pid` from its limits and stat reports.
    pub fn get_resource_summary(pid: u32, limits_content: &str, stat_content: &str, open_fd_count: Option<u64>) -> (r: ResourceSummary)
        requires
            !stat_overflows(stat_content@),
        ensures
            r.pid == pid,
            limits_read(pid, limits_content@, r.limits),
            forall|k: int| 0 <= k < 16 ==> #[trigger] limit_field(r.limits, k) == limit_from(limit_rows(limits_content@), k),
            r.limits.pid == pid,
            r.usage == stat_usage(pid, stat_content@, open_fd_count),
    {
        let limits = Self::get_process_limits(pid, limits_content);
        let usage = Self::get_process_resource_usage(pid, stat_content, open_fd_count);
        ResourceSummary { pid, limits, usage }
    }
}


/// Number of binary digits of `b`.
pub open spec fn bit_length(b: nat) -> nat
    decreases b,
{
    if b == 0 {
        0
    } else {
        1 + bit_length(b / 2)
    }
}

/// The value of the `f64` nearest to `b` (ties to even), as `b as f64` gives it.
pub open spec fn nearest_double(b: nat) -> nat {
    if bit_length(b) <= 53 {
        b
    } else {
        let e = (bit_length(b) - 53) as nat;
        let q = b / pow2(e);
        let r = b % pow2(e);
        let half = pow2((e - 1) as nat);
        if r > half || (r == half && q % 2 == 1) {
            (q + 1) * pow2(e)
        } else {
            q * pow2(e)
        }
    }
}

/// The unit a byte count `v` is shown in: 0 for B up to 4 for TB.
pub open spec fn unit_index(v: nat) -> nat {
    if v >= 1099511627776 {
        4
    } else if v >= 1073741824 {
        3
    } else if v >= 1048576 {
        2
    } else if v >= 1024 {
        1
    } else {
        0
    }
}

/// Bytes per unit `u`.
pub open spec fn unit_scale(u: nat) -> nat {
    if u == 4 {
        1099511627776
    } else if u == 3 {
        1073741824
    } else if u == 2 {
        1048576
    } else if u == 1 {
        1024
    } else {
        1
    }
}

/// The name of unit `u`.
pub open spec fn unit_name(u: nat) -> Seq<char> {
    if u == 4 {
        seq!['T', 'B']
    } else if u == 3 {
        seq!['G', 'B']
    } else if u == 2 {
        seq!['M', 'B']
    } else if u == 1 {
        seq!['K', 'B']
    } else {
        seq!['B']
    }
}

/// `v / unit_scale(u)` in tenths, rounded to nearest with ties to even (as `{:.1}`).
pub open spec fn tenths(v: nat, u: nat) -> nat {
    let x = v * 10;
    let d = unit_scale(u);
    let t = x / d;
    let r = x % d;
    if r * 2 > d || (r * 2 == d && t % 2 == 1) {
        t + 1
    } else {
        t
    }
}

/// How a byte count is shown: `N B` below 1024, else the value in the largest unit up
/// to TB that it reaches, with one decimal.
pub open spec fn formatted_bytes(b: nat) -> Seq<char> {
    let v = nearest_double(b);
    let u = unit_index(v);
    if u == 0 {
        dec_digits(b) + seq![' ', 'B']
    } else {
        let t = tenths(v, u);
        dec_digits(t / 10) + seq!['.'] + dec_digits(t % 10) + seq![' '] + unit_name(u)
    }
}

proof fn lemma_bit_length_bound(b: nat, n: nat)
    requires
        b < pow2(n),
    ensures
        bit_length(b) <= n,
    decreases n,
{
    if b > 0 {
        if n == 0 {
            lemma2_to64();
        } else {
            lemma_pow2_unfold(n);
            lemma_bit_length_bound(b / 2, (n - 1) as nat);
        }
    }
}

proof fn lemma_bit_length_low(b: nat)
    requires
        b > 0,
    ensures
        bit_length(b) >= 1,
        pow2((bit_length(b) - 1) as nat) <= b,
    decreases b,
{
    assert(bit_length(b) == 1 + bit_length(b / 2));
    if b / 2 == 0 {
        assert(bit_length(0) == 0);
        lemma2_to64();
    } else {
        lemma_bit_length_low(b / 2);
        let k = bit_length(b / 2);
        lemma_pow2_unfold(k);
        assert(pow2(k) == 2 * pow2((k - 1) as nat));
        assert(2 * (b / 2) <= b);
    }
}

impl ResourceLimitsManager {
    /// A byte count as people read it: `N B` below 1024, else one decimal of the largest
    /// unit (KB, MB, GB, TB) that the count reaches, taken on the count as a double.
    pub fn format_bytes(bytes: u64) -> (r: String)
        ensures
            r@ == formatted_bytes(bytes as nat),
    {
        // Bit length.
        proof {
            lemma2_to64();
            lemma_bit_length_bound(bytes as nat, 64);
        }
        let mut n: u64 = 0;
        let mut x: u64 = bytes;
        while x > 0
            invariant
                bit_length(bytes as nat) == n + bit_length(x as nat),
                n <= 64,
                n + bit_length(x as nat) <= 64,
            decreases x,
        {
            x = x / 2;
            n = n + 1;
        }
        proof {
            lemma2_to64();
            if bytes > 0 {
                lemma_bit_length_low(bytes as nat);
            }
        }
        // The nearest double.
        let v: u128 = if n <= 53 {
            bytes as u128
        } else {
            let e = n - 53;
            let mut pe: u128 = 1;
            let mut k: u64 = 0;
            while k < e
                invariant
                    k <= e,
                    e <= 11,
                    pe == pow2(k as nat),
                    pe <= 2048,
                decreases e - k,
            {
                proof {
                    lemma_pow2_unfold((k + 1) as nat);
                    lemma2_to64();
                    if k + 1 < 11 {
                        lemma_pow2_strictly_increases((k + 1) as nat, 11);
                    }
                }
                pe = pe * 2;
                k = k + 1;
            }
            proof {
                lemma_pow2_unfold(e as nat);
            }
            let q = (bytes as u128) / pe;
            let rem = (bytes as u128) % pe;
            let half = pe / 2;
            assert(half == pow2((e - 1) as nat));
            if rem > half || (rem == half && q % 2 == 1) {
                proof {
                    assert((q + 1) * pe <= (bytes as u128) + pe) by (nonlinear_arith)
                        requires
                            q == (bytes as u128) / pe,
                            pe > 0,
                    ;
                }
                (q + 1) * pe
            } else {
                proof {
                    assert(q * pe <= (bytes as u128)) by (nonlinear_arith)
                        requires
                            q == (bytes as u128) / pe,
                            pe > 0,
                    ;
                }
                q * pe
            }
        };
        assert(v == nearest_double(bytes as nat));
        assert(v <= 0x1_0000_0000_0000_0800);
        let mut s = String::new();
        if v < 1024 {
            push_dec(&mut s, bytes);
            push_char(&mut s, ' ');
            push_char(&mut s, 'B');
            assert(s@ == dec_digits(bytes as nat) + seq![' ', 'B']);
            return s;
        }
        let (d, name): (u128, &[char]) = if v >= 1099511627776 {
            (1099511627776, &['T', 'B'])
        } else if v >= 1073741824 {
            (1073741824, &['G', 'B'])
        } else if v >= 1048576 {
            (1048576, &['M', 'B'])
        } else {
            (1024, &['K', 'B'])
        };
        let x10 = v * 10;
        let t0 = x10 / d;
        let r0 = x10 % d;
        let t = if r0 * 2 > d || (r0 * 2 == d && t0 % 2 == 1) { t0 + 1 } else { t0 };
        proof {
            assert(t0 <= x10 / 1024) by (nonlinear_arith)
                requires
                    t0 == x10 / d,
                    d >= 1024,
            ;
        }
        assert(t <= 0x1_0000_0000_0000_0000);
        let whole = (t / 10) as u64;
        let frac = (t % 10) as u64;
        push_dec(&mut s, whole);
        push_char(&mut s, '.');
        push_dec(&mut s, frac);
        push_char(&mut s, ' ');
        push_char(&mut s, name[0]);
        push_char(&mut s, name[1]);
        assert(name@ == unit_name(unit_index(v as nat)));
        assert(s@ =~= dec_digits((t / 10) as nat) + seq!['.'] + dec_digits((t % 10) as nat) + seq![' '] + unit_name(unit_index(v as nat)));
        s
    }
}

} // verus!
