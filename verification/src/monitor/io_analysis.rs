//! Disk I/O: the counters the kernel keeps per device.
use vstd::prelude::*;
use crate::num::{parse_uint, parse_unsigned};
use crate::text::{chars_eq, chars_of, has_prefix, lines, split_lines, split_words, starts_with, string_of_all, views_of, words};

verus! {

/// Read and write totals of a disk.
#[derive(Debug, Clone, Copy, PartialEq, Eq, Structural)]
pub struct DiskIoStats {
    pub read_bytes: u64,
    pub write_bytes: u64,
    pub read_ops: u64,
    pub write_ops: u64,
}

/// System-wide I/O counters.
#[derive(Debug, Clone, Copy, PartialEq, Eq, Structural)]
pub struct SystemIOStats {
    pub sectors_read: u64,
    pub sectors_written: u64,
    pub reads_completed: u64,
    pub writes_completed: u64,
    pub time_spent_reading: u64,
    pub time_spent_writing: u64,
    pub io_in_progress: u64,
    pub time_spent_io: u64,
}

impl SystemIOStats {
    /// All counters at zero.
    pub fn zero() -> (r: SystemIOStats)
        ensures
            r == (SystemIOStats {
                sectors_read: 0,
                sectors_written: 0,
                reads_completed: 0,
                writes_completed: 0,
                time_spent_reading: 0,
                time_spent_writing: 0,
                io_in_progress: 0,
                time_spent_io: 0,
            }),
    {
        SystemIOStats {
            sectors_read: 0,
            sectors_written: 0,
            reads_completed: 0,
            writes_completed: 0,
            time_spent_reading: 0,
            time_spent_writing: 0,
            io_in_progress: 0,
            time_spent_io: 0,
        }
    }
}

/// What slows I/O down.
#[derive(Debug, Clone, Copy, PartialEq, Eq, Structural)]
pub enum BottleneckType {
    HighIOWait,
    DiskSaturation,
    ExcessiveRandomIO,
    SingleProcessDominance,
    IOStorm,
    SlowDisk,
    IOContentionDetected,
}

/// How serious an I/O bottleneck is.
#[derive(Debug, Clone, Copy, PartialEq, Eq, Structural)]
pub enum BottleneckSeverity {
    Low,
    Medium,
    High,
    Critical,
}

/// The counters of one block device in `/proc/diskstats`.
#[derive(Debug, Clone)]
pub struct DiskCounters {
    pub device: String,
    pub reads_completed: u64,
    pub sectors_read: u64,
    pub writes_completed: u64,
    pub sectors_written: u64,
    pub time_spent_io: u64,
    pub weighted_time_io: u64,
}

/// A counter field: the decimal `u64` it holds, else 0.
pub open spec fn field_value(w: Seq<Seq<char>>, i: int) -> nat {
    match parse_unsigned(w[i], 10, u64::MAX as nat) {
        Some(n) => n,
        None => 0,
    }
}

/// The rows of `/proc/diskstats` that describe real disks: at least fourteen fields,
/// the device name (third field) not beginning with `loop` or `ram`.
pub open spec fn disk_rows(ls: Seq<Seq<char>>) -> Seq<Seq<Seq<char>>>
    decreases ls.len(),
{
    if ls.len() == 0 {
        Seq::empty()
    } else {
        let init = disk_rows(ls.drop_last());
        let w = words(ls.last());
        if w.len() >= 14 && !starts_with(w[2], "loop"@) && !starts_with(w[2], "ram"@) {
            init.push(w)
        } else {
            init
        }
    }
}

/// `d` holds the counters of the row `w`.
pub open spec fn counters_of(d: DiskCounters, w: Seq<Seq<char>>) -> bool {
    &&& d.device@ == w[2]
    &&& d.reads_completed == field_value(w, 3)
    &&& d.sectors_read == field_value(w, 5)
    &&& d.writes_completed == field_value(w, 7)
    &&& d.sectors_written == field_value(w, 9)
    &&& d.time_spent_io == field_value(w, 12)
    &&& d.weighted_time_io == field_value(w, 13)
}

/// A counter field of a row.
fn field_at(w: &Vec<Vec<char>>, i: usize) -> (r: u64)
    requires
        i < w@.len(),
    ensures
        r == field_value(views_of(w@), i as int),
{
    assert(views_of(w@)[i as int] == w@[i as int]@);
    match parse_uint(&w[i], 10, u64::MAX) {
        Some(n) => n,
        None => 0,
    }
}

/// The counters of the real disks in a `/proc/diskstats` text, in order (see
/// `disk_rows`).
pub fn parse_diskstats(content: &str) -> (r: Vec<DiskCounters>)
    ensures
        r@.len() == disk_rows(lines(content@)).len(),
        forall|k: int| 0 <= k < r@.len() ==> counters_of(#[trigger] r@[k], disk_rows(lines(content@))[k]),
{
    proof {
        reveal_strlit("loop");
        reveal_strlit("ram");
    }
    let v = chars_of(content);
    let ls = split_lines(&v);
    let lp = chars_of("loop");
    let ram = chars_of("ram");
    let ghost all = lines(content@);
    let mut r: Vec<DiskCounters> = Vec::new();
    let mut i: usize = 0;
    while i < ls.len()
        invariant
            i <= ls@.len(),
            views_of(ls@) == all,
            lp@ == "loop"@,
            ram@ == "ram"@,
            r@.len() == disk_rows(all.take(i as int)).len(),
            forall|k: int| 0 <= k < r@.len() ==> counters_of(#[trigger] r@[k], disk_rows(all.take(i as int))[k]),
        decreases ls.len() - i,
    {
        assert(all.take(i + 1).drop_last() == all.take(i as int));
        assert(all.take(i + 1).last() == ls@[i as int]@);
        let w = split_words(&ls[i]);
        if w.len() >= 14 {
            assert(views_of(w@)[2] == w@[2]@);
            if !has_prefix(&w[2], &lp) && !has_prefix(&w[2], &ram) {
                r.push(
                    DiskCounters {
                        device: string_of_all(&w[2]),
                        reads_completed: field_at(&w, 3),
                        sectors_read: field_at(&w, 5),
                        writes_completed: field_at(&w, 7),
                        sectors_written: field_at(&w, 9),
                        time_spent_io: field_at(&w, 12),
                        weighted_time_io: field_at(&w, 13),
                    },
                );
            }
        }
        i = i + 1;
    }
    assert(all.take(i as int) == all);
    r
}

/// How far the counters of one disk moved since the last reading, in the units of
/// `/proc/diskstats`; each difference stops at 0.
#[derive(Debug, Clone)]
pub struct DiskMovement {
    pub device: String,
    pub sectors_read: u64,
    pub sectors_written: u64,
    pub io_time_ms: u64,
    pub operations: u64,
    pub weighted_io_ms: u64,
}

/// `a - b`, or 0 when `b` is larger.
pub open spec fn sat_sub(a: u64, b: u64) -> u64 {
    if a >= b {
        (a - b) as u64
    } else {
        0
    }
}

/// `m` is the movement of the disk `d` against the reading `last`: sectors and busy
/// time against the same counters of `last`, completed operations against the reads
/// and writes of `last` together, and the weighted busy time against the busy time of
/// `last`.
pub open spec fn movement_of(m: DiskMovement, d: DiskCounters, last: SystemIOStats) -> bool {
    &&& m.device@ == d.device@
    &&& m.sectors_read == sat_sub(d.sectors_read, last.sectors_read)
    &&& m.sectors_written == sat_sub(d.sectors_written, last.sectors_written)
    &&& m.io_time_ms == sat_sub(d.time_spent_io, last.time_spent_io)
    &&& m.operations == sat_sub(
        (d.reads_completed + d.writes_completed) as u64,
        (last.reads_completed + last.writes_completed) as u64,
    )
    &&& m.weighted_io_ms == sat_sub(d.weighted_time_io, last.time_spent_io)
}

/// The movement of each disk against the reading `last`, disk by disk.
pub fn disk_movements(disks: &[DiskCounters], last: &SystemIOStats) -> (r: Vec<DiskMovement>)
    requires
        last.reads_completed + last.writes_completed <= u64::MAX,
        forall|k: int| 0 <= k < disks@.len() ==> #[trigger] disks@[k].reads_completed + disks@[k].writes_completed <= u64::MAX,
    ensures
        r@.len() == disks@.len(),
        forall|k: int| 0 <= k < r@.len() ==> movement_of(#[trigger] r@[k], disks@[k], *last),
{
    let mut r: Vec<DiskMovement> = Vec::new();
    let mut i: usize = 0;
    while i < disks.len()
        invariant
            i <= disks@.len(),
            r@.len() == i,
            last.reads_completed + last.writes_completed <= u64::MAX,
            forall|k: int| 0 <= k < disks@.len() ==> #[trigger] disks@[k].reads_completed + disks@[k].writes_completed <= u64::MAX,
            forall|k: int| 0 <= k < r@.len() ==> movement_of(#[trigger] r@[k], disks@[k], *last),
        decreases disks.len() - i,
    {
        let d = &disks[i];
        assert(d.reads_completed + d.writes_completed <= u64::MAX);
        let done = d.reads_completed + d.writes_completed;
        let done_before = last.reads_completed + last.writes_completed;
        r.push(DiskMovement {
            device: d.device.clone(),
            sectors_read: d.sectors_read.saturating_sub(last.sectors_read),
            sectors_written: d.sectors_written.saturating_sub(last.sectors_written),
            io_time_ms: d.time_spent_io.saturating_sub(last.time_spent_io),
            operations: done.saturating_sub(done_before),
            weighted_io_ms: d.weighted_time_io.saturating_sub(last.time_spent_io),
        });
        i = i + 1;
    }
    r
}

/// The I/O counters of a process, from `/proc/<pid>/io`.
#[derive(Debug, Clone, Copy, PartialEq, Eq, Structural)]
pub struct ProcessIOStats {
    pub read_bytes: u64,
    pub write_bytes: u64,
    pub read_syscalls: u64,
    pub write_syscalls: u64,
    pub actual_read_bytes: u64,
    pub actual_write_bytes: u64,
}

/// The counter named `key` in the lines `ls` of an I/O report: the second word, as a
/// number (0 where it does not read), of the last line of two words or more whose first
/// word is `key`; 0 where there is none.
pub open spec fn io_counter(ls: Seq<Seq<char>>, key: Seq<char>) -> u64
    decreases ls.len(),
{
    if ls.len() == 0 {
        0
    } else {
        let w = words(ls.last());
        if w.len() >= 2 && w[0] == key {
            match parse_unsigned(w[1], 10, u64::MAX as nat) {
                Some(x) => x as u64,
                None => 0,
            }
        } else {
            io_counter(ls.drop_last(), key)
        }
    }
}

/// The counters of the lines `ls` of an I/O report.
pub open spec fn io_stats_of(ls: Seq<Seq<char>>) -> ProcessIOStats {
    ProcessIOStats {
        read_bytes: io_counter(ls, "rchar:"@),
        write_bytes: io_counter(ls, "wchar:"@),
        read_syscalls: io_counter(ls, "syscr:"@),
        write_syscalls: io_counter(ls, "syscw:"@),
        actual_read_bytes: io_counter(ls, "read_bytes:"@),
        actual_write_bytes: io_counter(ls, "write_bytes:"@),
    }
}

/// The I/O counters a `/proc/<pid>/io` report gives (see `io_counter`).
pub fn process_io_stats(io_content: &str) -> (r: ProcessIOStats)
    ensures
        r == io_stats_of(lines(io_content@)),
{
    let rchar: [char; 6] = ['r', 'c', 'h', 'a', 'r', ':'];
    let wchar: [char; 6] = ['w', 'c', 'h', 'a', 'r', ':'];
    let syscr: [char; 6] = ['s', 'y', 's', 'c', 'r', ':'];
    let syscw: [char; 6] = ['s', 'y', 's', 'c', 'w', ':'];
    let rbytes: [char; 11] = ['r', 'e', 'a', 'd', '_', 'b', 'y', 't', 'e', 's', ':'];
    let wbytes: [char; 12] = ['w', 'r', 'i', 't', 'e', '_', 'b', 'y', 't', 'e', 's', ':'];
    proof {
        reveal_strlit("rchar:");
        reveal_strlit("wchar:");
        reveal_strlit("syscr:");
        reveal_strlit("syscw:");
        reveal_strlit("read_bytes:");
        reveal_strlit("write_bytes:");
    }
    assert(rchar@ == "rchar:"@ && wchar@ == "wchar:"@ && syscr@ == "syscr:"@ && syscw@ == "syscw:"@);
    assert(rbytes@ == "read_bytes:"@ && wbytes@ == "write_bytes:"@);
    let v = chars_of(io_content);
    let ls = split_lines(&v);
    let ghost all = lines(io_content@);
    let mut r = ProcessIOStats {
        read_bytes: 0,
        write_bytes: 0,
        read_syscalls: 0,
        write_syscalls: 0,
        actual_read_bytes: 0,
        actual_write_bytes: 0,
    };
    let mut i: usize = 0;
    assert(all.take(0) =~= Seq::<Seq<char>>::empty());
    while i < ls.len()
        invariant
            i <= ls@.len(),
            views_of(ls@) == all,
            rchar@ == "rchar:"@ && wchar@ == "wchar:"@ && syscr@ == "syscr:"@ && syscw@ == "syscw:"@,
            rbytes@ == "read_bytes:"@ && wbytes@ == "write_bytes:"@,
            r == io_stats_of(all.take(i as int)),
        decreases ls.len() - i,
    {
        assert(all.take(i + 1).drop_last() == all.take(i as int));
        assert(all.take(i + 1).last() == ls@[i as int]@);
        proof {
            reveal_strlit("rchar:");
            reveal_strlit("wchar:");
            reveal_strlit("syscr:");
            reveal_strlit("syscw:");
            reveal_strlit("read_bytes:");
            reveal_strlit("write_bytes:");
            // The six names are different from one another.
            assert("rchar:"@[0] != "wchar:"@[0] && "rchar:"@[0] != "syscr:"@[0] && "rchar:"@[0] != "syscw:"@[0]);
            assert("wchar:"@[0] != "syscr:"@[0] && "wchar:"@[0] != "syscw:"@[0]);
            assert("syscr:"@[4] != "syscw:"@[4]);
            assert("read_bytes:"@.len() != "write_bytes:"@.len() && "read_bytes:"@.len() != "rchar:"@.len());
            assert("write_bytes:"@.len() != "rchar:"@.len());
        }
        let ws = split_words(ls[i].as_slice());
        if ws.len() >= 2 {
            assert(views_of(ws@)[0] == ws@[0]@ && views_of(ws@)[1] == ws@[1]@);
            let value: u64 = match parse_uint(ws[1].as_slice(), 10, u64::MAX) {
                Some(x) => x,
                None => 0,
            };
            let w0 = ws[0].as_slice();
            if chars_eq(w0, &rchar) {
                r.read_bytes = value;
            } else if chars_eq(w0, &wchar) {
                r.write_bytes = value;
            } else if chars_eq(w0, &syscr) {
                r.read_syscalls = value;
            } else if chars_eq(w0, &syscw) {
                r.write_syscalls = value;
            } else if chars_eq(w0, &rbytes) {
                r.actual_read_bytes = value;
            } else if chars_eq(w0, &wbytes) {
                r.actual_write_bytes = value;
            }
        }
        i = i + 1;
    }
    assert(all.take(i as int) == all);
    r
}

/// Why the I/O wait of a process could not be read from its stat report.
#[derive(Debug, Clone, Copy, PartialEq, Eq, Structural)]
pub enum IoWaitError {
    /// The report has 41 fields or fewer.
    InvalidStatFormat,
    /// Field 42 is not a number.
    InvalidNumber,
}

/// The block I/O delay of a process, in clock ticks: field 42 of its `/proc/<pid>/stat`
/// report (`delayacct_blkio_ticks`).
pub fn io_wait_ticks(stat_content: &str) -> (r: Result<u64, IoWaitError>)
    ensures
        words(stat_content@).len() <= 41 ==> r == Err::<u64, IoWaitError>(IoWaitError::InvalidStatFormat),
        words(stat_content@).len() > 41 ==> match parse_unsigned(words(stat_content@)[41], 10, u64::MAX as nat) {
            Some(x) => r == Ok::<u64, IoWaitError>(x as u64),
            None => r == Err::<u64, IoWaitError>(IoWaitError::InvalidNumber),
        },
{
    let v = chars_of(stat_content);
    let ws = split_words(&v);
    if ws.len() <= 41 {
        return Err(IoWaitError::InvalidStatFormat);
    }
    assert(views_of(ws@)[41] == ws@[41]@);
    match parse_uint(ws[41].as_slice(), 10, u64::MAX) {
        Some(x) => Ok(x),
        None => Err(IoWaitError::InvalidNumber),
    }
}

} // verus!
