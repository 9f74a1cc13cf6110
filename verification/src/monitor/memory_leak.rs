//! Memory leak detection: the kinds of alert, the peak pattern of a leak, and the heap
//! and stack sizes a process status report gives.
use vstd::prelude::*;
use crate::num::{parse_uint, parse_unsigned};
use crate::text::{chars_of, has_prefix, lines, split_lines, split_words, starts_with, views_of, words};

verus! {

/// The kinds of memory leak alert.
#[derive(Debug, Clone, Copy, PartialEq, Eq, Structural)]
pub enum LeakAlertType {
    SteadyGrowth,
    RapidIncrease,
    MemorySpike,
    SuspiciousPattern,
    FragmentationIncrease,
}

/// How serious a memory leak alert is.
#[derive(Debug, Clone, Copy, PartialEq, Eq, Structural)]
pub enum LeakSeverity {
    Low,
    Medium,
    High,
    Critical,
}

/// Sample `i` of `s` is a peak: above both its neighbours.
pub open spec fn is_peak(s: Seq<u64>, i: int) -> bool {
    1 <= i && i + 1 < s.len() && s[i] > s[i - 1] && s[i] > s[i + 1]
}

/// The values of the peaks among the first `n` samples of `s`, in order.
pub open spec fn peaks_before(s: Seq<u64>, n: int) -> Seq<u64>
    decreases n,
{
    if n <= 0 {
        Seq::empty()
    } else {
        let p = peaks_before(s, n - 1);
        if is_peak(s, n - 1) {
            p.push(s[n - 1])
        } else {
            p
        }
    }
}

/// Each value of `v` is above the one before.
pub open spec fn strictly_rising(v: Seq<u64>) -> bool {
    forall|i: int, j: int| 0 <= i && j == i + 1 && j < v.len() ==> #[trigger] v[i] < #[trigger] v[j]
}

/// The peaks of a memory history (oldest first) when they form the pattern of a leak:
/// at least ten samples, and at least three peaks, each higher than the one before.
pub open spec fn rising_peaks_of(s: Seq<u64>) -> Option<Seq<u64>> {
    let p = peaks_before(s, s.len() as int);
    if s.len() >= 10 && p.len() >= 3 && strictly_rising(p) {
        Some(p)
    } else {
        None
    }
}

/// The values of the peaks of `samples`, in order.
pub fn memory_peaks(samples: &[u64]) -> (r: Vec<u64>)
    ensures
        r@ == peaks_before(samples@, samples@.len() as int),
{
    let mut r: Vec<u64> = Vec::new();
    let mut i: usize = 0;
    while i < samples.len()
        invariant
            i <= samples@.len(),
            r@ == peaks_before(samples@, i as int),
        decreases samples.len() - i,
    {
        if i >= 1 && i + 1 < samples.len() && samples[i] > samples[i - 1] && samples[i] > samples[i + 1] {
            r.push(samples[i]);
        }
        i = i + 1;
    }
    r
}

/// Whether each value of `v` is above the one before.
fn rising(v: &[u64]) -> (b: bool)
    ensures
        b == strictly_rising(v@),
{
    let n = v.len();
    if n < 2 {
        return true;
    }
    let mut i: usize = 1;
    while i < n
        invariant
            1 <= i <= n,
            n == v@.len(),
            forall|a: int, c: int| 0 <= a && c == a + 1 && c < i ==> #[trigger] v@[a] < #[trigger] v@[c],
        decreases n - i,
    {
        if v[i - 1] >= v[i] {
            assert(!(v@[i - 1] < v@[i as int]));
            return false;
        }
        i = i + 1;
    }
    true
}

/// The peaks of `samples` (oldest first) when they form the pattern of a leak (see
/// `rising_peaks_of`).
pub fn rising_peaks(samples: &[u64]) -> (r: Option<Vec<u64>>)
    ensures
        match rising_peaks_of(samples@) {
            Some(p) => r is Some && r->Some_0@ == p,
            None => r is None,
        },
{
    if samples.len() < 10 {
        return None;
    }
    let p = memory_peaks(samples);
    if p.len() >= 3 && rising(&p) {
        Some(p)
    } else {
        None
    }
}

/// The advice given with an alert; for steady growth it depends on whether the growth
/// is above 10 MB a minute.
pub open spec fn advice(alert_type: LeakAlertType, growth_above_ten: bool) -> Seq<char> {
    match alert_type {
        LeakAlertType::SteadyGrowth => if growth_above_ten {
            "Investigate process for memory leaks. Consider restarting if critical."@
        } else {
            "Monitor process memory usage. May need optimization."@
        },
        LeakAlertType::RapidIncrease => "Immediate investigation required. Process may be malfunctioning."@,
        LeakAlertType::MemorySpike => "Check for temporary high memory usage. Monitor for pattern."@,
        LeakAlertType::SuspiciousPattern => "Analyze process allocation patterns. Likely memory leak."@,
        LeakAlertType::FragmentationIncrease => "Check for memory fragmentation issues."@,
    }
}

/// The advice given with an alert (see `advice`).
pub fn suggest_action(alert_type: LeakAlertType, growth_above_ten: bool) -> (r: String)
    ensures
        r@ == advice(alert_type, growth_above_ten),
{
    match alert_type {
        LeakAlertType::SteadyGrowth => if growth_above_ten {
            "Investigate process for memory leaks. Consider restarting if critical.".to_owned()
        } else {
            "Monitor process memory usage. May need optimization.".to_owned()
        },
        LeakAlertType::RapidIncrease => "Immediate investigation required. Process may be malfunctioning.".to_owned(),
        LeakAlertType::MemorySpike => "Check for temporary high memory usage. Monitor for pattern.".to_owned(),
        LeakAlertType::SuspiciousPattern => "Analyze process allocation patterns. Likely memory leak.".to_owned(),
        LeakAlertType::FragmentationIncrease => "Check for memory fragmentation issues.".to_owned(),
    }
}

/// A status line gives a size: it starts with `key` and its second word reads as a
/// number of KiB.
pub open spec fn kib_line(l: Seq<char>, key: Seq<char>) -> bool {
    starts_with(l, key) && words(l).len() >= 2 && parse_unsigned(words(l)[1], 10, u64::MAX as nat) is Some
}

/// The size in bytes the first line of `ls` with `key` that gives a size gives.
pub open spec fn kib_field(ls: Seq<Seq<char>>, key: Seq<char>) -> Option<nat>
    decreases ls.len(),
{
    if ls.len() == 0 {
        None
    } else if kib_line(ls[0], key) {
        Some(parse_unsigned(words(ls[0])[1], 10, u64::MAX as nat)->Some_0 * 1024)
    } else {
        kib_field(ls.drop_first(), key)
    }
}

/// A size that fits a `u64`, if there is one.
pub open spec fn kib_field_fits(content: Seq<char>, key: Seq<char>) -> bool {
    match kib_field(lines(content), key) {
        Some(b) => b <= u64::MAX,
        None => true,
    }
}

/// The size, in bytes, that the first line of a `/proc/<pid>/status` report starting
/// with `key` and giving a number of KiB gives.
pub fn status_kib_field(status_content: &str, key: &str) -> (r: Option<u64>)
    requires
        kib_field_fits(status_content@, key@),
    ensures
        match kib_field(lines(status_content@), key@) {
            Some(b) => r == Some(b as u64),
            None => r is None,
        },
{
    let v = chars_of(status_content);
    let k = chars_of(key);
    let ls = split_lines(&v);
    let ghost lv = lines(status_content@);
    let mut i: usize = 0;
    assert(lv.skip(0) == lv);
    while i < ls.len()
        invariant
            views_of(ls@) == lv,
            lv == lines(status_content@),
            k@ == key@,
            i <= ls@.len(),
            kib_field(lv, key@) == kib_field(lv.skip(i as int), key@),
            kib_field_fits(status_content@, key@),
        decreases ls.len() - i,
    {
        assert(views_of(ls@)[i as int] == ls@[i as int]@);
        assert(lv.skip(i as int)[0] == lv[i as int]);
        assert(lv.skip(i as int).drop_first() == lv.skip(i + 1));
        if has_prefix(&ls[i], &k) {
            let parts = split_words(&ls[i]);
            if parts.len() >= 2 {
                assert(views_of(parts@)[1] == parts@[1]@);
                match parse_uint(&parts[1], 10, u64::MAX) {
                    Some(n) => {
                        return Some(n * 1024);
                    },
                    None => {},
                }
            }
        }
        i = i + 1;
    }
    assert(lv.skip(i as int) =~= Seq::<Seq<char>>::empty());
    None
}

/// The heap size (the `VmData:` line) of a status report, in bytes.
pub fn get_heap_size(status_content: &str) -> (r: Option<u64>)
    requires
        kib_field_fits(status_content@, "VmData:"@),
    ensures
        match kib_field(lines(status_content@), "VmData:"@) {
            Some(b) => r == Some(b as u64),
            None => r is None,
        },
{
    status_kib_field(status_content, "VmData:")
}

/// The stack size (the `VmStk:` line) of a status report, in bytes.
pub fn get_stack_size(status_content: &str) -> (r: Option<u64>)
    requires
        kib_field_fits(status_content@, "VmStk:"@),
    ensures
        match kib_field(lines(status_content@), "VmStk:"@) {
            Some(b) => r == Some(b as u64),
            None => r is None,
        },
{
    status_kib_field(status_content, "VmStk:")
}

} // verus!
