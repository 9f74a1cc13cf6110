//! CPU affinity of processes: the mask of CPUs a process may run on.
use vstd::prelude::*;
use crate::num::{hex_digits, lemma_hex_digits_value, lemma_parse_hex_digits, parse_uint, parse_unsigned, push_hex};
use crate::text::{chars_of, string_of_all, has_prefix, lines, push_char, slice_chars, split_lines, split_words, starts_with, views_of, words};

verus! {

/// The CPU affinity of a process.
#[derive(Debug, Clone)]
pub struct ProcessAffinity {
    pub pid: u32,
    pub cpu_mask: Vec<bool>,
    pub allowed_cpus: Vec<usize>,
    pub cpu_count: usize,
}

/// Why an affinity change was refused.
#[derive(Debug, Clone, Copy, PartialEq, Eq)]
pub enum AffinityError {
    /// The CPU index is not below the CPU count; `max` is the largest valid index.
    CpuIndexOutOfRange { index: usize, max: usize },
}

/// Reads CPU masks and affinities.
pub struct AffinityManager;

/// The CPU topology: logical CPUs, physical cores and threads per core.
#[derive(Debug, Clone)]
pub struct CpuTopology {
    pub logical_cpus: usize,
    pub physical_cpus: usize,
    pub threads_per_core: usize,
}

/// The positions at which `mask` holds `true`, in increasing order.
pub open spec fn enabled_positions(mask: Seq<bool>) -> Seq<usize>
    decreases mask.len(),
{
    if mask.len() == 0 {
        seq![]
    } else if mask.last() {
        enabled_positions(mask.drop_last()).push((mask.len() - 1) as usize)
    } else {
        enabled_positions(mask.drop_last())
    }
}

/// `s` with every leading `0x` removed (as `trim_start_matches("0x")`).
pub open spec fn trim_hex_prefix(s: Seq<char>) -> Seq<char>
    decreases s.len(),
{
    if starts_with(s, seq!['0', 'x']) {
        trim_hex_prefix(s.skip(2))
    } else {
        s
    }
}

/// The value of a hexadecimal mask text, if it reads as one.
pub open spec fn mask_value(mask_str: Seq<char>) -> Option<nat> {
    parse_unsigned(trim_hex_prefix(mask_str), 16, u64::MAX as nat)
}

/// CPU `i` is enabled by the mask value `m`.
pub open spec fn cpu_bit(m: u64, i: u64) -> bool {
    m & (1u64 << i) != 0
}

/// `text` is the mask text of `mask`: `0x` and the lower-case hexadecimal digits of a
/// value whose bits below 64 are the mask's.
pub open spec fn mask_text_of(text: Seq<char>, mask: Seq<bool>) -> bool {
    exists|m: u64|
        #![trigger hex_digits(m as nat)]
        text == seq!['0', 'x'] + hex_digits(m as nat) && forall|i: u64|
            i < 64 ==> (#[trigger] cpu_bit(m, i) <==> (i < mask.len() && mask[i as int]))
}

/// `mask` is the CPU mask, for `cpu_count` CPUs, that the text `text` reads as: the
/// bits of its value, or no CPU where it does not read.
pub open spec fn mask_read_from(mask: Seq<bool>, text: Seq<char>, cpu_count: nat) -> bool {
    &&& mask.len() == cpu_count
    &&& forall|i: int| 0 <= i < cpu_count ==> #[trigger] mask[i] == match mask_value(text) {
        Some(m) => cpu_bit(m as u64, i as u64),
        None => false,
    }
}

/// Writing a CPU mask as text and reading the text back, for the same number of CPUs
/// (at most 64), gives the same mask.
pub proof fn lemma_mask_round_trip(mask: Seq<bool>, text: Seq<char>, read: Seq<bool>)
    requires
        mask.len() <= 64,
        mask_text_of(text, mask),
        mask_read_from(read, text, mask.len()),
    ensures
        read == mask,
{
    let m = choose|m: u64|
        text == seq!['0', 'x'] + hex_digits(m as nat) && forall|i: u64|
            i < 64 ==> (#[trigger] cpu_bit(m, i) <==> (i < mask.len() && mask[i as int]));
    let h = hex_digits(m as nat);
    lemma_parse_hex_digits(m as nat, u64::MAX as nat);
    lemma_hex_digits_value(m as nat);
    assert(starts_with(text, seq!['0', 'x'])) by {
        assert(text.take(2) =~= seq!['0', 'x']);
    }
    assert(text.skip(2) =~= h);
    assert(!starts_with(h, seq!['0', 'x'])) by {
        if h.len() >= 2 {
            assert(h.take(2)[1] == h[1]);
        }
    }
    assert(trim_hex_prefix(h) == h);
    assert(mask_value(text) == Some(m as nat));
    assert forall|i: int| 0 <= i < mask.len() implies read[i] == mask[i] by {
        assert(cpu_bit(m, i as u64) <==> (i < mask.len() && mask[i]));
    }
    assert(read =~= mask);
}

proof fn lemma_or_bit(m: u64, i: u64, j: u64)
    requires
        i < 64,
        j < 64,
    ensures
        cpu_bit(m | (1u64 << i), j) == (cpu_bit(m, j) || i == j),
{
    assert((m | (1u64 << i)) & (1u64 << j) != 0 <==> (m & (1u64 << j) != 0 || i == j)) by (bit_vector)
        requires
            i < 64,
            j < 64,
    ;
}

proof fn lemma_zero_bits(j: u64)
    requires
        j < 64,
    ensures
        !cpu_bit(0u64, j),
{
    assert(0u64 & (1u64 << j) == 0) by (bit_vector)
        requires
            j < 64,
    ;
}

proof fn lemma_trim_hex_step(t: Seq<char>)
    requires
        t.len() >= 2,
        t[0] == '0',
        t[1] == 'x',
    ensures
        trim_hex_prefix(t) == trim_hex_prefix(t.skip(2)),
{
    assert(t.take(2) =~= seq!['0', 'x']);
}

proof fn lemma_trim_hex_stop(t: Seq<char>)
    requires
        !(t.len() >= 2 && t[0] == '0' && t[1] == 'x'),
    ensures
        trim_hex_prefix(t) == t,
{
    if starts_with(t, seq!['0', 'x']) {
        assert(t.take(2)[0] == t[0]);
        assert(t.take(2)[1] == t[1]);
    }
}

fn trim_hex_prefix_chars(v: &[char]) -> (r: Vec<char>)
    ensures
        r@ == trim_hex_prefix(v@),
{
    let mut lo: usize = 0;
    assert(v@.skip(0) == v@);
    while lo < v.len() && v.len() - lo >= 2 && v[lo] == '0' && v[lo + 1] == 'x'
        invariant
            lo <= v@.len(),
            v@.len() == v.len(),
            trim_hex_prefix(v@.skip(lo as int)) == trim_hex_prefix(v@),
        decreases v.len() - lo,
    {
        proof {
            let t = v@.skip(lo as int);
            lemma_trim_hex_step(t);
            assert(t.skip(2) == v@.skip(lo + 2));
        }
        lo = lo + 2;
    }
    let ghost t = v@.skip(lo as int);
    proof {
        lemma_trim_hex_stop(t);
    }
    let r = slice_chars(v, lo, v.len());
    assert(r@ == t);
    r
}

proof fn lemma_all_enabled(n: nat)
    ensures
        enabled_positions(Seq::new(n, |i: int| true)) == Seq::new(n, |i: int| i as usize),
    decreases n,
{
    if n > 0 {
        lemma_all_enabled((n - 1) as nat);
        assert(Seq::new(n, |i: int| true).drop_last() =~= Seq::new((n - 1) as nat, |i: int| true));
        assert(Seq::new((n - 1) as nat, |i: int| i as usize).push((n - 1) as usize) =~= Seq::new(n, |i: int| i as usize));
    } else {
        assert(Seq::new(0, |i: int| true) =~= Seq::<bool>::empty());
        assert(Seq::new(0, |i: int| i as usize) =~= Seq::<usize>::empty());
    }
}

impl ProcessAffinity {
    /// The affinity of a process that may run on all of `cpu_count` CPUs.
    pub fn new(pid: u32, cpu_count: usize) -> (r: Self)
        ensures
            r.pid == pid,
            r.cpu_count == cpu_count,
            r.cpu_mask@ == Seq::new(cpu_count as nat, |i: int| true),
            r.allowed_cpus@ == Seq::new(cpu_count as nat, |i: int| i as usize),
            r.allowed_cpus@ == enabled_positions(r.cpu_mask@),
    {
        let mut cpu_mask: Vec<bool> = Vec::new();
        let mut allowed_cpus: Vec<usize> = Vec::new();
        let mut i: usize = 0;
        while i < cpu_count
            invariant
                i <= cpu_count,
                cpu_mask@ == Seq::new(i as nat, |k: int| true),
                allowed_cpus@ == Seq::new(i as nat, |k: int| k as usize),
            decreases cpu_count - i,
        {
            cpu_mask.push(true);
            allowed_cpus.push(i);
            assert(cpu_mask@ =~= Seq::new((i + 1) as nat, |k: int| true));
            assert(allowed_cpus@ =~= Seq::new((i + 1) as nat, |k: int| k as usize));
            i = i + 1;
        }
        proof {
            lemma_all_enabled(cpu_count as nat);
        }
        ProcessAffinity { pid, cpu_mask, allowed_cpus, cpu_count }
    }

    /// The affinity that a hexadecimal CPU mask (with any leading `0x` removed) gives for
    /// `cpu_count` CPUs; a mask that does not read enables no CPU.
    pub fn from_mask_string(pid: u32, mask_str: &str, cpu_count: usize) -> (r: Result<Self, AffinityError>)
        requires
            mask_value(mask_str@) is None || cpu_count <= 64,
        ensures
            r is Ok,
            r->Ok_0.pid == pid,
            r->Ok_0.cpu_count == cpu_count,
            mask_read_from(r->Ok_0.cpu_mask@, mask_str@, cpu_count as nat),
            r->Ok_0.allowed_cpus@ == enabled_positions(r->Ok_0.cpu_mask@),
    {
        let v = chars_of(mask_str);
        let t = trim_hex_prefix_chars(&v);
        let parsed = parse_uint(&t, 16, u64::MAX);
        let mut cpu_mask: Vec<bool> = Vec::new();
        let mut allowed_cpus: Vec<usize> = Vec::new();
        let mut i: usize = 0;
        while i < cpu_count
            invariant
                i <= cpu_count,
                parsed is Some ==> cpu_count <= 64,
                match mask_value(mask_str@) {
                    Some(m) => parsed == Some(m as u64),
                    None => parsed is None,
                },
                cpu_mask@.len() == i,
                forall|k: int| 0 <= k < i ==> #[trigger] cpu_mask@[k] == match parsed {
                    Some(m) => cpu_bit(m, k as u64),
                    None => false,
                },
                allowed_cpus@ == enabled_positions(cpu_mask@),
            decreases cpu_count - i,
        {
            let on = match parsed {
                Some(m) => m & (1u64 << (i as u64)) != 0,
                None => false,
            };
            let ghost before = cpu_mask@;
            cpu_mask.push(on);
            if on {
                allowed_cpus.push(i);
            }
            assert(cpu_mask@.drop_last() == before);
            i = i + 1;
        }
        Ok(ProcessAffinity { pid, cpu_mask, allowed_cpus, cpu_count })
    }

    /// The mask text `0x…` (lower-case hexadecimal) of the enabled CPUs.
    pub fn to_mask_string(&self) -> (r: String)
        requires
            forall|i: int| 64 <= i < self.cpu_mask@.len() ==> !self.cpu_mask@[i],
        ensures
            mask_text_of(r@, self.cpu_mask@),
    {
        let mut m: u64 = 0;
        let mut i: usize = 0;
        let n = self.cpu_mask.len();
        let limit = if n < 64 { n } else { 64 };
        proof {
            assert forall|j: u64| j < 64 implies !cpu_bit(m, j) by {
                lemma_zero_bits(j);
            }
        }
        while i < limit
            invariant
                limit <= 64,
                limit <= n == self.cpu_mask@.len(),
                i <= limit,
                forall|j: u64| j < 64 ==> (cpu_bit(m, j) <==> ((j as int) < i && self.cpu_mask@[j as int])),
            decreases limit - i,
        {
            if self.cpu_mask[i] {
                let ghost old_m = m;
                m = m | (1u64 << (i as u64));
                proof {
                    assert forall|j: u64| j < 64 implies (cpu_bit(m, j) <==> ((j as int) < i + 1 && self.cpu_mask@[j as int])) by {
                        lemma_or_bit(old_m, i as u64, j);
                    }
                }
            }
            i = i + 1;
        }
        let mut s = String::new();
        push_char(&mut s, '0');
        push_char(&mut s, 'x');
        push_hex(&mut s, m);
        assert(forall|j: u64| j < 64 ==> (cpu_bit(m, j) <==> (j < self.cpu_mask@.len() && self.cpu_mask@[j as int])));
        assert(s@ == seq!['0', 'x'] + hex_digits(m as nat));
        s
    }

    /// Enables or disables CPU `cpu_index` and recomputes the allowed CPUs; refused when
    /// the index is not below the CPU count.
    pub fn set_cpu(&mut self, cpu_index: usize, enabled: bool) -> (r: Result<(), AffinityError>)
        requires
            old(self).cpu_count > 0,
            cpu_index < old(self).cpu_count ==> cpu_index < old(self).cpu_mask@.len(),
        ensures
            cpu_index >= old(self).cpu_count ==> r == Err::<(), AffinityError>(
                AffinityError::CpuIndexOutOfRange { index: cpu_index, max: (old(self).cpu_count - 1) as usize },
            ) && *final(self) == *old(self),
            cpu_index < old(self).cpu_count ==> {
                &&& r is Ok
                &&& final(self).cpu_mask@ == old(self).cpu_mask@.update(cpu_index as int, enabled)
                &&& final(self).allowed_cpus@ == enabled_positions(final(self).cpu_mask@)
                &&& final(self).pid == old(self).pid
                &&& final(self).cpu_count == old(self).cpu_count
            },
    {
        if cpu_index >= self.cpu_count {
            return Err(AffinityError::CpuIndexOutOfRange { index: cpu_index, max: self.cpu_count - 1 });
        }
        self.cpu_mask.set(cpu_index, enabled);
        let mut allowed: Vec<usize> = Vec::new();
        let mut i: usize = 0;
        assert(enabled_positions(self.cpu_mask@.take(0)) == Seq::<usize>::empty());
        while i < self.cpu_mask.len()
            invariant
                i <= self.cpu_mask@.len(),
                allowed@ == enabled_positions(self.cpu_mask@.take(i as int)),
            decreases self.cpu_mask.len() - i,
        {
            assert(self.cpu_mask@.take(i + 1).drop_last() == self.cpu_mask@.take(i as int));
            assert(self.cpu_mask@.take(i + 1).last() == self.cpu_mask@[i as int]);
            if self.cpu_mask[i] {
                allowed.push(i);
            }
            i = i + 1;
        }
        assert(self.cpu_mask@.take(i as int) == self.cpu_mask@);
        self.allowed_cpus = allowed;
        Ok(())
    }
}

/// The key of the allowed-CPU line of a status report.
pub open spec fn cpus_allowed_key() -> Seq<char> {
    seq!['C', 'p', 'u', 's', '_', 'a', 'l', 'l', 'o', 'w', 'e', 'd', ':']
}

/// The first line of `ls` that starts with `key` (meaningful when there is one).
pub open spec fn first_line_with(ls: Seq<Seq<char>>, key: Seq<char>) -> int {
    choose|i: int| 0 <= i < ls.len() && starts_with(ls[i], key) && forall|j: int| 0 <= j < i ==> !starts_with(ls[j], key)
}

proof fn lemma_first_line_with(ls: Seq<Seq<char>>, key: Seq<char>, i: int)
    requires
        0 <= i < ls.len(),
        starts_with(ls[i], key),
        forall|j: int| 0 <= j < i ==> !starts_with(ls[j], key),
    ensures
        first_line_with(ls, key) == i,
        exists|i: int| 0 <= i < ls.len() && starts_with(ls[i], key),
{
    let c = first_line_with(ls, key);
    assert(0 <= c < ls.len() && starts_with(ls[c], key) && forall|j: int| 0 <= j < c ==> !starts_with(ls[j], key));
    assert(!(c < i));
    assert(!(i < c));
}

/// The mask text that the `Cpus_allowed:` line of a status report holds: the second
/// word of the first line that starts with it.
pub open spec fn status_mask(content: Seq<char>) -> Option<Seq<char>> {
    let ls = lines(content);
    let key = cpus_allowed_key();
    if exists|i: int| 0 <= i < ls.len() && starts_with(ls[i], key) {
        let i = first_line_with(ls, key);
        if words(ls[i]).len() >= 2 {
            Some(words(ls[i])[1])
        } else {
            None
        }
    } else {
        None
    }
}

/// `a` is the affinity a `/proc/<pid>/status` report `content` gives for process `pid`
/// on a machine with `cpu_count` CPUs: the bits of the mask on its `Cpus_allowed:` line
/// (none where that mask does not read), or all CPUs when there is no such line.
pub open spec fn status_affinity(a: ProcessAffinity, pid: u32, content: Seq<char>, cpu_count: usize) -> bool {
    &&& a.pid == pid
    &&& a.cpu_count == cpu_count
    &&& a.cpu_mask@.len() == cpu_count
    &&& forall|i: int| 0 <= i < cpu_count ==> #[trigger] a.cpu_mask@[i] == match status_mask(content) {
        Some(m) => match mask_value(m) {
            Some(x) => cpu_bit(x as u64, i as u64),
            None => false,
        },
        None => true,
    }
    &&& a.allowed_cpus@ == enabled_positions(a.cpu_mask@)
}

/// A status report whose CPU mask the affinity reading can take for `cpu_count` CPUs:
/// a mask that reads as a number needs at most 64 CPUs.
pub open spec fn status_readable(content: Seq<char>, cpu_count: usize) -> bool {
    match status_mask(content) {
        Some(m) => mask_value(m) is None || cpu_count <= 64,
        None => true,
    }
}

/// The positions of the reports that could be read.
pub open spec fn read_positions(statuses: Seq<Option<String>>) -> Seq<int>
    decreases statuses.len(),
{
    if statuses.len() == 0 {
        Seq::empty()
    } else {
        let init = read_positions(statuses.drop_last());
        if statuses.last() is Some {
            init.push(statuses.len() - 1)
        } else {
            init
        }
    }
}

proof fn lemma_read_positions_bound(statuses: Seq<Option<String>>)
    ensures
        forall|k: int| 0 <= k < read_positions(statuses).len() ==> 0 <= #[trigger] read_positions(statuses)[k] < statuses.len()
            && statuses[read_positions(statuses)[k]] is Some,
    decreases statuses.len(),
{
    if statuses.len() > 0 {
        lemma_read_positions_bound(statuses.drop_last());
    }
}

impl AffinityManager {
    /// The affinities of the processes `pids` whose status reports could be read
    /// (`statuses[i]` is that of `pids[i]`, `None` where it could not be read), in order,
    /// on a machine with `cpu_count` CPUs.
    pub fn get_all_process_affinities(pids: &[u32], statuses: &Vec<Option<String>>, cpu_count: usize) -> (r: Vec<ProcessAffinity>)
        requires
            statuses@.len() == pids@.len(),
            forall|i: int| 0 <= i < statuses@.len() && #[trigger] statuses@[i] is Some ==> status_readable(
                statuses@[i]->Some_0@,
                cpu_count,
            ),
        ensures
            r@.len() == read_positions(statuses@).len(),
            forall|k: int| 0 <= k < r@.len() ==> {
                let i = read_positions(statuses@)[k];
                status_affinity(#[trigger] r@[k], pids@[i], statuses@[i]->Some_0@, cpu_count)
            },
    {
        let mut r: Vec<ProcessAffinity> = Vec::new();
        let mut i: usize = 0;
        while i < pids.len()
            invariant
                i <= pids@.len(),
                statuses@.len() == pids@.len(),
                forall|j: int| 0 <= j < statuses@.len() && #[trigger] statuses@[j] is Some ==> status_readable(
                    statuses@[j]->Some_0@,
                    cpu_count,
                ),
                r@.len() == read_positions(statuses@.take(i as int)).len(),
                forall|k: int| 0 <= k < r@.len() ==> {
                    let j = read_positions(statuses@.take(i as int))[k];
                    status_affinity(#[trigger] r@[k], pids@[j], statuses@[j]->Some_0@, cpu_count)
                },
            decreases pids.len() - i,
        {
            let ghost pre = statuses@.take(i as int);
            let ghost post = statuses@.take(i + 1);
            assert(post.drop_last() == pre);
            proof {
                lemma_read_positions_bound(pre);
            }
            assert(forall|k: int| 0 <= k < read_positions(pre).len() ==> read_positions(post)[k] == read_positions(pre)[k]);
            match &statuses[i] {
                Some(content) => {
                    let a = AffinityManager::affinity_from_status(pids[i], content.as_str(), cpu_count);
                    match a {
                        Ok(x) => {
                            r.push(x);
                        },
                        Err(_) => {},
                    }
                },
                None => {},
            }
            i = i + 1;
        }
        assert(statuses@.take(i as int) == statuses@);
        r
    }

    /// The affinity that a `/proc/<pid>/status` report gives for a process on a machine
    /// with `cpu_count` CPUs: read from the mask of its `Cpus_allowed:` line, or all CPUs
    /// when there is none.
    pub fn affinity_from_status(pid: u32, status_content: &str, cpu_count: usize) -> (r: Result<ProcessAffinity, AffinityError>)
        requires
            match status_mask(status_content@) {
                Some(m) => mask_value(m) is None || cpu_count <= 64,
                None => true,
            },
        ensures
            r is Ok,
            status_affinity(r->Ok_0, pid, status_content@, cpu_count),
    {
        let key: [char; 13] = ['C', 'p', 'u', 's', '_', 'a', 'l', 'l', 'o', 'w', 'e', 'd', ':'];
        assert(key@ == cpus_allowed_key());
        let v = chars_of(status_content);
        let ls = split_lines(&v);
        let ghost lv = lines(status_content@);
        let mut i: usize = 0;
        while i < ls.len()
            invariant
                views_of(ls@) == lv,
                lv == lines(status_content@),
                key@ == cpus_allowed_key(),
                match status_mask(status_content@) {
                    Some(m) => mask_value(m) is None || cpu_count <= 64,
                    None => true,
                },
                i <= ls@.len(),
                forall|j: int| 0 <= j < i ==> !starts_with(lv[j], key@),
            decreases ls.len() - i,
        {
            assert(views_of(ls@)[i as int] == ls@[i as int]@);
            if has_prefix(&ls[i], &key) {
                proof {
                    lemma_first_line_with(lv, key@, i as int);
                }
                let parts = split_words(&ls[i]);
                if parts.len() >= 2 {
                    assert(views_of(parts@)[1] == parts@[1]@);
                    let mask = string_of_all(&parts[1]);
                    assert(mask@ == words(lv[i as int])[1]);
                    assert(status_mask(status_content@) == Some(mask@));
                    return ProcessAffinity::from_mask_string(pid, mask.as_str(), cpu_count);
                }
                let a = ProcessAffinity::new(pid, cpu_count);
                return Ok(a);
            }
            i = i + 1;
        }
        let a = ProcessAffinity::new(pid, cpu_count);
        Ok(a)
    }
}

impl CpuTopology {
    /// The topology of a machine with `logical` logical and `physical` physical CPUs:
    /// threads per core is their quotient, rounded down.
    pub fn from_counts(logical: usize, physical: usize) -> (r: CpuTopology)
        requires
            physical > 0,
        ensures
            r == (CpuTopology { logical_cpus: logical, physical_cpus: physical, threads_per_core: logical / physical }),
    {
        CpuTopology { logical_cpus: logical, physical_cpus: physical, threads_per_core: logical / physical }
    }

    /// The CPUs on the same core as `cpu_index`: the indices of its core that are below
    /// the count of logical CPUs, in order.
    pub fn get_core_siblings(&self, cpu_index: usize) -> (r: Vec<usize>)
        requires
            self.threads_per_core > 0,
            (cpu_index / self.threads_per_core) * self.threads_per_core + self.threads_per_core - 1 <= usize::MAX,
        ensures
            ({
                let base = (cpu_index / self.threads_per_core) * self.threads_per_core;
                r@ == Seq::new(
                    (if self.logical_cpus <= base {
                        0
                    } else if self.logical_cpus - base < self.threads_per_core {
                        self.logical_cpus - base
                    } else {
                        self.threads_per_core as int
                    }) as nat,
                    |i: int| (base + i) as usize,
                )
            }),
    {
        let tpc = self.threads_per_core;
        let core_id = cpu_index / tpc;
        proof {
            assert(core_id * tpc <= cpu_index) by (nonlinear_arith)
                requires
                    core_id == cpu_index / tpc,
                    tpc > 0,
            ;
        }
        let base = core_id * tpc;
        let ghost cnt: int = if self.logical_cpus <= base {
            0
        } else if self.logical_cpus - base < tpc {
            self.logical_cpus - base
        } else {
            tpc as int
        };
        let mut siblings: Vec<usize> = Vec::new();
        let mut i: usize = 0;
        while i < tpc
            invariant
                tpc == self.threads_per_core,
                base == core_id * tpc,
                base + tpc - 1 <= usize::MAX,
                i <= tpc,
                siblings@ == Seq::new((if cnt < i { cnt } else { i as int }) as nat, |k: int| (base + k) as usize),
                cnt == (if self.logical_cpus <= base {
                    0
                } else if self.logical_cpus - base < tpc {
                    self.logical_cpus - base
                } else {
                    tpc as int
                }),
            decreases tpc - i,
        {
            let sibling = base + i;
            if sibling < self.logical_cpus {
                siblings.push(sibling);
            }
            assert(siblings@ =~= Seq::new((if cnt < i + 1 { cnt } else { i + 1 }) as nat, |k: int| (base + k) as usize));
            i = i + 1;
        }
        siblings
    }
}

} // verus!
