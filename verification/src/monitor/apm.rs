//! Application performance: which runtime a process runs on, and the figures estimated for it.
use vstd::prelude::*;
use crate::num::dec_digits;
use crate::text::{chars_of, contains, ends_with, has_prefix, has_sub, has_suffix, lower_text, starts_with, to_lower};

verus! {

/// Heap memory of a JVM.
#[derive(Debug, Clone, Copy, PartialEq, Eq, Structural)]
pub struct HeapMemoryMetrics {
    pub used: u64,
    pub committed: u64,
    pub max: u64,
    pub init: u64,
}

/// Memory of a JVM outside its heap.
#[derive(Debug, Clone, Copy, PartialEq, Eq, Structural)]
pub struct NonHeapMemoryMetrics {
    pub used: u64,
    pub committed: u64,
    pub max: u64,
    pub init: u64,
}

/// A garbage collector and how much it has run.
#[derive(Debug, Clone)]
pub struct GCMetrics {
    pub name: String,
    pub collection_count: u64,
    pub collection_time: u64,
}

/// Thread counts of a JVM.
#[derive(Debug, Clone, Copy, PartialEq, Eq, Structural)]
pub struct ThreadMetrics {
    pub current_thread_count: u32,
    pub daemon_thread_count: u32,
    pub peak_thread_count: u32,
    pub total_started_thread_count: u64,
}

/// Class loading counts of a JVM.
#[derive(Debug, Clone, Copy, PartialEq, Eq, Structural)]
pub struct ClassLoadingMetrics {
    pub loaded_class_count: u32,
    pub total_loaded_class_count: u64,
    pub unloaded_class_count: u64,
}

/// What is known of a Java application.
#[derive(Debug, Clone)]
pub struct JVMMetrics {
    pub pid: u32,
    pub name: String,
    pub heap_memory: HeapMemoryMetrics,
    pub non_heap_memory: NonHeapMemoryMetrics,
    pub garbage_collection: Vec<GCMetrics>,
    pub thread_metrics: ThreadMetrics,
    pub class_loading: ClassLoadingMetrics,
    pub jvm_version: String,
    pub uptime: u64,
}

/// What is known of a Python application.
#[derive(Debug, Clone)]
pub struct PythonMetrics {
    pub pid: u32,
    pub name: String,
    pub python_version: String,
    pub memory_usage: u64,
    pub active_threads: u32,
    pub modules_loaded: u32,
    pub exceptions_raised: u64,
    pub gc_collections: u64,
}

/// What is known of a Go application.
#[derive(Debug, Clone)]
pub struct GoMetrics {
    pub pid: u32,
    pub name: String,
    pub go_version: String,
    pub heap_alloc: u64,
    pub heap_sys: u64,
    pub gc_cycles: u64,
    pub goroutines: u32,
    pub cgo_calls: u64,
    pub next_gc: u64,
}

/// What is unusual about an application.
#[derive(Debug, Clone, Copy, PartialEq, Eq, Structural)]
pub enum APMAnomalyType {
    HighCPUUsage,
    MemoryLeak,
    HighGCPressure,
    ThreadContention,
    LongGCPause,
    HighExceptionRate,
    EventLoopBlocked,
}

/// How serious an application anomaly is.
#[derive(Debug, Clone, Copy, PartialEq, Eq, Structural)]
pub enum APMAnomalySeverity {
    Low,
    Medium,
    High,
    Critical,
}

/// The runtimes an application can be recognised by.
#[derive(Debug, Clone, Copy, PartialEq, Eq, Structural)]
pub enum Runtime {
    Jvm,
    DotNet,
    Python,
    NodeJs,
    Go,
}

/// A process runs on `rt`, by its lower-cased name and its command line.
pub open spec fn runs_on(rt: Runtime, lower_name: Seq<char>, command: Seq<char>) -> bool {
    match rt {
        Runtime::Jvm => contains(lower_name, "java"@) || contains(command, "java"@) || contains(
            command,
            ".jar"@,
        ),
        Runtime::DotNet => contains(lower_name, "dotnet"@) || contains(command, "dotnet"@) || ends_with(
            command,
            ".dll"@,
        ),
        Runtime::Python => contains(lower_name, "python"@) || contains(command, "python"@) || ends_with(
            command,
            ".py"@,
        ),
        Runtime::NodeJs => contains(lower_name, "node"@) || contains(command, "node"@) || ends_with(
            command,
            ".js"@,
        ),
        Runtime::Go => contains(command, "go run"@) || (starts_with(command, "./"@) && !contains(
            command,
            "."@,
        )),
    }
}

/// Whether `needle` occurs in `s`.
fn mentions(s: &str, needle: &str) -> (r: bool)
    ensures
        r == contains(s@, needle@),
{
    let a = chars_of(s);
    let b = chars_of(needle);
    has_sub(&a, &b)
}

/// Whether `s` ends with `p`.
fn finishes(s: &str, p: &str) -> (r: bool)
    ensures
        r == ends_with(s@, p@),
{
    let a = chars_of(s);
    let b = chars_of(p);
    has_suffix(&a, &b)
}

/// Whether `s` begins with `p`.
fn begins(s: &str, p: &str) -> (r: bool)
    ensures
        r == starts_with(s@, p@),
{
    let a = chars_of(s);
    let b = chars_of(p);
    has_prefix(&a, &b)
}

/// Whether the process named `name` with command line `command` runs on `rt`.
pub fn is_runtime_process(rt: Runtime, name: &str, command: &str) -> (r: bool)
    ensures
        r == runs_on(rt, lower_text(name@), command@),
{
    let l = to_lower(name);
    let n = l.as_str();
    match rt {
        Runtime::Jvm => mentions(n, "java") || mentions(command, "java") || mentions(command, ".jar"),
        Runtime::DotNet => mentions(n, "dotnet") || mentions(command, "dotnet") || finishes(command, ".dll"),
        Runtime::Python => mentions(n, "python") || mentions(command, "python") || finishes(command, ".py"),
        Runtime::NodeJs => mentions(n, "node") || mentions(command, "node") || finishes(command, ".js"),
        Runtime::Go => mentions(command, "go run") || (begins(command, "./") && !mentions(command, ".")),
    }
}

/// The figures estimated for a Java application using `memory` bytes, up `uptime`
/// seconds: its heap is its memory (up to twice as much at most, half at start), the
/// memory outside the heap a tenth of it (an eighth committed, a quarter at most, a
/// sixteenth at start); collector, thread and class figures are fixed samples.
pub fn jvm_metrics(pid: u32, name: &str, memory: u64, uptime: u64) -> (r: JVMMetrics)
    requires
        memory * 2 <= u64::MAX,
    ensures
        r.pid == pid,
        r.name@ == name@,
        r.heap_memory == (HeapMemoryMetrics { used: memory, committed: memory, max: (memory * 2) as u64, init: memory / 2 }),
        r.non_heap_memory == (NonHeapMemoryMetrics {
            used: memory / 10,
            committed: memory / 8,
            max: memory / 4,
            init: memory / 16,
        }),
        r.garbage_collection@.len() == 2,
        r.garbage_collection@[0].name@ == "G1 Young Generation"@,
        r.garbage_collection@[0].collection_count == 100,
        r.garbage_collection@[0].collection_time == 500,
        r.garbage_collection@[1].name@ == "G1 Old Generation"@,
        r.garbage_collection@[1].collection_count == 10,
        r.garbage_collection@[1].collection_time == 2000,
        r.thread_metrics == (ThreadMetrics {
            current_thread_count: 25,
            daemon_thread_count: 15,
            peak_thread_count: 30,
            total_started_thread_count: 1000,
        }),
        r.class_loading == (ClassLoadingMetrics {
            loaded_class_count: 5000,
            total_loaded_class_count: 5500,
            unloaded_class_count: 500,
        }),
        r.jvm_version@ == "11.0.12"@,
        r.uptime == uptime,
{
    let mut gcs: Vec<GCMetrics> = Vec::new();
    gcs.push(GCMetrics { name: "G1 Young Generation".to_owned(), collection_count: 100, collection_time: 500 });
    gcs.push(GCMetrics { name: "G1 Old Generation".to_owned(), collection_count: 10, collection_time: 2000 });
    JVMMetrics {
        pid,
        name: name.to_owned(),
        heap_memory: HeapMemoryMetrics { used: memory, committed: memory, max: memory * 2, init: memory / 2 },
        non_heap_memory: NonHeapMemoryMetrics {
            used: memory / 10,
            committed: memory / 8,
            max: memory / 4,
            init: memory / 16,
        },
        garbage_collection: gcs,
        thread_metrics: ThreadMetrics {
            current_thread_count: 25,
            daemon_thread_count: 15,
            peak_thread_count: 30,
            total_started_thread_count: 1000,
        },
        class_loading: ClassLoadingMetrics {
            loaded_class_count: 5000,
            total_loaded_class_count: 5500,
            unloaded_class_count: 500,
        },
        jvm_version: "11.0.12".to_owned(),
        uptime,
    }
}

/// The figures estimated for a Python application using `memory` bytes (the others are
/// fixed samples).
pub fn python_metrics(pid: u32, name: &str, memory: u64) -> (r: PythonMetrics)
    ensures
        r.pid == pid && r.name@ == name@ && r.memory_usage == memory,
        r.python_version@ == "3.9.7"@,
        r.active_threads == 5 && r.modules_loaded == 150,
        r.exceptions_raised == 25 && r.gc_collections == 500,
{
    PythonMetrics {
        pid,
        name: name.to_owned(),
        python_version: "3.9.7".to_owned(),
        memory_usage: memory,
        active_threads: 5,
        modules_loaded: 150,
        exceptions_raised: 25,
        gc_collections: 500,
    }
}

/// The figures estimated for a Go application using `memory` bytes: two thirds of it
/// allocated on the heap, the next collection at twice it (the others fixed samples).
pub fn go_metrics(pid: u32, name: &str, memory: u64) -> (r: GoMetrics)
    requires
        memory * 2 <= u64::MAX,
    ensures
        r.pid == pid && r.name@ == name@,
        r.go_version@ == "1.19.3"@,
        r.heap_alloc == memory * 2 / 3,
        r.heap_sys == memory,
        r.gc_cycles == 200 && r.goroutines == 50 && r.cgo_calls == 1000,
        r.next_gc == memory * 2,
{
    GoMetrics {
        pid,
        name: name.to_owned(),
        go_version: "1.19.3".to_owned(),
        heap_alloc: memory * 2 / 3,
        heap_sys: memory,
        gc_cycles: 200,
        goroutines: 50,
        cgo_calls: 1000,
        next_gc: memory * 2,
    }
}

/// The total time of `gcs`.
pub open spec fn gc_time_total(gcs: Seq<GCMetrics>) -> nat
    decreases gcs.len(),
{
    if gcs.len() == 0 {
        0
    } else {
        gc_time_total(gcs.drop_last()) + gcs.last().collection_time as nat
    }
}

proof fn lemma_gc_total_prefix(gcs: Seq<GCMetrics>, k: int)
    requires
        0 <= k <= gcs.len(),
    ensures
        gc_time_total(gcs.take(k)) <= gc_time_total(gcs),
    decreases gcs.len(),
{
    if k < gcs.len() {
        assert(gcs.drop_last().take(k) == gcs.take(k));
        lemma_gc_total_prefix(gcs.drop_last(), k);
    } else {
        assert(gcs.take(k) == gcs);
    }
}

/// The description of high garbage-collection pressure: when the collectors' total
/// time is over five seconds, `High GC time: <ms>ms` with that total.
pub fn gc_pressure(gcs: &Vec<GCMetrics>) -> (r: Option<(u64, String)>)
    requires
        gc_time_total(gcs@) <= u64::MAX,
    ensures
        match r {
            Some((t, d)) => t == gc_time_total(gcs@) && t > 5000 && d@ == "High GC time: "@
                + dec_digits(t as nat) + "ms"@,
            None => gc_time_total(gcs@) <= 5000,
        },
{
    let mut total: u64 = 0;
    let mut i: usize = 0;
    while i < gcs.len()
        invariant
            i <= gcs@.len(),
            total == gc_time_total(gcs@.take(i as int)),
            gc_time_total(gcs@) <= u64::MAX,
        decreases gcs.len() - i,
    {
        proof {
            assert(gcs@.take(i + 1).drop_last() == gcs@.take(i as int));
            lemma_gc_total_prefix(gcs@, i + 1);
        }
        total = total + gcs[i].collection_time;
        i = i + 1;
    }
    assert(gcs@.take(i as int) == gcs@);
    if total > 5000 {
        let mut d = "High GC time: ".to_owned();
        crate::num::push_dec(&mut d, total);
        crate::text::push_chars(&mut d, "ms");
        Some((total, d))
    } else {
        None
    }
}

} // verus!
