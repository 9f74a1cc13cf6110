use seer::monitor::affinity::{AffinityError, AffinityManager, CpuTopology, ProcessAffinity};
use seer::monitor::dependencies::{
    DependencyAnalyzer, DependencyError, ProcessDependencyGraph, ProcessNode, SharedLibrary,
};
use seer::monitor::limits::{ResourceLimits, ResourceLimitsManager, ResourceUsage};

fn stat_line(rss_pages: u64) -> String {
    let mut fields: Vec<String> = (0..52).map(|i| i.to_string()).collect();
    fields[23] = rss_pages.to_string();
    fields.join(" ")
}

#[test]
fn affinity_masks() {
    let a = ProcessAffinity::from_mask_string(7, "0x5", 4).unwrap();
    assert_eq!(a.cpu_mask, vec![true, false, true, false]);
    assert_eq!(a.allowed_cpus, vec![0, 2]);
    assert_eq!(a.to_mask_string(), "0x5");
    let all = ProcessAffinity::new(1, 3);
    assert_eq!(all.allowed_cpus, vec![0, 1, 2]);
    assert_eq!(all.to_mask_string(), "0x7");
    let bad = ProcessAffinity::from_mask_string(1, "zz", 2).unwrap();
    assert!(bad.allowed_cpus.is_empty());
}

#[test]
fn affinity_round_trip() {
    let a = ProcessAffinity::from_mask_string(3, "ff00", 16).unwrap();
    let b = ProcessAffinity::from_mask_string(3, &a.to_mask_string(), 16).unwrap();
    assert_eq!(a.cpu_mask, b.cpu_mask);
}

#[test]
fn affinity_set_cpu() {
    let mut a = ProcessAffinity::new(1, 4);
    assert!(a.set_cpu(1, false).is_ok());
    assert_eq!(a.allowed_cpus, vec![0, 2, 3]);
    assert_eq!(a.set_cpu(4, true), Err(AffinityError::CpuIndexOutOfRange { index: 4, max: 3 }));
}

#[test]
fn affinity_from_status_reports() {
    let status = "Name:\tbash\nCpus_allowed:\t3\nCpus_allowed_list:\t0-1\n";
    let a = AffinityManager::affinity_from_status(9, status, 4).unwrap();
    assert_eq!(a.allowed_cpus, vec![0, 1]);
    let b = AffinityManager::affinity_from_status(9, "Name:\tx\n", 2).unwrap();
    assert_eq!(b.allowed_cpus, vec![0, 1]);
    let all = AffinityManager::get_all_process_affinities(
        &[1, 2, 3],
        &vec![Some(status.to_string()), None, Some("Cpus_allowed:\t1\n".to_string())],
        4,
    );
    assert_eq!(all.len(), 2);
    assert_eq!(all[0].pid, 1);
    assert_eq!(all[1].pid, 3);
    assert_eq!(all[1].allowed_cpus, vec![0]);
}

#[test]
fn core_siblings() {
    let t = CpuTopology { logical_cpus: 6, physical_cpus: 3, threads_per_core: 2 };
    assert_eq!(t.get_core_siblings(3), vec![2, 3]);
    assert_eq!(t.get_core_siblings(5), vec![4, 5]);
}

#[test]
fn addresses_and_states() {
    let d = DependencyAnalyzer::new();
    assert_eq!(d.proc_path, "/proc");
    assert_eq!(d.parse_address("0100007F:0050").unwrap(), "127.0.0.1:80");
    assert_eq!(d.parse_address("zzzzzzzz:0050"), Err(DependencyError::InvalidHexNumber));
    assert_eq!(d.parse_address("zz:0050").unwrap(), "zz:0050");
    assert_eq!(d.parse_socket_state("0A").unwrap(), "LISTEN");
    assert_eq!(d.parse_socket_state("01").unwrap(), "ESTABLISHED");
    assert_eq!(d.parse_socket_state("FF").unwrap(), "UNKNOWN");
    assert_eq!(d.parse_socket_state("GG"), Err(DependencyError::InvalidHexNumber));
}

#[test]
fn memory_maps() {
    let d = DependencyAnalyzer::new();
    let m = d.parse_memory_map_line("00400000-00452000 r-xp 00000000 08:02 173521 /usr/bin/dbus-daemon").unwrap();
    assert_eq!((m.start_addr, m.end_addr, m.offset, m.inode), (0x400000, 0x452000, 0, 173521));
    assert_eq!(m.permissions, "r-xp");
    assert_eq!(m.device, "08:02");
    assert_eq!(m.pathname.as_deref(), Some("/usr/bin/dbus-daemon"));
    assert_eq!(d.parse_memory_map_line("00400000-00452000 r-xp").unwrap_err(), DependencyError::InvalidMemoryMapLine);
    let maps = "7f00-7f10 r-xp 0 08:01 1 /lib/libc.so.6\n7f10-7f20 r--p 0 08:01 1 /lib/libc.so.6\n7f20-7f30 rw-p 0 00:00 0 [heap]\n7f30-7f40 r-xp 0 08:01 2 /lib/libm.so.6\n";
    assert_eq!(d.shared_libraries_from(maps), vec!["/lib/libc.so.6".to_string(), "/lib/libm.so.6".to_string()]);
    assert_eq!(d.memory_maps_from(maps).len(), 4);
}

fn node(pid: u32, children: Vec<u32>, libs: Vec<&str>) -> ProcessNode {
    ProcessNode {
        pid,
        name: format!("p{}", pid),
        ppid: None,
        children,
        shared_libs: libs.into_iter().map(|s| s.to_string()).collect(),
        memory_maps: vec![],
        open_files: vec![],
        sockets: vec![],
        dependency_level: 0,
    }
}

#[test]
fn dependency_graph_queries() {
    let d = DependencyAnalyzer::new();
    let mut g = ProcessDependencyGraph::new();
    g.insert_node(node(1, vec![2], vec!["/lib/libc.so.6"]));
    g.insert_node(node(2, vec![], vec!["/lib/libc.so.6"]));
    g.insert_node(node(3, vec![], vec!["/lib/libc.so.6"]));
    g.insert_library(SharedLibrary {
        path: "/lib/libc.so.6".to_string(),
        size: 0,
        processes_using: vec![1, 2, 3],
        version: Some("6".to_string()),
        is_system_lib: true,
    });
    assert_eq!(d.get_process_dependencies(1, &g), Some(vec![2, 3]));
    assert_eq!(d.get_dependency_impact(1, &g), 2);
    assert_eq!(d.get_process_dependencies(9, &g), None);
    assert_eq!(d.get_dependency_impact(9, &g), 0);
}

#[test]
fn resource_limits_and_usage() {
    let l = ResourceLimits::new(5);
    assert_eq!(l.pid, 5);
    assert!(l.max_open_files.is_none());
    let read = ResourceLimitsManager::get_process_limits(5, "Limit Soft Limit Hard Limit Units\nMax open files 1024 4096 files\n");
    assert_eq!(read.max_open_files, Some(1024));
    let u = ResourceUsage::new(5);
    assert_eq!(u.open_files, 0);
    let usage = ResourceLimitsManager::get_process_resource_usage(5, &stat_line(10), Some(12));
    assert_eq!(usage.resident_memory, 40960);
    assert_eq!(usage.user_time, 13);
    assert_eq!(usage.num_threads, 19);
    assert_eq!(usage.open_files, 12);
    let short = ResourceLimitsManager::get_process_resource_usage(5, "1 2 3", None);
    assert_eq!(short.user_time, 0);
    let s = ResourceLimitsManager::get_resource_summary(5, "", &stat_line(1), None);
    assert_eq!(s.pid, 5);
    assert_eq!(s.usage.resident_memory, 4096);
}

#[test]
fn topology_from_cpu_counts() {
    let t = CpuTopology::from_counts(8, 4);
    assert_eq!((t.logical_cpus, t.physical_cpus, t.threads_per_core), (8, 4, 2));
    let t = CpuTopology::from_counts(6, 4);
    assert_eq!(t.threads_per_core, 1);
}

#[test]
fn resource_limits_from_a_limits_report() {
    let report = "Limit                     Soft Limit           Hard Limit           Units     \n\
Max cpu time              unlimited            unlimited            seconds   \n\
Max file size             unlimited            unlimited            bytes     \n\
Max stack size            8388608              unlimited            bytes     \n\
Max core file size        0                    unlimited            bytes     \n\
Max processes             63304                63304                processes \n\
Max open files            1024                 4096                 files     \n\
Max locked memory         8388608              8388608              bytes     \n\
Max file locks            unlimited            unlimited            locks     \n\
Max nice priority         0                    0                    \n\
Max realtime priority     0                    0                    \n";
    let l = ResourceLimitsManager::get_process_limits(7, report);
    assert_eq!(l.pid, 7);
    assert_eq!(l.max_cpu_time, None);
    assert_eq!(l.max_file_size, None);
    assert_eq!(l.max_stack_size, Some(8388608));
    assert_eq!(l.max_core_file_size, Some(0));
    assert_eq!(l.max_processes, Some(63304));
    assert_eq!(l.max_open_files, Some(1024));
    assert_eq!(l.max_locked_memory, Some(8388608));
    assert_eq!(l.max_file_locks, None);
    assert_eq!(l.max_nice_priority, Some(0));
    assert_eq!(l.max_realtime_priority, Some(0));
    assert_eq!(l.max_resident_set, None);
    let short = ResourceLimitsManager::get_process_limits(7, "Limit\nMax open files 1024 4096 files\nMax stack size 8388608 unlimited bytes\n");
    assert_eq!(short.max_open_files, Some(1024));
    assert_eq!(short.max_stack_size, Some(8388608));
}

#[test]
fn dependency_chain_is_breadth_first() {
    let d = DependencyAnalyzer::new();
    let mut g = ProcessDependencyGraph::new();
    g.insert_node(node(1, vec![2, 3], vec!["/lib/a.so"]));
    g.insert_node(node(2, vec![4, 1], vec!["/lib/b.so", "/lib/a.so"]));
    g.insert_node(node(3, vec![5], vec![]));
    g.insert_node(node(4, vec![], vec!["/lib/c.so"]));
    g.insert_node(node(5, vec![2], vec![]));
    let mut visited: Vec<u32> = vec![9];
    let c = d.build_chain_from_root(1, &g, &mut visited).unwrap();
    assert_eq!(c.root_pid, 1);
    assert_eq!(c.chain, vec![1, 2, 3, 4, 5]);
    assert_eq!(c.depth, 5);
    assert_eq!(c.shared_resources, vec!["/lib/a.so", "/lib/b.so", "/lib/c.so"]);
    let mut seen = visited.clone();
    seen.sort();
    assert_eq!(seen, vec![1, 2, 3, 4, 5, 9]);
    let mut alone: Vec<u32> = Vec::new();
    assert!(d.build_chain_from_root(4, &g, &mut alone).is_none());
    assert_eq!(alone, vec![4]);
}

#[test]
fn resource_summary_holds_what_the_readers_give() {
    let report = "Limit                     Soft Limit           Hard Limit           Units     \n\
Max stack size            8388608              unlimited            bytes     \n\
Max open files            1024                 4096                 files     \n\
Max nice priority         -5                   0                    \n";
    let stat = stat_line(3);
    let s = ResourceLimitsManager::get_resource_summary(7, report, &stat, Some(4));
    let l = ResourceLimitsManager::get_process_limits(7, report);
    let u = ResourceLimitsManager::get_process_resource_usage(7, &stat, Some(4));
    assert_eq!(s.pid, 7);
    assert_eq!(format!("{:?}", s.limits), format!("{:?}", l));
    assert_eq!(format!("{:?}", s.usage), format!("{:?}", u));
    assert_eq!(s.limits.max_open_files, Some(1024));
    assert_eq!(s.usage.resident_memory, 3 * 4096);
    assert_eq!(s.usage.open_files, 4);
}
