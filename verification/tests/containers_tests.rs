use seer::monitor::containers::{
    container_name, count_nonblank_lines, count_running, parse_labels, parse_ports, split_io_pair,
    ContainerMonitor, ContainerRuntime, ContainerStatus,
};

#[test]
fn container_states_from_engine_words() {
    assert_eq!(ContainerStatus::from_state("running"), ContainerStatus::Running);
    assert_eq!(ContainerStatus::from_state("Up"), ContainerStatus::Running);
    assert_eq!(ContainerStatus::from_state("EXITED"), ContainerStatus::Exited);
    assert_eq!(ContainerStatus::from_state("stopped"), ContainerStatus::Exited);
    assert_eq!(ContainerStatus::from_state("paused"), ContainerStatus::Paused);
    assert_eq!(ContainerStatus::from_state("weird"), ContainerStatus::Unknown);
    assert_eq!(ContainerStatus::default(), ContainerStatus::Unknown);
}

#[test]
fn runtimes_found() {
    let m = ContainerMonitor::from_probes(true, false);
    assert!(m.has_runtime(&ContainerRuntime::Docker));
    assert!(!m.has_runtime(&ContainerRuntime::Podman));
    assert_eq!(m.get_available_runtimes(), &[ContainerRuntime::Docker]);
    let both = ContainerMonitor::from_probes(true, true);
    assert_eq!(both.get_available_runtimes(), &[ContainerRuntime::Docker, ContainerRuntime::Podman]);
    assert!(ContainerMonitor::from_probes(false, false).get_available_runtimes().is_empty());
}

#[test]
fn ports_are_parsed() {
    let ports = parse_ports("0.0.0.0:8080->80/tcp, :::8443->443/tcp, 5432/tcp, ");
    assert_eq!(ports.len(), 3);
    assert_eq!(ports[2].container_port, 5432);
    assert_eq!(ports[2].host_port, None);
    assert_eq!(ports[2].protocol, "tcp");
    let unpublished = parse_ports("80/tcp");
    assert_eq!(unpublished.len(), 1);
    assert_eq!(unpublished[0].container_port, 80);
    assert_eq!(unpublished[0].host_port, None);
    assert_eq!(unpublished[0].protocol, "tcp");
    assert!(parse_ports("8080").is_empty());
    assert_eq!(ports[0].container_port, 80);
    assert_eq!(ports[0].host_port, Some(8080));
    assert_eq!(ports[0].protocol, "tcp");
    assert_eq!(ports[1].container_port, 443);
    assert_eq!(ports[1].host_port, Some(8443));
    let odd = parse_ports("host->x/udp");
    assert_eq!(odd[0].container_port, 0);
    assert_eq!(odd[0].host_port, None);
    assert_eq!(odd[0].protocol, "udp");
    assert!(parse_ports("").is_empty());
}

#[test]
fn labels_last_value_wins() {
    let labels = parse_labels("a=1, b=2,c, a=3,d=x=y");
    assert_eq!(
        labels,
        vec![
            ("a".to_string(), "3".to_string()),
            ("b".to_string(), "2".to_string()),
            ("d".to_string(), "x=y".to_string())
        ]
    );
}

#[test]
fn io_pairs_split_once() {
    assert_eq!(split_io_pair("1.2GiB / 4GiB"), Some(("1.2GiB".to_string(), "4GiB".to_string())));
    assert_eq!(split_io_pair("1.2GiB/4GiB"), None);
    assert_eq!(split_io_pair("a / b / c"), None);
}

#[test]
fn image_lines_and_counts() {
    assert_eq!(count_nonblank_lines("abc\n\n  \ndef\n"), 2);
    assert_eq!(count_nonblank_lines(""), 0);
    let st = [ContainerStatus::Running, ContainerStatus::Exited, ContainerStatus::Running];
    assert_eq!(count_running(&st), 2);
    assert_eq!(container_name("//web"), "web");
    assert_eq!(container_name("db"), "db");
}
