use seer::monitor::processes::{group_key, group_positions, partition_by_key, ProcessGroupBy, ProcessStatusInfo};

#[test]
fn status_names_and_symbols() {
    assert_eq!(ProcessStatusInfo::Running.as_str(), "Running");
    assert_eq!(ProcessStatusInfo::Unknown.as_str(), "Unknown");
    assert_eq!(ProcessStatusInfo::Zombie.emoji(), "🧟");
    assert_eq!(ProcessStatusInfo::Stopped.emoji(), "⏹️");
}

#[test]
fn group_keys() {
    let st = ProcessStatusInfo::Sleeping;
    assert_eq!(group_key(ProcessGroupBy::NoGrouping, "u", None, None, "n", st), "All Processes");
    assert_eq!(group_key(ProcessGroupBy::User, "alice", None, None, "n", st), "alice");
    assert_eq!(group_key(ProcessGroupBy::Parent, "u", Some(17), None, "n", st), "Parent PID: 17");
    assert_eq!(group_key(ProcessGroupBy::Parent, "u", None, None, "n", st), "Root Processes");
    assert_eq!(group_key(ProcessGroupBy::Application, "u", None, Some("firefox"), "n", st), "firefox");
    assert_eq!(group_key(ProcessGroupBy::Application, "u", None, None, "bash", st), "bash");
    assert_eq!(group_key(ProcessGroupBy::Status, "u", None, None, "n", st), "Sleeping");
}

#[test]
fn partition_groups_every_position_once() {
    let keys: Vec<String> = ["a", "b", "a", "c", "b", "a"].iter().map(|s| s.to_string()).collect();
    let groups = partition_by_key(&keys);
    assert_eq!(groups.len(), 3);
    assert_eq!(groups[0].name, "a");
    assert_eq!(groups[0].members, vec![0, 2, 5]);
    assert_eq!(groups[1].members, vec![1, 4]);
    assert_eq!(groups[2].members, vec![3]);
    assert!(partition_by_key(&Vec::new()).is_empty());
}

#[test]
fn grouping_cycle() {
    let mut g = ProcessGroupBy::NoGrouping;
    for _ in 0..5 {
        g = g.next();
    }
    assert_eq!(g, ProcessGroupBy::NoGrouping);
    assert_eq!(ProcessGroupBy::Status.next(), ProcessGroupBy::NoGrouping);
}

#[test]
fn grouping_none_gives_one_group_even_when_empty() {
    let none = group_positions(ProcessGroupBy::NoGrouping, &Vec::new());
    assert_eq!(none.len(), 1);
    assert_eq!(none[0].name, "All Processes");
    assert!(none[0].members.is_empty());
    let keys = vec!["root".to_string(), "alice".to_string(), "root".to_string()];
    let all = group_positions(ProcessGroupBy::NoGrouping, &keys);
    assert_eq!(all[0].members, vec![0, 1, 2]);
    let by_user = group_positions(ProcessGroupBy::User, &keys);
    assert_eq!(by_user.len(), 2);
    assert_eq!(by_user[0].members, vec![0, 2]);
    assert!(group_positions(ProcessGroupBy::User, &Vec::new()).is_empty());
}
