use seer::monitor::process_tree::ProcessTreeBuilder;

// pid 1 (init) with children 10 and 20; 10 has child 11; 99's parent 5 is unknown.
fn sample() -> (Vec<u32>, Vec<Option<u32>>) {
    let pids = vec![1, 10, 11, 20, 99];
    let parents = vec![None, Some(1), Some(10), Some(1), Some(5)];
    (pids, parents)
}

#[test]
fn roots_are_orphans() {
    let (pids, parents) = sample();
    assert_eq!(ProcessTreeBuilder::root_positions(&pids, &parents), vec![0, 4]);
}

#[test]
fn rows_in_display_order() {
    let (pids, parents) = sample();
    let rows = ProcessTreeBuilder::build_tree(&pids, &parents, &[0, 4]);
    assert_eq!(rows, vec![(0, 0), (1, 1), (2, 2), (3, 1), (4, 0)]);
    // Roots in another order.
    let rows = ProcessTreeBuilder::build_tree(&pids, &parents, &[4, 0]);
    assert_eq!(rows, vec![(4, 0), (0, 0), (1, 1), (2, 2), (3, 1)]);
}

#[test]
fn search_keeps_matches_and_their_ancestors() {
    let (pids, parents) = sample();
    let rows = ProcessTreeBuilder::build_tree(&pids, &parents, &[0, 4]);
    // Only pid 11 matches: it and its ancestors 10 and 1 stay.
    let matches = vec![false, false, true, false, false];
    assert_eq!(ProcessTreeBuilder::filter_tree(&rows, &matches), vec![(0, 0), (1, 1), (2, 2)]);
    let none = vec![false; 5];
    assert_eq!(ProcessTreeBuilder::filter_tree(&rows, &none), Vec::<(usize, usize)>::new());
    let last = vec![false, false, false, false, true];
    assert_eq!(ProcessTreeBuilder::filter_tree(&rows, &last), vec![(4, 0)]);
}

#[test]
fn tree_rows_show_their_depth() {
    assert_eq!(ProcessTreeBuilder::display_name("init", 0), "init");
    assert_eq!(ProcessTreeBuilder::display_name("bash", 1), "  ├─ bash");
    assert_eq!(ProcessTreeBuilder::display_name("vim", 2), "    ├─ vim");
    let rows = vec![(0usize, 0usize), (1, 1), (2, 2), (3, 1), (4, 0)];
    assert_eq!(ProcessTreeBuilder::rows_with_children(&rows), vec![true, true, false, false, false]);
}
