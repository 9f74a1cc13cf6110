use seer::monitor::memory_leak::{get_heap_size, get_stack_size, memory_peaks, rising_peaks, suggest_action, LeakAlertType};

#[test]
fn peaks_are_local_maxima() {
    assert_eq!(memory_peaks(&[1, 3, 2, 5, 4, 4, 6, 1]), vec![3, 5, 6]);
    assert_eq!(memory_peaks(&[1, 2, 3]), Vec::<u64>::new());
    assert_eq!(memory_peaks(&[]), Vec::<u64>::new());
}

#[test]
fn sawtooth_with_rising_peaks_is_a_leak_pattern() {
    let leak = [10, 20, 15, 30, 25, 40, 35, 50, 45, 44];
    assert_eq!(rising_peaks(&leak), Some(vec![20, 30, 40, 50]));
    let flat = [10, 50, 15, 30, 25, 40, 35, 50, 45, 44];
    assert_eq!(rising_peaks(&flat), None);
    // Too few samples.
    assert_eq!(rising_peaks(&[10, 20, 15, 30, 25, 40, 35, 50, 45]), None);
}

#[test]
fn advice_per_alert() {
    assert_eq!(
        suggest_action(LeakAlertType::SteadyGrowth, true),
        "Investigate process for memory leaks. Consider restarting if critical."
    );
    assert_eq!(
        suggest_action(LeakAlertType::SteadyGrowth, false),
        "Monitor process memory usage. May need optimization."
    );
    assert_eq!(suggest_action(LeakAlertType::FragmentationIncrease, true), "Check for memory fragmentation issues.");
}

#[test]
fn heap_and_stack_from_status() {
    let status = "Name:\tbash\nVmData:\t  2048 kB\nVmStk:\t 132 kB\n";
    assert_eq!(get_heap_size(status), Some(2048 * 1024));
    assert_eq!(get_stack_size(status), Some(132 * 1024));
    assert_eq!(get_heap_size("VmData: x kB\nVmData: 4 kB\n"), Some(4096));
    assert_eq!(get_stack_size("Name: x\n"), None);
}
