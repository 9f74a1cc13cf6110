use seer::monitor::history::HistoryManager;

#[derive(Debug, Clone, PartialEq)]
struct Sample {
    cpu_usage: f32,
    memory_usage: f32,
    memory_percentage: f32,
    network_rx_bytes: u64,
    network_tx_bytes: u64,
}

fn create_test_sample() -> Sample {
    Sample {
        cpu_usage: 50.0,
        memory_usage: 4_000_000_000.0,
        memory_percentage: 50.0,
        network_rx_bytes: 1000,
        network_tx_bytes: 2000,
    }
}

#[test]
fn test_history_manager_creation() {
    let history: HistoryManager<Sample> = HistoryManager::new(100);
    assert_eq!(history.max_entries, 100);
    assert!(history.get_history().is_empty());
}

#[test]
fn test_add_metrics() {
    let mut history = HistoryManager::new(100);
    let metrics = create_test_sample();

    history.add_metrics(metrics);

    let historical_data = history.get_history();
    assert_eq!(historical_data.len(), 1);

    let first_entry = &historical_data[0];
    assert_eq!(first_entry.cpu_usage, 50.0);
    assert_eq!(first_entry.memory_usage, 4_000_000_000.0);
    assert_eq!(first_entry.memory_percentage, 50.0);
    assert_eq!(first_entry.network_rx_bytes, 1000);
    assert_eq!(first_entry.network_tx_bytes, 2000);
}

#[test]
fn test_history_size_limit() {
    let mut history = HistoryManager::new(2);
    let metrics = create_test_sample();

    // Add 3 entries to test size limiting
    history.add_metrics(metrics.clone());
    history.add_metrics(metrics.clone());
    history.add_metrics(metrics);

    let historical_data = history.get_history();
    assert_eq!(historical_data.len(), 2); // Should not exceed max_entries
}

#[test]
fn history_drops_oldest_and_keeps_order() {
    let mut h = HistoryManager::new(3);
    for x in 1u32..=5 {
        h.add_metrics(x);
    }
    assert_eq!(h.get_history_vec(), vec![3, 4, 5]);
    assert_eq!(*h.get_history().back().unwrap(), 5);
}

#[test]
fn history_with_limit_zero_keeps_nothing() {
    let mut h = HistoryManager::new(0);
    h.add_metrics(7u8);
    h.add_metrics(8u8);
    assert!(h.get_history_vec().is_empty());
    assert!(h.get_history().len() <= h.max_entries);
}
