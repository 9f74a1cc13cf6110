use seer::monitor::performance::{memory_statistics, memory_trend, top_memory_consumers, MemoryStatistics, ProcessTrend};

#[test]
fn memory_statistics_of_samples() {
    assert_eq!(
        memory_statistics(&[100, 300, 200]),
        MemoryStatistics { avg_memory_usage: 200, max_memory_usage: 300, min_memory_usage: 100 }
    );
    assert_eq!(
        memory_statistics(&[]),
        MemoryStatistics { avg_memory_usage: 0, max_memory_usage: 0, min_memory_usage: u64::MAX }
    );
    assert_eq!(
        memory_statistics(&[u64::MAX]),
        MemoryStatistics { avg_memory_usage: u64::MAX, max_memory_usage: u64::MAX, min_memory_usage: 0 }
    );
    assert_eq!(memory_statistics(&[7, 8]).avg_memory_usage, 7);
}

#[test]
fn memory_trend_directions() {
    assert_eq!(memory_trend(&[]), ProcessTrend::Stable);
    assert_eq!(memory_trend(&[5]), ProcessTrend::Stable);
    assert_eq!(memory_trend(&[100, 100]), ProcessTrend::Stable);
    assert_eq!(memory_trend(&[100, 100, 100, 100, 100, 200, 200, 200]), ProcessTrend::Increasing);
    assert_eq!(memory_trend(&[200, 200, 200, 200, 200, 100, 100, 100]), ProcessTrend::Decreasing);
    // Ten percent either way is still stable.
    assert_eq!(memory_trend(&[100, 100, 100, 100, 100, 110, 110, 110]), ProcessTrend::Stable);
}

#[test]
fn top_memory_consumers_largest_first() {
    assert_eq!(top_memory_consumers(&[10, 50, 30, 40], 2), vec![1, 3]);
    assert_eq!(top_memory_consumers(&[10, 50, 30, 40], 10), vec![1, 3, 2, 0]);
    assert_eq!(top_memory_consumers(&[10, 50], 0), Vec::<usize>::new());
    assert_eq!(top_memory_consumers(&[], 3), Vec::<usize>::new());
    let r = top_memory_consumers(&[7, 7, 7], 2);
    assert_eq!(r.len(), 2);
    assert_ne!(r[0], r[1]);
}
