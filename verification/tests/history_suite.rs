use ibtop::history::HistoryCollector;
use ibtop::history::PortHistory;
use ibtop::history::RingBuffer;
use ibtop::history::normalize_for_sparkline;

#[test]
fn test_ring_buffer_basic() {
    let mut buf: RingBuffer<i32> = RingBuffer::new(3);

    assert!(buf.is_empty());
    assert_eq!(buf.len(), 0);

    buf.push(1);
    buf.push(2);
    buf.push(3);

    assert_eq!(buf.len(), 3);
    assert!(!buf.is_empty());

    let values: Vec<i32> = buf.iter();
    assert_eq!(values, vec![1, 2, 3]);
}

#[test]
fn test_ring_buffer_overflow() {
    let mut buf: RingBuffer<i32> = RingBuffer::new(3);

    buf.push(1);
    buf.push(2);
    buf.push(3);
    buf.push(4); // Overwrites 1

    assert_eq!(buf.len(), 3);

    let values: Vec<i32> = buf.iter();
    assert_eq!(values, vec![2, 3, 4]);
}

#[test]
fn test_ring_buffer_last() {
    let mut buf: RingBuffer<i32> = RingBuffer::new(5);

    assert!(buf.last().is_none());

    buf.push(10);
    assert_eq!(buf.last(), Some(&10));

    buf.push(20);
    buf.push(30);
    assert_eq!(buf.last(), Some(&30));
}

#[test]
fn test_ring_buffer_last_n() {
    let mut buf: RingBuffer<i32> = RingBuffer::new(5);

    for i in 1..=10 {
        buf.push(i);
    }

    let last_3: Vec<i32> = buf.last_n(3);
    assert_eq!(last_3, vec![8, 9, 10]);

    let last_10: Vec<i32> = buf.last_n(10);
    assert_eq!(last_10, vec![6, 7, 8, 9, 10]);
}

#[test]
fn test_ring_buffer_clear() {
    let mut buf: RingBuffer<u64> = RingBuffer::new(2);
    buf.push(7);
    buf.push(8);
    buf.push(9);
    assert_eq!(buf.capacity(), 2);
    buf.clear();
    assert!(buf.is_empty());
    assert_eq!(buf.capacity(), 2);
    buf.push(4);
    assert_eq!(buf.to_vec(), vec![4]);
}

#[test]
fn test_port_history_record() {
    let mut history = PortHistory::with_capacity(10);

    history.record(1000, 500, 10, 5, 0);
    history.record(2000, 1000, 20, 10, 0);

    assert_eq!(history.rx_bytes_per_sec.len(), 2);
    assert_eq!(history.tx_bytes_per_sec.len(), 2);
}

#[test]
fn test_normalize_for_sparkline() {
    let values: Vec<u64> = vec![0, 50, 100, 25, 75];
    let normalized = normalize_for_sparkline(&values);

    assert_eq!(normalized.len(), 5);
    assert_eq!(normalized[0], 0); // 0%
    assert_eq!(normalized[2], 7); // 100%
}

#[test]
fn test_normalize_exact_levels() {
    // Half-up rounding against the window maximum of 100.
    let values: Vec<u64> = vec![0, 50, 100, 25, 75];
    let normalized = normalize_for_sparkline(&values);
    assert_eq!(normalized, vec![0, 4, 7, 2, 5]);
}

#[test]
fn test_normalize_empty() {
    let values: Vec<u64> = vec![];
    let normalized = normalize_for_sparkline(&values);
    assert!(normalized.is_empty());
}

#[test]
fn test_normalize_all_zero() {
    let values: Vec<u64> = vec![0, 0, 0];
    let normalized = normalize_for_sparkline(&values);
    assert_eq!(normalized, vec![0, 0, 0]);
}

#[test]
fn test_history_collector_basic() {
    let mut collector = HistoryCollector::new();

    collector.record("mlx5_0", 1, 1000, 500, 10, 5, 0);
    collector.record("mlx5_0", 2, 2000, 1000, 20, 10, 0);

    assert_eq!(collector.port_count(), 2);
    assert!(collector.get("mlx5_0", 1).is_some());
    assert!(collector.get("mlx5_0", 2).is_some());
    assert!(collector.get("mlx5_1", 1).is_none());
}

#[test]
fn test_history_collector_retain() {
    let mut collector = HistoryCollector::new();

    collector.record("mlx5_0", 1, 1000, 500, 10, 5, 0);
    collector.record("mlx5_0", 2, 2000, 1000, 20, 10, 0);
    collector.record("mlx5_1", 1, 3000, 1500, 30, 15, 0);

    assert_eq!(collector.port_count(), 3);

    // Retain only mlx5_0:1 and mlx5_1:1
    collector.retain_ports(&vec![("mlx5_0".to_string(), 1), ("mlx5_1".to_string(), 1)]);

    assert_eq!(collector.port_count(), 2);
    assert!(collector.get("mlx5_0", 1).is_some());
    assert!(collector.get("mlx5_0", 2).is_none());
    assert!(collector.get("mlx5_1", 1).is_some());
}

#[test]
fn test_history_collector_keys() {
    let mut collector = HistoryCollector::with_capacity(4);
    collector.record("a", 1, 1, 1, 1, 1, 1);
    collector.record("b", 2, 2, 2, 2, 2, 2);
    let keys = collector.keys();
    assert_eq!(keys.len(), 2);
    assert!(keys.contains(&("a".to_string(), 1)));
    assert!(keys.contains(&("b".to_string(), 2)));
}

#[test]
fn test_port_history_peak_throughput() {
    let mut history = PortHistory::with_capacity(10);

    history.record(1000, 500, 10, 5, 0);
    history.record(2000, 1500, 20, 10, 0);
    history.record(500, 250, 5, 2, 0);

    // Peak is 2000 + 1500 = 3500
    assert_eq!(history.peak_throughput(), 3500);
}

#[test]
fn test_port_history_avg_throughput() {
    let mut history = PortHistory::with_capacity(10);

    history.record(1000, 500, 10, 5, 0);
    history.record(2000, 1000, 20, 10, 0);

    // Avg is ((1000+500) + (2000+1000)) / 2 = 4500 / 2 = 2250
    assert_eq!(history.avg_throughput(), 2250);
}

#[test]
fn test_combined_sparkline_sums_before_scaling() {
    let mut history = PortHistory::with_capacity(10);
    // Combined series is [100, 100]: flat, so both levels quantize to 7.
    history.record(100, 0, 0, 0, 0);
    history.record(0, 100, 0, 0, 0);
    let levels = history.combined_sparkline_data(10);
    assert_eq!(levels, vec![7, 7]);
}

#[test]
fn test_ring_buffer_capacity_one() {
    let mut buf: RingBuffer<u64> = RingBuffer::new(1);
    buf.push(1);
    buf.push(2);
    buf.push(3);
    assert_eq!(buf.len(), 1);
    assert_eq!(buf.to_vec(), vec![3]);
}
