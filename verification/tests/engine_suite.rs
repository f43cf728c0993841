use ibtop::metrics::MetricsCollector;
use ibtop::types::AdapterInfo;
use ibtop::types::PortCounters;
use ibtop::types::PortInfo;
use ibtop::types::PortState;

fn counters(rx_bytes: u64) -> PortCounters {
    PortCounters {
        rx_bytes,
        tx_bytes: 0,
        rx_packets: 0,
        tx_packets: 0,
        rx_errors: 0,
        tx_errors: 0,
        rx_dropped: 0,
    }
}

fn one_port_poll(adapter: &str, port: u16, c: PortCounters) -> Vec<AdapterInfo> {
    vec![AdapterInfo {
        name: adapter.to_string(),
        ports: vec![PortInfo {
            port_number: port,
            state: PortState::Active,
            rate: "100 Gb/sec (4X EDR)".to_string(),
            counters: c,
        }],
    }]
}

#[test]
fn test_rate_law() {
    // rx_bytes 1000 at t=0, 3000 at t=1s: 2000 bytes per second.
    let mut m = MetricsCollector::new();
    m.update(&one_port_poll("adapterA", 1, counters(1000)), 0);
    m.update(&one_port_poll("adapterA", 1, counters(3000)), 1000);
    let sample = m.get_metrics("adapterA", 1).expect("sample after two polls");
    assert_eq!(sample.rx_bytes_per_sec, 2000);
}

#[test]
fn test_regression_clamps_to_zero() {
    // A decreasing counter yields a zero rate, never a negative one.
    let mut m = MetricsCollector::new();
    m.update(&one_port_poll("adapterA", 1, counters(5000)), 0);
    m.update(&one_port_poll("adapterA", 1, counters(4000)), 1000);
    let sample = m.get_metrics("adapterA", 1).expect("sample after two polls");
    assert_eq!(sample.rx_bytes_per_sec, 0);
}

#[test]
fn test_warm_up_emits_no_sample() {
    // The very first snapshot of an entity emits no rate sample.
    let mut m = MetricsCollector::new();
    m.update(&one_port_poll("adapterA", 1, counters(1000)), 0);
    assert!(m.get_metrics("adapterA", 1).is_none());
    assert!(m.get_history("adapterA", 1).is_none());
}

#[test]
fn test_zero_elapsed_yields_all_zero_sample() {
    // Two polls at the same instant: an all-zero sample, no division.
    let mut m = MetricsCollector::new();
    m.update(&one_port_poll("adapterA", 1, counters(1000)), 5000);
    m.update(&one_port_poll("adapterA", 1, counters(9000)), 5000);
    let sample = m.get_metrics("adapterA", 1).expect("sample after two polls");
    assert_eq!(sample.rx_bytes_per_sec, 0);
    assert_eq!(sample.error_rate, 0);
}

#[test]
fn test_eviction_after_absence() {
    // Present in poll 1, absent in poll 2: everything about it is gone.
    let mut m = MetricsCollector::new();
    m.update(&one_port_poll("adapterA", 1, counters(1000)), 0);
    m.update(&one_port_poll("adapterA", 1, counters(2000)), 250);
    assert!(m.get_history("adapterA", 1).is_some());
    m.update(&one_port_poll("adapterB", 7, counters(10)), 500);
    assert!(m.get_history("adapterA", 1).is_none());
    assert!(m.get_metrics("adapterA", 1).is_none());
    // The cached previous snapshot is gone too: seeing the entity again is
    // warm-up once more.
    m.update(&one_port_poll("adapterA", 1, counters(3000)), 750);
    assert!(m.get_metrics("adapterA", 1).is_none());
}

#[test]
fn test_end_to_end_history() {
    // adapterA:1 observed with rx_bytes 1000 at t=0 and 3000 at t=1s: the
    // receive-rate channel ends with 2000.
    let mut m = MetricsCollector::new();
    m.update(&one_port_poll("adapterA", 1, counters(1000)), 0);
    m.update(&one_port_poll("adapterA", 1, counters(3000)), 1000);
    let history = m.get_history("adapterA", 1).expect("history after two polls");
    assert_eq!(history.rx_bytes_per_sec.last(), Some(&2000));
}

#[test]
fn test_first_update_uses_default_interval() {
    // With no earlier update, the second poll of the same tick count uses
    // the caller clock; the first ever uses the 1 s default, which only
    // matters once a previous snapshot exists.
    let mut m = MetricsCollector::new();
    m.update(&one_port_poll("adapterA", 1, counters(0)), 2000);
    m.update(&one_port_poll("adapterA", 1, counters(500)), 2250);
    let sample = m.get_metrics("adapterA", 1).expect("sample after two polls");
    // 500 bytes over 250 ms is 2000 bytes per second.
    assert_eq!(sample.rx_bytes_per_sec, 2000);
}

#[test]
fn test_error_rate_sums_both_error_fields() {
    let mut m = MetricsCollector::new();
    let mut a = counters(0);
    a.rx_errors = 10;
    a.tx_errors = 20;
    let mut b = counters(0);
    b.rx_errors = 13;
    b.tx_errors = 24;
    m.update(&one_port_poll("adapterA", 1, a), 0);
    m.update(&one_port_poll("adapterA", 1, b), 1000);
    let sample = m.get_metrics("adapterA", 1).expect("sample after two polls");
    assert_eq!(sample.error_rate, 7);
}

#[test]
fn test_parse_port_state() {
    assert_eq!(PortState::parse("ACTIVE"), PortState::Active);
    assert_eq!(PortState::parse("  DOWN \n"), PortState::Down);
    assert_eq!(PortState::parse("garbled"), PortState::Unknown);
    assert_eq!(PortState::parse(""), PortState::Unknown);
}

#[test]
fn test_parse_port_state_line() {
    assert_eq!(PortState::parse_line("4: ACTIVE"), PortState::Active);
    assert_eq!(PortState::parse_line("ACTIVE"), PortState::Active);
    assert_eq!(PortState::parse_line("1: DOWN"), PortState::Down);
    assert_eq!(PortState::parse_line("2: INIT"), PortState::Unknown);
}

#[test]
fn test_parse_counter_value() {
    assert_eq!(ibtop::discovery::parse_counter_value("123\n", 4), 492);
    assert_eq!(ibtop::discovery::parse_counter_value(" 10 ", 1), 10);
    assert_eq!(ibtop::discovery::parse_counter_value("junk", 4), 0);
    assert_eq!(ibtop::discovery::parse_counter_value("", 4), 0);
    // A value out of the 64-bit range is treated as malformed.
    assert_eq!(
        ibtop::discovery::parse_counter_value("99999999999999999999999999", 1),
        0
    );
    // Saturating scale.
    assert_eq!(
        ibtop::discovery::parse_counter_value("18446744073709551615", 4),
        u64::MAX
    );
}

#[test]
fn test_is_data_counter() {
    assert!(ibtop::discovery::is_data_counter("port_rcv_data"));
    assert!(ibtop::discovery::is_data_counter("port_xmit_data"));
    assert!(!ibtop::discovery::is_data_counter("port_rcv_packets"));
}

#[test]
fn test_fake_source_structure() {
    let mut st = ibtop::discovery::fake::FakeState::new();
    let adapters = ibtop::discovery::fake::generate_fake_adapters(&mut st);
    assert_eq!(adapters.len(), 2);
    assert_eq!(adapters[0].name, "mlx5_0");
    assert_eq!(adapters[0].ports.len(), 2);
    assert_eq!(adapters[0].ports[1].state, PortState::Down);
    assert_eq!(adapters[0].ports[1].counters.rx_bytes, 0);
    // Counters never decrease across polls.
    let first_rx = adapters[1].ports[0].counters.rx_bytes;
    let again = ibtop::discovery::fake::generate_fake_adapters(&mut st);
    assert!(again[1].ports[0].counters.rx_bytes >= first_rx);
}
