use ibtop::simulation::SimState;
use ibtop::simulation::TrafficPattern;
use ibtop::simulation::avg_packet_size;
use ibtop::simulation::calculate_utilization;
use ibtop::simulation::generate_fake_adapters;
use ibtop::types::PortState;

#[test]
fn test_traffic_patterns_all() {
    let patterns = TrafficPattern::all();
    assert_eq!(patterns.len(), 5);
}

#[test]
fn test_pattern_names() {
    assert_eq!(TrafficPattern::Burst.name(), "MPI Collective");
    assert_eq!(TrafficPattern::Steady.name(), "RDMA Stream");
    assert_eq!(TrafficPattern::Wave.name(), "Periodic Load");
    assert_eq!(TrafficPattern::Interactive.name(), "Interactive");
    assert_eq!(TrafficPattern::Congestion.name(), "Congested");
}

#[test]
fn test_utilization_bounds() {
    for pattern in TrafficPattern::all() {
        for t in 0..100u64 {
            let util = calculate_utilization(pattern, t * 100);
            assert!(
                util <= 1000,
                "Pattern {pattern:?} at t={t}: util={util}"
            );
        }
    }
}

#[test]
fn test_generate_fake_adapters() {
    let mut state = SimState::new();
    let adapters = generate_fake_adapters(&mut state);
    assert!(!adapters.is_empty());

    // Should have multiple adapters
    assert!(adapters.len() >= 2);

    // Check that active ports have non-zero counters after a few calls
    generate_fake_adapters(&mut state);
    generate_fake_adapters(&mut state);
    let adapters = generate_fake_adapters(&mut state);

    for adapter in &adapters {
        for port in &adapter.ports {
            if port.state == PortState::Active {
                assert!(port.counters.rx_bytes > 0 || port.counters.tx_bytes > 0);
            }
        }
    }
}

#[test]
fn test_down_port_has_zero_counters() {
    // Find a down port
    let mut state = SimState::new();
    let adapters = generate_fake_adapters(&mut state);
    for adapter in adapters {
        for port in adapter.ports {
            if port.state == PortState::Down {
                assert_eq!(port.counters.rx_bytes, 0);
                assert_eq!(port.counters.tx_bytes, 0);
            }
        }
    }
}

#[test]
fn test_avg_packet_sizes() {
    // Verify packet sizes are reasonable
    assert!(
        avg_packet_size(TrafficPattern::Interactive) < avg_packet_size(TrafficPattern::Steady)
    );
    assert!(avg_packet_size(TrafficPattern::Burst) < avg_packet_size(TrafficPattern::Steady));
}

#[test]
fn test_counters_are_monotone() {
    let mut state = SimState::new();
    let first = generate_fake_adapters(&mut state);
    let second = generate_fake_adapters(&mut state);
    for (a, b) in first.iter().zip(second.iter()) {
        for (p, q) in a.ports.iter().zip(b.ports.iter()) {
            assert!(q.counters.rx_bytes >= p.counters.rx_bytes);
            assert!(q.counters.tx_bytes >= p.counters.tx_bytes);
            assert!(q.counters.rx_errors >= p.counters.rx_errors);
        }
    }
}

#[test]
fn test_congestion_utilization_floor() {
    for t in 0..50u64 {
        let util = calculate_utilization(TrafficPattern::Congestion, t * 250);
        assert!(util >= 300);
        assert!(util <= 1000);
    }
}
