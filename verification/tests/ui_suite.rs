use ibtop::metrics::MetricsCollector;
use ibtop::types::AdapterInfo;
use ibtop::types::PortCounters;
use ibtop::types::PortInfo;
use ibtop::types::PortState;
use ibtop::ui::AppState;
use ibtop::ui::auto_scale_throughput;
use ibtop::ui::calculate_totals;
use ibtop::ui::format_bytes;
use ibtop::ui::parse_max_rate;
use ibtop::ui::render_inline_sparkline;
use ibtop::ui::render_utilization_bar;
use ibtop::ui::truncate_rate;

#[test]
fn test_format_bytes() {
    assert_eq!(format_bytes(0), "0B");
    assert_eq!(format_bytes(1023), "1023B");
    assert_eq!(format_bytes(1024), "1.0KB");
    assert_eq!(format_bytes(1025), "1.0KB");
    assert_eq!(format_bytes(1024 * 1024), "1.0MB");
    assert_eq!(format_bytes(1024 * 1024 * 1024), "1.0GB");
    assert_eq!(format_bytes(1024 * 1024 * 1024 * 1024), "1.0TB");
    assert_eq!(format_bytes(1024 * 1024 * 1024 * 1024 * 1024), "1.0PB");
}

#[test]
fn test_format_bytes_fraction() {
    // 1536 bytes is 1.5 KB.
    assert_eq!(format_bytes(1536), "1.5KB");
}

#[test]
fn test_render_inline_sparkline() {
    let data: Vec<u64> = vec![0, 1, 2, 3, 4, 5, 6, 7];
    let result = render_inline_sparkline(&data);
    assert_eq!(result, "▁▂▃▄▅▆▇█");
}

#[test]
fn test_render_inline_sparkline_empty() {
    let data: Vec<u64> = vec![];
    let result = render_inline_sparkline(&data);
    assert!(result.is_empty());
}

#[test]
fn test_parse_max_rate() {
    assert_eq!(parse_max_rate("100 Gb/sec (4X EDR)"), 12_500_000_000);
    assert_eq!(parse_max_rate("200 Gb/sec"), 25_000_000_000);
    assert_eq!(parse_max_rate("invalid"), 12_500_000_000); // Default
}

#[test]
fn test_truncate_rate() {
    assert_eq!(truncate_rate("100 Gb/sec (4X EDR)"), "100 Gb/sec");
    assert_eq!(truncate_rate("200 Gb/sec"), "200 Gb/sec");
}

#[test]
fn test_utilization_bar() {
    let bar = render_utilization_bar(50, 10);
    // Unicode chars are multi-byte, so count chars not bytes
    assert_eq!(bar.chars().count(), 10);
    assert!(bar.contains('█'));
    assert!(bar.contains('░'));
}

#[test]
fn test_utilization_bar_extremes() {
    assert_eq!(render_utilization_bar(0, 4), "░░░░");
    assert_eq!(render_utilization_bar(100, 4), "████");
    assert_eq!(render_utilization_bar(900, 4), "████");
}

#[test]
fn test_auto_scale_throughput() {
    assert_eq!(auto_scale_throughput(500), (1, "B/s"));
    assert_eq!(auto_scale_throughput(1_500_000), (1_000_000, "MB/s"));
    assert_eq!(auto_scale_throughput(2_000_000_000), (1_000_000_000, "GB/s"));
    assert_eq!(auto_scale_throughput(1_000), (1_000, "KB/s"));
}

#[test]
fn test_app_state_navigation() {
    let mut state = AppState::new();
    state.selectable_items = vec![
        None,
        Some(("mlx5_0".to_string(), 1)),
        Some(("mlx5_0".to_string(), 2)),
        None,
        Some(("mlx5_1".to_string(), 1)),
    ];
    state.selected_row = 1;

    state.select_next();
    assert_eq!(state.selected_row, 2);

    state.select_next();
    // Should skip the None at index 3
    assert_eq!(state.selected_row, 4);

    state.select_prev();
    assert_eq!(state.selected_row, 2);
}

#[test]
fn test_app_state_toggle_detail() {
    let mut state = AppState::new();
    assert!(!state.detail_expanded);

    state.toggle_detail();
    assert!(state.detail_expanded);

    state.toggle_detail();
    assert!(!state.detail_expanded);
}

#[test]
fn test_app_state_tab_cycling() {
    let mut state = AppState::new();
    assert_eq!(state.detail_tab, 0);

    state.next_tab();
    assert_eq!(state.detail_tab, 1);

    state.next_tab();
    assert_eq!(state.detail_tab, 2);

    state.next_tab();
    assert_eq!(state.detail_tab, 0);

    state.prev_tab();
    assert_eq!(state.detail_tab, 2);
}

#[test]
fn test_update_selectable_items() {
    let mut state = AppState::new();
    let adapters = vec![AdapterInfo {
        name: "mlx5_0".to_string(),
        ports: vec![PortInfo {
            port_number: 1,
            state: PortState::Active,
            rate: "100 Gb/sec".to_string(),
            counters: PortCounters::default(),
        }],
    }];
    state.update_selectable_items(&adapters);
    assert_eq!(state.selectable_items.len(), 2);
    assert_eq!(state.selectable_items[0], None);
    assert_eq!(
        state.selectable_items[1],
        Some(("mlx5_0".to_string(), 1))
    );
    // The selection skips the adapter header.
    assert_eq!(state.selected_port(), Some(("mlx5_0", 1)));
}

#[test]
fn test_calculate_totals() {
    let poll = |rx: u64, tx: u64| {
        vec![AdapterInfo {
            name: "mlx5_0".to_string(),
            ports: vec![PortInfo {
                port_number: 1,
                state: PortState::Active,
                rate: "100 Gb/sec".to_string(),
                counters: PortCounters {
                    rx_bytes: rx,
                    tx_bytes: tx,
                    rx_packets: 0,
                    tx_packets: 0,
                    rx_errors: 0,
                    tx_errors: 0,
                    rx_dropped: 0,
                },
            }],
        }]
    };
    let mut m = MetricsCollector::new();
    m.update(&poll(0, 0), 0);
    m.update(&poll(3000, 1000), 1000);
    let adapters = poll(3000, 1000);
    assert_eq!(calculate_totals(&adapters, &m), (3000, 1000));
}
