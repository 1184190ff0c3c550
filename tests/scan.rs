use scout::engine::{classify_connect, scan_result, ConnectOutcome, ScanEngine};
use scout::limits::{compute_channel_size, compute_concurrency, ConcurrencyBudget};
use scout::target::{
    build_host_scan_items, build_scan_items, build_target_scan_items, discovery_ports, expand_target, hosts_of_network,
    ipv4, local_discovery_hosts, ports_between, LocalNet, ScanError, ScanItem,
};

#[test]
fn builds_cartesian_product() {
    let hosts = [ipv4(192, 168, 1, 10), ipv4(192, 168, 1, 11)];
    let ports = [22u16, 80u16];

    let items: Vec<ScanItem> = build_scan_items(&hosts, &ports);

    assert_eq!(
        items,
        vec![
            (ipv4(192, 168, 1, 10), 22),
            (ipv4(192, 168, 1, 10), 80),
            (ipv4(192, 168, 1, 11), 22),
            (ipv4(192, 168, 1, 11), 80),
        ]
    );
}

#[test]
fn preserves_port_order_from_iter() {
    let host = [ipv4(10, 0, 0, 1)];
    let ports = vec![8080u16, 22u16, 443u16];

    let items = build_scan_items(&host, &ports);
    let extracted: Vec<u16> = items.into_iter().map(|(_h, p)| p).collect();

    assert_eq!(extracted, vec![8080, 22, 443]);
}

#[test]
fn expansion_length_is_product() {
    let hosts = [1u32, 2, 3];
    let ports = [7u16, 9];
    let items = build_scan_items(&hosts, &ports);
    assert_eq!(items.len(), 6);
    assert_eq!(items[1 * 2 + 1], (2, 9));
    assert!(build_scan_items(&hosts, &[]).is_empty());
    assert!(build_scan_items(&[], &ports).is_empty());
}

#[test]
fn expansion_is_repeatable() {
    let a = build_target_scan_items("10.1.2.0/29", 20, 23).unwrap();
    let b = build_target_scan_items("10.1.2.0/29", 20, 23).unwrap();
    assert_eq!(a, b);
    assert_eq!(a.len(), 6 * 4);
}

#[test]
fn single_address_target() {
    let items = build_target_scan_items("10.0.0.5", 20, 25).unwrap();
    let host = ipv4(10, 0, 0, 5);
    assert_eq!(
        items,
        vec![(host, 20), (host, 21), (host, 22), (host, 23), (host, 24), (host, 25)]
    );
}

#[test]
fn cidr_target_uses_usable_hosts() {
    let items = build_target_scan_items("192.168.1.0/30", 80, 80).unwrap();
    assert_eq!(items, vec![(ipv4(192, 168, 1, 1), 80), (ipv4(192, 168, 1, 2), 80)]);
}

#[test]
fn unsupported_targets() {
    assert_eq!(build_target_scan_items("example.com", 1, 10), Err(ScanError::UnsupportedTarget));
    assert_eq!(build_target_scan_items("192.168.1.5/24", 1, 10), Err(ScanError::UnsupportedTarget));
    assert_eq!(build_target_scan_items("10.0.0.0/33", 1, 10), Err(ScanError::UnsupportedTarget));
    assert_eq!(expand_target(None, 1, 2), Err(ScanError::UnsupportedTarget));
}

#[test]
fn empty_port_range_is_empty_target_set() {
    assert_eq!(build_target_scan_items("10.0.0.5", 30, 20), Err(ScanError::EmptyTargetSet));
    assert_eq!(ScanError::EmptyTargetSet.message(), "No items to scan");
    assert_eq!(
        ScanError::UnsupportedTarget.message(),
        "Target not supported; supply IP address or CIDR"
    );
}

#[test]
fn small_networks_keep_their_addresses() {
    assert_eq!(hosts_of_network(ipv4(10, 0, 0, 0), 31), vec![ipv4(10, 0, 0, 0), ipv4(10, 0, 0, 1)]);
    assert_eq!(hosts_of_network(ipv4(10, 0, 0, 7), 32), vec![ipv4(10, 0, 0, 7)]);
    assert_eq!(hosts_of_network(ipv4(10, 0, 0, 77), 24).len(), 254);
    assert_eq!(hosts_of_network(ipv4(10, 0, 0, 77), 24)[0], ipv4(10, 0, 0, 1));
}

#[test]
fn port_ranges() {
    assert_eq!(ports_between(5, 7), vec![5, 6, 7]);
    assert_eq!(ports_between(65535, 65535), vec![65535]);
    assert!(ports_between(8, 7).is_empty());
    assert_eq!(ports_between(1, 1024).len(), 1024);
}

#[test]
fn local_discovery_skips_own_address() {
    let nets = [
        LocalNet { addr: ipv4(192, 168, 1, 5), prefix_len: 30 },
        LocalNet { addr: ipv4(10, 0, 0, 1), prefix_len: 31 },
    ];
    assert_eq!(
        local_discovery_hosts(&nets),
        vec![ipv4(192, 168, 1, 6), ipv4(10, 0, 0, 0)]
    );
    assert_eq!(discovery_ports(), vec![22, 23, 53, 80, 139, 443, 445, 631, 8000, 8080, 8443]);
}

#[test]
fn concurrency_budget_values() {
    assert_eq!(compute_concurrency(1), 64);
    assert_eq!(compute_concurrency(64), 4096);
    assert_eq!(compute_concurrency(65), 4096);
    assert_eq!(compute_concurrency(1000), 4096);
    assert_eq!(compute_channel_size(1), 256);
    assert_eq!(compute_channel_size(64), 256);
    assert_eq!(compute_channel_size(65), 260);
    assert_eq!(compute_channel_size(1000), 4000);
    assert_eq!(compute_channel_size(4096), 16384);
    assert_eq!(compute_channel_size(usize::MAX), 16384);
    let b = ConcurrencyBudget::for_cpus(2);
    assert_eq!((b.max_in_flight, b.channel_capacity), (128, 512));
    let m = ConcurrencyBudget::for_this_machine();
    assert!(m.max_in_flight >= 64 && m.channel_capacity >= m.max_in_flight);
}

fn budget(max_in_flight: usize) -> ConcurrencyBudget {
    ConcurrencyBudget { max_in_flight, channel_capacity: 256 }
}

#[test]
fn engine_yields_one_result_per_item() {
    let items = build_scan_items(&[1, 2, 3], &[80, 443]);
    let mut engine = ScanEngine::new(items.clone(), &budget(3)).ok().unwrap();
    assert_eq!(engine.total(), 6);
    let mut results = Vec::new();
    let mut in_flight = Vec::new();
    while !engine.is_finished() {
        while let Some((index, item)) = engine.dispatch() {
            assert!(engine.in_flight() <= 3);
            in_flight.push((index, item));
        }
        let (index, item) = in_flight.remove(0);
        let outcome = if item.1 == 80 { ConnectOutcome::Connected } else { ConnectOutcome::Refused };
        results.push(engine.complete(index, outcome).unwrap());
        assert_eq!(engine.complete(index, outcome), None);
    }
    assert_eq!(results.len(), engine.total());
    let mut seen: Vec<(u32, u16)> = results.iter().map(|r| (r.0, r.1)).collect();
    seen.sort();
    let mut expected = items;
    expected.sort();
    assert_eq!(seen, expected);
    assert!(results.iter().all(|r| r.2 == (r.1 == 80)));
}

#[test]
fn engine_refuses_empty_work() {
    assert!(matches!(ScanEngine::new(Vec::new(), &budget(4)), Err(ScanError::EmptyTargetSet)));
}

#[test]
fn engine_limits_admission() {
    let items = build_scan_items(&[1], &[1, 2, 3]);
    let mut engine = ScanEngine::new(items, &budget(2)).ok().unwrap();
    assert_eq!(engine.dispatch(), Some((0, (1, 1))));
    assert_eq!(engine.dispatch(), Some((1, (1, 2))));
    assert_eq!(engine.dispatch(), None);
    assert_eq!(engine.complete(2, ConnectOutcome::Connected), None);
    assert_eq!(engine.complete(1, ConnectOutcome::Connected), Some((1, 2, true)));
    assert_eq!(engine.dispatch(), Some((2, (1, 3))));
    assert!(!engine.is_finished());
}

#[test]
fn stalled_connect_is_closed() {
    let items = build_scan_items(&[ipv4(10, 9, 8, 7)], &[8080]);
    let mut engine = ScanEngine::new(items, &budget(1)).ok().unwrap();
    let (index, _) = engine.dispatch().unwrap();
    assert_eq!(
        engine.complete(index, ConnectOutcome::TimedOut),
        Some((ipv4(10, 9, 8, 7), 8080, false))
    );
    assert!(engine.is_finished());
    assert_eq!(engine.complete(index, ConnectOutcome::Connected), None);
    assert!(!classify_connect(ConnectOutcome::Failed));
    assert!(classify_connect(ConnectOutcome::Connected));
    assert_eq!(scan_result((5, 6), ConnectOutcome::Refused), (5, 6, false));
}

#[test]
fn host_list_expansion_fails_when_empty() {
    assert_eq!(build_host_scan_items(&[], &[80]), Err(ScanError::EmptyTargetSet));
    assert_eq!(build_host_scan_items(&[1], &[]), Err(ScanError::EmptyTargetSet));
    assert_eq!(build_host_scan_items(&[1, 2], &[80]), Ok(vec![(1, 80), (2, 80)]));
}

#[test]
fn engine_accepts_any_nonempty_work() {
    let engine = ScanEngine::new(vec![(7, 7)], &budget(1)).ok().unwrap();
    assert_eq!(engine.total(), 1);
    assert!(!engine.is_finished());
}
