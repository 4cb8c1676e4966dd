use gamepath_engine::mtu::{LINK_MTU, MIN_TUNNEL_MTU};
use gamepath_engine::net::Ipv4;
use gamepath_engine::netconfig::{
    address_is_active, configure_tunnel_interface, default_ipv4_route,
    default_ipv4_route_candidates, disable_ipv6_default_route, disable_ipv6_router_discovery,
    dns_server_list, forward_row, interface_configured, interface_dns_written, interface_error,
    interface_index_for_address, interface_mtu, interface_mtu_written, invalidate_route_mtu_cache, ipv6_default_routes, rank_default_routes,
    route_added, route_replaced, router_discovery_disabled, set_interface_mtu, swept_routes,
    usable_link_mtu, wait_for_interface_index, AddStep, InterfaceRow, RouteMtuCache, RouteRow,
    INTERFACE_READY_TIMEOUT, ROUTE_MTU_TTL,
};
use gamepath_engine::time::SECOND;
use gamepath_engine::BENCHMARK_TARGET;

const TARGET: Ipv4 = Ipv4(BENCHMARK_TARGET);

const ETHERNET: (Ipv4, u32) = (Ipv4(0xc0a8_0101), 6);
const WIFI: (Ipv4, u32) = (Ipv4(0xc0a8_3201), 14);

const ROW: InterfaceRow = InterfaceRow {
    mtu: 1500,
    metric: 25,
    use_automatic_metric: true,
    dad_transmits: 3,
    site_prefix_length: 64,
    router_discovery: true,
    disable_default_routes: false,
};

fn metrics(
    candidates: &[(Ipv4, u32, u32)],
    metric: impl Fn(u32) -> Option<u32>,
) -> Vec<Option<u32>> {
    candidates.iter().map(|(_, index, _)| metric(*index)).collect()
}

fn ranked(
    candidates: Vec<(Ipv4, u32, u32)>,
    metric: impl Fn(u32) -> Option<u32>,
) -> Option<(Ipv4, u32)> {
    let metrics = metrics(&candidates, metric);
    rank_default_routes(&candidates, &metrics)
}

/// A measurement of the route, as the machine would report it.
fn measured() -> u16 {
    usable_link_mtu(1492)
}

fn route_link_mtu(cache: &mut RouteMtuCache, now: u64) -> u16 {
    match cache.get(TARGET, now) {
        Some(mtu) => mtu,
        None => {
            let mtu = measured();
            cache.store(TARGET, mtu, now);
            mtu
        }
    }
}

/// The cache must not be able to answer with a value it never measured,
/// and must still be answering the same thing the direct read does.
#[test]
fn a_cached_route_mtu_matches_a_fresh_measurement() {
    let mut cache = RouteMtuCache::new();
    invalidate_route_mtu_cache(&mut cache);
    let first = route_link_mtu(&mut cache, 0);
    let cached = route_link_mtu(&mut cache, SECOND);
    assert_eq!(first, measured());
    assert_eq!(cached, measured());
}

#[test]
fn invalidating_the_cache_forces_the_next_lookup_to_measure_again() {
    let mut cache = RouteMtuCache::new();
    let _ = route_link_mtu(&mut cache, 0);
    invalidate_route_mtu_cache(&mut cache);
    assert!(
        cache.routes.is_empty(),
        "the cache should be empty right after it is invalidated"
    );
    assert_eq!(cache.get(TARGET, 0), None);
    let _ = route_link_mtu(&mut cache, 0);
    assert!(
        !cache.routes.is_empty(),
        "a lookup after invalidation should repopulate the cache"
    );
}

/// A cached MTU is still bounded by the same range a fresh one is, so the
/// cache can never widen the budget past what the link can carry.
#[test]
fn a_cached_route_mtu_stays_inside_the_usable_range() {
    let mut cache = RouteMtuCache::new();
    invalidate_route_mtu_cache(&mut cache);
    for lookup in 0..3 {
        let mtu = route_link_mtu(&mut cache, lookup);
        assert!((MIN_TUNNEL_MTU..=LINK_MTU).contains(&mtu));
    }
    for reported in [0, 576, 9000, u32::MAX] {
        assert!((MIN_TUNNEL_MTU..=LINK_MTU).contains(&usable_link_mtu(reported)));
    }
}

#[test]
fn a_measurement_expires() {
    let mut cache = RouteMtuCache::new();
    cache.store(TARGET, 1400, 0);
    assert_eq!(cache.get(TARGET, ROUTE_MTU_TTL - 1), Some(1400));
    assert_eq!(cache.get(TARGET, ROUTE_MTU_TTL), None);
    cache.store(TARGET, 1450, ROUTE_MTU_TTL);
    assert_eq!(cache.get(TARGET, ROUTE_MTU_TTL), Some(1450));
    assert_eq!(cache.routes.len(), 1);
}

/// Configuring an interface that will never appear has to give up at the
/// deadline rather than loop, and must not take much longer than it.
#[test]
fn configuring_an_interface_that_never_appears_gives_up_at_the_deadline() {
    let step = SECOND / 50;
    let mut now = 0;
    let result = loop {
        let missing = Err(interface_error(u32::MAX, 1168));
        match configure_tunnel_interface(missing, 1400, INTERFACE_READY_TIMEOUT, now) {
            Ok(Some(_)) => panic!("a nonexistent interface cannot be configured"),
            Ok(None) => now += step,
            Err(error) => break error,
        }
    };
    assert_eq!(result, "could not read interface 4294967295 (error 1168)");
    assert!(
        now >= INTERFACE_READY_TIMEOUT,
        "gave up after only {now:?}, before the adapter could have appeared"
    );
    assert!(
        now < INTERFACE_READY_TIMEOUT * 2,
        "took {now:?}, far past the deadline"
    );
}

#[test]
fn a_tunnel_adapter_is_given_a_low_fixed_metric() {
    let row = configure_tunnel_interface(Ok(ROW), 1400, 0, 0)
        .unwrap()
        .unwrap();
    assert_eq!(
        row,
        InterfaceRow {
            mtu: 1400,
            metric: 5,
            use_automatic_metric: false,
            dad_transmits: 0,
            site_prefix_length: 0,
            ..ROW
        }
    );
    assert_eq!(interface_configured(7, 0), Ok(()));
    assert_eq!(
        interface_configured(7, 87).unwrap_err(),
        "could not configure GamePath interface 7 (error 87)"
    );
}

/// And the whole operation has to fail cleanly, not panic, on an interface
/// index that does not exist - a RAS adapter can disappear mid-setup.
#[test]
fn disabling_the_ipv6_default_route_on_a_missing_interface_is_an_error() {
    let swept = swept_routes(0, u32::MAX);
    let configured = Err(interface_error(u32::MAX, 1168));
    assert!(disable_ipv6_default_route(swept, configured).is_err());
}

/// The IPv6 sweep has to be safe to run against an interface that has no
/// IPv6 default route, which is every interface most of the time.
#[test]
fn removing_ipv6_default_routes_is_a_no_op_when_there_are_none() {
    let rows = vec![(1, 128), (2, 0), (1, 64)];
    assert_eq!(ipv6_default_routes(&rows, 1), Vec::<usize>::new());
    assert_eq!(ipv6_default_routes(&rows, 2), vec![1]);
    assert_eq!(swept_routes(0, 1), Ok(()));
}

/// The ordering that matters. The configuration change is refused on some
/// interfaces - and on every interface when unelevated - and that must not
/// stop the sweep, which is the half that actually removes the route.
#[test]
fn a_refused_configuration_change_still_leaves_the_sweep_done() {
    let refused = router_discovery_disabled(1, 5);
    assert_eq!(
        disable_ipv6_default_route(swept_routes(0, 1), refused).unwrap_err(),
        "could not disable IPv6 router discovery on interface 1 (error 5); this needs administrator rights"
    );
    assert_eq!(
        disable_ipv6_default_route(swept_routes(2, 1), Ok(())).unwrap_err(),
        "could not remove 2 IPv6 default route(s) from interface 1"
    );
    let row = disable_ipv6_router_discovery(ROW).unwrap();
    assert!(!row.router_discovery && row.disable_default_routes);
    assert_eq!(disable_ipv6_router_discovery(row), None);
}

#[test]
fn an_unassigned_address_resolves_to_no_interface() {
    let rows = vec![(Ipv4::new(127, 0, 0, 1), 1), (Ipv4::new(10, 0, 0, 2), 9)];
    assert_eq!(
        interface_index_for_address(&rows, Ipv4::new(203, 0, 113, 7)),
        None
    );
    assert_eq!(
        interface_index_for_address(&rows, Ipv4::new(10, 0, 0, 2)),
        Some(9)
    );
    assert!(address_is_active(Ok(Some(9)), 9));
    assert!(!address_is_active(Ok(Some(8)), 9));
    assert!(!address_is_active(Err("no table".to_string()), 9));
}

#[test]
fn an_adapter_that_is_slow_to_appear_is_waited_for() {
    let address = Ipv4::new(10, 0, 0, 2);
    assert_eq!(wait_for_interface_index(Ok(None), address, 10, 9), Ok(None));
    assert_eq!(
        wait_for_interface_index(Ok(Some(4)), address, 10, 10),
        Ok(Some(4))
    );
    assert_eq!(
        wait_for_interface_index(Ok(None), address, 10, 10).unwrap_err(),
        "Windows assigned 10.0.0.2 but its network adapter did not become ready"
    );
}

/// Both default routes carry route metric 0 — which is ordinary — so the whole
/// decision rests on the interface metric, and sorting on the route metric
/// alone left it to the order the table happened to come back in.
#[test]
fn a_tie_on_route_metric_is_broken_by_the_interface_metric() {
    let metric = |index| match index {
        6 => Some(25),  // Ethernet
        14 => Some(45), // Wi-Fi
        _ => None,
    };
    let wired_first = vec![(ETHERNET.0, ETHERNET.1, 0), (WIFI.0, WIFI.1, 0)];
    let wireless_first = vec![(WIFI.0, WIFI.1, 0), (ETHERNET.0, ETHERNET.1, 0)];
    // Whichever order the rows arrive in, the cheaper interface wins.
    assert_eq!(ranked(wired_first, metric), Some(ETHERNET));
    assert_eq!(ranked(wireless_first, metric), Some(ETHERNET));
}

/// And the route metric still counts: a VPN adapter that asks to be
/// avoided by carrying a large route metric must not be chosen over the
/// physical link just because its interface metric is low.
#[test]
fn a_high_route_metric_loses_to_a_cheaper_total() {
    let metric = |index| match index {
        6 => Some(25),
        14 => Some(4), // a VPN interface, cheap on its own
        _ => None,
    };
    let candidates = vec![(WIFI.0, WIFI.1, 328), (ETHERNET.0, ETHERNET.1, 25)];
    assert_eq!(ranked(candidates, metric), Some(ETHERNET));
}

/// An interface row that cannot be read is ranked last rather than
/// dropped, so it is still chosen when it is the only way out.
#[test]
fn an_unreadable_interface_is_a_last_resort_not_a_lost_route() {
    let only = vec![(WIFI.0, WIFI.1, 0)];
    assert_eq!(ranked(only, |_| None), Some(WIFI));
    let both = vec![(WIFI.0, WIFI.1, 0), (ETHERNET.0, ETHERNET.1, 9999)];
    assert_eq!(
        ranked(both, |index| (index == 6).then_some(50)),
        Some(ETHERNET)
    );
}

#[test]
fn a_machine_with_no_gateway_has_no_default_route() {
    assert_eq!(ranked(Vec::new(), |_| Some(1)), None);
    assert_eq!(
        default_ipv4_route(&Vec::new(), &Vec::new()),
        Err("no usable default IPv4 route was found".to_string())
    );
}

/// A row that stopped meaning "on-link" would send that traffic to a gateway
/// instead of out of the tunnel adapter.
#[test]
fn an_on_link_route_row_still_has_no_gateway() {
    let row = forward_row(Ipv4::new(203, 0, 113, 9), 32, Ipv4(0), 12, 1);
    assert_eq!(row.next_hop, Ipv4(0));
    assert_eq!(row.destination, Ipv4::new(203, 0, 113, 9));
    assert_eq!(row.prefix_length, 32);
    assert_eq!(row.interface_index, 12);
    assert_eq!(row.metric, 1);
}

/// And a gateway route carries the gateway, which is also what identifies
/// the row when it is deleted again.
#[test]
fn a_gateway_route_row_carries_its_next_hop_and_metric() {
    let gateway = Ipv4::new(192, 168, 1, 1);
    let row = forward_row(Ipv4(0), 1, gateway, 6, 5);
    assert_eq!(row.next_hop, gateway);
    assert_eq!(row.prefix_length, 1);
    assert_eq!(row.metric, 5);
}

/// Both halves of the answer have to be usable: a gateway that can be sent to,
/// on an interface that exists.
#[test]
fn the_default_route_names_a_real_gateway_and_interface() {
    let rows: Vec<RouteRow> = vec![
        forward_row(Ipv4(0), 1, Ipv4::new(10, 9, 9, 9), 3, 0),
        forward_row(Ipv4(0), 0, Ipv4(0), 4, 0),
        forward_row(Ipv4(0), 0, ETHERNET.0, ETHERNET.1, 0),
        forward_row(Ipv4(0), 0, WIFI.0, WIFI.1, 0),
    ];
    let candidates = default_ipv4_route_candidates(&rows);
    // Neither the half of a split default nor the on-link row counts.
    assert_eq!(candidates.len(), 2);
    let metrics = metrics(&candidates, |index| Some(index * 10));
    let (gateway, interface_index) = default_ipv4_route(&candidates, &metrics).unwrap();
    assert_ne!(gateway, Ipv4(0));
    assert_ne!(interface_index, 0);
    assert!(
        candidates
            .iter()
            .any(|(address, index, _)| *address == gateway && *index == interface_index),
        "{gateway:?} via {interface_index} is not in {candidates:?}"
    );
}

#[test]
fn a_leftover_route_is_replaced_and_a_refusal_explained() {
    let row = forward_row(Ipv4::new(203, 0, 113, 9), 32, Ipv4(0), 12, 1);
    assert!(matches!(route_added(row, 0), AddStep::Done));
    assert!(matches!(route_added(row, 5010), AddStep::Replace));
    assert!(matches!(
        route_added(row, 5),
        AddStep::Failed(message) if message
            == "Windows could not route 203.0.113.9/32 through interface 12 (error 5); this needs administrator rights"
    ));
    assert!(matches!(
        route_added(row, 87),
        AddStep::Failed(message) if message
            == "Windows could not route 203.0.113.9/32 through interface 12 (error 87)"
    ));
    assert_eq!(route_replaced(row, 0), Ok(()));
    assert_eq!(
        route_replaced(row, 87).unwrap_err(),
        "Windows could not replace the existing route for 203.0.113.9/32 on interface 12 (error 87)"
    );
}

#[test]
fn an_mtu_is_written_only_where_it_changes() {
    assert_eq!(set_interface_mtu(ROW, 1500), None);
    let changed = set_interface_mtu(ROW, 1400).unwrap();
    assert_eq!(changed.mtu, 1400);
    assert_eq!(changed.site_prefix_length, 0);
    assert_eq!(
        interface_mtu_written(1400, 7, 87).unwrap_err(),
        "Windows refused MTU 1400 on interface 7 (error 87)"
    );
}

#[test]
fn resolvers_are_listed_in_order_or_cleared() {
    assert_eq!(dns_server_list(&Vec::new()), None);
    assert_eq!(
        dns_server_list(&vec![Ipv4::new(10, 203, 0, 1), Ipv4::new(8, 8, 8, 8)]),
        Some("10.203.0.1,8.8.8.8".to_string())
    );
    assert_eq!(
        interface_dns_written(5).unwrap_err(),
        "Windows refused the DNS servers for the tunnel adapter (error 5); this needs administrator rights"
    );
}

#[test]
fn an_interface_reports_the_mtu_of_its_row() {
    assert_eq!(interface_mtu(Ok(ROW)), Ok(ROW.mtu));
    assert_eq!(
        interface_mtu(Err(interface_error(7, 1168))),
        Err("could not read interface 7 (error 1168)".to_owned())
    );
}
