use balancer_core::address::{Ipv4Address, SocketAddress};
use balancer_core::discovery::{
    DiscoveryError, DiscoveryMode, DiscoverySnapshot, ServiceDiscoverer,
};
use balancer_core::dns::{
    DnsDiscoveryConfig, DnsServiceDiscoverer, LookupAnswer, LookupFailure, ResolverChoice,
};
use balancer_core::interval::Interval;
use balancer_core::pool::{MembershipEvent, PoolReconciler};
use balancer_core::target::ConnectionTarget;

fn config(port: u16) -> DnsDiscoveryConfig {
    DnsDiscoveryConfig {
        service_port: port,
        dns_server: None,
        query: "backend".to_string(),
        polling_interval: None,
    }
}

fn ip(last: u8) -> Ipv4Address {
    Ipv4Address::new(10, 0, 0, last)
}

fn target(last: u8, port: u16) -> ConnectionTarget {
    ConnectionTarget::from_ipv4(ip(last), port)
}

#[test]
fn address_records_become_targets_on_the_service_port() {
    let mut discoverer = DnsServiceDiscoverer::new(config(8080));
    let snapshot = discoverer.discover(LookupAnswer::Records(vec![ip(1), ip(2)])).unwrap();
    assert_eq!(snapshot.targets(), &vec![target(1, 8080), target(2, 8080)]);
    assert_eq!(snapshot.len(), 2);
    assert_eq!(snapshot.sequence(), 1);
    assert!(snapshot.contains(&target(1, 8080)));
    assert!(!snapshot.contains(&target(1, 8081)));
    assert!(!snapshot.contains(&target(3, 8080)));
}

#[test]
fn dns_answer_end_to_end() {
    let mut discoverer = DnsServiceDiscoverer::new(config(8080));
    let mut reconciler = PoolReconciler::new();

    let first = discoverer.discover(LookupAnswer::Records(vec![ip(1), ip(2)])).unwrap();
    assert_eq!(first.targets(), &vec![target(1, 8080), target(2, 8080)]);
    let events = reconciler.reconcile(&first);
    assert_eq!(
        events,
        vec![
            MembershipEvent::Added { target: target(1, 8080), sequence: 1 },
            MembershipEvent::Added { target: target(2, 8080), sequence: 1 },
        ]
    );

    let second = discoverer.discover(LookupAnswer::Records(vec![ip(2)])).unwrap();
    let events = reconciler.reconcile(&second);
    assert_eq!(events, vec![MembershipEvent::Removed { target: target(1, 8080), sequence: 2 }]);
    assert_eq!(reconciler.state().members(), &vec![target(2, 8080)]);
    assert_eq!(reconciler.state().sequence(), 2);
}

#[test]
fn repeated_records_count_once() {
    let mut discoverer = DnsServiceDiscoverer::new(config(80));
    let snapshot = discoverer.discover(LookupAnswer::Records(vec![ip(2), ip(1), ip(2), ip(2), ip(1), ip(3)])).unwrap();
    assert_eq!(snapshot.targets(), &vec![target(2, 80), target(1, 80), target(3, 80)]);
}

#[test]
fn no_record_is_an_empty_snapshot() {
    let mut discoverer = DnsServiceDiscoverer::new(config(80));
    let snapshot = discoverer.discover(LookupAnswer::Records(vec![])).unwrap();
    assert!(snapshot.is_empty());
    assert_eq!(snapshot.len(), 0);
    assert_eq!(snapshot.sequence(), 1);
    let snapshot = discoverer.discover(LookupAnswer::NoRecords).unwrap();
    assert!(snapshot.is_empty());
    assert_eq!(snapshot.sequence(), 2);
}

#[test]
fn a_name_that_lost_its_records_empties_the_pool() {
    let mut discoverer = DnsServiceDiscoverer::new(config(80));
    let mut reconciler = PoolReconciler::new();
    reconciler.reconcile(&discoverer.discover(LookupAnswer::Records(vec![ip(1)])).unwrap());
    let events = reconciler.reconcile(&discoverer.discover(LookupAnswer::NoRecords).unwrap());
    assert_eq!(events, vec![MembershipEvent::Removed { target: target(1, 80), sequence: 2 }]);
    assert!(reconciler.state().is_empty());
}

#[test]
fn a_failed_lookup_is_unreachable_and_uses_no_number() {
    let mut discoverer = DnsServiceDiscoverer::new(config(80));
    assert_eq!(discoverer.discover(LookupAnswer::Records(vec![ip(1)])).unwrap().sequence(), 1);
    assert_eq!(
        discoverer.discover(LookupAnswer::Failed(LookupFailure::Query)).unwrap_err(),
        DiscoveryError::Unreachable
    );
    assert_eq!(
        discoverer.discover(LookupAnswer::Failed(LookupFailure::Resolver)).unwrap_err(),
        DiscoveryError::Unreachable
    );
    assert_eq!(discoverer.discover(LookupAnswer::Records(vec![ip(1)])).unwrap().sequence(), 2);
    assert_eq!(discoverer.discover(LookupAnswer::Records(vec![])).unwrap().sequence(), 3);
}

#[test]
fn dns_is_polled_every_ten_seconds_by_default() {
    let discoverer = DnsServiceDiscoverer::new(config(80));
    assert_eq!(
        discoverer.mode(),
        DiscoveryMode::Polling(Interval { secs: 10, subsec_nanos: 0 })
    );
    assert_eq!(discoverer.mode(), DiscoveryMode::Polling(Interval::from_secs(10)));
}

#[test]
fn dns_is_polled_at_the_configured_interval() {
    let mut options = config(80);
    options.polling_interval = Some(Interval { secs: 2, subsec_nanos: 500_000_000 });
    let discoverer = DnsServiceDiscoverer::new(options);
    assert_eq!(
        discoverer.mode(),
        DiscoveryMode::Polling(Interval { secs: 2, subsec_nanos: 500_000_000 })
    );
}

#[test]
fn the_resolver_is_the_configured_server_or_the_systems() {
    let discoverer = DnsServiceDiscoverer::new(config(80));
    assert_eq!(discoverer.resolver(), ResolverChoice::System);
    assert_eq!(discoverer.query(), "backend");

    let mut options = config(80);
    let server = SocketAddress::v4(Ipv4Address::new(127, 0, 0, 1), 53);
    options.dns_server = Some(server);
    let discoverer = DnsServiceDiscoverer::new(options);
    assert_eq!(discoverer.resolver(), ResolverChoice::NameServer(server));
}

#[test]
fn a_snapshot_keeps_each_target_once_in_first_seen_order() {
    let snapshot = DiscoverySnapshot::new(
        vec![
            target(1, 80),
            ConnectionTarget::from_host("a".to_string(), 80),
            target(1, 80),
            target(1, 81),
            ConnectionTarget::from_host("a".to_string(), 80),
            ConnectionTarget::from_host("b".to_string(), 80),
        ],
        7,
    );
    assert_eq!(
        snapshot.targets(),
        &vec![
            target(1, 80),
            ConnectionTarget::from_host("a".to_string(), 80),
            target(1, 81),
            ConnectionTarget::from_host("b".to_string(), 80),
        ]
    );
    assert_eq!(snapshot.sequence(), 7);
}

#[test]
fn options_can_be_copied() {
    let mut options = config(8080);
    options.dns_server = Some(SocketAddress::v4(ip(53), 53));
    options.polling_interval = Some(Interval::from_secs(1));
    let copy = options.clone();
    assert_eq!(copy.service_port, options.service_port);
    assert_eq!(copy.dns_server, options.dns_server);
    assert_eq!(copy.query, options.query);
    assert_eq!(copy.polling_interval, options.polling_interval);
}
