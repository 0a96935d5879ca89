use balancer_core::address::{Ipv4Address, SocketAddress};
use balancer_core::ipv6::{Ipv6Address, SocketAddressV6};
use balancer_core::dns::{deserialize_dns_server, ConfigError, ConfigOption, DnsDiscoveryConfig};
use balancer_core::interval::{read_interval, Interval};
use balancer_core::json::Field;
use serde_json::Value;

fn object(members: Vec<(&str, Value)>) -> Value {
    let mut map = serde_json::Map::new();
    for (key, value) in members {
        map.insert(key.to_string(), value);
    }
    Value::Object(map)
}

fn localhost() -> Ipv4Address {
    Ipv4Address::new(127, 0, 0, 1)
}

#[test]
fn dns_server_deserializes_correctly() {
    let json = object(vec![
        ("service_port", Value::from(8080)),
        ("dns_server", Value::from("127.0.0.1:100")),
        ("query", Value::from("".to_string())),
    ]);

    let config: DnsDiscoveryConfig =
        DnsDiscoveryConfig::from_value(json).expect("Failed to deserialize json");

    assert_eq!(config.dns_server, Some(SocketAddress::v4(Ipv4Address::new(127, 0, 0, 1), 100)));
}

#[test]
fn dns_server_deserialization_defaults_to_port_53() {
    let json = object(vec![
        ("service_port", Value::from(8080)),
        ("dns_server", Value::from("127.0.0.1")),
        ("query", Value::from("".to_string())),
    ]);

    let config: DnsDiscoveryConfig =
        DnsDiscoveryConfig::from_value(json).expect("Failed to deserialize json");

    assert_eq!(config.dns_server, Some(SocketAddress::v4(Ipv4Address::new(127, 0, 0, 1), 53)));
}

#[test]
fn dns_server_is_optional() {
    let json = object(vec![
        ("service_port", Value::from(8080)),
        ("query", Value::from("".to_string())),
    ]);

    let config: DnsDiscoveryConfig =
        DnsDiscoveryConfig::from_value(json).expect("Failed to deserialize json");

    assert_eq!(config.dns_server.is_some(), false);
}

#[test]
fn empty_dns_server_means_system_resolver() {
    let json = object(vec![
        ("service_port", Value::from(8080)),
        ("dns_server", Value::from("")),
        ("query", Value::from("backend")),
    ]);
    let config = DnsDiscoveryConfig::from_value(json).unwrap();
    assert_eq!(config.dns_server, None);
    assert_eq!(config.service_port, 8080);
    assert_eq!(config.query, "backend");
    assert_eq!(config.polling_interval, None);
}

#[test]
fn absent_dns_server_reads_like_empty_dns_server() {
    let absent = DnsDiscoveryConfig::from_options(
        Field::Present(8080),
        Field::Absent,
        Field::Present("backend"),
        Field::Absent,
    )
    .unwrap();
    let empty = DnsDiscoveryConfig::from_options(
        Field::Present(8080),
        Field::Present(""),
        Field::Present("backend"),
        Field::Absent,
    )
    .unwrap();
    assert_eq!(absent.dns_server, empty.dns_server);
    assert_eq!(absent.service_port, empty.service_port);
    assert_eq!(absent.query, empty.query);
    assert_eq!(absent.polling_interval, empty.polling_interval);
}

#[test]
fn dns_server_option_forms() {
    assert_eq!(deserialize_dns_server(""), None);
    assert_eq!(deserialize_dns_server("127.0.0.1"), Some(SocketAddress::v4(localhost(), 53)));
    assert_eq!(
        deserialize_dns_server("127.0.0.1:100"),
        Some(SocketAddress::v4(localhost(), 100))
    );
    assert_eq!(
        deserialize_dns_server("10.20.30.40:65535"),
        Some(SocketAddress::v4(Ipv4Address::new(10, 20, 30, 40), 65535))
    );
    assert_eq!(deserialize_dns_server("not an address"), None);
    assert_eq!(deserialize_dns_server("127.0.0.1:"), None);
    assert_eq!(deserialize_dns_server("127.0.0.1:65536"), None);
    assert_eq!(deserialize_dns_server("127.0.0.256"), None);
    assert_eq!(deserialize_dns_server("localhost:53"), None);
}

#[test]
fn dns_server_may_be_an_ipv6_address() {
    let local = Ipv6Address::new([0, 0, 0, 0, 0, 0, 0, 1]);
    assert_eq!(deserialize_dns_server("::1"), Some(SocketAddress::v6(local, 53)));
    assert_eq!(deserialize_dns_server("[::1]:5353"), Some(SocketAddress::v6(local, 5353)));
    assert_eq!(
        deserialize_dns_server("2001:4860:4860::8888"),
        Some(SocketAddress::v6(Ipv6Address::new([0x2001, 0x4860, 0x4860, 0, 0, 0, 0, 0x8888]), 53))
    );
    assert_eq!(
        deserialize_dns_server("[fe80::1%2]:53"),
        Some(SocketAddress::V6(SocketAddressV6 {
            ip: Ipv6Address::new([0xfe80, 0, 0, 0, 0, 0, 0, 1]),
            port: 53,
            scope_id: 2
        }))
    );
    assert_eq!(deserialize_dns_server("[::1]"), None);
    assert_eq!(deserialize_dns_server("::1%2"), None);
    let json = object(vec![
        ("service_port", Value::from(8080)),
        ("dns_server", Value::from("::1")),
        ("query", Value::from("backend")),
    ]);
    let config = DnsDiscoveryConfig::from_value(json).unwrap();
    assert_eq!(config.dns_server, Some(SocketAddress::v6(local, 53)));
}

#[test]
fn unreadable_dns_server_means_system_resolver() {
    let json = object(vec![
        ("service_port", Value::from(1)),
        ("dns_server", Value::from("dns.example")),
        ("query", Value::from("q")),
    ]);
    assert_eq!(DnsDiscoveryConfig::from_value(json).unwrap().dns_server, None);
}

#[test]
fn polling_interval_is_read_by_its_units() {
    let json = object(vec![
        ("service_port", Value::from(8080)),
        ("query", Value::from("backend")),
        ("polling_interval", Value::from("1m 30s")),
    ]);
    let config = DnsDiscoveryConfig::from_value(json).unwrap();
    assert_eq!(config.polling_interval, Some(Interval { secs: 90, subsec_nanos: 0 }));

    let json = object(vec![
        ("service_port", Value::from(8080)),
        ("query", Value::from("backend")),
        ("polling_interval", Value::from("250ms")),
    ]);
    let config = DnsDiscoveryConfig::from_value(json).unwrap();
    assert_eq!(config.polling_interval, Some(Interval { secs: 0, subsec_nanos: 250_000_000 }));
}

#[test]
fn null_polling_interval_counts_as_left_out() {
    let json = object(vec![
        ("service_port", Value::from(8080)),
        ("query", Value::from("backend")),
        ("polling_interval", Value::Null),
    ]);
    assert_eq!(DnsDiscoveryConfig::from_value(json).unwrap().polling_interval, None);
}

#[test]
fn members_that_are_no_option_are_passed_over() {
    let json = object(vec![
        ("service_port", Value::from(8080)),
        ("query", Value::from("backend")),
        ("comment", Value::from("ignored")),
    ]);
    assert!(DnsDiscoveryConfig::from_value(json).is_ok());
}

fn error_of(members: Vec<(&str, Value)>) -> ConfigError {
    DnsDiscoveryConfig::from_value(object(members)).unwrap_err()
}

#[test]
fn missing_service_port_is_refused() {
    assert_eq!(
        error_of(vec![("query", Value::from("q"))]),
        ConfigError::Missing(ConfigOption::ServicePort)
    );
    assert_eq!(
        DnsDiscoveryConfig::from_value(Value::from(3)).unwrap_err(),
        ConfigError::Missing(ConfigOption::ServicePort)
    );
}

#[test]
fn invalid_service_port_is_refused() {
    for bad in [Value::from(65536), Value::from(-1), Value::from("8080"), Value::Null] {
        assert_eq!(
            error_of(vec![("service_port", bad), ("query", Value::from("q"))]),
            ConfigError::Invalid(ConfigOption::ServicePort)
        );
    }
    let config = DnsDiscoveryConfig::from_value(object(vec![
        ("service_port", Value::from(65535)),
        ("query", Value::from("q")),
    ]))
    .unwrap();
    assert_eq!(config.service_port, 65535);
}

#[test]
fn invalid_dns_server_is_refused() {
    for bad in [Value::from(53), Value::Null, Value::from(true)] {
        assert_eq!(
            error_of(vec![
                ("service_port", Value::from(1)),
                ("dns_server", bad),
                ("query", Value::from("q")),
            ]),
            ConfigError::Invalid(ConfigOption::DnsServer)
        );
    }
}

#[test]
fn missing_or_invalid_query_is_refused() {
    assert_eq!(
        error_of(vec![("service_port", Value::from(1))]),
        ConfigError::Missing(ConfigOption::Query)
    );
    assert_eq!(
        error_of(vec![("service_port", Value::from(1)), ("query", Value::from(7))]),
        ConfigError::Invalid(ConfigOption::Query)
    );
    assert_eq!(
        error_of(vec![("service_port", Value::from(1)), ("query", Value::Null)]),
        ConfigError::Invalid(ConfigOption::Query)
    );
}

#[test]
fn invalid_polling_interval_is_refused() {
    for bad in [Value::from("soon"), Value::from(10), Value::from("")] {
        assert_eq!(
            error_of(vec![
                ("service_port", Value::from(1)),
                ("query", Value::from("q")),
                ("polling_interval", bad),
            ]),
            ConfigError::Invalid(ConfigOption::PollingInterval)
        );
    }
}

#[test]
fn the_first_unreadable_option_decides_the_error() {
    assert_eq!(
        error_of(vec![
            ("service_port", Value::from("x")),
            ("dns_server", Value::from(1)),
            ("polling_interval", Value::from(1)),
        ]),
        ConfigError::Invalid(ConfigOption::ServicePort)
    );
    assert_eq!(
        error_of(vec![
            ("service_port", Value::from(1)),
            ("dns_server", Value::from(1)),
            ("polling_interval", Value::from(1)),
        ]),
        ConfigError::Invalid(ConfigOption::DnsServer)
    );
}

#[test]
fn options_from_fields() {
    let config = DnsDiscoveryConfig::from_options(
        Field::Present(8080),
        Field::Present("10.0.0.53"),
        Field::Present("backend"),
        Field::Present(Some(Interval::from_secs(3))),
    )
    .unwrap();
    assert_eq!(config.service_port, 8080);
    assert_eq!(
        config.dns_server,
        Some(SocketAddress::v4(Ipv4Address::new(10, 0, 0, 53), 53))
    );
    assert_eq!(config.query, "backend");
    assert_eq!(config.polling_interval, Some(Interval { secs: 3, subsec_nanos: 0 }));
    assert_eq!(
        DnsDiscoveryConfig::from_options(
            Field::Present(8080),
            Field::Absent,
            Field::Present("backend"),
            Field::Present(None),
        )
        .unwrap_err(),
        ConfigError::Invalid(ConfigOption::PollingInterval)
    );
}

#[test]
fn intervals_are_read_from_text() {
    assert_eq!(read_interval("10s"), Some(Interval { secs: 10, subsec_nanos: 0 }));
    assert_eq!(read_interval("2h 37min"), Some(Interval { secs: 9420, subsec_nanos: 0 }));
    assert_eq!(read_interval("32ms"), Some(Interval { secs: 0, subsec_nanos: 32_000_000 }));
    assert_eq!(read_interval("5µs"), Some(Interval { secs: 0, subsec_nanos: 5_000 }));
    assert_eq!(read_interval("0"), Some(Interval { secs: 0, subsec_nanos: 0 }));
    assert_eq!(
        read_interval("99999999999s"),
        Some(Interval { secs: 99_999_999_999, subsec_nanos: 0 })
    );
    assert_eq!(read_interval(""), None);
    assert_eq!(read_interval("10"), None);
    assert_eq!(read_interval("s"), None);
    assert_eq!(read_interval("ten seconds"), None);
}

#[test]
fn intervals_of_too_many_digits_are_refused_unread() {
    assert_eq!(read_interval("100000000000s"), None);
    assert_eq!(read_interval("1h 1m 1s 1ms 1us 1ns 123456s"), None);
    assert_eq!(read_interval("18446744073709551615s 1000000000ns"), None);
    assert_eq!(read_interval("18446744073709551615s 1000ms"), None);
    let json = object(vec![
        ("service_port", Value::from(8080)),
        ("query", Value::from("backend")),
        ("polling_interval", Value::from("18446744073709551615s 1000000000ns")),
    ]);
    assert_eq!(
        DnsDiscoveryConfig::from_value(json).unwrap_err(),
        ConfigError::Invalid(ConfigOption::PollingInterval)
    );
}
