use balancer_core::address::{IpAddress, Ipv4Address, SocketAddress, SocketAddressV4};
use balancer_core::ipv6::{Ipv6Address, SocketAddressV6};
use balancer_core::target::{ConnectionTarget, HostOrIp};

#[test]
fn ipv4_is_written_in_dotted_decimal() {
    assert_eq!(Ipv4Address::new(127, 0, 0, 1).to_text(), "127.0.0.1");
    assert_eq!(Ipv4Address::new(0, 0, 0, 0).to_text(), "0.0.0.0");
    assert_eq!(Ipv4Address::new(255, 255, 255, 255).to_text(), "255.255.255.255");
    assert_eq!(Ipv4Address::new(10, 200, 9, 99).to_text(), "10.200.9.99");
}

#[test]
fn ipv4_is_read_from_dotted_decimal() {
    assert_eq!(Ipv4Address::parse("127.0.0.1"), Some(Ipv4Address::new(127, 0, 0, 1)));
    assert_eq!(Ipv4Address::parse("0.0.0.0"), Some(Ipv4Address::new(0, 0, 0, 0)));
    assert_eq!(
        Ipv4Address::parse("255.255.255.255"),
        Some(Ipv4Address::new(255, 255, 255, 255))
    );
    assert_eq!(Ipv4Address::parse("1.22.133.4"), Some(Ipv4Address::new(1, 22, 133, 4)));
}

#[test]
fn ipv4_refuses_what_is_not_written_that_way() {
    for bad in [
        "",
        "1",
        "1.2.3",
        "1.2.3.",
        ".1.2.3",
        "1.2.3.4.5",
        "1.2.3.4.",
        "256.0.0.1",
        "1.2.3.256",
        "01.2.3.4",
        "1.2.3.04",
        "1.2.3.0004",
        "1..2.3",
        "1.2.3.4 ",
        " 1.2.3.4",
        "1.2.3.a",
        "1.2.3.4:80",
        "1,2,3,4",
        "１.2.3.4",
        "::1",
    ] {
        assert_eq!(Ipv4Address::parse(bad), None, "{:?}", bad);
    }
}

#[test]
fn reading_inverts_writing_for_ipv4() {
    for a in [0u8, 1, 9, 10, 99, 100, 199, 255] {
        for d in [0u8, 7, 42, 128, 255] {
            let ip = Ipv4Address::new(a, d, a, d);
            assert_eq!(Ipv4Address::parse(&ip.to_text()), Some(ip));
        }
    }
}

#[test]
fn socket_address_is_written_with_its_port() {
    let addr = SocketAddressV4::new(Ipv4Address::new(127, 0, 0, 1), 100);
    assert_eq!(addr.to_text(), "127.0.0.1:100");
    assert_eq!(SocketAddressV4::new(Ipv4Address::new(1, 2, 3, 4), 0).to_text(), "1.2.3.4:0");
    assert_eq!(
        SocketAddressV4::new(Ipv4Address::new(1, 2, 3, 4), 65535).to_text(),
        "1.2.3.4:65535"
    );
}

#[test]
fn socket_address_is_read_with_its_port() {
    let ip = Ipv4Address::new(127, 0, 0, 1);
    assert_eq!(SocketAddressV4::parse("127.0.0.1:100"), Some(SocketAddressV4::new(ip, 100)));
    assert_eq!(SocketAddressV4::parse("127.0.0.1:0"), Some(SocketAddressV4::new(ip, 0)));
    assert_eq!(SocketAddressV4::parse("127.0.0.1:65535"), Some(SocketAddressV4::new(ip, 65535)));
    assert_eq!(SocketAddressV4::parse("127.0.0.1:0080"), Some(SocketAddressV4::new(ip, 80)));
    assert_eq!(
        SocketAddressV4::parse("127.0.0.1:000000000000000000053"),
        Some(SocketAddressV4::new(ip, 53))
    );
}

#[test]
fn socket_address_refuses_what_is_not_written_that_way() {
    for bad in [
        "",
        "127.0.0.1",
        "127.0.0.1:",
        "127.0.0.1:65536",
        "127.0.0.1:99999999999999999999",
        "127.0.0.1:-1",
        "127.0.0.1:8o",
        "127.0.0.1:80 ",
        "127.0.0.1::80",
        "127.0.0.1:80:90",
        "127.0.0.256:80",
        "127.0.0.01:80",
        ":80",
        "localhost:80",
        "[::1]:80",
    ] {
        assert_eq!(SocketAddressV4::parse(bad), None, "{:?}", bad);
    }
}

#[test]
fn reading_inverts_writing_for_socket_addresses() {
    for port in [0u16, 1, 9, 10, 53, 99, 100, 8080, 9999, 10000, 65535] {
        let addr = SocketAddressV4::new(Ipv4Address::new(192, 168, 0, 1), port);
        assert_eq!(SocketAddressV4::parse(&addr.to_text()), Some(addr));
    }
}

#[test]
fn targets_are_the_same_when_host_and_port_agree() {
    let a = ConnectionTarget::from_ipv4(Ipv4Address::new(10, 0, 0, 1), 8080);
    let b = ConnectionTarget::from_ipv4(Ipv4Address::new(10, 0, 0, 1), 8080);
    let other_port = ConnectionTarget::from_ipv4(Ipv4Address::new(10, 0, 0, 1), 8081);
    let other_host = ConnectionTarget::from_ipv4(Ipv4Address::new(10, 0, 0, 2), 8080);
    let named = ConnectionTarget::from_host("10.0.0.1".to_string(), 8080);
    let named_again = ConnectionTarget::from_host("10.0.0.1".to_string(), 8080);
    assert!(a.same(&b));
    assert!(!a.same(&other_port));
    assert!(!a.same(&other_host));
    assert!(!a.same(&named));
    assert!(!named.same(&a));
    assert!(named.same(&named_again));
    assert!(!named.same(&ConnectionTarget::from_host("10.0.0.2".to_string(), 8080)));
    assert_eq!(a, b);
    assert_eq!(a.clone(), a);
    assert!(named.clone().same(&named));
    let one = IpAddress::V4(Ipv4Address::new(1, 1, 1, 1));
    assert!(HostOrIp::Ip(one).same(&HostOrIp::Ip(one)));
    let six = IpAddress::V6(Ipv6Address::new([0, 0, 0, 0, 0, 0, 0, 1]));
    assert!(ConnectionTarget::from_ip(six, 80).same(&ConnectionTarget::from_ip(six, 80)));
    assert!(!ConnectionTarget::from_ip(six, 80).same(&ConnectionTarget::from_ip(one, 80)));
}

fn v6(groups: [u16; 8]) -> Option<Ipv6Address> {
    Some(Ipv6Address::new(groups))
}

#[test]
fn ipv6_is_read_from_its_groups() {
    assert_eq!(Ipv6Address::parse("1:2:3:4:5:6:7:8"), v6([1, 2, 3, 4, 5, 6, 7, 8]));
    assert_eq!(
        Ipv6Address::parse("2001:0db8:85a3:0000:0000:8a2e:0370:7334"),
        v6([0x2001, 0x0db8, 0x85a3, 0, 0, 0x8a2e, 0x0370, 0x7334])
    );
    assert_eq!(
        Ipv6Address::parse("FFFF:ffff:AbCd:0:00:000:0000:f"),
        v6([0xffff, 0xffff, 0xabcd, 0, 0, 0, 0, 0xf])
    );
    assert_eq!(Ipv6Address::new([1, 2, 3, 4, 5, 6, 7, 8]).groups(), [1, 2, 3, 4, 5, 6, 7, 8]);
}

#[test]
fn ipv6_is_read_with_groups_of_zeros_left_out() {
    assert_eq!(Ipv6Address::parse("::"), v6([0; 8]));
    assert_eq!(Ipv6Address::parse("::1"), v6([0, 0, 0, 0, 0, 0, 0, 1]));
    assert_eq!(Ipv6Address::parse("1::"), v6([1, 0, 0, 0, 0, 0, 0, 0]));
    assert_eq!(Ipv6Address::parse("fe80::1"), v6([0xfe80, 0, 0, 0, 0, 0, 0, 1]));
    assert_eq!(
        Ipv6Address::parse("2001:db8::ff00:42:8329"),
        v6([0x2001, 0xdb8, 0, 0, 0, 0xff00, 0x42, 0x8329])
    );
    assert_eq!(Ipv6Address::parse("1:2:3:4:5:6:7::"), v6([1, 2, 3, 4, 5, 6, 7, 0]));
    assert_eq!(Ipv6Address::parse("::2:3:4:5:6:7:8"), v6([0, 2, 3, 4, 5, 6, 7, 8]));
    assert_eq!(Ipv6Address::parse("1:2:3::6:7:8"), v6([1, 2, 3, 0, 0, 6, 7, 8]));
    assert_eq!(Ipv6Address::parse("1:2:3:4::6:7:8"), v6([1, 2, 3, 4, 0, 6, 7, 8]));
    assert_eq!(Ipv6Address::parse("::1:53"), v6([0, 0, 0, 0, 0, 0, 1, 0x53]));
}

#[test]
fn ipv6_is_read_with_an_ipv4_address_at_its_end() {
    assert_eq!(
        Ipv6Address::parse("::ffff:192.0.2.128"),
        v6([0, 0, 0, 0, 0, 0xffff, 0xc000, 0x0280])
    );
    assert_eq!(Ipv6Address::parse("::1.2.3.4"), v6([0, 0, 0, 0, 0, 0, 0x0102, 0x0304]));
    assert_eq!(
        Ipv6Address::parse("1:2:3:4:5:6:255.255.0.1"),
        v6([1, 2, 3, 4, 5, 6, 0xffff, 0x0001])
    );
    assert_eq!(
        Ipv6Address::parse("1:2:3:4:5::1.2.3.4"),
        v6([1, 2, 3, 4, 5, 0, 0x0102, 0x0304])
    );
    assert_eq!(Ipv6Address::parse("64:ff9b::10.0.0.1"), v6([0x64, 0xff9b, 0, 0, 0, 0, 0x0a00, 1]));
}

#[test]
fn ipv6_refuses_what_is_not_written_that_way() {
    for bad in [
        "",
        ":",
        ":::",
        "::::",
        "1",
        "1:",
        ":1",
        "1:2:3:4:5:6:7",
        "1:2:3:4:5:6:7:",
        ":1:2:3:4:5:6:7",
        "1:2:3:4:5:6:7:8:9",
        "1:2:3:4:5:6:7:8:",
        "1:2:3:4:5:6:7:8::",
        "::1:2:3:4:5:6:7:8",
        "1:2:3:4::5:6:7:8",
        "1::2::3",
        "1:::2",
        ":1::",
        "1::2:",
        "::1:",
        "12345::",
        "::12345",
        "g::",
        "::g",
        "1::-1",
        "1.2.3.4",
        "1.2.3.4::",
        "1.2.3.4::1",
        "::1.2.3.4:5",
        "::1.2.3",
        "::1.2.3.4.5",
        "::01.2.3.4",
        "::256.2.3.4",
        "1:2:3:4:5:6:7:1.2.3.4",
        "1:2:3:4:5:6::1.2.3.4",
        "1:2:3:4:5:1.2.3.4",
        " ::1",
        "::1 ",
        "[::1]",
        "::1%1",
        "::1/64",
        "：:1",
    ] {
        assert_eq!(Ipv6Address::parse(bad), None, "{:?}", bad);
    }
}

#[test]
fn an_address_of_either_family_is_read() {
    assert_eq!(
        IpAddress::parse("127.0.0.1"),
        Some(IpAddress::V4(Ipv4Address::new(127, 0, 0, 1)))
    );
    assert_eq!(
        IpAddress::parse("::1"),
        Some(IpAddress::V6(Ipv6Address::new([0, 0, 0, 0, 0, 0, 0, 1])))
    );
    assert_eq!(IpAddress::parse("localhost"), None);
    assert_eq!(IpAddress::parse("127.0.0.1:53"), None);
    assert_eq!(IpAddress::parse("[::1]:53"), None);
    assert_eq!(IpAddress::parse(""), None);
}

fn local6() -> Ipv6Address {
    Ipv6Address::new([0, 0, 0, 0, 0, 0, 0, 1])
}

#[test]
fn ipv6_socket_addresses_are_read_from_brackets_and_port() {
    assert_eq!(SocketAddressV6::parse("[::1]:5353"), Some(SocketAddressV6::new(local6(), 5353)));
    assert_eq!(SocketAddressV6::parse("[::1]:0"), Some(SocketAddressV6::new(local6(), 0)));
    assert_eq!(SocketAddressV6::parse("[::1]:0080"), Some(SocketAddressV6::new(local6(), 80)));
    assert_eq!(
        SocketAddressV6::parse("[1:2:3:4:5:6:7:8]:65535"),
        Some(SocketAddressV6::new(Ipv6Address::new([1, 2, 3, 4, 5, 6, 7, 8]), 65535))
    );
    assert_eq!(
        SocketAddressV6::parse("[::ffff:1.2.3.4]:53"),
        Some(SocketAddressV6::new(Ipv6Address::new([0, 0, 0, 0, 0, 0xffff, 0x0102, 0x0304]), 53))
    );
}

#[test]
fn ipv6_socket_addresses_may_name_a_scope() {
    let fe80 = Ipv6Address::new([0xfe80, 0, 0, 0, 0, 0, 0, 1]);
    assert_eq!(
        SocketAddressV6::parse("[fe80::1%3]:80"),
        Some(SocketAddressV6 { ip: fe80, port: 80, scope_id: 3 })
    );
    assert_eq!(
        SocketAddressV6::parse("[fe80::1%0004]:80"),
        Some(SocketAddressV6 { ip: fe80, port: 80, scope_id: 4 })
    );
    assert_eq!(
        SocketAddressV6::parse("[fe80::1%4294967295]:80"),
        Some(SocketAddressV6 { ip: fe80, port: 80, scope_id: 4294967295 })
    );
    assert_eq!(
        SocketAddressV6::parse("[fe80::1%0]:80"),
        Some(SocketAddressV6 { ip: fe80, port: 80, scope_id: 0 })
    );
    assert_eq!(SocketAddressV6::new(fe80, 80).scope_id, 0);
}

#[test]
fn ipv6_socket_addresses_refuse_what_is_not_written_that_way() {
    for bad in [
        "",
        "[",
        "]",
        "[]",
        "[]:80",
        "::1",
        "[::1]",
        "[::1]:",
        "[::1]80",
        "[::1]:65536",
        "[::1]:8o",
        "[::1]:-1",
        "[::1]:80 ",
        "[::1:80",
        "::1]:80",
        "x[::1]:80",
        "[[::1]:80",
        "[::1]]:80",
        "[::1 ]:80",
        "[::1%]:80",
        "[::1%x]:80",
        "[::1%1%2]:80",
        "[::1%4294967296]:80",
        "[%1]:80",
        "[1.2.3.4]:80",
        "[1:2:3:4:5:6:7]:80",
        "127.0.0.1:80",
    ] {
        assert_eq!(SocketAddressV6::parse(bad), None, "{:?}", bad);
    }
}

#[test]
fn a_socket_address_of_either_family_is_read() {
    let four = Ipv4Address::new(127, 0, 0, 1);
    assert_eq!(SocketAddress::parse("127.0.0.1:100"), Some(SocketAddress::v4(four, 100)));
    assert_eq!(SocketAddress::parse("[::1]:5353"), Some(SocketAddress::v6(local6(), 5353)));
    assert_eq!(SocketAddress::parse("::1"), None);
    assert_eq!(SocketAddress::parse("127.0.0.1"), None);
    let addr = SocketAddress::new(IpAddress::V6(local6()), 53);
    assert_eq!(addr, SocketAddress::v6(local6(), 53));
    assert_eq!(addr.ip(), IpAddress::V6(local6()));
    assert_eq!(addr.port(), 53);
    let addr = SocketAddress::new(IpAddress::V4(four), 8080);
    assert_eq!(addr, SocketAddress::V4(SocketAddressV4::new(four, 8080)));
    assert_eq!(addr.ip(), IpAddress::V4(four));
    assert_eq!(addr.port(), 8080);
}
