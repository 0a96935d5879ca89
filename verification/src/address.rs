//! IP addresses and socket addresses with their textual forms.
//!
//! An IPv4 address is written as four decimal octets separated by dots, each
//! octet in its shortest form (`0` to `255`, no leading zero). A socket
//! address is an address, a colon, and a port in decimal; the port may carry
//! leading zeros. Reading is the inverse of writing: a text is read as the
//! one address that is written that way, or as none.

use vstd::prelude::*;
use vstd::string::StrSliceExecFns;
use crate::ipv6::{Ipv6Address, SocketAddressV6, ipv6_of, socket_v6_of};
use crate::text::{all_digits, decimal_text, decimal_value, is_digit, push_decimal};
use crate::text::{
    lemma_decimal_text, lemma_decimal_text_length, lemma_decimal_value_grows, lemma_shortest_form,
};

verus! {

/// An IPv4 address, held as its four octets in network order.
#[derive(Clone, Copy, Debug, PartialEq, Eq, Structural, Hash)]
pub struct Ipv4Address {
    pub a: u8,
    pub b: u8,
    pub c: u8,
    pub d: u8,
}

/// An IP address of either family.
#[derive(Clone, Copy, Debug, PartialEq, Eq, Structural, Hash)]
pub enum IpAddress {
    V4(Ipv4Address),
    V6(Ipv6Address),
}

/// A socket address of either family.
#[derive(Clone, Copy, Debug, PartialEq, Eq, Structural, Hash)]
pub enum SocketAddress {
    V4(SocketAddressV4),
    V6(SocketAddressV6),
}

/// The address that `s` writes, if it writes one of either family.
pub open spec fn ip_of(s: Seq<char>) -> Option<IpAddress> {
    match ipv4_of(s) {
        Some(ip) => Some(IpAddress::V4(ip)),
        None => match ipv6_of(s) {
            Some(ip) => Some(IpAddress::V6(ip)),
            None => None,
        },
    }
}

/// The socket address that `s` writes, if it writes one of either family:
/// `a.b.c.d:port`, or `[address]:port` for IPv6.
pub open spec fn socket_of(s: Seq<char>) -> Option<SocketAddress> {
    match socket_v4_of(s) {
        Some(addr) => Some(SocketAddress::V4(addr)),
        None => match socket_v6_of(s) {
            Some(addr) => Some(SocketAddress::V6(addr)),
            None => None,
        },
    }
}

/// The address `ip` with the port `port`, in no scope.
pub open spec fn with_port(ip: IpAddress, port: u16) -> SocketAddress {
    match ip {
        IpAddress::V4(ip) => SocketAddress::V4(SocketAddressV4 { ip, port }),
        IpAddress::V6(ip) => SocketAddress::V6(SocketAddressV6 { ip, port, scope_id: 0 }),
    }
}

impl IpAddress {
    /// Reads an address of either family.
    pub fn parse(text: &str) -> (r: Option<IpAddress>)
        ensures
            r == ip_of(text@),
    {
        match Ipv4Address::parse(text) {
            Some(ip) => Some(IpAddress::V4(ip)),
            None => match Ipv6Address::parse(text) {
                Some(ip) => Some(IpAddress::V6(ip)),
                None => None,
            },
        }
    }
}

impl SocketAddress {
    /// The address `ip` with the port `port`, in no scope.
    pub fn new(ip: IpAddress, port: u16) -> (addr: SocketAddress)
        ensures
            addr == with_port(ip, port),
    {
        match ip {
            IpAddress::V4(ip) => SocketAddress::V4(SocketAddressV4 { ip, port }),
            IpAddress::V6(ip) => SocketAddress::V6(SocketAddressV6 { ip, port, scope_id: 0 }),
        }
    }

    /// The IPv4 address `ip` with the port `port`.
    pub fn v4(ip: Ipv4Address, port: u16) -> (addr: SocketAddress)
        ensures
            addr == with_port(IpAddress::V4(ip), port),
    {
        SocketAddress::V4(SocketAddressV4 { ip, port })
    }

    /// The IPv6 address `ip` with the port `port`, in no scope.
    pub fn v6(ip: Ipv6Address, port: u16) -> (addr: SocketAddress)
        ensures
            addr == with_port(IpAddress::V6(ip), port),
    {
        SocketAddress::V6(SocketAddressV6 { ip, port, scope_id: 0 })
    }

    /// The address without its port.
    pub fn ip(&self) -> (ip: IpAddress)
        ensures
            ip == match *self {
                SocketAddress::V4(addr) => IpAddress::V4(addr.ip),
                SocketAddress::V6(addr) => IpAddress::V6(addr.ip),
            },
    {
        match self {
            SocketAddress::V4(addr) => IpAddress::V4(addr.ip),
            SocketAddress::V6(addr) => IpAddress::V6(addr.ip),
        }
    }

    /// The port.
    pub fn port(&self) -> (port: u16)
        ensures
            port == match *self {
                SocketAddress::V4(addr) => addr.port,
                SocketAddress::V6(addr) => addr.port,
            },
    {
        match self {
            SocketAddress::V4(addr) => addr.port,
            SocketAddress::V6(addr) => addr.port,
        }
    }

    /// Reads a socket address of either family.
    pub fn parse(text: &str) -> (r: Option<SocketAddress>)
        ensures
            r == socket_of(text@),
    {
        match SocketAddressV4::parse(text) {
            Some(addr) => Some(SocketAddress::V4(addr)),
            None => match SocketAddressV6::parse(text) {
                Some(addr) => Some(SocketAddress::V6(addr)),
                None => None,
            },
        }
    }
}

/// An IPv4 address together with a port.
#[derive(Clone, Copy, Debug, PartialEq, Eq, Structural, Hash)]
pub struct SocketAddressV4 {
    pub ip: Ipv4Address,
    pub port: u16,
}

impl Ipv4Address {
    /// The address `a.b.c.d`.
    pub fn new(a: u8, b: u8, c: u8, d: u8) -> (ip: Ipv4Address)
        ensures
            ip == (Ipv4Address { a, b, c, d }),
    {
        Ipv4Address { a, b, c, d }
    }

    /// How the address is written: `a.b.c.d`.
    pub open spec fn text(self) -> Seq<char> {
        decimal_text(self.a as nat) + seq!['.'] + decimal_text(self.b as nat) + seq!['.']
            + decimal_text(self.c as nat) + seq!['.'] + decimal_text(self.d as nat)
    }

    /// Writes the address.
    pub fn to_text(&self) -> (s: String)
        ensures
            s@ == self.text(),
    {
        let mut s = String::new();
        push_decimal(&mut s, self.a as u32);
        s.push('.');
        push_decimal(&mut s, self.b as u32);
        s.push('.');
        push_decimal(&mut s, self.c as u32);
        s.push('.');
        push_decimal(&mut s, self.d as u32);
        assert(s@ =~= self.text());
        s
    }

    /// Reads an address: `Some(ip)` exactly where `text` is how `ip` is written.
    pub fn parse(text: &str) -> (r: Option<Ipv4Address>)
        ensures
            r == ipv4_of(text@),
    {
        if !text.is_ascii() {
            proof {
                assert forall|ip: Ipv4Address| ip.text() != text@ by {
                    lemma_ipv4_text_ascii(ip);
                }
            }
            return None;
        }
        let n = char_count(text);
        match read_ipv4(text) {
            Some((ip, to)) => {
                if to == n {
                    proof {
                        assert(text@.subrange(0, to as int) =~= text@);
                        law_ipv4_text_injective(ip, choose|x: Ipv4Address| x.text() == text@);
                    }
                    Some(ip)
                } else {
                    proof {
                        assert forall|x: Ipv4Address| x.text() != text@ by {
                            if x.text() == text@ {
                                assert(text@.subrange(0, n as int) =~= text@);
                                lemma_ipv4_end_unique(text@, ip, to as int, x, n as int);
                            }
                        }
                    }
                    None
                }
            },
            None => {
                proof {
                    assert forall|x: Ipv4Address| x.text() != text@ by {
                        if x.text() == text@ {
                            assert(text@.subrange(0, n as int) =~= text@);
                            assert(ipv4_ends_at(text@, x, n as int));
                        }
                    }
                }
                None
            },
        }
    }
}

impl SocketAddressV4 {
    /// The address `ip:port`.
    pub fn new(ip: Ipv4Address, port: u16) -> (addr: SocketAddressV4)
        ensures
            addr == (SocketAddressV4 { ip, port }),
    {
        SocketAddressV4 { ip, port }
    }

    /// How the address is written in its shortest form: `a.b.c.d:port`.
    pub open spec fn text(self) -> Seq<char> {
        self.ip.text() + seq![':'] + decimal_text(self.port as nat)
    }

    /// Whether `s` is one of the ways to write the address: the IP address,
    /// a colon, and digits whose value is the port.
    pub open spec fn written_as(self, s: Seq<char>) -> bool {
        let head = self.ip.text() + seq![':'];
        &&& head.is_prefix_of(s)
        &&& is_port_text(s.skip(head.len() as int))
        &&& decimal_value(s.skip(head.len() as int)) == self.port
    }

    /// Writes the address in its shortest form.
    pub fn to_text(&self) -> (s: String)
        ensures
            s@ == self.text(),
    {
        let mut s = self.ip.to_text();
        s.push(':');
        push_decimal(&mut s, self.port as u32);
        s
    }

    /// Reads a socket address: `Some(addr)` exactly where `text` is a way to
    /// write `addr`.
    pub fn parse(text: &str) -> (r: Option<SocketAddressV4>)
        ensures
            r == socket_v4_of(text@),
    {
        if !text.is_ascii() {
            proof {
                assert forall|x: SocketAddressV4| !x.written_as(text@) by {
                    if x.written_as(text@) {
                        lemma_written_ascii(x, text@);
                    }
                }
            }
            return None;
        }
        let n = char_count(text);
        let ghost s = text@;
        match read_ipv4(text) {
            Some((ip, to)) => {
                if to < n && char_at(text, to) == ':' {
                    match read_port(text, to + 1) {
                        Some(port) => {
                            let addr = SocketAddressV4 { ip, port };
                            proof {
                                lemma_written_from_parts(s, addr, to as int);
                                law_written_determines(
                                    s,
                                    addr,
                                    choose|x: SocketAddressV4| x.written_as(s),
                                );
                            }
                            Some(addr)
                        },
                        None => {
                            proof {
                                assert forall|x: SocketAddressV4| !x.written_as(s) by {
                                    if x.written_as(s) {
                                        lemma_written_parts(s, x);
                                        let m = x.ip.text().len() as int;
                                        lemma_ipv4_end_unique(s, ip, to as int, x.ip, m);
                                        assert(s.skip(m + 1) =~= s.subrange(to as int + 1, n as int));
                                    }
                                }
                            }
                            None
                        },
                    }
                } else {
                    proof {
                        assert forall|x: SocketAddressV4| !x.written_as(s) by {
                            if x.written_as(s) {
                                lemma_written_parts(s, x);
                                let m = x.ip.text().len() as int;
                                lemma_ipv4_end_unique(s, ip, to as int, x.ip, m);
                            }
                        }
                    }
                    None
                }
            },
            None => {
                proof {
                    assert forall|x: SocketAddressV4| !x.written_as(s) by {
                        if x.written_as(s) {
                            lemma_written_parts(s, x);
                            assert(ipv4_ends_at(s, x.ip, x.ip.text().len() as int));
                        }
                    }
                }
                None
            },
        }
    }
}

/// The address that `s` writes, if it writes one.
pub open spec fn ipv4_of(s: Seq<char>) -> Option<Ipv4Address> {
    if exists|ip: Ipv4Address| ip.text() == s {
        Some(choose|ip: Ipv4Address| ip.text() == s)
    } else {
        None
    }
}

/// The socket address that `s` writes, if it writes one.
pub open spec fn socket_v4_of(s: Seq<char>) -> Option<SocketAddressV4> {
    if exists|addr: SocketAddressV4| addr.written_as(s) {
        Some(choose|addr: SocketAddressV4| addr.written_as(s))
    } else {
        None
    }
}

/// Whether `s` is a port in decimal: at least one digit, digits only, and a
/// value that fits sixteen bits. Leading zeros are allowed.
pub open spec fn is_port_text(s: Seq<char>) -> bool {
    &&& s.len() >= 1
    &&& all_digits(s)
    &&& decimal_value(s) <= u16::MAX
}

/// Two addresses that are written the same way are the same address.
pub proof fn law_ipv4_text_injective(x: Ipv4Address, y: Ipv4Address)
    requires
        x.text() == y.text(),
    ensures
        x == y,
{
    let s = x.text();
    assert(s.subrange(0, s.len() as int) =~= s);
    assert(ipv4_ends_at(s, x, s.len() as int));
    assert(ipv4_ends_at(s, y, s.len() as int));
    lemma_ipv4_end_unique(s, x, s.len() as int, y, s.len() as int);
}

/// Reading what was written gives the address back.
pub proof fn law_ipv4_parse_inverts_text(ip: Ipv4Address)
    ensures
        ipv4_of(ip.text()) == Some(ip),
{
    law_ipv4_text_injective(ip, choose|x: Ipv4Address| x.text() == ip.text());
}

/// A text writes at most one socket address.
pub proof fn law_written_determines(s: Seq<char>, x: SocketAddressV4, y: SocketAddressV4)
    requires
        x.written_as(s),
        y.written_as(s),
    ensures
        x == y,
{
    lemma_written_parts(s, x);
    lemma_written_parts(s, y);
    lemma_ipv4_end_unique(s, x.ip, x.ip.text().len() as int, y.ip, y.ip.text().len() as int);
}

/// Reading the shortest form of a socket address gives the address back.
pub proof fn law_socket_parse_inverts_text(addr: SocketAddressV4)
    ensures
        addr.written_as(addr.text()),
        socket_v4_of(addr.text()) == Some(addr),
{
    let s = addr.text();
    let head = addr.ip.text() + seq![':'];
    let port = decimal_text(addr.port as nat);
    lemma_decimal_text(addr.port as nat);
    assert(s =~= head + port);
    assert(s.skip(head.len() as int) =~= port);
    assert(addr.written_as(s));
    law_written_determines(s, addr, choose|x: SocketAddressV4| x.written_as(s));
}

/// No text writes both an address and a socket address.
pub proof fn law_ipv4_text_is_no_socket_text(ip: Ipv4Address, addr: SocketAddressV4)
    ensures
        !addr.written_as(ip.text()),
{
    let s = ip.text();
    if addr.written_as(s) {
        lemma_written_parts(s, addr);
        assert(s.subrange(0, s.len() as int) =~= s);
        assert(ipv4_ends_at(s, ip, s.len() as int));
        lemma_ipv4_end_unique(s, ip, s.len() as int, addr.ip, addr.ip.text().len() as int);
    }
}

/// Whether `ip`, as written, stands at the start of `s` and ends at `to`:
/// what follows is no digit.
spec fn ipv4_ends_at(s: Seq<char>, ip: Ipv4Address, to: int) -> bool {
    &&& 0 <= to <= s.len()
    &&& s.subrange(0, to) == ip.text()
    &&& (to < s.len() ==> !is_digit(s[to]))
}

/// Whether the octet `v`, as written, stands in `s` from `from` to `to`,
/// and what follows is no digit.
spec fn octet_ends_at(s: Seq<char>, from: int, v: u8, to: int) -> bool {
    &&& 0 <= from <= to <= s.len()
    &&& s.subrange(from, to) == decimal_text(v as nat)
    &&& (to < s.len() ==> !is_digit(s[to]))
}

/// The positions of the parts of a written address.
proof fn lemma_ipv4_layout(ip: Ipv4Address)
    ensures
        ({
            let t = ip.text();
            let la = decimal_text(ip.a as nat).len() as int;
            let lb = decimal_text(ip.b as nat).len() as int;
            let lc = decimal_text(ip.c as nat).len() as int;
            let ld = decimal_text(ip.d as nat).len() as int;
            &&& t.len() == la + lb + lc + ld + 3
            &&& t.subrange(0, la) == decimal_text(ip.a as nat)
            &&& t[la] == '.'
            &&& t.subrange(la + 1, la + 1 + lb) == decimal_text(ip.b as nat)
            &&& t[la + 1 + lb] == '.'
            &&& t.subrange(la + lb + 2, la + lb + 2 + lc) == decimal_text(ip.c as nat)
            &&& t[la + lb + 2 + lc] == '.'
            &&& t.subrange(la + lb + lc + 3, t.len() as int) == decimal_text(ip.d as nat)
            &&& la >= 1 && lb >= 1 && lc >= 1 && ld >= 1
        }),
{
    let t = ip.text();
    let a = decimal_text(ip.a as nat);
    let b = decimal_text(ip.b as nat);
    let c = decimal_text(ip.c as nat);
    let d = decimal_text(ip.d as nat);
    lemma_decimal_text(ip.a as nat);
    lemma_decimal_text(ip.b as nat);
    lemma_decimal_text(ip.c as nat);
    lemma_decimal_text(ip.d as nat);
    let la = a.len() as int;
    let lb = b.len() as int;
    let lc = c.len() as int;
    assert(t.subrange(0, la) =~= a);
    assert(t.subrange(la + 1, la + 1 + lb) =~= b);
    assert(t.subrange(la + lb + 2, la + lb + 2 + lc) =~= c);
    assert(t.subrange(la + lb + lc + 3, t.len() as int) =~= d);
}

/// A written address holds ASCII characters only.
proof fn lemma_ipv4_text_ascii(ip: Ipv4Address)
    ensures
        vstd::utf8::is_ascii_chars(ip.text()),
{
    lemma_decimal_text(ip.a as nat);
    lemma_decimal_text(ip.b as nat);
    lemma_decimal_text(ip.c as nat);
    lemma_decimal_text(ip.d as nat);
    let t = ip.text();
    assert forall|i: int| 0 <= i < t.len() implies '\0' <= #[trigger] t[i] <= '\u{7f}' by {
        assert(is_digit(t[i]) || t[i] == '.');
    }
}

/// A text that writes a socket address holds ASCII characters only.
proof fn lemma_written_ascii(addr: SocketAddressV4, s: Seq<char>)
    requires
        addr.written_as(s),
    ensures
        vstd::utf8::is_ascii_chars(s),
{
    lemma_ipv4_text_ascii(addr.ip);
    let head = addr.ip.text() + seq![':'];
    let m = head.len() as int;
    assert forall|i: int| 0 <= i < s.len() implies '\0' <= #[trigger] s[i] <= '\u{7f}' by {
        if i < m {
            assert(s[i] == head[i]);
            if i < m - 1 {
                assert(head[i] == addr.ip.text()[i]);
            }
        } else {
            assert(s[i] == s.skip(m)[i - m]);
            assert(is_digit(s.skip(m)[i - m]));
        }
    }
}

/// What `written_as` says, position by position.
proof fn lemma_written_parts(s: Seq<char>, addr: SocketAddressV4)
    requires
        addr.written_as(s),
    ensures
        ({
            let m = addr.ip.text().len() as int;
            &&& m < s.len()
            &&& ipv4_ends_at(s, addr.ip, m)
            &&& s[m] == ':'
            &&& is_port_text(s.skip(m + 1))
            &&& decimal_value(s.skip(m + 1)) == addr.port
        }),
{
    let head = addr.ip.text() + seq![':'];
    let m = addr.ip.text().len() as int;
    assert(head.len() == m + 1);
    assert(s.subrange(0, m + 1) == head);
    assert(s.subrange(0, m) =~= addr.ip.text()) by {
        assert forall|i: int| 0 <= i < m implies s.subrange(0, m)[i] == addr.ip.text()[i] by {
            assert(s.subrange(0, m + 1)[i] == head[i]);
        }
    }
    assert(s[m] == ':') by {
        assert(s.subrange(0, m + 1)[m] == head[m]);
    }
}

/// From the parts that the reader found to `written_as`.
proof fn lemma_written_from_parts(s: Seq<char>, addr: SocketAddressV4, m: int)
    requires
        0 <= m < s.len(),
        s.subrange(0, m) == addr.ip.text(),
        s[m] == ':',
        is_port_text(s.subrange(m + 1, s.len() as int)),
        decimal_value(s.subrange(m + 1, s.len() as int)) == addr.port,
    ensures
        addr.written_as(s),
{
    let head = addr.ip.text() + seq![':'];
    assert(head.len() == m + 1);
    assert(s.subrange(0, m + 1) =~= head) by {
        assert forall|i: int| 0 <= i < m + 1 implies s.subrange(0, m + 1)[i] == head[i] by {
            if i < m {
                assert(s.subrange(0, m)[i] == addr.ip.text()[i]);
            }
        }
    }
    assert(s.skip(m + 1) =~= s.subrange(m + 1, s.len() as int));
}

/// A run of digits that is followed by no digit ends in one place only.
proof fn lemma_octet_end_unique(s: Seq<char>, from: int, v: u8, to: int, w: u8, end: int)
    requires
        octet_ends_at(s, from, v, to),
        octet_ends_at(s, from, w, end),
    ensures
        to == end,
        v == w,
{
    lemma_decimal_text(v as nat);
    lemma_decimal_text(w as nat);
    let x = s.subrange(from, to);
    let y = s.subrange(from, end);
    if to < end {
        assert(is_digit(y[to - from]));
        assert(y[to - from] == s[to]);
    }
    if end < to {
        assert(is_digit(x[end - from]));
        assert(x[end - from] == s[end]);
    }
}

/// An address at the start of a text, followed by no digit, ends in one
/// place only, and is one address only.
proof fn lemma_ipv4_end_unique(s: Seq<char>, x: Ipv4Address, to: int, y: Ipv4Address, end: int)
    requires
        ipv4_ends_at(s, x, to),
        ipv4_ends_at(s, y, end),
    ensures
        to == end,
        x == y,
{
    lemma_ipv4_layout(x);
    lemma_ipv4_layout(y);
    let tx = x.text();
    let ty = y.text();
    assert forall|i: int| 0 <= i < to implies s[i] == #[trigger] tx[i] by {
        assert(s.subrange(0, to)[i] == tx[i]);
    }
    assert forall|i: int| 0 <= i < end implies s[i] == #[trigger] ty[i] by {
        assert(s.subrange(0, end)[i] == ty[i]);
    }
    let xa = decimal_text(x.a as nat).len() as int;
    let xb = decimal_text(x.b as nat).len() as int;
    let xc = decimal_text(x.c as nat).len() as int;
    let ya = decimal_text(y.a as nat).len() as int;
    let yb = decimal_text(y.b as nat).len() as int;
    let yc = decimal_text(y.c as nat).len() as int;
    assert(s.subrange(0, xa) =~= tx.subrange(0, xa));
    assert(s.subrange(0, ya) =~= ty.subrange(0, ya));
    assert(s[xa] == tx[xa]);
    assert(s[ya] == ty[ya]);
    lemma_octet_end_unique(s, 0, x.a, xa, y.a, ya);
    let p = xa + 1;
    assert(s.subrange(p, p + xb) =~= tx.subrange(p, p + xb));
    assert(s.subrange(p, p + yb) =~= ty.subrange(p, p + yb));
    assert(s[p + xb] == tx[p + xb]);
    assert(s[p + yb] == ty[p + yb]);
    lemma_octet_end_unique(s, p, x.b, p + xb, y.b, p + yb);
    let q = p + xb + 1;
    assert(s.subrange(q, q + xc) =~= tx.subrange(q, q + xc));
    assert(s.subrange(q, q + yc) =~= ty.subrange(q, q + yc));
    assert(s[q + xc] == tx[q + xc]);
    assert(s[q + yc] == ty[q + yc]);
    lemma_octet_end_unique(s, q, x.c, q + xc, y.c, q + yc);
    let r = q + xc + 1;
    assert(s.subrange(r, to) =~= tx.subrange(r, tx.len() as int));
    assert(s.subrange(r, end) =~= ty.subrange(r, ty.len() as int));
    lemma_octet_end_unique(s, r, x.d, to, y.d, end);
}

/// The number of characters of ASCII text.
fn char_count(text: &str) -> (n: usize)
    requires
        text.is_ascii(),
    ensures
        n == text@.len(),
{
    proof {
        vstd::string::is_ascii_spec_bytes(text);
    }
    text.as_bytes().len()
}

/// The character at `i` in ASCII text.
fn char_at(text: &str, i: usize) -> (c: char)
    requires
        text.is_ascii(),
        i < text@.len(),
    ensures
        c == text@[i as int],
{
    let b = text.get_ascii(i);
    proof {
        let x = text@[i as int];
        assert('\0' <= x <= '\u{7f}');
        assert(x as u8 == b);
    }
    b as char
}

/// Reads digits from `from` on and stops at the first character that is none.
fn read_digits(text: &str, from: usize) -> (to: usize)
    requires
        text.is_ascii(),
        from <= text@.len(),
    ensures
        from <= to <= text@.len(),
        all_digits(text@.subrange(from as int, to as int)),
        to < text@.len() ==> !is_digit(text@[to as int]),
{
    let n = char_count(text);
    let mut to = from;
    while to < n
        invariant
            text.is_ascii(),
            n == text@.len(),
            from <= to <= n,
            all_digits(text@.subrange(from as int, to as int)),
        ensures
            from <= to <= n,
            all_digits(text@.subrange(from as int, to as int)),
            to < n ==> !is_digit(text@[to as int]),
        decreases n - to,
    {
        let c = char_at(text, to);
        if !(c >= '0' && c <= '9') {
            break;
        }
        proof {
            let before = text@.subrange(from as int, to as int);
            let after = text@.subrange(from as int, to as int + 1);
            assert forall|i: int| 0 <= i < after.len() implies is_digit(#[trigger] after[i]) by {
                if i < before.len() {
                    assert(after[i] == before[i]);
                }
            }
        }
        to += 1;
    }
    to
}

/// The value of the digits of `text` from `from` to `to`, where it is at
/// most `limit`.
fn read_value(text: &str, from: usize, to: usize, limit: u32) -> (r: Option<u32>)
    requires
        text.is_ascii(),
        from <= to <= text@.len(),
        all_digits(text@.subrange(from as int, to as int)),
        limit <= 0xffff,
    ensures
        r matches Some(v) ==> v == decimal_value(text@.subrange(from as int, to as int)) && v
            <= limit,
        r is None ==> decimal_value(text@.subrange(from as int, to as int)) > limit,
{
    let ghost run = text@.subrange(from as int, to as int);
    let mut value: u32 = 0;
    let mut i = from;
    while i < to
        invariant
            text.is_ascii(),
            from <= i <= to <= text@.len(),
            run == text@.subrange(from as int, to as int),
            all_digits(run),
            limit <= 0xffff,
            value <= limit,
            value == decimal_value(run.subrange(0, i - from)),
        decreases to - i,
    {
        let c = char_at(text, i);
        proof {
            assert(c == run[i - from]);
            assert(is_digit(c));
            let next = run.subrange(0, i - from + 1);
            assert(next.drop_last() =~= run.subrange(0, i - from));
            assert(next.last() == c);
        }
        let digit = (c as u32) - 48;
        value = value * 10 + digit;
        if value > limit {
            proof {
                lemma_decimal_value_grows(run, i - from + 1);
            }
            return None;
        }
        i += 1;
    }
    proof {
        assert(run.subrange(0, to - from) =~= run);
    }
    Some(value)
}

/// Reads one octet at `from`: its value and where it ends.
fn read_octet(text: &str, from: usize) -> (r: Option<(u8, usize)>)
    requires
        text.is_ascii(),
        from <= text@.len(),
    ensures
        r matches Some((v, to)) ==> octet_ends_at(text@, from as int, v, to as int),
        r is None ==> forall|v: u8, to: int| !octet_ends_at(text@, from as int, v, to),
{
    let ghost s = text@;
    let to = read_digits(text, from);
    let ghost run = s.subrange(from as int, to as int);
    proof {
        assert forall|v: u8, end: int| octet_ends_at(s, from as int, v, end) implies end == to
            && run == decimal_text(v as nat) by {
            lemma_decimal_text(v as nat);
            let y = s.subrange(from as int, end);
            if to < end {
                assert(is_digit(y[to - from]));
                assert(y[to - from] == s[to as int]);
            }
            if end < to {
                assert(is_digit(run[end - from]));
                assert(run[end - from] == s[end]);
            }
        }
    }
    let len = to - from;
    if len == 0 || len > 3 {
        proof {
            assert forall|v: u8, end: int| !octet_ends_at(s, from as int, v, end) by {
                lemma_decimal_text(v as nat);
                lemma_decimal_text_length(v as nat);
            }
        }
        return None;
    }
    if len > 1 && char_at(text, from) == '0' {
        proof {
            assert forall|v: u8, end: int| !octet_ends_at(s, from as int, v, end) by {
                lemma_decimal_text(v as nat);
                assert(run[0] == s[from as int]);
            }
        }
        return None;
    }
    match read_value(text, from, to, 255) {
        Some(value) => {
            proof {
                assert(run[0] == s[from as int]);
                lemma_shortest_form(run);
            }
            Some((value as u8, to))
        },
        None => {
            proof {
                assert forall|v: u8, end: int| !octet_ends_at(s, from as int, v, end) by {
                    lemma_decimal_text(v as nat);
                }
            }
            None
        },
    }
}

/// Reads an address at the start of `text`: the address and where it ends.
fn read_ipv4(text: &str) -> (r: Option<(Ipv4Address, usize)>)
    requires
        text.is_ascii(),
    ensures
        r matches Some((ip, to)) ==> ipv4_ends_at(text@, ip, to as int),
        r is None ==> forall|ip: Ipv4Address, to: int| !ipv4_ends_at(text@, ip, to),
{
    let ghost s = text@;
    let n = char_count(text);
    proof {
        // Where an address stands at the start of the text, its four octets
        // stand at the places that its layout gives.
        assert forall|x: Ipv4Address, end: int| ipv4_ends_at(s, x, end) implies ({
            let la = decimal_text(x.a as nat).len() as int;
            let lb = decimal_text(x.b as nat).len() as int;
            let lc = decimal_text(x.c as nat).len() as int;
            &&& octet_ends_at(s, 0, x.a, la)
            &&& s[la] == '.'
            &&& octet_ends_at(s, la + 1, x.b, la + 1 + lb)
            &&& s[la + 1 + lb] == '.'
            &&& octet_ends_at(s, la + lb + 2, x.c, la + lb + 2 + lc)
            &&& s[la + lb + 2 + lc] == '.'
            &&& octet_ends_at(s, la + lb + lc + 3, x.d, end)
            &&& la + 1 + lb < end && la + lb + 2 + lc < end
        }) by {
            lemma_ipv4_layout(x);
            let t = x.text();
            let la = decimal_text(x.a as nat).len() as int;
            let lb = decimal_text(x.b as nat).len() as int;
            let lc = decimal_text(x.c as nat).len() as int;
            assert forall|i: int| 0 <= i < end implies s[i] == #[trigger] t[i] by {
                assert(s.subrange(0, end)[i] == t[i]);
            }
            assert(s.subrange(0, la) =~= t.subrange(0, la));
            assert(s.subrange(la + 1, la + 1 + lb) =~= t.subrange(la + 1, la + 1 + lb));
            assert(s.subrange(la + lb + 2, la + lb + 2 + lc) =~= t.subrange(
                la + lb + 2,
                la + lb + 2 + lc,
            ));
            assert(s.subrange(la + lb + lc + 3, end) =~= t.subrange(
                la + lb + lc + 3,
                t.len() as int,
            ));
        }
    }
    let (a, end_a) = match read_octet(text, 0) {
        Some(found) => found,
        None => {
            return None;
        },
    };
    proof {
        assert forall|x: Ipv4Address, end: int| ipv4_ends_at(s, x, end) implies x.a == a
            && decimal_text(x.a as nat).len() == end_a by {
            lemma_octet_end_unique(
                s,
                0,
                a,
                end_a as int,
                x.a,
                decimal_text(x.a as nat).len() as int,
            );
        }
    }
    if !(end_a < n && char_at(text, end_a) == '.') {
        return None;
    }
    let (b, end_b) = match read_octet(text, end_a + 1) {
        Some(found) => found,
        None => {
            return None;
        },
    };
    proof {
        assert forall|x: Ipv4Address, end: int| ipv4_ends_at(s, x, end) implies x.b == b && end_a
            + 1 + decimal_text(x.b as nat).len() == end_b by {
            lemma_octet_end_unique(
                s,
                end_a + 1,
                b,
                end_b as int,
                x.b,
                end_a + 1 + decimal_text(x.b as nat).len(),
            );
        }
    }
    if !(end_b < n && char_at(text, end_b) == '.') {
        return None;
    }
    let (c, end_c) = match read_octet(text, end_b + 1) {
        Some(found) => found,
        None => {
            return None;
        },
    };
    proof {
        assert forall|x: Ipv4Address, end: int| ipv4_ends_at(s, x, end) implies x.c == c && end_b
            + 1 + decimal_text(x.c as nat).len() == end_c by {
            lemma_octet_end_unique(
                s,
                end_b + 1,
                c,
                end_c as int,
                x.c,
                end_b + 1 + decimal_text(x.c as nat).len(),
            );
        }
    }
    if !(end_c < n && char_at(text, end_c) == '.') {
        return None;
    }
    let (d, end_d) = match read_octet(text, end_c + 1) {
        Some(found) => found,
        None => {
            return None;
        },
    };
    let ip = Ipv4Address { a, b, c, d };
    proof {
        let t = ip.text();
        lemma_ipv4_layout(ip);
        let got = s.subrange(0, end_d as int);
        assert(got.len() == t.len());
        assert forall|i: int| 0 <= i < got.len() implies got[i] == t[i] by {
            if i < end_a {
                assert(s.subrange(0, end_a as int)[i] == t.subrange(0, end_a as int)[i]);
            } else if i == end_a {
            } else if i < end_b {
                assert(s.subrange(end_a + 1, end_b as int)[i - end_a - 1] == t.subrange(
                    end_a + 1,
                    end_b as int,
                )[i - end_a - 1]);
            } else if i == end_b {
            } else if i < end_c {
                assert(s.subrange(end_b + 1, end_c as int)[i - end_b - 1] == t.subrange(
                    end_b + 1,
                    end_c as int,
                )[i - end_b - 1]);
            } else if i == end_c {
            } else {
                assert(s.subrange(end_c + 1, end_d as int)[i - end_c - 1] == t.subrange(
                    end_c + 1,
                    t.len() as int,
                )[i - end_c - 1]);
            }
        }
        assert(got =~= t);
    }
    Some((ip, end_d))
}

/// Reads a port that fills `text` from `from` to its end.
fn read_port(text: &str, from: usize) -> (r: Option<u16>)
    requires
        text.is_ascii(),
        from <= text@.len(),
    ensures
        ({
            let rest = text@.subrange(from as int, text@.len() as int);
            match r {
                Some(port) => is_port_text(rest) && decimal_value(rest) == port,
                None => !is_port_text(rest),
            }
        }),
{
    let n = char_count(text);
    let to = read_digits(text, from);
    let ghost rest = text@.subrange(from as int, n as int);
    if to != n {
        proof {
            assert(rest[to - from] == text@[to as int]);
        }
        return None;
    }
    if to == from {
        return None;
    }
    match read_value(text, from, to, 0xffff) {
        Some(value) => Some(value as u16),
        None => None,
    }
}

} // verus!
