//! Backend addresses as the balancer routes to them.

use vstd::prelude::*;
use crate::address::{IpAddress, Ipv4Address};

verus! {

/// The host part of a backend address: a name to be resolved, or an IP literal.
#[derive(Debug, PartialEq, Eq, Hash)]
pub enum HostOrIp {
    Host(String),
    Ip(IpAddress),
}

/// What a [`HostOrIp`] stands for in contracts.
pub enum HostView {
    Host(Seq<char>),
    Ip(IpAddress),
}

impl View for HostOrIp {
    type V = HostView;

    open spec fn view(&self) -> HostView {
        match self {
            HostOrIp::Host(name) => HostView::Host(name@),
            HostOrIp::Ip(ip) => HostView::Ip(*ip),
        }
    }
}

impl Clone for HostOrIp {
    fn clone(&self) -> (copy: HostOrIp)
        ensures
            copy@ == self@,
    {
        match self {
            HostOrIp::Host(name) => HostOrIp::Host(name.clone()),
            HostOrIp::Ip(ip) => HostOrIp::Ip(*ip),
        }
    }
}

impl HostOrIp {
    /// Whether two hosts are the same: equal names, or equal addresses.
    pub fn same(&self, other: &HostOrIp) -> (eq: bool)
        ensures
            eq == (self@ == other@),
    {
        match self {
            HostOrIp::Host(x) => match other {
                HostOrIp::Host(y) => *x == *y,
                HostOrIp::Ip(_) => false,
            },
            HostOrIp::Ip(x) => match other {
                HostOrIp::Host(_) => false,
                HostOrIp::Ip(y) => *x == *y,
            },
        }
    }
}

/// A resolved backend address. Two targets are the same backend exactly when
/// host and port both agree.
#[derive(Debug, PartialEq, Eq, Hash)]
pub struct ConnectionTarget {
    pub host: HostOrIp,
    pub port: u16,
}

/// What a [`ConnectionTarget`] stands for in contracts: its identity.
pub struct TargetView {
    pub host: HostView,
    pub port: u16,
}

impl View for ConnectionTarget {
    type V = TargetView;

    open spec fn view(&self) -> TargetView {
        TargetView { host: self.host@, port: self.port }
    }
}

impl Clone for ConnectionTarget {
    fn clone(&self) -> (copy: ConnectionTarget)
        ensures
            copy@ == self@,
    {
        ConnectionTarget { host: self.host.clone(), port: self.port }
    }
}

impl ConnectionTarget {
    /// The backend at IP address `ip`, port `port`.
    pub fn from_ip(ip: IpAddress, port: u16) -> (target: ConnectionTarget)
        ensures
            target@ == (TargetView { host: HostView::Ip(ip), port }),
    {
        ConnectionTarget { host: HostOrIp::Ip(ip), port }
    }

    /// The backend at IPv4 address `ip`, port `port`.
    pub fn from_ipv4(ip: Ipv4Address, port: u16) -> (target: ConnectionTarget)
        ensures
            target@ == (TargetView { host: HostView::Ip(IpAddress::V4(ip)), port }),
    {
        ConnectionTarget { host: HostOrIp::Ip(IpAddress::V4(ip)), port }
    }

    /// The backend named `host`, port `port`.
    pub fn from_host(host: String, port: u16) -> (target: ConnectionTarget)
        ensures
            target@ == (TargetView { host: HostView::Host(host@), port }),
    {
        ConnectionTarget { host: HostOrIp::Host(host), port }
    }

    /// Identity of targets: both fields match.
    pub fn same(&self, other: &ConnectionTarget) -> (eq: bool)
        ensures
            eq == (self@ == other@),
    {
        self.port == other.port && self.host.same(&other.host)
    }
}

} // verus!
