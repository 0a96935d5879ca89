//! Discovery by DNS: every address record of one name is a backend, on the
//! port that the configuration gives.

use vstd::prelude::*;
use crate::address::{IpAddress, Ipv4Address, SocketAddress, ip_of, socket_of, with_port};
use crate::discovery::{DiscoveryError, DiscoveryMode, DiscoverySnapshot, ServiceDiscoverer};
use crate::discovery::{distinct, identities, next_sequence};
use crate::interval::{Interval, interval_of, read_interval};
use crate::json::{Field, field_text, read_text, read_unsigned, text_field, unsigned_field};
use crate::target::{ConnectionTarget, HostView, TargetView};

verus! {

/// The port that a DNS server is asked on where the configuration names none.
pub const DNS_PORT: u16 = 53;

/// The polling interval where the configuration names none, in seconds.
pub const DEFAULT_POLLING_SECS: u64 = 10;

/// The options of the DNS strategy.
#[derive(Debug)]
pub struct DnsDiscoveryConfig {
    /// The port that backends listen on for balancer connections.
    pub service_port: u16,
    /// The DNS server to query. `None`: the system's resolver.
    pub dns_server: Option<SocketAddress>,
    /// The name whose address records are the backends.
    pub query: String,
    /// How often to look. `None`: every ten seconds.
    pub polling_interval: Option<Interval>,
}

/// What a [`DnsDiscoveryConfig`] stands for in contracts.
pub struct DnsConfigView {
    pub service_port: u16,
    pub dns_server: Option<SocketAddress>,
    pub query: Seq<char>,
    pub polling_interval: Option<Interval>,
}

impl View for DnsDiscoveryConfig {
    type V = DnsConfigView;

    open spec fn view(&self) -> DnsConfigView {
        DnsConfigView {
            service_port: self.service_port,
            dns_server: self.dns_server,
            query: self.query@,
            polling_interval: self.polling_interval,
        }
    }
}

impl Clone for DnsDiscoveryConfig {
    fn clone(&self) -> (copy: DnsDiscoveryConfig)
        ensures
            copy@ == self@,
    {
        DnsDiscoveryConfig {
            service_port: self.service_port,
            dns_server: self.dns_server,
            query: self.query.clone(),
            polling_interval: self.polling_interval,
        }
    }
}

/// The server that the `dns_server` option `s` names. An empty option names
/// none. An IP address alone, of either family, names that address on port
/// 53. An address with a port names just that. Anything else names none.
pub open spec fn dns_server_of(s: Seq<char>) -> Option<SocketAddress> {
    if s.len() == 0 {
        None
    } else {
        match ip_of(s) {
            Some(ip) => Some(with_port(ip, DNS_PORT)),
            None => socket_of(s),
        }
    }
}

/// Reads the `dns_server` option.
pub fn deserialize_dns_server(buf: &str) -> (server: Option<SocketAddress>)
    ensures
        server == dns_server_of(buf@),
{
    if buf.is_empty() {
        return None;
    }
    match IpAddress::parse(buf) {
        Some(ip) => Some(SocketAddress::new(ip, DNS_PORT)),
        None => SocketAddress::parse(buf),
    }
}

/// The options that the configuration recognises.
#[derive(Clone, Copy, Debug, PartialEq, Eq, Structural)]
pub enum ConfigOption {
    ServicePort,
    DnsServer,
    Query,
    PollingInterval,
}

/// Why a configuration was refused.
#[derive(Clone, Copy, Debug, PartialEq, Eq, Structural)]
pub enum ConfigError {
    /// A required option is not there.
    Missing(ConfigOption),
    /// An option is there and cannot be read as what it has to be.
    Invalid(ConfigOption),
}

/// The configuration that the four options give, read as far as JSON goes:
/// the port as a number, the others as text, the interval's text already
/// taken for a span of time (`Present(None)`: text that is no span).
///
/// `service_port` and `query` are required. `dns_server` and
/// `polling_interval` may be left out, and a `null` interval counts as left
/// out. The first option that cannot be read decides the error, in the
/// order port, server, query, interval.
pub open spec fn config_of_options(
    service_port: Field<u64>,
    dns_server: Field<Seq<char>>,
    query: Field<Seq<char>>,
    polling_interval: Field<Option<Interval>>,
) -> Result<DnsConfigView, ConfigError> {
    match service_port {
        Field::Absent => Err(ConfigError::Missing(ConfigOption::ServicePort)),
        Field::Null => Err(ConfigError::Invalid(ConfigOption::ServicePort)),
        Field::Mismatch => Err(ConfigError::Invalid(ConfigOption::ServicePort)),
        Field::Present(port) => if port > u16::MAX {
            Err(ConfigError::Invalid(ConfigOption::ServicePort))
        } else if dns_server is Null || dns_server is Mismatch {
            Err(ConfigError::Invalid(ConfigOption::DnsServer))
        } else if query is Absent {
            Err(ConfigError::Missing(ConfigOption::Query))
        } else if query is Null || query is Mismatch {
            Err(ConfigError::Invalid(ConfigOption::Query))
        } else if polling_interval is Mismatch || polling_interval == Field::Present(
            None::<Interval>,
        ) {
            Err(ConfigError::Invalid(ConfigOption::PollingInterval))
        } else {
            Ok(
                DnsConfigView {
                    service_port: port as u16,
                    dns_server: match dns_server {
                        Field::Present(s) => dns_server_of(s),
                        _ => None,
                    },
                    query: query->Present_0,
                    polling_interval: match polling_interval {
                        Field::Present(interval) => interval,
                        _ => None,
                    },
                },
            )
        },
    }
}

/// The `polling_interval` member of `value`: its text, taken for a span of time.
pub open spec fn interval_field(value: serde_json::Value, key: Seq<char>) -> Field<
    Option<Interval>,
> {
    match text_field(value, key) {
        Field::Absent => Field::Absent,
        Field::Null => Field::Null,
        Field::Mismatch => Field::Mismatch,
        Field::Present(s) => Field::Present(interval_of(s)),
    }
}

/// The configuration that the JSON object `value` gives.
pub open spec fn config_of(value: serde_json::Value) -> Result<DnsConfigView, ConfigError> {
    config_of_options(
        unsigned_field(value, "service_port"@),
        text_field(value, "dns_server"@),
        text_field(value, "query"@),
        interval_field(value, "polling_interval"@),
    )
}

/// What the outcome of reading a configuration stands for in contracts.
pub open spec fn outcome_view(outcome: Result<DnsDiscoveryConfig, ConfigError>) -> Result<
    DnsConfigView,
    ConfigError,
> {
    match outcome {
        Ok(config) => Ok(config@),
        Err(e) => Err(e),
    }
}

/// A `dns_server` option that is left out says what an empty one says.
pub proof fn law_absent_server_is_empty_server(
    service_port: Field<u64>,
    query: Field<Seq<char>>,
    polling_interval: Field<Option<Interval>>,
)
    ensures
        config_of_options(service_port, Field::Absent, query, polling_interval)
            == config_of_options(
            service_port,
            Field::Present(Seq::<char>::empty()),
            query,
            polling_interval,
        ),
{
}

impl DnsDiscoveryConfig {
    /// Builds the configuration from its four options as they were read.
    pub fn from_options(
        service_port: Field<u64>,
        dns_server: Field<&str>,
        query: Field<&str>,
        polling_interval: Field<Option<Interval>>,
    ) -> (outcome: Result<DnsDiscoveryConfig, ConfigError>)
        ensures
            outcome_view(outcome) == config_of_options(
                service_port,
                field_text(dns_server),
                field_text(query),
                polling_interval,
            ),
    {
        let port: u16 = match service_port {
            Field::Absent => {
                return Err(ConfigError::Missing(ConfigOption::ServicePort));
            },
            Field::Null => {
                return Err(ConfigError::Invalid(ConfigOption::ServicePort));
            },
            Field::Mismatch => {
                return Err(ConfigError::Invalid(ConfigOption::ServicePort));
            },
            Field::Present(n) => {
                if n > 0xffff {
                    return Err(ConfigError::Invalid(ConfigOption::ServicePort));
                }
                n as u16
            },
        };
        let server: Option<SocketAddress> = match dns_server {
            Field::Absent => None,
            Field::Null => {
                return Err(ConfigError::Invalid(ConfigOption::DnsServer));
            },
            Field::Mismatch => {
                return Err(ConfigError::Invalid(ConfigOption::DnsServer));
            },
            Field::Present(s) => deserialize_dns_server(s),
        };
        let name: String = match query {
            Field::Absent => {
                return Err(ConfigError::Missing(ConfigOption::Query));
            },
            Field::Null => {
                return Err(ConfigError::Invalid(ConfigOption::Query));
            },
            Field::Mismatch => {
                return Err(ConfigError::Invalid(ConfigOption::Query));
            },
            Field::Present(s) => s.to_owned(),
        };
        let interval: Option<Interval> = match polling_interval {
            Field::Absent => None,
            Field::Null => None,
            Field::Mismatch => {
                return Err(ConfigError::Invalid(ConfigOption::PollingInterval));
            },
            Field::Present(None) => {
                return Err(ConfigError::Invalid(ConfigOption::PollingInterval));
            },
            Field::Present(Some(interval)) => Some(interval),
        };
        Ok(
            DnsDiscoveryConfig {
                service_port: port,
                dns_server: server,
                query: name,
                polling_interval: interval,
            },
        )
    }

    /// Reads the configuration from a JSON object. Members that are no
    /// option are passed over.
    pub fn from_value(value: serde_json::Value) -> (outcome: Result<
        DnsDiscoveryConfig,
        ConfigError,
    >)
        ensures
            outcome_view(outcome) == config_of(value),
    {
        let service_port = read_unsigned(&value, "service_port");
        let dns_server = read_text(&value, "dns_server");
        let query = read_text(&value, "query");
        let polling_interval = match read_text(&value, "polling_interval") {
            Field::Absent => Field::Absent,
            Field::Null => Field::Null,
            Field::Mismatch => Field::Mismatch,
            Field::Present(s) => Field::Present(read_interval(s)),
        };
        DnsDiscoveryConfig::from_options(service_port, dns_server, query, polling_interval)
    }
}

/// Which resolver a lookup goes through.
#[derive(Clone, Copy, Debug, PartialEq, Eq, Structural)]
pub enum ResolverChoice {
    /// The resolver that the system is configured with.
    System,
    /// The one name server at this address, asked over UDP.
    NameServer(SocketAddress),
}

/// Why a lookup gave no answer.
#[derive(Clone, Copy, Debug, PartialEq, Eq, Structural)]
pub enum LookupFailure {
    /// The resolver could not be set up.
    Resolver,
    /// The query failed.
    Query,
}

/// What one lookup of address records came to.
#[derive(Debug, PartialEq, Eq)]
pub enum LookupAnswer {
    /// The records that the server sent.
    Records(Vec<Ipv4Address>),
    /// The server answered that the name has no such record.
    NoRecords,
    /// No answer.
    Failed(LookupFailure),
}

/// The addresses that the answer holds: none where the name has no record,
/// and no list at all where the lookup failed.
pub open spec fn answered(answer: LookupAnswer) -> Option<Seq<Ipv4Address>> {
    match answer {
        LookupAnswer::Records(addresses) => Some(addresses@),
        LookupAnswer::NoRecords => Some(Seq::empty()),
        LookupAnswer::Failed(_) => None,
    }
}

/// The backends that the address records `addresses` stand for on `port`,
/// in the order of the records.
pub open spec fn backends(addresses: Seq<Ipv4Address>, port: u16) -> Seq<TargetView> {
    addresses.map_values(
        |ip: Ipv4Address| TargetView { host: HostView::Ip(IpAddress::V4(ip)), port },
    )
}

/// The DNS strategy: it turns the answers of address-record lookups into snapshots.
pub struct DnsServiceDiscoverer {
    config: DnsDiscoveryConfig,
    sequence: u64,
}

/// What a [`DnsServiceDiscoverer`] stands for in contracts.
pub struct DnsDiscovererView {
    pub config: DnsConfigView,
    /// The number of the last snapshot made; 0 before the first.
    pub sequence: u64,
}

impl View for DnsServiceDiscoverer {
    type V = DnsDiscovererView;

    closed spec fn view(&self) -> DnsDiscovererView {
        DnsDiscovererView { config: self.config@, sequence: self.sequence }
    }
}

impl DnsServiceDiscoverer {
    /// A discoverer with the options `config`, which has made no snapshot yet.
    pub fn new(config: DnsDiscoveryConfig) -> (discoverer: DnsServiceDiscoverer)
        ensures
            discoverer@ == (DnsDiscovererView { config: config@, sequence: 0 }),
    {
        DnsServiceDiscoverer { config, sequence: 0 }
    }

    /// The resolver to look through: the configured server, or the
    /// system's where none is configured.
    pub fn resolver(&self) -> (choice: ResolverChoice)
        ensures
            choice == match self@.config.dns_server {
                None => ResolverChoice::System,
                Some(server) => ResolverChoice::NameServer(server),
            },
    {
        match self.config.dns_server {
            None => ResolverChoice::System,
            Some(server) => ResolverChoice::NameServer(server),
        }
    }

    /// The name to look up.
    pub fn query(&self) -> (name: &str)
        ensures
            name@ == self@.config.query,
    {
        self.config.query.as_str()
    }

}

impl ServiceDiscoverer for DnsServiceDiscoverer {
    type Answer = LookupAnswer;

    open spec fn last_sequence(&self) -> u64 {
        self@.sequence
    }

    /// Turns the answer of one lookup into the outcome of the round.
    ///
    /// Address records become a snapshot: one backend per distinct address,
    /// on the service port, numbered one above the last snapshot. A name
    /// without records gives the empty snapshot, which is an answer like
    /// any other. A failed lookup gives `Unreachable` and leaves the
    /// discoverer as it was.
    fn discover(&mut self, answer: LookupAnswer) -> (round: Result<
        DiscoverySnapshot,
        DiscoveryError,
    >)
        ensures
            final(self)@.config == old(self)@.config,
            match answered(answer) {
                Some(addresses) => {
                    &&& round matches Ok(snapshot)
                    &&& snapshot.wf()
                    &&& snapshot@.targets == distinct(
                        backends(addresses, old(self)@.config.service_port),
                    )
                    &&& snapshot@.sequence == next_sequence(old(self)@.sequence)
                    &&& final(self)@.sequence == snapshot@.sequence
                },
                None => {
                    &&& round == Err::<DiscoverySnapshot, DiscoveryError>(
                        DiscoveryError::Unreachable,
                    )
                    &&& final(self)@ == old(self)@
                },
            },
    {
        let addresses = match answer {
            LookupAnswer::Records(addresses) => addresses,
            LookupAnswer::NoRecords => Vec::new(),
            LookupAnswer::Failed(_) => {
                return Err(DiscoveryError::Unreachable);
            },
        };
        let mut found: Vec<ConnectionTarget> = Vec::new();
        let mut i: usize = 0;
        while i < addresses.len()
            invariant
                i <= addresses.len(),
                found@.len() == i,
                forall|k: int|
                    0 <= k < i ==> (#[trigger] found@[k])@ == (TargetView {
                        host: HostView::Ip(IpAddress::V4(addresses@[k])),
                        port: self.config.service_port,
                    }),
            decreases addresses.len() - i,
        {
            found.push(ConnectionTarget::from_ipv4(addresses[i], self.config.service_port));
            i += 1;
        }
        assert(identities(found@) =~= backends(addresses@, self.config.service_port));
        let sequence = if self.sequence < u64::MAX {
            self.sequence + 1
        } else {
            self.sequence
        };
        self.sequence = sequence;
        Ok(DiscoverySnapshot::new(found, sequence))
    }

    /// The DNS strategy is polled, at the configured interval or every ten seconds.
    fn mode(&self) -> (mode: DiscoveryMode)
        ensures
            mode == DiscoveryMode::Polling(
                match self@.config.polling_interval {
                    Some(interval) => interval,
                    None => Interval { secs: DEFAULT_POLLING_SECS, subsec_nanos: 0 },
                },
            ),
    {
        match self.config.polling_interval {
            Some(interval) => DiscoveryMode::Polling(interval),
            None => DiscoveryMode::Polling(Interval { secs: DEFAULT_POLLING_SECS, subsec_nanos: 0 }),
        }
    }
}

} // verus!
