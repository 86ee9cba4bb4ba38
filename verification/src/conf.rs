//! Endpoint configuration: the strings of a configuration file, and how an
//! endpoint is built from them.
//!
//! Name resolution is the caller's: it resolves `listen` and `through`, says
//! which remotes are socket address literals, and hands the answers in.

use crate::addr::IpAddress;
use crate::addr::SockAddr;
use crate::balancer::weights_in;
use crate::balancer::Balancer;
use crate::balancer::BalancerView;
use crate::balancer::Strategy;
use crate::endpoint::BindOpts;
use crate::endpoint::ConnectOpts;
use crate::endpoint::Endpoint;
use crate::endpoint::FailoverOpts;
use crate::endpoint::ProxyOpts;
use crate::endpoint::RemoteAddr;
use crate::text::ascii_lowered;
use crate::text::chars_of;
use crate::text::decimal;
use crate::text::find_char;
use crate::text::first_index;
use crate::text::last_index;
use crate::text::parse_unsigned;
use crate::text::parsed_unsigned;
use crate::text::push_decimal;
use crate::text::rfind_char;
use crate::text::to_ascii_lowercase;
use crate::text::trim_bounds;
use crate::text::trimmed;
use vstd::prelude::*;
use vstd::string::StringExecFns;

verus! {

/// Why an endpoint could not be built.
#[derive(Debug)]
pub enum EndpointBuildError {
    InvalidListen(String),
    InvalidRemote(String),
    InvalidThrough(String),
    InvalidBalance(String),
    NoTransportEnabled,
}

/// A build error as plain values.
pub enum BuildErrorView {
    InvalidListen(Seq<char>),
    InvalidRemote(Seq<char>),
    InvalidThrough(Seq<char>),
    InvalidBalance(Seq<char>),
    NoTransportEnabled,
}

impl BuildErrorView {
    /// The error in words.
    pub open spec fn text(self) -> Seq<char> {
        match self {
            BuildErrorView::InvalidListen(msg) => "invalid `listen`: "@ + msg,
            BuildErrorView::InvalidRemote(msg) => "invalid `remote`: "@ + msg,
            BuildErrorView::InvalidThrough(msg) => "invalid `through`: "@ + msg,
            BuildErrorView::InvalidBalance(msg) => "invalid `balance`: "@ + msg,
            BuildErrorView::NoTransportEnabled => "invalid `network`: both tcp and udp are disabled"@,
        }
    }
}

impl View for EndpointBuildError {
    type V = BuildErrorView;

    open spec fn view(&self) -> BuildErrorView {
        match self {
            EndpointBuildError::InvalidListen(msg) => BuildErrorView::InvalidListen(msg@),
            EndpointBuildError::InvalidRemote(msg) => BuildErrorView::InvalidRemote(msg@),
            EndpointBuildError::InvalidThrough(msg) => BuildErrorView::InvalidThrough(msg@),
            EndpointBuildError::InvalidBalance(msg) => BuildErrorView::InvalidBalance(msg@),
            EndpointBuildError::NoTransportEnabled => BuildErrorView::NoTransportEnabled,
        }
    }
}

/// `head`, then `rest`.
fn joined(head: &str, rest: &str) -> (r: String)
    ensures
        r@ == head@ + rest@,
{
    let mut out = String::from_str(head);
    out.append(rest);
    out
}

impl EndpointBuildError {
    /// The error in words.
    pub fn to_text(&self) -> (r: String)
        ensures
            r@ == self@.text(),
    {
        match self {
            EndpointBuildError::InvalidListen(msg) => joined("invalid `listen`: ", msg.as_str()),
            EndpointBuildError::InvalidRemote(msg) => joined("invalid `remote`: ", msg.as_str()),
            EndpointBuildError::InvalidThrough(msg) => joined("invalid `through`: ", msg.as_str()),
            EndpointBuildError::InvalidBalance(msg) => joined("invalid `balance`: ", msg.as_str()),
            EndpointBuildError::NoTransportEnabled => String::from_str(
                "invalid `network`: both tcp and udp are disabled",
            ),
        }
    }
}

/// A remote address as plain values.
pub enum RemoteView {
    SocketAddr(SockAddr),
    DomainName(Seq<char>, u16),
}

/// The view of a remote address.
pub open spec fn remote_view(addr: RemoteAddr) -> RemoteView {
    match addr {
        RemoteAddr::SocketAddr(a) => RemoteView::SocketAddr(a),
        RemoteAddr::DomainName(host, port) => RemoteView::DomainName(host@, port),
    }
}

/// What a remote given as `s` is. Where `s` is a socket address literal,
/// `literal` holds the address. Otherwise `s` is `host:port`, split at the
/// last colon, with a host that is not empty.
pub open spec fn remote_read(s: Seq<char>, literal: Option<SockAddr>) -> Result<
    RemoteView,
    BuildErrorView,
> {
    match literal {
        Some(addr) => Ok(RemoteView::SocketAddr(addr)),
        None => match last_index(s, ':') {
            None => Err(BuildErrorView::InvalidRemote("missing host"@)),
            Some(i) => match parsed_unsigned(s.skip(i + 1), 0xffff) {
                None => Err(
                    BuildErrorView::InvalidRemote("invalid port `"@ + s.skip(i + 1) + "`"@),
                ),
                Some(port) => if i == 0 {
                    Err(BuildErrorView::InvalidRemote("empty host"@))
                } else {
                    Ok(RemoteView::DomainName(s.take(i), port as u16))
                },
            },
        },
    }
}

/// Reads one remote.
fn read_remote(remote: &str, literal: Option<SockAddr>) -> (r: Result<
    RemoteAddr,
    EndpointBuildError,
>)
    ensures
        match remote_read(remote@, literal) {
            Ok(v) => r matches Ok(addr) && remote_view(addr) == v,
            Err(e) => r matches Err(x) && x@ == e,
        },
{
    match literal {
        Some(addr) => {
            return Ok(RemoteAddr::SocketAddr(addr));
        },
        None => {},
    }
    let chars = chars_of(remote);
    let colon: usize = match rfind_char(&chars, ':') {
        Some(i) => i,
        None => {
            return Err(EndpointBuildError::InvalidRemote(String::from_str("missing host")));
        },
    };
    proof {
        assert(chars@.subrange(colon + 1, chars.len() as int) =~= remote@.skip(colon + 1));
        assert(chars@.subrange(0, colon as int) =~= remote@.take(colon as int));
    }
    let port: u16 = match parse_unsigned(&chars, colon + 1, chars.len(), 0xffff) {
        Some(p) => p as u16,
        None => {
            let mut msg = String::from_str("invalid port `");
            msg.append(remote.substring_char(colon + 1, chars.len()));
            msg.append("`");
            return Err(EndpointBuildError::InvalidRemote(msg));
        },
    };
    if colon == 0 {
        return Err(EndpointBuildError::InvalidRemote(String::from_str("empty host")));
    }
    Ok(RemoteAddr::DomainName(String::from_str(remote.substring_char(0, colon)), port))
}

/// Whether a weight after the first is larger than the first.
pub open spec fn primary_dominated(weights: Seq<u8>) -> bool {
    exists|i: int| 1 <= i < weights.len() && #[trigger] weights[i] > weights[0]
}

fn is_primary_dominated(weights: &Vec<u8>) -> (r: bool)
    ensures
        r == primary_dominated(weights@),
{
    let mut i: usize = 1;
    while i < weights.len()
        invariant
            1 <= i,
            forall|j: int| 1 <= j < i && j < weights.len() ==> #[trigger] weights@[j] <= weights@[0],
        decreases weights.len() - i,
    {
        if weights[i] > weights[0] {
            return true;
        }
        i += 1;
    }
    false
}

/// The strategy's name and the weights in a `balance` string: what stands
/// before the first colon and what follows it, or the whole string and
/// nothing where there is no colon.
pub open spec fn balance_parts(s: Seq<char>) -> (Seq<char>, Seq<char>) {
    match first_index(s, ':') {
        Some(i) => (s.take(i), s.skip(i + 1)),
        None => (s, Seq::empty()),
    }
}

/// The balancer that a `balance` string asks for, for an endpoint with
/// `extras` extra remotes; or what is wrong with the string.
///
/// With failover there is one weight for each peer: where none is written
/// every peer weighs one, and no backup may outweigh the primary.
pub open spec fn balancer_built(balance: Option<Seq<char>>, extras: nat) -> Result<
    BalancerView,
    Seq<char>,
> {
    match balance {
        None => Ok(BalancerView::Off),
        Some(s) => {
            let name = ascii_lowered(trimmed(balance_parts(s).0));
            match Strategy::named(name) {
                None => Err(
                    "unknown strategy `"@ + name
                        + "` (expected one of: off, failover, iphash, roundrobin)"@,
                ),
                Some(strategy) => match weights_in(balance_parts(s).1, true) {
                    Err(p) => Err("invalid weight `"@ + p + "` (expected 0-255 integer)"@),
                    Ok(written) => if strategy != Strategy::Failover {
                        if strategy != Strategy::Off && written.len() > 255 {
                            Err("too many weights (at most 255)"@)
                        } else {
                            Ok(BalancerView::fresh(strategy, written))
                        }
                    } else if extras + 1 > 255 {
                        Err("failover supports at most 255 peers"@)
                    } else if written.len() == 0 {
                        Ok(
                            BalancerView::fresh(
                                strategy,
                                Seq::new(extras + 1, |i: int| 1u8),
                            ),
                        )
                    } else if written.len() != extras + 1 {
                        Err(
                            "failover requires "@ + decimal(extras + 1)
                                + " weights (remote + extra_remotes), got "@ + decimal(
                                written.len(),
                            ),
                        )
                    } else if primary_dominated(written) {
                        Err("failover requires `remote` to have the highest weight"@)
                    } else {
                        Ok(BalancerView::fresh(strategy, written))
                    },
                },
            }
        },
    }
}

/// Builds the balancer that a `balance` string asks for.
fn build_balancer(balance: &Option<String>, extras: usize) -> (r: Result<
    Balancer,
    EndpointBuildError,
>)
    ensures
        match balancer_built(
            match balance {
                Some(s) => Some(s@),
                None => None,
            },
            extras as nat,
        ) {
            Ok(v) => r matches Ok(b) && b@ == v && b.wf(),
            Err(msg) => r matches Err(e) && e@ == BuildErrorView::InvalidBalance(msg),
        },
{
    let s: &str = match balance {
        Some(s) => s.as_str(),
        None => {
            return Ok(Balancer::Off);
        },
    };
    let chars = chars_of(s);
    let n: usize = chars.len();
    let colon = find_char(&chars, 0, n, ':');
    proof {
        assert(chars@.subrange(0, n as int) =~= s@);
    }
    let (name_end, weights_from): (usize, usize) = match colon {
        Some(i) => (i, i + 1),
        None => (n, n),
    };
    proof {
        assert(chars@.subrange(0, name_end as int) =~= balance_parts(s@).0);
        assert(chars@.subrange(weights_from as int, n as int) =~= balance_parts(s@).1);
    }
    let (a, b) = trim_bounds(&chars, 0, name_end);
    let name = to_ascii_lowercase(s.substring_char(a, b));
    let strategy = match Strategy::from_name(name.as_str()) {
        Some(x) => x,
        None => {
            let mut msg = String::from_str("unknown strategy `");
            msg.append(name.as_str());
            msg.append("` (expected one of: off, failover, iphash, roundrobin)");
            return Err(EndpointBuildError::InvalidBalance(msg));
        },
    };
    let (wa, wb) = trim_bounds(&chars, weights_from, n);
    let mut weights: Vec<u8> = match crate::balancer::read_weights(s, &chars, wa, wb, true) {
        Ok(w) => w,
        Err(p) => {
            let mut msg = String::from_str("invalid weight `");
            msg.append(p.as_str());
            msg.append("` (expected 0-255 integer)");
            return Err(EndpointBuildError::InvalidBalance(msg));
        },
    };
    if strategy == Strategy::Failover {
        if extras >= 255 {
            return Err(
                EndpointBuildError::InvalidBalance(
                    String::from_str("failover supports at most 255 peers"),
                ),
            );
        }
        let expected: usize = extras + 1;
        if weights.len() == 0 {
            let mut i: usize = 0;
            while i < expected
                invariant
                    i <= expected,
                    weights@ == Seq::new(i as nat, |j: int| 1u8),
                decreases expected - i,
            {
                weights.push(1);
                proof {
                    assert(weights@ =~= Seq::new((i + 1) as nat, |j: int| 1u8));
                }
                i += 1;
            }
        } else if weights.len() != expected {
            let mut msg = String::from_str("failover requires ");
            push_decimal(&mut msg, expected as u64);
            msg.append(" weights (remote + extra_remotes), got ");
            push_decimal(&mut msg, weights.len() as u64);
            return Err(EndpointBuildError::InvalidBalance(msg));
        } else if is_primary_dominated(&weights) {
            return Err(
                EndpointBuildError::InvalidBalance(
                    String::from_str("failover requires `remote` to have the highest weight"),
                ),
            );
        }
    } else if strategy != Strategy::Off && weights.len() > 255 {
        return Err(
            EndpointBuildError::InvalidBalance(String::from_str("too many weights (at most 255)")),
        );
    }
    Ok(Balancer::new(strategy, weights.as_slice()))
}

/// The connect timeout in seconds where none is configured.
pub const TCP_TIMEOUT: usize = 5;

/// The idle timeout of a UDP association in seconds where none is configured.
pub const UDP_TIMEOUT: usize = 30;

/// The keepalive interval in seconds where none is configured.
pub const TCP_KEEPALIVE: usize = 15;

/// The number of keepalive probes where none is configured.
pub const TCP_KEEPALIVE_PROBE: usize = 3;

/// The PROXY protocol version sent where none is configured.
pub const PROXY_PROTOCOL_VERSION: usize = 2;

/// The time in seconds to wait for a PROXY header where none is configured.
pub const PROXY_PROTOCOL_TIMEOUT: usize = 5;

/// Network options of an endpoint, or the defaults for all endpoints. A field
/// that is not set is inherited, and takes its default at build.
#[derive(Debug, Clone, Copy)]
pub struct NetConf {
    pub no_tcp: Option<bool>,
    pub use_udp: Option<bool>,
    pub ipv6_only: Option<bool>,
    pub tcp_timeout: Option<usize>,
    pub udp_timeout: Option<usize>,
    pub tcp_keepalive: Option<usize>,
    pub tcp_keepalive_probe: Option<usize>,
    pub send_mptcp: Option<bool>,
    pub accept_mptcp: Option<bool>,
    pub send_proxy: Option<bool>,
    pub accept_proxy: Option<bool>,
    pub send_proxy_version: Option<usize>,
    pub accept_proxy_timeout: Option<usize>,
    pub failover: Option<FailoverOpts>,
}

/// What a network configuration builds.
#[derive(Debug)]
pub struct NetInfo {
    pub bind_opts: BindOpts,
    pub conn_opts: ConnectOpts,
    pub no_tcp: bool,
    pub use_udp: bool,
}

/// `own` where it is set, else `inherited`.
pub open spec fn or_inherited<T>(own: Option<T>, inherited: Option<T>) -> Option<T> {
    if own is Some {
        own
    } else {
        inherited
    }
}

/// `value` where it is set, else `default`.
pub open spec fn or_default<T>(value: Option<T>, default: T) -> T {
    match value {
        Some(v) => v,
        None => default,
    }
}

fn inherit<T: Copy>(own: Option<T>, inherited: Option<T>) -> (r: Option<T>)
    ensures
        r == or_inherited(own, inherited),
{
    match own {
        Some(_) => own,
        None => inherited,
    }
}

fn value_or<T: Copy>(value: Option<T>, default: T) -> (r: T)
    ensures
        r == or_default(value, default),
{
    match value {
        Some(v) => v,
        None => default,
    }
}

impl NetConf {
    /// The configuration in which nothing is set.
    pub open spec fn unset() -> NetConf {
        NetConf {
            no_tcp: None,
            use_udp: None,
            ipv6_only: None,
            tcp_timeout: None,
            udp_timeout: None,
            tcp_keepalive: None,
            tcp_keepalive_probe: None,
            send_mptcp: None,
            accept_mptcp: None,
            send_proxy: None,
            accept_proxy: None,
            send_proxy_version: None,
            accept_proxy_timeout: None,
            failover: None,
        }
    }

    /// The configuration with every field that it does not set taken from
    /// `other`.
    pub open spec fn inheriting(self, other: NetConf) -> NetConf {
        NetConf {
            no_tcp: or_inherited(self.no_tcp, other.no_tcp),
            use_udp: or_inherited(self.use_udp, other.use_udp),
            ipv6_only: or_inherited(self.ipv6_only, other.ipv6_only),
            tcp_timeout: or_inherited(self.tcp_timeout, other.tcp_timeout),
            udp_timeout: or_inherited(self.udp_timeout, other.udp_timeout),
            tcp_keepalive: or_inherited(self.tcp_keepalive, other.tcp_keepalive),
            tcp_keepalive_probe: or_inherited(self.tcp_keepalive_probe, other.tcp_keepalive_probe),
            send_mptcp: or_inherited(self.send_mptcp, other.send_mptcp),
            accept_mptcp: or_inherited(self.accept_mptcp, other.accept_mptcp),
            send_proxy: or_inherited(self.send_proxy, other.send_proxy),
            accept_proxy: or_inherited(self.accept_proxy, other.accept_proxy),
            send_proxy_version: or_inherited(self.send_proxy_version, other.send_proxy_version),
            accept_proxy_timeout: or_inherited(self.accept_proxy_timeout, other.accept_proxy_timeout),
            failover: or_inherited(self.failover, other.failover),
        }
    }

    /// Whether nothing is set.
    pub open spec fn nothing_set(self) -> bool {
        self == NetConf::unset()
    }

    /// The options that the configuration builds: what is not set takes its
    /// default, and the failover options are sanitized. Nothing is balanced
    /// and nothing bound yet.
    pub open spec fn built(self) -> NetInfo {
        NetInfo {
            bind_opts: BindOpts {
                ipv6_only: or_default(self.ipv6_only, false),
                accept_mptcp: or_default(self.accept_mptcp, false),
                bind_interface: None,
            },
            conn_opts: ConnectOpts {
                send_mptcp: or_default(self.send_mptcp, false),
                connect_timeout: or_default(self.tcp_timeout, TCP_TIMEOUT),
                associate_timeout: or_default(self.udp_timeout, UDP_TIMEOUT),
                tcp_keepalive: or_default(self.tcp_keepalive, TCP_KEEPALIVE),
                tcp_keepalive_probe: or_default(self.tcp_keepalive_probe, TCP_KEEPALIVE_PROBE),
                bind_address: None,
                bind_interface: None,
                proxy_opts: ProxyOpts {
                    send_proxy: or_default(self.send_proxy, false),
                    accept_proxy: or_default(self.accept_proxy, false),
                    send_proxy_version: or_default(self.send_proxy_version, PROXY_PROTOCOL_VERSION),
                    accept_proxy_timeout: or_default(
                        self.accept_proxy_timeout,
                        PROXY_PROTOCOL_TIMEOUT,
                    ),
                },
                balancer: Balancer::Off,
                failover: match self.failover {
                    Some(f) => f.sanitized(),
                    None => FailoverOpts::standard(),
                },
            },
            no_tcp: or_default(self.no_tcp, false),
            use_udp: or_default(self.use_udp, false),
        }
    }

    /// Whether nothing is set.
    pub fn is_empty(&self) -> (r: bool)
        ensures
            r == self.nothing_set(),
    {
        self.no_tcp.is_none() && self.use_udp.is_none() && self.ipv6_only.is_none()
            && self.tcp_timeout.is_none() && self.udp_timeout.is_none()
            && self.tcp_keepalive.is_none() && self.tcp_keepalive_probe.is_none()
            && self.send_mptcp.is_none() && self.accept_mptcp.is_none()
            && self.send_proxy.is_none() && self.accept_proxy.is_none()
            && self.send_proxy_version.is_none() && self.accept_proxy_timeout.is_none()
            && self.failover.is_none()
    }

    /// Takes from `other` every field that is not set here.
    pub fn take_field(&mut self, other: &NetConf)
        ensures
            *final(self) == old(self).inheriting(*other),
    {
        self.no_tcp = inherit(self.no_tcp, other.no_tcp);
        self.use_udp = inherit(self.use_udp, other.use_udp);
        self.ipv6_only = inherit(self.ipv6_only, other.ipv6_only);
        self.tcp_timeout = inherit(self.tcp_timeout, other.tcp_timeout);
        self.udp_timeout = inherit(self.udp_timeout, other.udp_timeout);
        self.tcp_keepalive = inherit(self.tcp_keepalive, other.tcp_keepalive);
        self.tcp_keepalive_probe = inherit(self.tcp_keepalive_probe, other.tcp_keepalive_probe);
        self.send_mptcp = inherit(self.send_mptcp, other.send_mptcp);
        self.accept_mptcp = inherit(self.accept_mptcp, other.accept_mptcp);
        self.send_proxy = inherit(self.send_proxy, other.send_proxy);
        self.accept_proxy = inherit(self.accept_proxy, other.accept_proxy);
        self.send_proxy_version = inherit(self.send_proxy_version, other.send_proxy_version);
        self.accept_proxy_timeout = inherit(self.accept_proxy_timeout, other.accept_proxy_timeout);
        self.failover = inherit(self.failover, other.failover);
    }

    /// Builds the options.
    pub fn build(&self) -> (r: NetInfo)
        ensures
            r == self.built(),
    {
        let failover: FailoverOpts = match self.failover {
            Some(f) => {
                let mut f = f;
                f.sanitize();
                f
            },
            None => FailoverOpts::default(),
        };
        NetInfo {
            bind_opts: BindOpts {
                ipv6_only: value_or(self.ipv6_only, false),
                accept_mptcp: value_or(self.accept_mptcp, false),
                bind_interface: None,
            },
            conn_opts: ConnectOpts {
                send_mptcp: value_or(self.send_mptcp, false),
                connect_timeout: value_or(self.tcp_timeout, TCP_TIMEOUT),
                associate_timeout: value_or(self.udp_timeout, UDP_TIMEOUT),
                tcp_keepalive: value_or(self.tcp_keepalive, TCP_KEEPALIVE),
                tcp_keepalive_probe: value_or(self.tcp_keepalive_probe, TCP_KEEPALIVE_PROBE),
                bind_address: None,
                bind_interface: None,
                proxy_opts: ProxyOpts {
                    send_proxy: value_or(self.send_proxy, false),
                    accept_proxy: value_or(self.accept_proxy, false),
                    send_proxy_version: value_or(self.send_proxy_version, PROXY_PROTOCOL_VERSION),
                    accept_proxy_timeout: value_or(
                        self.accept_proxy_timeout,
                        PROXY_PROTOCOL_TIMEOUT,
                    ),
                },
                balancer: Balancer::Off,
                failover,
            },
            no_tcp: value_or(self.no_tcp, false),
            use_udp: value_or(self.use_udp, false),
        }
    }
}

impl Default for NetConf {
    /// Nothing is set.
    fn default() -> (r: Self)
        ensures
            r == NetConf::unset(),
    {
        NetConf {
            no_tcp: None,
            use_udp: None,
            ipv6_only: None,
            tcp_timeout: None,
            udp_timeout: None,
            tcp_keepalive: None,
            tcp_keepalive_probe: None,
            send_mptcp: None,
            accept_mptcp: None,
            send_proxy: None,
            accept_proxy: None,
            send_proxy_version: None,
            accept_proxy_timeout: None,
            failover: None,
        }
    }
}

/// What is inherited twice from the same defaults is inherited once.
pub proof fn lemma_inheriting_is_idempotent(conf: NetConf, defaults: NetConf)
    ensures
        conf.inheriting(defaults).inheriting(defaults) == conf.inheriting(defaults),
        conf.inheriting(NetConf::unset()) == conf,
        NetConf::unset().inheriting(defaults) == defaults,
{
}

/// What looking up a name gave.
#[derive(Debug)]
pub enum Lookup {
    /// The first address that the name resolves to.
    Found(SockAddr),
    /// The name resolves to no address.
    Nothing,
    /// The lookup failed; this is why.
    Failed(String),
}

/// What the caller found out about the addresses that a configuration names.
#[derive(Debug)]
pub struct Resolved {
    /// `listen`, resolved.
    pub listen: Lookup,
    /// `remote`, where it is a socket address literal.
    pub remote: Option<SockAddr>,
    /// Each extra remote, where it is a socket address literal.
    pub extra_remotes: Vec<Option<SockAddr>>,
    /// `through`, resolved. It counts only where `through` is set.
    pub through: Lookup,
    /// `through` without its brackets, read as an IP address; or why it is
    /// none. It counts only where the lookup failed.
    pub through_ip: Result<IpAddress, String>,
}

/// Endpoint configuration, as it stands in a configuration file.
#[derive(Debug)]
pub struct EndpointConf {
    pub listen: String,
    pub remote: String,
    pub extra_remotes: Vec<String>,
    pub balance: Option<String>,
    pub through: Option<String>,
    pub interface: Option<String>,
    pub listen_interface: Option<String>,
    pub listen_transport: Option<String>,
    pub remote_transport: Option<String>,
    pub network: NetConf,
}

/// An endpoint configuration as plain values.
pub struct ConfView {
    pub listen: Seq<char>,
    pub remote: Seq<char>,
    pub extra_remotes: Seq<Seq<char>>,
    pub balance: Option<Seq<char>>,
    pub through: Option<Seq<char>>,
    pub interface: Option<Seq<char>>,
    pub listen_interface: Option<Seq<char>>,
    pub listen_transport: Option<Seq<char>>,
    pub remote_transport: Option<Seq<char>>,
    pub network: NetConf,
}

/// The texts of a list of strings.
pub open spec fn texts(list: Seq<String>) -> Seq<Seq<char>> {
    Seq::new(list.len(), |i: int| list[i]@)
}

impl View for EndpointConf {
    type V = ConfView;

    open spec fn view(&self) -> ConfView {
        ConfView {
            listen: self.listen@,
            remote: self.remote@,
            extra_remotes: texts(self.extra_remotes@),
            balance: opt_text(self.balance),
            through: opt_text(self.through),
            interface: opt_text(self.interface),
            listen_interface: opt_text(self.listen_interface),
            listen_transport: opt_text(self.listen_transport),
            remote_transport: opt_text(self.remote_transport),
            network: self.network,
        }
    }
}

/// A copy of an optional string.
pub fn clone_opt(s: &Option<String>) -> (r: Option<String>)
    ensures
        r == *s,
{
    match s {
        Some(x) => Some(x.clone()),
        None => None,
    }
}

impl Clone for EndpointConf {
    fn clone(&self) -> (r: Self)
        ensures
            r@ == self@,
            r.listen == self.listen,
            r.remote == self.remote,
            r.extra_remotes@ == self.extra_remotes@,
            r.balance == self.balance,
            r.through == self.through,
            r.interface == self.interface,
            r.listen_interface == self.listen_interface,
            r.network == self.network,
    {
        EndpointConf {
            listen: self.listen.clone(),
            remote: self.remote.clone(),
            extra_remotes: self.extra_remotes.clone(),
            balance: clone_opt(&self.balance),
            through: clone_opt(&self.through),
            interface: clone_opt(&self.interface),
            listen_interface: clone_opt(&self.listen_interface),
            listen_transport: clone_opt(&self.listen_transport),
            remote_transport: clone_opt(&self.remote_transport),
            network: self.network,
        }
    }
}

/// What an endpoint configuration builds.
#[derive(Debug)]
pub struct EndpointInfo {
    pub no_tcp: bool,
    pub use_udp: bool,
    pub endpoint: Endpoint,
}

/// The local address: the first that `listen` resolves to.
pub open spec fn listen_built(listen: Lookup) -> Result<SockAddr, BuildErrorView> {
    match listen {
        Lookup::Found(addr) => Ok(addr),
        Lookup::Nothing => Err(BuildErrorView::InvalidListen("no address resolved"@)),
        Lookup::Failed(why) => Err(BuildErrorView::InvalidListen(why@)),
    }
}

/// The address to send from: none where `through` is not set; else the first
/// that it resolves to, or, where it cannot be looked up, the IP address
/// that it is, with port zero.
pub open spec fn through_built(
    through: Option<String>,
    lookup: Lookup,
    ip: Result<IpAddress, String>,
) -> Result<Option<SockAddr>, BuildErrorView> {
    match through {
        None => Ok(None),
        Some(_) => match lookup {
            Lookup::Found(addr) => Ok(Some(addr)),
            Lookup::Nothing => Err(BuildErrorView::InvalidThrough("no address resolved"@)),
            Lookup::Failed(_) => match ip {
                Ok(ip) => Ok(Some(SockAddr { ip, port: 0 })),
                Err(why) => Err(BuildErrorView::InvalidThrough(why@)),
            },
        },
    }
}

/// The literal of the extra remote at `i`, where the caller gave one.
pub open spec fn literal_at(literals: Seq<Option<SockAddr>>, i: int) -> Option<SockAddr> {
    if 0 <= i < literals.len() {
        literals[i]
    } else {
        None
    }
}

/// The extra remotes, in order; or what is wrong with the first that cannot
/// be read.
#[verifier::opaque]
pub open spec fn extras_built(extras: Seq<String>, literals: Seq<Option<SockAddr>>) -> Result<
    Seq<RemoteView>,
    BuildErrorView,
>
    decreases extras.len(),
{
    if extras.len() == 0 {
        Ok(Seq::empty())
    } else {
        match extras_built(extras.drop_last(), literals) {
            Err(e) => Err(e),
            Ok(front) => match remote_read(
                extras.last()@,
                literal_at(literals, extras.len() - 1),
            ) {
                Ok(v) => Ok(front.push(v)),
                Err(e) => Err(e),
            },
        }
    }
}

/// The views of a list of remotes.
pub open spec fn remote_views(addrs: Seq<RemoteAddr>) -> Seq<RemoteView> {
    Seq::new(addrs.len(), |i: int| remote_view(addrs[i]))
}

/// The text of an optional string.
pub open spec fn opt_text(s: Option<String>) -> Option<Seq<char>> {
    match s {
        Some(s) => Some(s@),
        None => None,
    }
}

impl EndpointConf {
    /// Why the configuration builds no endpoint, if it builds none: the first
    /// of an unusable `listen`, `remote` or extra remote, a network with
    /// neither TCP nor UDP, an unusable `balance`, an unusable `through`.
    pub open spec fn build_failure(self, resolved: Resolved) -> Option<BuildErrorView> {
        if let Err(e) = listen_built(resolved.listen) {
            Some(e)
        } else if let Err(e) = remote_read(self.remote@, resolved.remote) {
            Some(e)
        } else if let Err(e) = extras_built(self.extra_remotes@, resolved.extra_remotes@) {
            Some(e)
        } else if self.network.built().no_tcp && !self.network.built().use_udp {
            Some(BuildErrorView::NoTransportEnabled)
        } else if let Err(msg) = balancer_built(
            opt_text(self.balance),
            self.extra_remotes@.len(),
        ) {
            Some(BuildErrorView::InvalidBalance(msg))
        } else if let Err(e) = through_built(self.through, resolved.through, resolved.through_ip) {
            Some(e)
        } else {
            None
        }
    }

    /// Whether `info` is what the configuration builds: the addresses as
    /// read, the network's options, the balancer that `balance` asks for,
    /// and the interfaces as configured.
    pub open spec fn builds(self, resolved: Resolved, info: EndpointInfo) -> bool {
        let net = self.network.built();
        &&& info.no_tcp == net.no_tcp
        &&& info.use_udp == net.use_udp
        &&& Ok::<SockAddr, BuildErrorView>(info.endpoint.laddr) == listen_built(resolved.listen)
        &&& Ok::<RemoteView, BuildErrorView>(remote_view(info.endpoint.raddr)) == remote_read(
            self.remote@,
            resolved.remote,
        )
        &&& Ok::<Seq<RemoteView>, BuildErrorView>(remote_views(info.endpoint.extra_raddrs@))
            == extras_built(self.extra_remotes@, resolved.extra_remotes@)
        &&& info.endpoint.bind_opts == (BindOpts {
            bind_interface: self.listen_interface,
            ..net.bind_opts
        })
        &&& Ok::<BalancerView, Seq<char>>(info.endpoint.conn_opts.balancer@) == balancer_built(
            opt_text(self.balance),
            self.extra_remotes@.len(),
        )
        &&& info.endpoint.conn_opts.balancer.wf()
        &&& Ok::<Option<SockAddr>, BuildErrorView>(info.endpoint.conn_opts.bind_address)
            == through_built(self.through, resolved.through, resolved.through_ip)
        &&& info.endpoint.conn_opts.bind_interface == self.interface
        &&& info.endpoint.conn_opts.send_mptcp == net.conn_opts.send_mptcp
        &&& info.endpoint.conn_opts.connect_timeout == net.conn_opts.connect_timeout
        &&& info.endpoint.conn_opts.associate_timeout == net.conn_opts.associate_timeout
        &&& info.endpoint.conn_opts.tcp_keepalive == net.conn_opts.tcp_keepalive
        &&& info.endpoint.conn_opts.tcp_keepalive_probe == net.conn_opts.tcp_keepalive_probe
        &&& info.endpoint.conn_opts.proxy_opts == net.conn_opts.proxy_opts
        &&& info.endpoint.conn_opts.failover == net.conn_opts.failover
    }

    /// The local address, from what looking up `listen` gave.
    pub fn try_build_local(listen: &Lookup) -> (r: Result<SockAddr, EndpointBuildError>)
        ensures
            match listen_built(*listen) {
                Ok(addr) => r == Ok::<SockAddr, EndpointBuildError>(addr),
                Err(e) => r matches Err(x) && x@ == e,
            },
    {
        match listen {
            Lookup::Found(addr) => Ok(*addr),
            Lookup::Nothing => Err(
                EndpointBuildError::InvalidListen(String::from_str("no address resolved")),
            ),
            Lookup::Failed(why) => Err(EndpointBuildError::InvalidListen(why.clone())),
        }
    }

    /// Reads one remote: `literal` is the address that it is, where it is a
    /// socket address literal.
    pub fn try_build_remote_x(remote: &str, literal: Option<SockAddr>) -> (r: Result<
        RemoteAddr,
        EndpointBuildError,
    >)
        ensures
            match remote_read(remote@, literal) {
                Ok(v) => r matches Ok(addr) && remote_view(addr) == v,
                Err(e) => r matches Err(x) && x@ == e,
            },
    {
        read_remote(remote, literal)
    }

    /// Reads the primary remote.
    pub fn try_build_remote(&self, literal: Option<SockAddr>) -> (r: Result<
        RemoteAddr,
        EndpointBuildError,
    >)
        ensures
            match remote_read(self.remote@, literal) {
                Ok(v) => r matches Ok(addr) && remote_view(addr) == v,
                Err(e) => r matches Err(x) && x@ == e,
            },
    {
        read_remote(self.remote.as_str(), literal)
    }

    /// The address to send from, from what looking up `through` gave.
    pub fn try_build_send_through(&self, resolved: &Resolved) -> (r: Result<
        Option<SockAddr>,
        EndpointBuildError,
    >)
        ensures
            match through_built(self.through, resolved.through, resolved.through_ip) {
                Ok(addr) => r == Ok::<Option<SockAddr>, EndpointBuildError>(addr),
                Err(e) => r matches Err(x) && x@ == e,
            },
    {
        match &self.through {
            None => Ok(None),
            Some(_) => match &resolved.through {
                Lookup::Found(addr) => Ok(Some(*addr)),
                Lookup::Nothing => Err(
                    EndpointBuildError::InvalidThrough(String::from_str("no address resolved")),
                ),
                Lookup::Failed(_) => match &resolved.through_ip {
                    Ok(ip) => Ok(Some(SockAddr { ip: *ip, port: 0 })),
                    Err(why) => Err(EndpointBuildError::InvalidThrough(why.clone())),
                },
            },
        }
    }

    /// Builds the balancer that `balance` asks for, for the primary and the
    /// extra remotes.
    pub fn try_build_balancer(&self) -> (r: Result<Balancer, EndpointBuildError>)
        ensures
            match balancer_built(opt_text(self.balance), self.extra_remotes@.len()) {
                Ok(v) => r matches Ok(b) && b@ == v && b.wf(),
                Err(msg) => r matches Err(e) && e@ == BuildErrorView::InvalidBalance(msg),
            },
    {
        build_balancer(&self.balance, self.extra_remotes.len())
    }

    /// Builds the endpoint that the configuration describes.
    pub fn try_build(self, resolved: &Resolved) -> (r: Result<EndpointInfo, EndpointBuildError>)
        ensures
            match self.build_failure(*resolved) {
                Some(e) => r matches Err(x) && x@ == e,
                None => r matches Ok(info) && self.builds(*resolved, info),
            },
    {
        let laddr: SockAddr = match Self::try_build_local(&resolved.listen) {
            Ok(addr) => addr,
            Err(e) => {
                return Err(e);
            },
        };
        let raddr: RemoteAddr = match self.try_build_remote(resolved.remote) {
            Ok(addr) => addr,
            Err(e) => {
                return Err(e);
            },
        };
        let extra_raddrs: Vec<RemoteAddr> = match build_extras(
            &self.extra_remotes,
            &resolved.extra_remotes,
        ) {
            Ok(addrs) => addrs,
            Err(e) => {
                return Err(e);
            },
        };
        let net = self.network.build();
        if net.no_tcp && !net.use_udp {
            return Err(EndpointBuildError::NoTransportEnabled);
        }
        let balancer: Balancer = match self.try_build_balancer() {
            Ok(b) => b,
            Err(e) => {
                return Err(e);
            },
        };
        let bind_address: Option<SockAddr> = match self.try_build_send_through(resolved) {
            Ok(addr) => addr,
            Err(e) => {
                return Err(e);
            },
        };
        let NetInfo { bind_opts, conn_opts, no_tcp, use_udp } = net;
        Ok(
            EndpointInfo {
                no_tcp,
                use_udp,
                endpoint: Endpoint {
                    laddr,
                    raddr,
                    bind_opts: BindOpts {
                        ipv6_only: bind_opts.ipv6_only,
                        accept_mptcp: bind_opts.accept_mptcp,
                        bind_interface: self.listen_interface,
                    },
                    conn_opts: ConnectOpts {
                        send_mptcp: conn_opts.send_mptcp,
                        connect_timeout: conn_opts.connect_timeout,
                        associate_timeout: conn_opts.associate_timeout,
                        tcp_keepalive: conn_opts.tcp_keepalive,
                        tcp_keepalive_probe: conn_opts.tcp_keepalive_probe,
                        bind_address,
                        bind_interface: self.interface,
                        proxy_opts: conn_opts.proxy_opts,
                        balancer,
                        failover: conn_opts.failover,
                    },
                    extra_raddrs,
                },
            },
        )
    }
}

/// What one more extra remote adds to the list.
pub proof fn lemma_extras_built_unfold(extras: Seq<String>, literals: Seq<Option<SockAddr>>)
    requires
        extras.len() > 0,
    ensures
        extras_built(extras, literals) == match extras_built(extras.drop_last(), literals) {
            Err(e) => Err(e),
            Ok(front) => match remote_read(
                extras.last()@,
                literal_at(literals, extras.len() - 1),
            ) {
                Ok(v) => Ok(front.push(v)),
                Err(e) => Err(e),
            },
        },
{
    reveal(extras_built);
}

/// Once the first `n` extra remotes cannot all be read, the list cannot, for
/// the same reason.
pub proof fn lemma_extras_fail_on(extras: Seq<String>, literals: Seq<Option<SockAddr>>, n: int)
    requires
        0 <= n <= extras.len(),
        extras_built(extras.take(n), literals) is Err,
    ensures
        extras_built(extras, literals) == extras_built(extras.take(n), literals),
    decreases extras.len(),
{
    if n == extras.len() {
        assert(extras.take(n) =~= extras);
    } else {
        assert(extras.drop_last().take(n) =~= extras.take(n));
        lemma_extras_fail_on(extras.drop_last(), literals, n);
        lemma_extras_built_unfold(extras, literals);
    }
}

/// Reads the extra remotes.
fn build_extras(extras: &Vec<String>, literals: &Vec<Option<SockAddr>>) -> (r: Result<
    Vec<RemoteAddr>,
    EndpointBuildError,
>)
    ensures
        match extras_built(extras@, literals@) {
            Ok(vs) => r matches Ok(addrs) && remote_views(addrs@) == vs,
            Err(e) => r matches Err(x) && x@ == e,
        },
{
    let mut out: Vec<RemoteAddr> = Vec::new();
    let mut i: usize = 0;
    proof {
        reveal(extras_built);
        assert(remote_views(out@) =~= Seq::<RemoteView>::empty());
    }
    while i < extras.len()
        invariant
            i <= extras.len(),
            extras_built(extras@.take(i as int), literals@) == Ok::<
                Seq<RemoteView>,
                BuildErrorView,
            >(remote_views(out@)),
        decreases extras.len() - i,
    {
        let literal: Option<SockAddr> = if i < literals.len() {
            literals[i]
        } else {
            None
        };
        proof {
            assert(extras@.take(i + 1).drop_last() =~= extras@.take(i as int));
            lemma_extras_built_unfold(extras@.take(i + 1), literals@);
        }
        match read_remote(extras[i].as_str(), literal) {
            Ok(addr) => {
                let ghost before = out@;
                out.push(addr);
                proof {
                    assert(remote_views(out@) =~= remote_views(before).push(remote_view(addr)));
                }
            },
            Err(e) => {
                proof {
                    lemma_extras_fail_on(extras@, literals@, i + 1);
                }
                return Err(e);
            },
        }
        i += 1;
    }
    proof {
        assert(extras@.take(i as int) =~= extras@);
    }
    Ok(out)
}

/// `s` without square brackets.
pub open spec fn without_brackets(s: Seq<char>) -> Seq<char>
    decreases s.len(),
{
    if s.len() == 0 {
        s
    } else if s.last() == '[' || s.last() == ']' {
        without_brackets(s.drop_last())
    } else {
        without_brackets(s.drop_last()).push(s.last())
    }
}

/// `s` without square brackets: what is read as an IP address where
/// `through` cannot be looked up.
pub fn strip_brackets(s: &str) -> (r: String)
    ensures
        r@ == without_brackets(s@),
{
    let chars = chars_of(s);
    let mut out = String::new();
    let mut i: usize = 0;
    while i < chars.len()
        invariant
            i <= chars.len(),
            chars@ == s@,
            out@ == without_brackets(s@.take(i as int)),
        decreases chars.len() - i,
    {
        proof {
            assert(s@.take(i + 1).drop_last() =~= s@.take(i as int));
        }
        if chars[i] != '[' && chars[i] != ']' {
            out.append(s.substring_char(i, i + 1));
            proof {
                assert(s@.subrange(i as int, i + 1) =~= seq![s@[i as int]]);
            }
        }
        i += 1;
    }
    proof {
        assert(s@.take(i as int) =~= s@);
    }
    out
}

} // verus!
