//! Relay endpoint options.

use crate::addr::SockAddr;
use crate::balancer::Balancer;
use crate::text::decimal;
use crate::text::push_decimal;
use vstd::prelude::*;
use vstd::string::StringExecFns;

verus! {

/// Failover-specific options.
///
/// All durations are milliseconds. A field at zero switches its feature off.
#[derive(Debug, Clone, Copy)]
pub struct FailoverOpts {
    /// Enable background probing when > 0.
    pub probe_interval_ms: u64,
    /// Per-probe connect timeout.
    pub probe_timeout_ms: u64,
    /// Fail-fast timeout used when a peer is not recently healthy.
    pub failfast_timeout_ms: u64,
    /// Consider a peer "healthy" if it had a successful connect within this TTL.
    pub ok_ttl_ms: u64,
    /// Base backoff after failures.
    pub backoff_base_ms: u64,
    /// Max backoff after failures.
    pub backoff_max_ms: u64,
    /// When > 0, retry connect attempts within this window before giving up.
    pub retry_window_ms: u64,
    /// Sleep between retry rounds.
    pub retry_sleep_ms: u64,
}

/// `v` forced into `[min, max]`.
pub open spec fn clamped(v: u64, min: u64, max: u64) -> u64 {
    if v < min {
        min
    } else if v > max {
        max
    } else {
        v
    }
}

/// Zero stays zero (the feature stays off); anything else is forced into
/// `[min, max]`.
pub open spec fn clamped_nonzero(v: u64, min: u64, max: u64) -> u64 {
    if v == 0 {
        0
    } else {
        clamped(v, min, max)
    }
}

fn clamp(v: u64, min: u64, max: u64) -> (r: u64)
    ensures
        r == clamped(v, min, max),
{
    if v < min {
        min
    } else if v > max {
        max
    } else {
        v
    }
}

fn clamp_nonzero(v: u64, min: u64, max: u64) -> (r: u64)
    ensures
        r == clamped_nonzero(v, min, max),
{
    if v == 0 {
        0
    } else {
        clamp(v, min, max)
    }
}

impl FailoverOpts {
    /// The options after sanitation: every enabled duration inside its
    /// bounds, the backoff ceiling not below the backoff base, the retry
    /// window bounded, and the retry sleep bounded while retrying is on.
    pub open spec fn sanitized(self) -> FailoverOpts {
        let base = clamped_nonzero(self.backoff_base_ms, 50, 10_000);
        let ceiling = clamped_nonzero(self.backoff_max_ms, 100, 600_000);
        let window = if self.retry_window_ms > 600_000 {
            600_000u64
        } else {
            self.retry_window_ms
        };
        FailoverOpts {
            probe_interval_ms: clamped_nonzero(self.probe_interval_ms, 200, 60_000),
            probe_timeout_ms: clamped_nonzero(self.probe_timeout_ms, 50, 10_000),
            failfast_timeout_ms: clamped_nonzero(self.failfast_timeout_ms, 50, 10_000),
            ok_ttl_ms: clamped_nonzero(self.ok_ttl_ms, 200, 120_000),
            backoff_base_ms: base,
            backoff_max_ms: if ceiling > 0 && base > 0 && ceiling < base {
                base
            } else {
                ceiling
            },
            retry_window_ms: window,
            retry_sleep_ms: if window > 0 {
                clamped(self.retry_sleep_ms, 10, 10_000)
            } else {
                self.retry_sleep_ms
            },
        }
    }

    /// The options where none are configured: probing every two seconds,
    /// with short probe and fail-fast timeouts, and no connection-level
    /// retry.
    pub open spec fn standard() -> FailoverOpts {
        FailoverOpts {
            probe_interval_ms: 2_000,
            probe_timeout_ms: 200,
            failfast_timeout_ms: 250,
            ok_ttl_ms: 6_000,
            backoff_base_ms: 500,
            backoff_max_ms: 30_000,
            retry_window_ms: 0,
            retry_sleep_ms: 200,
        }
    }

    /// Every bound that sanitation enforces.
    pub open spec fn is_sane(self) -> bool {
        &&& self.probe_interval_ms == 0 || 200 <= self.probe_interval_ms <= 60_000
        &&& self.probe_timeout_ms == 0 || 50 <= self.probe_timeout_ms <= 10_000
        &&& self.failfast_timeout_ms == 0 || 50 <= self.failfast_timeout_ms <= 10_000
        &&& self.ok_ttl_ms == 0 || 200 <= self.ok_ttl_ms <= 120_000
        &&& self.backoff_base_ms == 0 || 50 <= self.backoff_base_ms <= 10_000
        &&& self.backoff_max_ms == 0 || 100 <= self.backoff_max_ms <= 600_000
        &&& self.backoff_max_ms > 0 && self.backoff_base_ms > 0 ==> self.backoff_max_ms
            >= self.backoff_base_ms
        &&& self.retry_window_ms <= 600_000
        &&& self.retry_window_ms > 0 ==> 10 <= self.retry_sleep_ms <= 10_000
    }

    /// Forces every field into its bounds, so that a bad configuration can
    /// cause neither a busy loop nor an unbounded wait.
    pub fn sanitize(&mut self)
        ensures
            *final(self) == old(self).sanitized(),
            final(self).is_sane(),
    {
        self.probe_interval_ms = clamp_nonzero(self.probe_interval_ms, 200, 60_000);
        self.probe_timeout_ms = clamp_nonzero(self.probe_timeout_ms, 50, 10_000);
        self.failfast_timeout_ms = clamp_nonzero(self.failfast_timeout_ms, 50, 10_000);
        self.ok_ttl_ms = clamp_nonzero(self.ok_ttl_ms, 200, 120_000);
        self.backoff_base_ms = clamp_nonzero(self.backoff_base_ms, 50, 10_000);
        self.backoff_max_ms = clamp_nonzero(self.backoff_max_ms, 100, 600_000);
        if self.backoff_max_ms > 0 && self.backoff_base_ms > 0 {
            if self.backoff_max_ms < self.backoff_base_ms {
                self.backoff_max_ms = self.backoff_base_ms;
            }
        }
        if self.retry_window_ms > 600_000 {
            self.retry_window_ms = 600_000;
        }
        if self.retry_window_ms > 0 {
            self.retry_sleep_ms = clamp(self.retry_sleep_ms, 10, 10_000);
        }
    }
}

impl Default for FailoverOpts {
    fn default() -> (r: Self)
        ensures
            r == FailoverOpts::standard(),
            r.is_sane(),
    {
        FailoverOpts {
            probe_interval_ms: 2_000,
            probe_timeout_ms: 200,
            failfast_timeout_ms: 250,
            ok_ttl_ms: 6_000,
            backoff_base_ms: 500,
            backoff_max_ms: 30_000,
            retry_window_ms: 0,
            retry_sleep_ms: 200,
        }
    }
}

/// Sanitation is idempotent: sanitizing sanitized options changes nothing.
pub proof fn lemma_sanitize_idempotent(opts: FailoverOpts)
    ensures
        opts.sanitized().sanitized() == opts.sanitized(),
{
}

/// Options that already meet every bound are left as they are.
pub proof fn lemma_sanitize_keeps_sane(opts: FailoverOpts)
    requires
        opts.is_sane(),
    ensures
        opts.sanitized() == opts,
{
}

/// Sanitized options meet every bound.
pub proof fn lemma_sanitized_is_sane(opts: FailoverOpts)
    ensures
        opts.sanitized().is_sane(),
{
}

/// Remote address: resolved, or a name to resolve at connect time.
#[derive(Debug)]
pub enum RemoteAddr {
    SocketAddr(SockAddr),
    DomainName(String, u16),
}

impl RemoteAddr {
    /// The address in text, `host:port`: the key under which a backend is
    /// logged and counted.
    pub open spec fn text(self) -> Seq<char> {
        match self {
            RemoteAddr::SocketAddr(addr) => addr.text(),
            RemoteAddr::DomainName(host, port) => host@ + seq![':'] + decimal(port as nat),
        }
    }

    /// The address in text.
    pub fn to_text(&self) -> (r: String)
        ensures
            r@ == self.text(),
    {
        match self {
            RemoteAddr::SocketAddr(addr) => addr.to_text(),
            RemoteAddr::DomainName(host, port) => {
                let mut out = host.clone();
                proof {
                    reveal_strlit(":");
                }
                out.append(":");
                push_decimal(&mut out, *port as u64);
                proof {
                    assert(out@ =~= self.text());
                }
                out
            },
        }
    }
}

impl Clone for RemoteAddr {
    fn clone(&self) -> (r: Self)
        ensures
            r == *self,
    {
        match self {
            RemoteAddr::SocketAddr(addr) => RemoteAddr::SocketAddr(*addr),
            RemoteAddr::DomainName(host, port) => RemoteAddr::DomainName(host.clone(), *port),
        }
    }
}

/// Proxy protocol options.
#[derive(Debug, Clone, Copy)]
pub struct ProxyOpts {
    pub send_proxy: bool,
    pub accept_proxy: bool,
    pub send_proxy_version: usize,
    pub accept_proxy_timeout: usize,
}

impl Default for ProxyOpts {
    fn default() -> (r: Self)
        ensures
            r == (ProxyOpts {
                send_proxy: false,
                accept_proxy: false,
                send_proxy_version: 0,
                accept_proxy_timeout: 0,
            }),
    {
        ProxyOpts {
            send_proxy: false,
            accept_proxy: false,
            send_proxy_version: 0,
            accept_proxy_timeout: 0,
        }
    }
}

impl ProxyOpts {
    /// Whether a PROXY header is sent or expected.
    pub fn enabled(&self) -> (r: bool)
        ensures
            r == (self.send_proxy || self.accept_proxy),
    {
        self.send_proxy || self.accept_proxy
    }
}

/// Connect or associate options. The timeouts are in seconds; zero means no
/// timeout.
#[derive(Debug)]
pub struct ConnectOpts {
    pub send_mptcp: bool,
    pub connect_timeout: usize,
    pub associate_timeout: usize,
    pub tcp_keepalive: usize,
    pub tcp_keepalive_probe: usize,
    pub bind_address: Option<SockAddr>,
    pub bind_interface: Option<String>,
    pub proxy_opts: ProxyOpts,
    pub balancer: Balancer,
    pub failover: FailoverOpts,
}

impl Default for ConnectOpts {
    /// No timeouts, nothing bound, no balancing, and the standard failover
    /// options.
    fn default() -> (r: Self)
        ensures
            r == (ConnectOpts {
                send_mptcp: false,
                connect_timeout: 0,
                associate_timeout: 0,
                tcp_keepalive: 0,
                tcp_keepalive_probe: 0,
                bind_address: None,
                bind_interface: None,
                proxy_opts: ProxyOpts {
                    send_proxy: false,
                    accept_proxy: false,
                    send_proxy_version: 0,
                    accept_proxy_timeout: 0,
                },
                balancer: Balancer::Off,
                failover: FailoverOpts::standard(),
            }),
    {
        ConnectOpts {
            send_mptcp: false,
            connect_timeout: 0,
            associate_timeout: 0,
            tcp_keepalive: 0,
            tcp_keepalive_probe: 0,
            bind_address: None,
            bind_interface: None,
            proxy_opts: ProxyOpts {
                send_proxy: false,
                accept_proxy: false,
                send_proxy_version: 0,
                accept_proxy_timeout: 0,
            },
            balancer: Balancer::Off,
            failover: FailoverOpts::default(),
        }
    }
}

impl Clone for ConnectOpts {
    /// A copy; a round-robin balancer in it has a cursor of its own.
    fn clone(&self) -> (r: Self)
        ensures
            r.send_mptcp == self.send_mptcp,
            r.connect_timeout == self.connect_timeout,
            r.associate_timeout == self.associate_timeout,
            r.tcp_keepalive == self.tcp_keepalive,
            r.tcp_keepalive_probe == self.tcp_keepalive_probe,
            r.bind_address == self.bind_address,
            r.bind_interface == self.bind_interface,
            r.proxy_opts == self.proxy_opts,
            r.balancer@ == self.balancer@,
            self.balancer.wf() ==> r.balancer.wf(),
            r.failover == self.failover,
    {
        ConnectOpts {
            send_mptcp: self.send_mptcp,
            connect_timeout: self.connect_timeout,
            associate_timeout: self.associate_timeout,
            tcp_keepalive: self.tcp_keepalive,
            tcp_keepalive_probe: self.tcp_keepalive_probe,
            bind_address: self.bind_address,
            bind_interface: match &self.bind_interface {
                Some(i) => Some(i.clone()),
                None => None,
            },
            proxy_opts: self.proxy_opts,
            balancer: self.balancer.clone(),
            failover: self.failover,
        }
    }
}

/// Listen options.
#[derive(Debug)]
pub struct BindOpts {
    pub ipv6_only: bool,
    pub accept_mptcp: bool,
    pub bind_interface: Option<String>,
}

impl Default for BindOpts {
    fn default() -> (r: Self)
        ensures
            r == (BindOpts { ipv6_only: false, accept_mptcp: false, bind_interface: None }),
    {
        BindOpts { ipv6_only: false, accept_mptcp: false, bind_interface: None }
    }
}

impl Clone for BindOpts {
    fn clone(&self) -> (r: Self)
        ensures
            r == *self,
    {
        BindOpts {
            ipv6_only: self.ipv6_only,
            accept_mptcp: self.accept_mptcp,
            bind_interface: match &self.bind_interface {
                Some(i) => Some(i.clone()),
                None => None,
            },
        }
    }
}

/// Relay endpoint: a local listener, the primary remote and the extra
/// remotes, with the options of both sides.
#[derive(Debug)]
pub struct Endpoint {
    pub laddr: SockAddr,
    pub raddr: RemoteAddr,
    pub bind_opts: BindOpts,
    pub conn_opts: ConnectOpts,
    pub extra_raddrs: Vec<RemoteAddr>,
}

impl Clone for Endpoint {
    /// A copy; a round-robin balancer in it has a cursor of its own.
    fn clone(&self) -> (r: Self)
        ensures
            r.laddr == self.laddr,
            r.raddr == self.raddr,
            r.bind_opts == self.bind_opts,
            r.extra_raddrs@ == self.extra_raddrs@,
            r.conn_opts.balancer@ == self.conn_opts.balancer@,
            r.conn_opts.failover == self.conn_opts.failover,
            r.conn_opts.bind_address == self.conn_opts.bind_address,
            r.conn_opts.bind_interface == self.conn_opts.bind_interface,
            r.conn_opts.proxy_opts == self.conn_opts.proxy_opts,
            r.conn_opts.connect_timeout == self.conn_opts.connect_timeout,
            r.conn_opts.associate_timeout == self.conn_opts.associate_timeout,
    {
        let mut extra_raddrs: Vec<RemoteAddr> = Vec::new();
        let mut i: usize = 0;
        while i < self.extra_raddrs.len()
            invariant
                i <= self.extra_raddrs@.len(),
                extra_raddrs@ == self.extra_raddrs@.take(i as int),
            decreases self.extra_raddrs@.len() - i,
        {
            extra_raddrs.push(self.extra_raddrs[i].clone());
            proof {
                assert(extra_raddrs@ =~= self.extra_raddrs@.take(i + 1));
            }
            i += 1;
        }
        proof {
            assert(self.extra_raddrs@.take(i as int) =~= self.extra_raddrs@);
        }
        Endpoint {
            laddr: self.laddr,
            raddr: self.raddr.clone(),
            bind_opts: self.bind_opts.clone(),
            conn_opts: self.conn_opts.clone(),
            extra_raddrs,
        }
    }
}

/// `true` or `false`.
pub open spec fn bool_text(b: bool) -> Seq<char> {
    if b {
        "true"@
    } else {
        "false"@
    }
}

fn push_bool(out: &mut String, b: bool)
    ensures
        final(out)@ == old(out)@ + bool_text(b),
{
    if b {
        out.append("true");
    } else {
        out.append("false");
    }
}

/// The text of an optional setting: its label and its value, or nothing
/// where it is not set.
pub open spec fn labelled(label: Seq<char>, value: Option<Seq<char>>) -> Seq<char> {
    match value {
        Some(v) => label + v + ", "@,
        None => Seq::empty(),
    }
}

fn push_labelled(out: &mut String, label: &str, value: Option<&str>)
    ensures
        final(out)@ == old(out)@ + labelled(
            label@,
            match value {
                Some(v) => Some(v@),
                None => None,
            },
        ),
{
    match value {
        Some(v) => {
            out.append(label);
            out.append(v);
            out.append(", ");
            proof {
                assert(out@ =~= old(out)@ + (label@ + v@ + ", "@));
            }
        },
        None => {
            proof {
                assert(out@ =~= old(out)@ + Seq::<char>::empty());
            }
        },
    }
}

impl BindOpts {
    /// The options in words, for the log.
    pub open spec fn text(self) -> Seq<char> {
        labelled(
            "listen-iface="@,
            match self.bind_interface {
                Some(i) => Some(i@),
                None => None,
            },
        ) + "ipv6-only="@ + bool_text(self.ipv6_only) + ", accept-mptcp="@ + bool_text(
            self.accept_mptcp,
        )
    }

    /// Appends the options in words to `out`.
    pub fn push_text(&self, out: &mut String)
        ensures
            final(out)@ == old(out)@ + self.text(),
    {
        match &self.bind_interface {
            Some(iface) => {
                out.append("listen-iface=");
                out.append(iface.as_str());
                out.append(", ");
            },
            None => {},
        }
        out.append("ipv6-only=");
        push_bool(out, self.ipv6_only);
        out.append(", accept-mptcp=");
        push_bool(out, self.accept_mptcp);
        proof {
            assert(out@ =~= old(out)@ + self.text());
        }
    }

    /// The options in words.
    pub fn to_text(&self) -> (r: String)
        ensures
            r@ == self.text(),
    {
        let mut out = String::new();
        self.push_text(&mut out);
        proof {
            assert(out@ =~= self.text());
        }
        out
    }
}

impl ProxyOpts {
    /// The options in words, for the log.
    pub open spec fn text(self) -> Seq<char> {
        "send-proxy="@ + bool_text(self.send_proxy) + ", send-proxy-version="@ + decimal(
            self.send_proxy_version as nat,
        ) + ", accept-proxy="@ + bool_text(self.accept_proxy) + ", accept-proxy-timeout="@
            + decimal(self.accept_proxy_timeout as nat) + "s; "@
    }

    /// Appends the options in words to `out`.
    pub fn push_text(&self, out: &mut String)
        ensures
            final(out)@ == old(out)@ + self.text(),
    {
        out.append("send-proxy=");
        push_bool(out, self.send_proxy);
        out.append(", send-proxy-version=");
        push_decimal(out, self.send_proxy_version as u64);
        out.append(", accept-proxy=");
        push_bool(out, self.accept_proxy);
        out.append(", accept-proxy-timeout=");
        push_decimal(out, self.accept_proxy_timeout as u64);
        out.append("s; ");
        proof {
            assert(out@ =~= old(out)@ + self.text());
        }
    }
}

impl ConnectOpts {
    /// The timeouts in words.
    pub open spec fn timeouts_text(self) -> Seq<char> {
        "tcp-keepalive="@ + decimal(self.tcp_keepalive as nat) + "s["@ + decimal(
            self.tcp_keepalive_probe as nat,
        ) + "] connect-timeout="@ + decimal(self.connect_timeout as nat)
            + "s, associate-timeout="@ + decimal(self.associate_timeout as nat) + "s; "@
    }

    /// Where the endpoint sends from, in words.
    pub open spec fn sender_text(self) -> Seq<char> {
        labelled(
            "send-iface="@,
            match self.bind_interface {
                Some(i) => Some(i@),
                None => None,
            },
        ) + labelled(
            "send-through="@,
            match self.bind_address {
                Some(a) => Some(a.text()),
                None => None,
            },
        ) + "send-mptcp="@ + bool_text(self.send_mptcp) + "; "@
    }

    /// The options in words, for the log.
    pub open spec fn text(self) -> Seq<char> {
        self.sender_text() + self.proxy_opts.text() + self.timeouts_text() + "balance="@
            + self.balancer@.strategy().label()
    }

    fn push_sender(&self, out: &mut String)
        ensures
            final(out)@ == old(out)@ + self.sender_text(),
    {
        push_labelled(
            out,
            "send-iface=",
            match &self.bind_interface {
                Some(i) => Some(i.as_str()),
                None => None,
            },
        );
        let ghost first = out@;
        match &self.bind_address {
            Some(addr) => {
                let text = addr.to_text();
                push_labelled(out, "send-through=", Some(text.as_str()));
            },
            None => {
                push_labelled(out, "send-through=", None);
            },
        }
        let ghost second = out@;
        out.append("send-mptcp=");
        push_bool(out, self.send_mptcp);
        out.append("; ");
        proof {
            assert(out@ =~= second + ("send-mptcp="@ + bool_text(self.send_mptcp) + "; "@));
            assert(out@ =~= old(out)@ + self.sender_text());
        }
    }

    fn push_timeouts(&self, out: &mut String)
        ensures
            final(out)@ == old(out)@ + self.timeouts_text(),
    {
        out.append("tcp-keepalive=");
        push_decimal(out, self.tcp_keepalive as u64);
        out.append("s[");
        push_decimal(out, self.tcp_keepalive_probe as u64);
        out.append("] connect-timeout=");
        push_decimal(out, self.connect_timeout as u64);
        out.append("s, associate-timeout=");
        push_decimal(out, self.associate_timeout as u64);
        out.append("s; ");
        proof {
            assert(out@ =~= old(out)@ + self.timeouts_text());
        }
    }

    /// Appends the options in words to `out`.
    pub fn push_text(&self, out: &mut String)
        ensures
            final(out)@ == old(out)@ + self.text(),
    {
        self.push_sender(out);
        self.proxy_opts.push_text(out);
        self.push_timeouts(out);
        let ghost before = out@;
        out.append("balance=");
        out.append(self.balancer.strategy().name());
        proof {
            assert(out@ =~= before + ("balance="@ + self.balancer@.strategy().label()));
            assert(out@ =~= old(out)@ + self.text());
        }
    }

    /// The options in words.
    pub fn to_text(&self) -> (r: String)
        ensures
            r@ == self.text(),
    {
        let mut out = String::new();
        self.push_text(&mut out);
        proof {
            assert(out@ =~= self.text());
        }
        out
    }
}

/// The first `n` extra remotes in text, each after a bar.
pub open spec fn extras_text(extras: Seq<RemoteAddr>, n: nat) -> Seq<char>
    decreases n,
{
    if n == 0 || n > extras.len() {
        Seq::empty()
    } else {
        extras_text(extras, (n - 1) as nat) + "|"@ + extras[n - 1].text()
    }
}

impl Endpoint {
    /// The endpoint in words, for the log: where it listens, its remotes,
    /// and its options.
    pub open spec fn text(self) -> Seq<char> {
        self.laddr.text() + " -> ["@ + self.raddr.text() + extras_text(
            self.extra_raddrs@,
            self.extra_raddrs@.len(),
        ) + "]; options: "@ + self.bind_opts.text() + "; "@ + self.conn_opts.text()
    }

    /// The endpoint in words.
    pub fn to_text(&self) -> (r: String)
        ensures
            r@ == self.text(),
    {
        let mut out = self.laddr.to_text();
        out.append(" -> [");
        out.append(self.raddr.to_text().as_str());
        let ghost head = out@;
        let mut i: usize = 0;
        proof {
            assert(out@ =~= head + extras_text(self.extra_raddrs@, 0));
        }
        while i < self.extra_raddrs.len()
            invariant
                i <= self.extra_raddrs@.len(),
                out@ == head + extras_text(self.extra_raddrs@, i as nat),
            decreases self.extra_raddrs@.len() - i,
        {
            out.append("|");
            out.append(self.extra_raddrs[i].to_text().as_str());
            proof {
                assert(out@ =~= head + extras_text(self.extra_raddrs@, (i + 1) as nat));
            }
            i += 1;
        }
        out.append("]; options: ");
        self.bind_opts.push_text(&mut out);
        out.append("; ");
        self.conn_opts.push_text(&mut out);
        proof {
            assert(out@ =~= self.text());
        }
        out
    }

    /// The number of peers: the primary and the extra remotes.
    pub open spec fn peers(self) -> nat {
        1 + self.extra_raddrs@.len()
    }

    /// The remote that a peer index names: the primary for zero, else the
    /// extra remote before that position.
    pub fn peer_addr(&self, idx: u8) -> (r: Option<&RemoteAddr>)
        ensures
            r == if idx == 0 {
                Some(&self.raddr)
            } else if idx - 1 < self.extra_raddrs@.len() {
                Some(&self.extra_raddrs@[idx - 1])
            } else {
                None
            },
    {
        if idx == 0 {
            Some(&self.raddr)
        } else if ((idx - 1) as usize) < self.extra_raddrs.len() {
            Some(&self.extra_raddrs[(idx - 1) as usize])
        } else {
            None
        }
    }
}

} // verus!
