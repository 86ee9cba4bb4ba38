use realm::addr::IpAddress;
use realm::addr::SockAddr;
use realm::balancer::Balancer;
use realm::balancer::Strategy;
use realm::endpoint::BindOpts;
use realm::endpoint::ConnectOpts;
use realm::endpoint::Endpoint;
use realm::endpoint::FailoverOpts;
use realm::endpoint::ProxyOpts;
use realm::endpoint::RemoteAddr;

fn opts(v: u64) -> FailoverOpts {
    FailoverOpts {
        probe_interval_ms: v,
        probe_timeout_ms: v,
        failfast_timeout_ms: v,
        ok_ttl_ms: v,
        backoff_base_ms: v,
        backoff_max_ms: v,
        retry_window_ms: v,
        retry_sleep_ms: v,
    }
}

fn fields(o: &FailoverOpts) -> [u64; 8] {
    [
        o.probe_interval_ms,
        o.probe_timeout_ms,
        o.failfast_timeout_ms,
        o.ok_ttl_ms,
        o.backoff_base_ms,
        o.backoff_max_ms,
        o.retry_window_ms,
        o.retry_sleep_ms,
    ]
}

#[test]
fn sanitize_clamps_every_field() {
    // zero switches a feature off and stays zero
    let mut o = opts(0);
    o.sanitize();
    assert_eq!(fields(&o), [0, 0, 0, 0, 0, 0, 0, 0]);
    // too small
    let mut o = opts(1);
    o.sanitize();
    assert_eq!(fields(&o), [200, 50, 50, 200, 50, 100, 1, 10]);
    // too large
    let mut o = opts(u64::MAX);
    o.sanitize();
    assert_eq!(fields(&o), [60_000, 10_000, 10_000, 120_000, 10_000, 600_000, 600_000, 10_000]);
    // in bounds
    let mut o = opts(5_000);
    o.sanitize();
    assert_eq!(fields(&o), [5_000; 8]);
}

#[test]
fn sanitize_keeps_the_ceiling_above_the_base() {
    let mut o = FailoverOpts { backoff_base_ms: 5_000, backoff_max_ms: 200, ..FailoverOpts::default() };
    o.sanitize();
    assert_eq!(o.backoff_base_ms, 5_000);
    assert_eq!(o.backoff_max_ms, 5_000);
    // a ceiling of zero stays zero
    let mut o = FailoverOpts { backoff_base_ms: 5_000, backoff_max_ms: 0, ..FailoverOpts::default() };
    o.sanitize();
    assert_eq!(o.backoff_max_ms, 0);
}

#[test]
fn sanitize_leaves_the_sleep_alone_without_a_window() {
    let mut o = FailoverOpts { retry_window_ms: 0, retry_sleep_ms: 1, ..FailoverOpts::default() };
    o.sanitize();
    assert_eq!(o.retry_sleep_ms, 1);
    let mut o = FailoverOpts { retry_window_ms: 1, retry_sleep_ms: 0, ..FailoverOpts::default() };
    o.sanitize();
    assert_eq!(o.retry_sleep_ms, 10);
}

#[test]
fn sanitize_is_idempotent() {
    for v in [0u64, 1, 49, 50, 99, 100, 199, 200, 9_999, 10_001, 60_001, 600_001, u64::MAX] {
        for w in [0u64, 7, 20_000, 700_000] {
            let mut o = opts(v);
            o.backoff_max_ms = w;
            o.retry_sleep_ms = w;
            o.sanitize();
            let once = fields(&o);
            o.sanitize();
            assert_eq!(fields(&o), once);
        }
    }
}

#[test]
fn default_failover_options() {
    let o = FailoverOpts::default();
    assert_eq!(fields(&o), [2_000, 200, 250, 6_000, 500, 30_000, 0, 200]);
    let mut s = o;
    s.sanitize();
    assert_eq!(fields(&s), fields(&o));
}

#[test]
fn proxy_is_enabled_by_either_side() {
    let mut p = ProxyOpts::default();
    assert!(!p.enabled());
    p.send_proxy = true;
    assert!(p.enabled());
    p.send_proxy = false;
    p.accept_proxy = true;
    assert!(p.enabled());
}

#[test]
fn remote_addresses_in_text() {
    let v4 = RemoteAddr::SocketAddr(SockAddr { ip: IpAddress::V4(0xc0a8_0001), port: 8080 });
    assert_eq!(v4.to_text(), "192.168.0.1:8080");
    let zero = RemoteAddr::SocketAddr(SockAddr { ip: IpAddress::V4(0), port: 0 });
    assert_eq!(zero.to_text(), "0.0.0.0:0");
    let v6 = RemoteAddr::SocketAddr(SockAddr {
        ip: IpAddress::V6(0x2001_0db8_0000_0000_0000_0000_0000_00ff),
        port: 443,
    });
    assert_eq!(v6.to_text(), "[2001:db8::ff]:443");
    let name = RemoteAddr::DomainName("backup.example".to_string(), 80);
    assert_eq!(name.to_text(), "backup.example:80");
    assert_eq!(name.clone().to_text(), "backup.example:80");
    assert_eq!(IpAddress::V4(0x0102_0304).to_octets(), vec![1, 2, 3, 4]);
    assert_eq!(IpAddress::V6(1).to_octets().len(), 16);
    assert_eq!(IpAddress::V6(0x0100).to_octets()[14], 1);
}

#[test]
fn options_in_words() {
    let bind = BindOpts { ipv6_only: true, accept_mptcp: false, bind_interface: None };
    assert_eq!(bind.to_text(), "ipv6-only=true, accept-mptcp=false");
    let bind = BindOpts { ipv6_only: false, accept_mptcp: true, bind_interface: Some("lo".to_string()) };
    assert_eq!(bind.to_text(), "listen-iface=lo, ipv6-only=false, accept-mptcp=true");
    let conn = ConnectOpts {
        send_mptcp: false,
        connect_timeout: 5,
        associate_timeout: 30,
        tcp_keepalive: 15,
        tcp_keepalive_probe: 3,
        bind_address: None,
        bind_interface: None,
        proxy_opts: ProxyOpts {
            send_proxy: true,
            accept_proxy: false,
            send_proxy_version: 2,
            accept_proxy_timeout: 5,
        },
        balancer: Balancer::new(Strategy::Failover, &[1, 1]),
        failover: FailoverOpts::default(),
    };
    assert_eq!(
        conn.to_text(),
        "send-mptcp=false; send-proxy=true, send-proxy-version=2, accept-proxy=false, \
         accept-proxy-timeout=5s; tcp-keepalive=15s[3] connect-timeout=5s, \
         associate-timeout=30s; balance=failover"
    );
    let endpoint = Endpoint {
        laddr: SockAddr { ip: IpAddress::V4(0x7f00_0001), port: 5000 },
        raddr: RemoteAddr::DomainName("primary.example".to_string(), 80),
        bind_opts: bind,
        conn_opts: ConnectOpts {
            bind_address: Some(SockAddr { ip: IpAddress::V4(0x0a00_0001), port: 0 }),
            bind_interface: Some("eth0".to_string()),
            balancer: Balancer::default(),
            ..conn
        },
        extra_raddrs: vec![
            RemoteAddr::DomainName("backup.example".to_string(), 80),
            RemoteAddr::SocketAddr(SockAddr { ip: IpAddress::V4(0x0102_0304), port: 81 }),
        ],
    };
    assert_eq!(
        endpoint.to_text(),
        "127.0.0.1:5000 -> [primary.example:80|backup.example:80|1.2.3.4:81]; options: \
         listen-iface=lo, ipv6-only=false, accept-mptcp=true; send-iface=eth0, \
         send-through=10.0.0.1:0, send-mptcp=false; send-proxy=true, send-proxy-version=2, \
         accept-proxy=false, accept-proxy-timeout=5s; tcp-keepalive=15s[3] connect-timeout=5s, \
         associate-timeout=30s; balance=off"
    );
}

fn v6_text(bits: u128) -> String {
    let mut out = String::new();
    IpAddress::V6(bits).push_text(&mut out);
    out
}

#[test]
fn ipv6_addresses_in_text() {
    assert_eq!(v6_text(0), "::");
    assert_eq!(v6_text(1), "::1");
    assert_eq!(v6_text(0x0001_0000_0000_0000_0000_0000_0000_0000), "1::");
    assert_eq!(v6_text(0xfe80_0000_0000_0000_0000_0000_0000_0001), "fe80::1");
    // a single zero group is written out
    assert_eq!(v6_text(0x2001_0db8_0000_0001_0001_0001_0001_0001), "2001:db8:0:1:1:1:1:1");
    // the first of two runs of equal length
    assert_eq!(v6_text(0x2001_0000_0000_0001_0000_0000_0001_0001), "2001::1:0:0:1:1");
    // the longer of two runs
    assert_eq!(v6_text(0x2001_0000_0000_0001_0000_0000_0000_0001), "2001:0:0:1::1");
    assert_eq!(v6_text(0x0001_0002_0003_0004_0005_0006_0007_0008), "1:2:3:4:5:6:7:8");
    assert_eq!(v6_text(0xffff_ffff_ffff_ffff_ffff_ffff_ffff_ffff), "ffff:ffff:ffff:ffff:ffff:ffff:ffff:ffff");
    // IPv4-mapped
    assert_eq!(v6_text(0x0000_0000_0000_0000_0000_ffff_c0a8_0001), "::ffff:192.168.0.1");
    assert_eq!(v6_text(0x0000_0000_0000_0000_0000_ffff_0000_0000), "::ffff:0.0.0.0");
    // not mapped: the high bits are not zero
    assert_eq!(v6_text(0x0001_0000_0000_0000_0000_ffff_c0a8_0001), "1::ffff:c0a8:1");
}
