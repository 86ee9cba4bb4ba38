use realm::addr::IpAddress;
use realm::addr::SockAddr;
use realm::endpoint::RemoteAddr;
use realm::health::FailoverHealth;
use realm::report::connections_page;
use realm::report::limit_of;
use realm::report::page_of;
use realm::report::page_rows;
use realm::report::protocol_of;
use realm::report::route_backends;
use realm::report::route_report;
use realm::report::route_report_at;
use realm::report::sort_rows;
use realm::report::strategy_name;
use realm::report::ConnectionStats;
use realm::report::ConnectionsPageResponse;
use realm::report::ConnectionsQuery;
use realm::report::Protocol;
use realm::stats::BackendBytes;
use realm::stats::InstanceStats;
use realm::tcp::TcpObserver;
use realm::udp::UdpObserver;

fn peer(n: u32, port: u16) -> SockAddr {
    SockAddr { ip: IpAddress::V4(n), port }
}

fn row(ip: &str, duration_secs: u64) -> ConnectionStats {
    ConnectionStats {
        src_ip: ip.to_string(),
        src_port: 1,
        duration_secs,
        backend: "example.com:80".to_string(),
    }
}

fn ips(rows: &[ConnectionStats]) -> Vec<&str> {
    rows.iter().map(|r| r.src_ip.as_str()).collect()
}

fn query(protocol: Option<&str>, limit: Option<usize>, offset: Option<usize>) -> ConnectionsQuery {
    ConnectionsQuery { protocol: protocol.map(|p| p.to_string()), limit, offset }
}

fn get<'a, V>(list: &'a [(String, V)], key: &str) -> Option<&'a V> {
    list.iter().find(|(k, _)| k == key).map(|(_, v)| v)
}

#[test]
fn connections_endpoint_paging_and_protocol_validation() {
    let mut stats = InstanceStats::new();
    stats.on_connection_open(peer(0x0a00_0001, 1001));
    stats.on_connection_open(peer(0x0a00_0002, 1002));
    stats.on_connection_open(peer(0x0a00_0003, 1003));

    let err = connections_page(&stats, "i2", "example.com:80", &query(Some("bad"), None, None))
        .err()
        .expect("expected error for invalid protocol");
    assert_eq!(err.status, 400);
    assert_eq!(err.body.error.code, "invalid_query");

    let page = connections_page(&stats, "i2", "example.com:80", &query(Some("tcp"), Some(1), Some(1)))
        .unwrap();
    let ConnectionsPageResponse::Tcp(page) = page else {
        panic!("expected tcp response");
    };
    assert_eq!(page.protocol, "tcp");
    assert_eq!(page.total, 3);
    assert_eq!(page.limit, 1);
    assert_eq!(page.offset, 1);
    assert_eq!(page.connections.len(), 1);
}

#[test]
fn connections_endpoint_defaults_to_tcp_and_udp() {
    let stats = InstanceStats::new();
    let page = connections_page(&stats, "i4", "example.com:80", &query(None, None, None)).unwrap();
    let ConnectionsPageResponse::All(page) = page else {
        panic!("expected all response");
    };
    assert_eq!(page.protocol, "all");
    assert_eq!(page.tcp_total, 0);
    assert_eq!(page.udp_total, 0);
    assert_eq!(page.limit, 100);
    assert_eq!(page.offset, 0);
}

#[test]
fn connections_endpoint_udp_uses_sessions_field() {
    let mut stats = InstanceStats::new();
    stats.on_session_open(peer(0x0a00_0009, 9999));
    let page =
        connections_page(&stats, "i_udp", "example.com:80", &query(Some("UDP"), Some(10), Some(0)))
            .unwrap();
    let ConnectionsPageResponse::Udp(page) = page else {
        panic!("expected udp response");
    };
    assert_eq!(page.protocol, "udp");
    assert_eq!(page.total, 1);
    assert_eq!(page.sessions.len(), 1);
    assert_eq!(page.sessions[0].src_ip, "10.0.0.9");
    assert_eq!(page.sessions[0].src_port, 9999);
    assert_eq!(page.sessions[0].backend, "example.com:80");
}

#[test]
fn connections_endpoint_clamps_limit_and_handles_large_offset() {
    let mut stats = InstanceStats::new();
    stats.on_connection_open(peer(0x0a00_0001, 1001));
    let page =
        connections_page(&stats, "i5", "example.com:80", &query(Some("tcp"), Some(5000), Some(0)))
            .unwrap();
    let ConnectionsPageResponse::Tcp(page) = page else {
        panic!("expected tcp response");
    };
    assert_eq!(page.limit, 1000);

    let page2 =
        connections_page(&stats, "i5", "example.com:80", &query(Some("tcp"), Some(10), Some(999)))
            .unwrap();
    let ConnectionsPageResponse::Tcp(page2) = page2 else {
        panic!("expected tcp response");
    };
    assert_eq!(page2.total, 1);
    assert!(page2.connections.is_empty());
}

#[test]
fn connections_endpoint_sorts_by_duration_desc() {
    let rows = vec![row("10.0.0.1", 10), row("10.0.0.2", 30)];
    let page = page_of("i6", Protocol::Tcp, rows, vec![], 10, 0);
    let ConnectionsPageResponse::Tcp(page) = page else {
        panic!("expected tcp response");
    };
    assert_eq!(page.connections.len(), 2);
    assert!(page.connections[0].duration_secs >= page.connections[1].duration_secs);
    assert_eq!(page.connections[0].src_ip, "10.0.0.2");
}

#[test]
fn sorting_is_stable() {
    let rows = vec![row("a", 5), row("b", 9), row("c", 5), row("d", 9), row("e", 1), row("f", 5)];
    let sorted = sort_rows(rows);
    assert_eq!(ips(&sorted), vec!["b", "d", "a", "c", "f", "e"]);
    assert!(sort_rows(vec![]).is_empty());
    assert_eq!(ips(&sort_rows(vec![row("x", 0)])), vec!["x"]);
    let up = sort_rows((0..20).map(|d| row(&d.to_string(), d)).collect());
    assert_eq!(up[0].duration_secs, 19);
    assert_eq!(up[19].duration_secs, 0);
}

#[test]
fn pages_are_windows() {
    let rows = || (0..5).map(|d| row(&d.to_string(), 0)).collect::<Vec<_>>();
    assert_eq!(ips(&page_rows(rows(), 0, 2)), vec!["0", "1"]);
    assert_eq!(ips(&page_rows(rows(), 3, 10)), vec!["3", "4"]);
    assert_eq!(ips(&page_rows(rows(), 4, usize::MAX)), vec!["4"]);
    assert!(page_rows(rows(), 5, 1).is_empty());
    assert!(page_rows(rows(), usize::MAX, usize::MAX).is_empty());
    assert!(page_rows(rows(), 1, 0).is_empty());
    assert_eq!(limit_of(None), 100);
    assert_eq!(limit_of(Some(0)), 0);
    assert_eq!(limit_of(Some(1000)), 1000);
    assert_eq!(limit_of(Some(1001)), 1000);
}

#[test]
fn a_page_of_both() {
    let tcp = vec![row("t1", 1), row("t2", 2), row("t3", 3)];
    let udp = vec![row("u1", 9), row("u2", 8)];
    let ConnectionsPageResponse::All(page) = page_of("i", Protocol::All, tcp, udp, 1, 1) else {
        panic!("expected all response");
    };
    assert_eq!(page.id, "i");
    assert_eq!(page.tcp_total, 3);
    assert_eq!(page.udp_total, 2);
    assert_eq!(ips(&page.connections), vec!["t2"]);
    assert_eq!(ips(&page.sessions), vec!["u2"]);
    let ConnectionsPageResponse::Udp(page) =
        page_of("i", Protocol::Udp, vec![row("t", 1)], vec![row("u", 1)], 5, 0)
    else {
        panic!("expected udp response");
    };
    assert_eq!(ips(&page.sessions), vec!["u"]);
}

#[test]
fn protocols_by_name() {
    assert_eq!(protocol_of(None).unwrap(), Protocol::All);
    assert_eq!(protocol_of(Some("tcp")).unwrap(), Protocol::Tcp);
    assert_eq!(protocol_of(Some("udp")).unwrap(), Protocol::Udp);
    let e = protocol_of(Some("all")).unwrap_err();
    assert_eq!(e.status, 400);
    assert_eq!(e.body.error.code, "invalid_query");
    assert_eq!(e.body.error.message, "protocol must be `tcp` or `udp`");
    assert!(protocol_of(Some("")).is_err());
}

#[test]
fn http_route_endpoint_returns_preferred_and_last_success_backend() {
    let mut stats = InstanceStats::new();
    let mut health = FailoverHealth::new(2, 6000, 500, 30000);
    // force primary into backoff so preferred should switch to backup
    health.mark_fail(0);
    stats.on_failover_health(Some(health));
    let id = stats.on_connection_open(peer(1, 1));
    stats.on_connection_backend(id, &RemoteAddr::SocketAddr(peer(0x0202_0202, 443)));
    stats.on_connection_end(id, None);

    let route = route_report(
        &stats,
        "i_route",
        &Some("failover".to_string()),
        &"1.1.1.1:443".to_string(),
        &vec!["2.2.2.2:443".to_string()],
        "2024-01-01T00:00:00+00:00".to_string(),
    );
    assert_eq!(route.id, "i_route");
    assert_eq!(route.strategy, "failover");
    assert_eq!(route.preferred_backend.as_deref(), Some("2.2.2.2:443"));
    assert_eq!(route.last_success_backend.as_deref(), Some("2.2.2.2:443"));
    assert_eq!(route.backends.len(), 2);
    assert_eq!(route.backends[0].addr, "1.1.1.1:443");
    assert_eq!(route.backends[0].role, "primary");
    assert_eq!(route.backends[0].state, "backoff");
    assert!(route.backends[0].backoff_until_ms.is_some());
    assert_eq!(route.backends[1].addr, "2.2.2.2:443");
    assert_eq!(route.backends[1].role, "backup");
    assert!(["healthy", "unknown"].contains(&route.backends[1].state.as_str()));
    assert_eq!(route.updated_at, "2024-01-01T00:00:00+00:00");

    // no live connections/sessions -> maps are empty
    assert!(route.connections_by_backend.is_empty());
    assert!(route.bytes_by_backend.is_empty());
}

#[test]
fn http_route_endpoint_returns_backend_aggregates() {
    let mut stats = InstanceStats::new();
    let a = stats.on_connection_open(peer(0x0909_0909, 9999));
    stats.on_connection_backend(a, &RemoteAddr::SocketAddr(peer(0x0101_0101, 443)));
    stats.on_connection_bytes(a, 5, 6);
    let b = stats.on_connection_open(peer(0x0808_0808, 8888));
    stats.on_connection_backend(b, &RemoteAddr::SocketAddr(peer(0x0202_0202, 443)));
    stats.on_connection_bytes(b, 7, 8);

    let route = route_report(
        &stats,
        "i_route2",
        &Some("failover".to_string()),
        &"1.1.1.1:443".to_string(),
        &vec!["2.2.2.2:443".to_string()],
        "now".to_string(),
    );
    assert_eq!(route.id, "i_route2");
    assert_eq!(route.strategy, "failover");

    assert_eq!(get(&route.connections_by_backend, "1.1.1.1:443").copied(), Some(1));
    assert_eq!(get(&route.connections_by_backend, "2.2.2.2:443").copied(), Some(1));
    assert_eq!(route.connections_by_backend.len(), 2);

    assert_eq!(
        get(&route.bytes_by_backend, "1.1.1.1:443"),
        Some(&BackendBytes { inbound_bytes: 5, outbound_bytes: 6 })
    );
    assert_eq!(
        get(&route.bytes_by_backend, "2.2.2.2:443"),
        Some(&BackendBytes { inbound_bytes: 7, outbound_bytes: 8 })
    );
    assert_eq!(route.bytes_by_backend.len(), 2);
    // failover without health: nothing is known, the primary is preferred
    assert_eq!(route.preferred_backend.as_deref(), Some("1.1.1.1:443"));
    assert!(route.backends.iter().all(|b| b.state == "unknown" && !b.ok_recent));
}

#[test]
fn route_states_follow_the_health() {
    let addrs: Vec<String> = ["a:1", "b:1", "c:1", "d:1"].iter().map(|s| s.to_string()).collect();
    let mut h = FailoverHealth::new(3, 1_000, 500, 30_000);
    h.mark_fail_at(0, 100); // in backoff until 1100
    h.mark_ok_at(1, 100); // healthy until 1100
    h.mark_fail_at(2, 100);
    let (lines, preferred) = route_backends(&addrs, Some(&h), 200);
    let states: Vec<&str> = lines.iter().map(|l| l.state.as_str()).collect();
    // the fourth backend has no health
    assert_eq!(states, vec!["backoff", "healthy", "backoff", "unknown"]);
    assert_eq!(lines[0].backoff_until_ms, Some(1_100));
    assert_eq!(lines[1].backoff_until_ms, None);
    assert!(lines[1].ok_recent);
    assert_eq!(preferred, 1);
    // later: the backoff is over, the success is stale
    let (lines, preferred) = route_backends(&addrs, Some(&h), 5_000);
    let states: Vec<&str> = lines.iter().map(|l| l.state.as_str()).collect();
    assert_eq!(states, vec!["unhealthy", "unknown", "unhealthy", "unknown"]);
    assert_eq!(preferred, 0);
    // every backend in backoff: the primary is preferred
    let mut all = FailoverHealth::new(2, 1_000, 500, 30_000);
    all.mark_fail_at(0, 0);
    all.mark_fail_at(1, 0);
    let two: Vec<String> = addrs[..2].to_vec();
    let (_, preferred) = route_backends(&two, Some(&all), 1);
    assert_eq!(preferred, 0);
    // without health
    let (lines, preferred) = route_backends(&addrs, None, 0);
    assert_eq!(preferred, 0);
    assert!(lines.iter().all(|l| l.state == "unknown"));
    assert_eq!(lines[0].role, "primary");
    assert_eq!(lines[3].role, "backup");
}

#[test]
fn health_counts_under_failover_only() {
    let mut stats = InstanceStats::new();
    let mut health = FailoverHealth::new(2, 6000, 500, 30000);
    health.mark_fail_at(0, 0);
    stats.on_failover_health(Some(health));
    let route = route_report_at(
        &stats,
        "i",
        "roundrobin".to_string(),
        &"a:1".to_string(),
        &vec!["b:1".to_string()],
        1,
        "t".to_string(),
    );
    assert_eq!(route.preferred_backend.as_deref(), Some("a:1"));
    assert_eq!(route.backends[0].state, "unknown");
    let route = route_report_at(
        &stats,
        "i",
        "failover".to_string(),
        &"a:1".to_string(),
        &vec!["b:1".to_string()],
        1,
        "t".to_string(),
    );
    assert_eq!(route.preferred_backend.as_deref(), Some("b:1"));
    assert_eq!(route.backends[0].state, "backoff");
}

#[test]
fn strategy_names_in_reports() {
    assert_eq!(strategy_name(&None), "off");
    assert_eq!(strategy_name(&Some(" Failover : 1, 2".to_string())), "Failover");
    assert_eq!(strategy_name(&Some("iphash".to_string())), "iphash");
    assert_eq!(strategy_name(&Some(":".to_string())), "");
    let stats = InstanceStats::new();
    let route =
        route_report(&stats, "i", &Some(" FailOver :1".to_string()), &"a:1".to_string(), &vec![], "t".to_string());
    assert_eq!(route.strategy, "failover");
    let route = route_report(&stats, "i", &None, &"a:1".to_string(), &vec![], "t".to_string());
    assert_eq!(route.strategy, "off");
    assert_eq!(route.backends.len(), 1);
}
