use realm::addr::IpAddress;
use realm::addr::SockAddr;
use realm::balancer::Strategy;
use realm::conf::strip_brackets;
use realm::conf::EndpointBuildError;
use realm::conf::EndpointConf;
use realm::conf::Lookup;
use realm::conf::NetConf;
use realm::conf::Resolved;
use realm::endpoint::FailoverOpts;
use realm::endpoint::RemoteAddr;

fn local(port: u16) -> SockAddr {
    SockAddr { ip: IpAddress::V4(0x7f00_0001), port }
}

/// What resolving gives for a configuration that listens on `127.0.0.1:0`
/// and names remotes by host name.
fn resolved_local() -> Resolved {
    Resolved {
        listen: Lookup::Found(local(0)),
        remote: None,
        extra_remotes: vec![],
        through: Lookup::Nothing,
        through_ip: Err("invalid IP address syntax".to_string()),
    }
}

fn conf(listen: &str, remote: &str) -> EndpointConf {
    EndpointConf {
        listen: listen.to_string(),
        remote: remote.to_string(),
        extra_remotes: vec![],
        balance: None,
        through: None,
        interface: None,
        listen_interface: None,
        listen_transport: None,
        remote_transport: None,
        network: Default::default(),
    }
}

#[test]
fn invalid_remote_missing_host_returns_error() {
    let conf = EndpointConf {
        listen: "127.0.0.1:0".to_string(),
        remote: "example.com".to_string(),
        extra_remotes: vec![],
        balance: None,
        through: None,
        interface: None,
        listen_interface: None,
        listen_transport: None,
        remote_transport: None,
        network: Default::default(),
    };

    let err = conf.try_build(&resolved_local()).unwrap_err();
    let msg = err.to_text();
    assert!(msg.contains("invalid `remote`"));
    assert!(msg.contains("missing host"));
}

#[test]
fn invalid_remote_empty_host_returns_error() {
    let conf = EndpointConf {
        listen: "127.0.0.1:0".to_string(),
        remote: ":80".to_string(),
        extra_remotes: vec![],
        balance: None,
        through: None,
        interface: None,
        listen_interface: None,
        listen_transport: None,
        remote_transport: None,
        network: Default::default(),
    };

    let err = conf.try_build(&resolved_local()).unwrap_err();
    let msg = err.to_text();
    assert!(msg.contains("invalid `remote`"));
    assert!(msg.contains("empty host"));
}

#[test]
fn invalid_remote_bad_port_returns_error() {
    let conf = EndpointConf {
        listen: "127.0.0.1:0".to_string(),
        remote: "example.com:99999".to_string(),
        extra_remotes: vec![],
        balance: None,
        through: None,
        interface: None,
        listen_interface: None,
        listen_transport: None,
        remote_transport: None,
        network: Default::default(),
    };

    let err = conf.try_build(&resolved_local()).unwrap_err();
    let msg = err.to_text();
    assert!(msg.contains("invalid `remote`"));
    assert!(msg.contains("invalid port"));
}

#[test]
fn invalid_through_returns_error() {
    let conf = EndpointConf {
        listen: "127.0.0.1:0".to_string(),
        remote: "example.com:80".to_string(),
        extra_remotes: vec![],
        balance: None,
        through: Some("not-an-addr".to_string()),
        interface: None,
        listen_interface: None,
        listen_transport: None,
        remote_transport: None,
        network: Default::default(),
    };

    // `not-an-addr` can neither be looked up nor read as an IP address
    let resolved = Resolved {
        through: Lookup::Failed("invalid socket address".to_string()),
        ..resolved_local()
    };
    let err = conf.try_build(&resolved).unwrap_err();
    let msg = err.to_text();
    assert!(msg.contains("invalid `through`"));
}

#[test]
fn balance_unknown_strategy_returns_error_instead_of_panic() {
    let conf = EndpointConf {
        listen: "127.0.0.1:0".to_string(),
        remote: "example.com:80".to_string(),
        extra_remotes: vec![],
        balance: Some("unknown: 1,2,3".to_string()),
        through: None,
        interface: None,
        listen_interface: None,
        listen_transport: None,
        remote_transport: None,
        network: Default::default(),
    };

    let err = conf.try_build(&resolved_local()).unwrap_err();
    let msg = err.to_text();
    assert!(msg.contains("invalid `balance`"));
    assert!(msg.contains("unknown strategy"));
}

#[test]
fn balance_failover_without_weights_infers_peer_count() {
    let conf = EndpointConf {
        listen: "127.0.0.1:0".to_string(),
        remote: "example.com:80".to_string(),
        extra_remotes: vec!["example.org:80".to_string(), "example.net:80".to_string()],
        balance: Some("failover".to_string()),
        through: None,
        interface: None,
        listen_interface: None,
        listen_transport: None,
        remote_transport: None,
        network: Default::default(),
    };

    let info = conf.try_build(&resolved_local()).unwrap();
    assert_eq!(info.endpoint.conn_opts.balancer.strategy(), Strategy::Failover);
    assert_eq!(info.endpoint.conn_opts.balancer.total(), 3);
}

#[test]
fn balance_failover_requires_remote_highest_weight() {
    let conf = EndpointConf {
        listen: "127.0.0.1:0".to_string(),
        remote: "example.com:80".to_string(),
        extra_remotes: vec!["example.org:80".to_string(), "example.net:80".to_string()],
        balance: Some("failover: 1, 2, 1".to_string()),
        through: None,
        interface: None,
        listen_interface: None,
        listen_transport: None,
        remote_transport: None,
        network: Default::default(),
    };

    let err = conf.try_build(&resolved_local()).unwrap_err();
    let msg = err.to_text();
    assert!(msg.contains("invalid `balance`"));
    assert!(msg.contains("highest weight"));
}

#[test]
fn invalid_listen_returns_error() {
    let conf = EndpointConf {
        listen: "not-a-socket-addr".to_string(),
        remote: "example.com:80".to_string(),
        extra_remotes: vec![],
        balance: None,
        through: None,
        interface: None,
        listen_interface: None,
        listen_transport: None,
        remote_transport: None,
        network: Default::default(),
    };

    let resolved = Resolved {
        listen: Lookup::Failed("invalid socket address".to_string()),
        ..resolved_local()
    };
    let err = conf.try_build(&resolved).unwrap_err();
    assert!(matches!(err, EndpointBuildError::InvalidListen(_)));
}

#[test]
fn listen_that_resolves_to_nothing_is_invalid() {
    let resolved = Resolved { listen: Lookup::Nothing, ..resolved_local() };
    let err = conf("localhost:0", "example.com:80").try_build(&resolved).unwrap_err();
    assert_eq!(err.to_text(), "invalid `listen`: no address resolved");
}

#[test]
fn build_takes_addresses_and_defaults() {
    let mut c = conf("127.0.0.1:0", "1.2.3.4:80");
    c.extra_remotes = vec!["example.org:8080".to_string()];
    c.through = Some("10.0.0.1".to_string());
    c.interface = Some("eth0".to_string());
    c.listen_interface = Some("lo".to_string());
    let resolved = Resolved {
        listen: Lookup::Found(local(0)),
        remote: Some(SockAddr { ip: IpAddress::V4(0x0102_0304), port: 80 }),
        extra_remotes: vec![None],
        through: Lookup::Failed("invalid socket address".to_string()),
        through_ip: Ok(IpAddress::V4(0x0a00_0001)),
    };
    let info = c.try_build(&resolved).unwrap();
    assert!(!info.no_tcp);
    assert!(!info.use_udp);
    assert_eq!(info.endpoint.laddr, local(0));
    assert_eq!(info.endpoint.raddr.to_text(), "1.2.3.4:80");
    assert!(matches!(info.endpoint.raddr, RemoteAddr::SocketAddr(_)));
    assert_eq!(info.endpoint.extra_raddrs.len(), 1);
    assert_eq!(info.endpoint.extra_raddrs[0].to_text(), "example.org:8080");
    assert_eq!(
        info.endpoint.conn_opts.bind_address,
        Some(SockAddr { ip: IpAddress::V4(0x0a00_0001), port: 0 })
    );
    assert_eq!(info.endpoint.conn_opts.bind_interface.as_deref(), Some("eth0"));
    assert_eq!(info.endpoint.bind_opts.bind_interface.as_deref(), Some("lo"));
    assert_eq!(info.endpoint.conn_opts.connect_timeout, 5);
    assert_eq!(info.endpoint.conn_opts.associate_timeout, 30);
    assert_eq!(info.endpoint.conn_opts.tcp_keepalive, 15);
    assert_eq!(info.endpoint.conn_opts.tcp_keepalive_probe, 3);
    assert_eq!(info.endpoint.conn_opts.proxy_opts.send_proxy_version, 2);
    assert!(!info.endpoint.conn_opts.proxy_opts.enabled());
    assert_eq!(info.endpoint.conn_opts.balancer.strategy(), Strategy::Off);
    assert_eq!(info.endpoint.conn_opts.failover.probe_interval_ms, 2_000);
}

#[test]
fn network_with_neither_tcp_nor_udp_is_invalid() {
    let mut c = conf("127.0.0.1:0", "example.com:80");
    c.network.no_tcp = Some(true);
    let err = c.try_build(&resolved_local()).unwrap_err();
    assert!(matches!(err, EndpointBuildError::NoTransportEnabled));
    assert_eq!(err.to_text(), "invalid `network`: both tcp and udp are disabled");

    let mut c = conf("127.0.0.1:0", "example.com:80");
    c.network.no_tcp = Some(true);
    c.network.use_udp = Some(true);
    let info = c.try_build(&resolved_local()).unwrap();
    assert!(info.no_tcp);
    assert!(info.use_udp);
}

#[test]
fn errors_come_in_order() {
    // listen before remote
    let resolved = Resolved { listen: Lookup::Nothing, ..resolved_local() };
    let err = conf("x", "example.com").try_build(&resolved).unwrap_err();
    assert!(matches!(err, EndpointBuildError::InvalidListen(_)));
    // remote before extra remotes, extra remotes before balance
    let mut c = conf("127.0.0.1:0", "example.com:80");
    c.extra_remotes = vec!["ok.example:1".to_string(), "bad".to_string()];
    c.balance = Some("nonsense".to_string());
    let err = c.try_build(&resolved_local()).unwrap_err();
    assert_eq!(err.to_text(), "invalid `remote`: missing host");
    // balance before through
    let mut c = conf("127.0.0.1:0", "example.com:80");
    c.balance = Some("nonsense".to_string());
    c.through = Some("x".to_string());
    let err = c.try_build(&resolved_local()).unwrap_err();
    assert!(matches!(err, EndpointBuildError::InvalidBalance(_)));
}

#[test]
fn remote_is_split_at_the_last_colon() {
    match EndpointConf::try_build_remote_x("example.com:80", None).unwrap() {
        RemoteAddr::DomainName(host, port) => {
            assert_eq!(host, "example.com");
            assert_eq!(port, 80);
        }
        other => panic!("unexpected {:?}", other),
    }
    match EndpointConf::try_build_remote_x("a:b:+443", None).unwrap() {
        RemoteAddr::DomainName(host, port) => {
            assert_eq!(host, "a:b");
            assert_eq!(port, 443);
        }
        other => panic!("unexpected {:?}", other),
    }
    let err = EndpointConf::try_build_remote_x("example.com:65536", None).unwrap_err();
    assert_eq!(err.to_text(), "invalid `remote`: invalid port `65536`");
    let err = EndpointConf::try_build_remote_x("example.com:", None).unwrap_err();
    assert_eq!(err.to_text(), "invalid `remote`: invalid port ``");
    let ok = EndpointConf::try_build_remote_x("example.com:65535", None).unwrap();
    assert_eq!(ok.to_text(), "example.com:65535");
    let lit = SockAddr { ip: IpAddress::V6(1), port: 53 };
    let ok = EndpointConf::try_build_remote_x("[::1]:53", Some(lit)).unwrap();
    assert_eq!(ok.to_text(), "[::1]:53");
}

#[test]
fn balancer_is_built_from_the_balance_string() {
    let try_build_balancer = |balance: &Option<String>, extras: usize| {
        let mut c = conf("127.0.0.1:0", "example.com:80");
        c.balance = balance.clone();
        c.extra_remotes = (0..extras).map(|i| format!("extra{}.example:80", i)).collect();
        c.try_build_balancer()
    };
    // with explicit weights
    let b = try_build_balancer(&Some("failover: 2, 1, 1".to_string()), 2).unwrap();
    assert_eq!(b.strategy(), Strategy::Failover);
    assert_eq!(b.total(), 3);
    // an empty right-hand side: every peer weighs one
    let b = try_build_balancer(&Some("failover:".to_string()), 2).unwrap();
    assert_eq!(b.strategy(), Strategy::Failover);
    assert_eq!(b.total(), 3);
    // the name may be in capitals
    let b = try_build_balancer(&Some(" RoundRobin : 1,, 2 ,".to_string()), 5).unwrap();
    assert_eq!(b.strategy(), Strategy::RoundRobin);
    assert_eq!(b.total(), 2);
    // nothing configured
    let b = try_build_balancer(&None, 3).unwrap();
    assert_eq!(b.strategy(), Strategy::Off);
    assert_eq!(b.total(), 0);
    // errors
    let e = try_build_balancer(&Some("failover: 1, 2".to_string()), 2).unwrap_err();
    assert_eq!(
        e.to_text(),
        "invalid `balance`: failover requires 3 weights (remote + extra_remotes), got 2"
    );
    let e = try_build_balancer(&Some("iphash: 1, x".to_string()), 2).unwrap_err();
    assert_eq!(e.to_text(), "invalid `balance`: invalid weight `x` (expected 0-255 integer)");
    // without balancing the weights are left aside, however many there are
    let many = format!("off: {}", vec!["1"; 256].join(","));
    let b = try_build_balancer(&Some(many), 0).unwrap();
    assert_eq!(b.strategy(), Strategy::Off);
    assert_eq!(b.total(), 0);
    let many = format!("iphash: {}", vec!["1"; 256].join(","));
    let e = try_build_balancer(&Some(many), 0).unwrap_err();
    assert_eq!(e.to_text(), "invalid `balance`: too many weights (at most 255)");
    let e = try_build_balancer(&Some("iphash: 256".to_string()), 0).unwrap_err();
    assert_eq!(e.to_text(), "invalid `balance`: invalid weight `256` (expected 0-255 integer)");
    let e = try_build_balancer(&Some("Best: 1".to_string()), 0).unwrap_err();
    assert_eq!(
        e.to_text(),
        "invalid `balance`: unknown strategy `best` (expected one of: off, failover, iphash, roundrobin)"
    );
    let e = try_build_balancer(&Some("failover: 1, 1, 2".to_string()), 2).unwrap_err();
    assert_eq!(
        e.to_text(),
        "invalid `balance`: failover requires `remote` to have the highest weight"
    );
    // equal weights do not dominate
    assert!(try_build_balancer(&Some("failover: 2, 2".to_string()), 1).is_ok());
}

#[test]
fn network_inherits_what_it_does_not_set() {
    let mut own = NetConf::default();
    assert!(own.is_empty());
    own.tcp_timeout = Some(9);
    assert!(!own.is_empty());
    let mut global = NetConf::default();
    global.tcp_timeout = Some(5);
    global.use_udp = Some(true);
    global.failover = Some(FailoverOpts { probe_interval_ms: 1, ..FailoverOpts::default() });
    own.take_field(&global);
    assert_eq!(own.tcp_timeout, Some(9));
    assert_eq!(own.use_udp, Some(true));
    let info = own.build();
    assert_eq!(info.conn_opts.connect_timeout, 9);
    assert!(info.use_udp);
    // the failover options are sanitized at build
    assert_eq!(info.conn_opts.failover.probe_interval_ms, 200);
    // inheriting again changes nothing
    let before = own;
    own.take_field(&global);
    assert_eq!(own.tcp_timeout, before.tcp_timeout);
    assert_eq!(own.use_udp, before.use_udp);
}

#[test]
fn brackets_are_stripped() {
    assert_eq!(strip_brackets("[::1]"), "::1");
    assert_eq!(strip_brackets("10.0.0.1"), "10.0.0.1");
    assert_eq!(strip_brackets("[[a]b]"), "ab");
    assert_eq!(strip_brackets(""), "");
}

#[test]
fn through_is_looked_up_or_read_as_an_address() {
    let mut c = conf("127.0.0.1:0", "example.com:80");
    c.through = Some("gateway.example:0".to_string());
    let found = Resolved {
        through: Lookup::Found(SockAddr { ip: IpAddress::V4(0x0a00_0002), port: 7 }),
        ..resolved_local()
    };
    let info = c.clone().try_build(&found).unwrap();
    assert_eq!(
        info.endpoint.conn_opts.bind_address,
        Some(SockAddr { ip: IpAddress::V4(0x0a00_0002), port: 7 })
    );
    let nothing = Resolved { through: Lookup::Nothing, ..resolved_local() };
    let err = c.clone().try_build(&nothing).unwrap_err();
    assert_eq!(err.to_text(), "invalid `through`: no address resolved");
    let failed = Resolved {
        through: Lookup::Failed("no such host".to_string()),
        through_ip: Err("invalid IP address syntax".to_string()),
        ..resolved_local()
    };
    let err = c.clone().try_build(&failed).unwrap_err();
    assert_eq!(err.to_text(), "invalid `through`: invalid IP address syntax");
    // nothing is looked at where `through` is not set
    let unset = conf("127.0.0.1:0", "example.com:80");
    assert!(unset.try_build(&failed).unwrap().endpoint.conn_opts.bind_address.is_none());
}
