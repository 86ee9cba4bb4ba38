use realm::addr::IpAddress;
use realm::addr::SockAddr;
use realm::balancer::Balancer;
use realm::balancer::Strategy;
use realm::balancer::Token;
use realm::endpoint::BindOpts;
use realm::endpoint::ConnectOpts;
use realm::endpoint::Endpoint;
use realm::endpoint::FailoverOpts;
use realm::endpoint::ProxyOpts;
use realm::endpoint::RemoteAddr;
use realm::health::FailoverHealth;
use realm::tcp::candidate_peers;
use realm::tcp::endpoint_health;
use realm::tcp::fold_probe;
use realm::tcp::pass_peers;
use realm::tcp::probe_plan;
use realm::tcp::ConnectAction;
use realm::tcp::ConnectEvent;
use realm::tcp::ConnectFailure;
use realm::tcp::ConnectPlan;
use realm::tcp::CountDirection;
use realm::tcp::CLIENT_POLL_MS;

fn failover_tokens(n: u8) -> Vec<Token> {
    (0..n).map(Token).collect()
}

fn opts(retry_window_ms: u64) -> FailoverOpts {
    FailoverOpts { retry_window_ms, retry_sleep_ms: 20, ..FailoverOpts::default() }
}

fn connect(action: ConnectAction<String>) -> (u8, Option<u64>) {
    match action {
        ConnectAction::Connect { idx, failfast_ms } => (idx, failfast_ms),
        other => panic!("expected a connect, got {:?}", other),
    }
}

fn endpoint(strategy: Strategy, extras: usize, failover: FailoverOpts) -> Endpoint {
    let weights = vec![1u8; extras + 1];
    Endpoint {
        laddr: SockAddr { ip: IpAddress::V4(0x7f00_0001), port: 0 },
        raddr: RemoteAddr::DomainName("primary.example".to_string(), 80),
        bind_opts: BindOpts::default(),
        conn_opts: ConnectOpts {
            send_mptcp: false,
            connect_timeout: 0,
            associate_timeout: 0,
            tcp_keepalive: 0,
            tcp_keepalive_probe: 0,
            bind_address: None,
            bind_interface: None,
            proxy_opts: ProxyOpts::default(),
            balancer: Balancer::new(strategy, &weights),
            failover,
        },
        extra_raddrs: (0..extras)
            .map(|i| RemoteAddr::DomainName(format!("backup{}.example", i), 80))
            .collect(),
    }
}

#[test]
fn candidates_are_the_peers_that_the_tokens_name() {
    assert_eq!(candidate_peers(&failover_tokens(3), 2), vec![0, 1, 2]);
    // a token that names no peer is left out
    assert_eq!(candidate_peers(&failover_tokens(4), 2), vec![0, 1, 2]);
    assert_eq!(candidate_peers(&vec![Token(2), Token(9), Token(0)], 2), vec![2, 0]);
    // nothing left: the primary
    assert_eq!(candidate_peers(&vec![Token(5)], 1), vec![0]);
    assert_eq!(candidate_peers(&vec![], 0), vec![0]);
}

#[test]
fn a_pass_leaves_out_peers_in_backoff() {
    let mut h = FailoverHealth::new(3, 6_000, 500, 30_000);
    h.mark_fail_at(0, 100);
    assert_eq!(pass_peers(&vec![0, 1, 2], Some(&h), 200), vec![1, 2]);
    // once the backoff is over the peer is back
    assert_eq!(pass_peers(&vec![0, 1, 2], Some(&h), 1_100), vec![0, 1, 2]);
    // every peer in backoff: all of them are tried
    h.mark_fail_at(1, 100);
    h.mark_fail_at(2, 100);
    assert_eq!(pass_peers(&vec![0, 1, 2], Some(&h), 200), vec![0, 1, 2]);
    // without health every candidate is tried
    assert_eq!(pass_peers(&vec![2, 0], None, 200), vec![2, 0]);
}

#[test]
fn failover_with_primary_outage() {
    // the primary refuses, the backup accepts
    let mut h = FailoverHealth::new(2, 6_000, 500, 30_000);
    let mut plan = ConnectPlan::new(&failover_tokens(2), 1, Strategy::Failover, &opts(0));
    let a = plan.step(Some(&mut h), ConnectEvent::<String>::ClientOpen, 10, 0);
    // nothing is known of the primary yet: the attempt is bounded
    assert_eq!(connect(a), (0, Some(250)));
    let a = plan.step(Some(&mut h), ConnectEvent::Failed("refused".to_string()), 20, 10);
    assert_eq!(connect(a), (1, Some(250)));
    // after the first candidate the primary is in backoff
    let s = h.peer_snapshot_at(0, 20).unwrap();
    assert!(s.fail_count >= 1);
    assert!(s.should_skip);
    let a = plan.step(Some(&mut h), ConnectEvent::<String>::Connected, 30, 20);
    assert!(matches!(a, ConnectAction::Relay { idx: 1 }));
    assert!(plan.is_done());
    assert!(h.is_recent_ok_at(1, 30));
    assert!(!h.should_skip_at(1, 30));
    // the next connection goes to the backup at once, without a bound
    let mut next = ConnectPlan::new(&failover_tokens(2), 1, Strategy::Failover, &opts(0));
    let a = next.step(Some(&mut h), ConnectEvent::<String>::ClientOpen, 40, 0);
    assert_eq!(connect(a), (1, None));
}

#[test]
fn client_disconnect_during_slow_connect() {
    let mut plan = ConnectPlan::new(&vec![Token(0)], 0, Strategy::Off, &opts(0));
    let a = plan.step(None, ConnectEvent::<String>::ClientOpen, 0, 0);
    assert_eq!(connect(a), (0, None));
    // the driver saw the client close while the connect was in flight
    let a = plan.step(None, ConnectEvent::Failed("client disconnected".to_string()), 0, 150);
    match a {
        ConnectAction::Fail(ConnectFailure::Refused(e)) => assert_eq!(e, "client disconnected"),
        other => panic!("unexpected {:?}", other),
    }
    assert!(plan.is_done());
    // a client that is gone before the first attempt
    let mut plan = ConnectPlan::new(&vec![Token(0)], 0, Strategy::Off, &opts(0));
    let a = plan.step(None, ConnectEvent::<String>::ClientClosed, 0, 0);
    assert!(matches!(a, ConnectAction::Fail(ConnectFailure::ClientClosed)));
    assert!(plan.is_done());
}

#[test]
fn without_a_retry_window_each_candidate_is_tried_once() {
    let mut h = FailoverHealth::new(3, 6_000, 500, 30_000);
    let mut plan = ConnectPlan::new(&failover_tokens(3), 2, Strategy::Failover, &opts(0));
    let mut tried = Vec::new();
    let mut action = plan.step(Some(&mut h), ConnectEvent::<String>::ClientOpen, 0, 0);
    let mut now = 0;
    loop {
        match action {
            ConnectAction::Connect { idx, .. } => {
                tried.push(idx);
                now += 1;
                action = plan.step(Some(&mut h), ConnectEvent::Failed(format!("e{}", idx)), now, now);
            }
            ConnectAction::Fail(ConnectFailure::Refused(e)) => {
                // the last error is the one that is surfaced
                assert_eq!(e, "e2");
                break;
            }
            other => panic!("unexpected {:?}", other),
        }
    }
    assert_eq!(tried, vec![0, 1, 2]);
    assert!(plan.is_done());
}

#[test]
fn a_failed_pass_is_retried_within_the_window() {
    let mut h = FailoverHealth::new(1, 6_000, 500, 30_000);
    let mut plan = ConnectPlan::new(&failover_tokens(1), 0, Strategy::Failover, &opts(1_000));
    let a = plan.step(Some(&mut h), ConnectEvent::<String>::ClientOpen, 0, 0);
    assert_eq!(connect(a).0, 0);
    let a = plan.step(Some(&mut h), ConnectEvent::Failed("x".to_string()), 10, 10);
    assert!(matches!(a, ConnectAction::Wait { ms: 20 }));
    let a = plan.step(Some(&mut h), ConnectEvent::<String>::Waited, 30, 30);
    assert!(matches!(a, ConnectAction::PollClient));
    // the only peer is in backoff, and is tried all the same
    let a = plan.step(Some(&mut h), ConnectEvent::<String>::ClientOpen, 30, 30);
    assert_eq!(connect(a).0, 0);
    // the window is over
    let a = plan.step(Some(&mut h), ConnectEvent::Failed("y".to_string()), 1_000, 1_000);
    match a {
        ConnectAction::Fail(ConnectFailure::Refused(e)) => assert_eq!(e, "y"),
        other => panic!("unexpected {:?}", other),
    }
}

#[test]
fn other_strategies_neither_consult_health_nor_retry() {
    let mut h = FailoverHealth::new(2, 6_000, 500, 30_000);
    h.mark_fail_at(1, 0);
    let mut plan = ConnectPlan::new(&vec![Token(1)], 1, Strategy::RoundRobin, &opts(5_000));
    let a = plan.step(Some(&mut h), ConnectEvent::<String>::ClientOpen, 1, 0);
    assert_eq!(connect(a), (1, None));
    let a = plan.step(Some(&mut h), ConnectEvent::Failed("no".to_string()), 2, 1);
    assert!(matches!(a, ConnectAction::Fail(ConnectFailure::Refused(_))));
    // the failure was not recorded
    assert_eq!(h.peer_snapshot_at(1, 2).unwrap().fail_count, 1);
}

#[test]
fn a_report_out_of_turn_ends_the_plan() {
    let mut plan = ConnectPlan::new(&vec![Token(0)], 0, Strategy::Off, &opts(0));
    let a = plan.step(None, ConnectEvent::<String>::Connected, 0, 0);
    assert!(matches!(a, ConnectAction::Fail(ConnectFailure::OutOfTurn)));
    assert!(plan.is_done());
    let a = plan.step(None, ConnectEvent::<String>::ClientOpen, 0, 0);
    assert!(matches!(a, ConnectAction::Fail(ConnectFailure::OutOfTurn)));
}

#[test]
fn the_client_is_looked_at_every_hundred_milliseconds() {
    assert_eq!(CLIENT_POLL_MS, 100);
}

#[test]
fn written_bytes_count_in_their_direction() {
    assert_eq!(CountDirection::Inbound.deltas(7), (7, 0));
    assert_eq!(CountDirection::Outbound.deltas(7), (0, 7));
    assert_eq!(CountDirection::Outbound.deltas(0), (0, 0));
}

#[test]
fn health_exists_under_failover_only() {
    let fo = endpoint(Strategy::Failover, 2, FailoverOpts::default());
    let h = endpoint_health(&fo).unwrap();
    assert_eq!(h.peer_count(), 3);
    assert!(endpoint_health(&endpoint(Strategy::RoundRobin, 2, FailoverOpts::default())).is_none());
    assert!(endpoint_health(&endpoint(Strategy::Off, 0, FailoverOpts::default())).is_none());
    assert!(fo.peer_addr(0).is_some());
    assert_eq!(fo.peer_addr(2).unwrap().to_text(), "backup1.example:80");
    assert!(fo.peer_addr(3).is_none());
}

#[test]
fn probing_follows_the_options() {
    let p = probe_plan(&endpoint(Strategy::Failover, 2, FailoverOpts::default())).unwrap();
    assert_eq!(p.interval_ms, 2_000);
    assert_eq!(p.timeout_ms, 200);
    assert_eq!(p.peers, vec![0, 1, 2]);
    assert_eq!(p.concurrency, 3);
    // at most eight probes at once
    let p = probe_plan(&endpoint(Strategy::Failover, 11, FailoverOpts::default())).unwrap();
    assert_eq!(p.peers.len(), 12);
    assert_eq!(p.concurrency, 8);
    // off where the interval is zero, or the strategy another
    let off = FailoverOpts { probe_interval_ms: 0, ..FailoverOpts::default() };
    assert!(probe_plan(&endpoint(Strategy::Failover, 2, off)).is_none());
    assert!(probe_plan(&endpoint(Strategy::IpHash, 2, FailoverOpts::default())).is_none());
}

#[test]
fn probing_keeps_health_fresh() {
    // probes every 500 ms of a healthy primary, no client in sight
    let mut h = FailoverHealth::new(1, 6_000, 500, 30_000);
    for now in [1u64, 500, 1_000, 1_500, 2_000] {
        fold_probe(&mut h, 0, true, now);
    }
    let s = h.peer_snapshot_at(0, 2_000).unwrap();
    assert!(2_000 - s.last_ok_ms <= 1_500);
    assert!(s.ok_recent);
    assert!(h.is_recent_ok_at(0, 2_000));
    // a probe that fails or times out is a failure
    fold_probe(&mut h, 0, false, 2_500);
    assert!(h.should_skip_at(0, 2_500));
    assert!(!h.is_recent_ok_at(0, 2_500));
}
