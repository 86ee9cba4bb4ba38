//! Live statistics of an instance: what the pipelines report of their
//! connections and associations, counted and kept for the reports.

use crate::addr::SockAddr;
use crate::clock::instant_now;
use crate::clock::moment;
use crate::clock::secs_since;
use crate::report::ConnectionStats;
use crate::report::InstanceStatsResponse;
use crate::tally::count_under;
use crate::tally::counted;
use crate::endpoint::RemoteAddr;
use crate::health::FailoverHealth;
use crate::health::HealthView;
use crate::tally::capped_sum;
use crate::tally::find_key;
use crate::tally::first_where;
use crate::tally::key_index;
use crate::tally::keyed;
use crate::tally::lemma_first_where;
use crate::tally::lemma_first_where_is;
use crate::tally::lemma_key_index;
use crate::tally::without_first;
use crate::tcp::fold_probe;
use crate::tcp::CountDirection;
use crate::tcp::ConnectAction;
use crate::tcp::ConnectEvent;
use crate::tcp::ConnectPlan;
use crate::tcp::TcpObserver;
use crate::udp::UdpObserver;
use std::time::Instant;
use vstd::prelude::*;
use vstd::string::StringExecFns;

verus! {

/// The bytes that went to and came from one backend.
#[derive(Debug, Clone, Copy, PartialEq, Eq, Structural)]
pub struct BackendBytes {
    pub inbound_bytes: u64,
    pub outbound_bytes: u64,
}

impl Default for BackendBytes {
    fn default() -> (r: Self)
        ensures
            r == (BackendBytes { inbound_bytes: 0, outbound_bytes: 0 }),
    {
        BackendBytes { inbound_bytes: 0, outbound_bytes: 0 }
    }
}

impl BackendBytes {
    /// The counts raised by `inbound` and `outbound`; a count stops at the
    /// largest `u64`.
    pub open spec fn plus(self, inbound: u64, outbound: u64) -> BackendBytes {
        BackendBytes {
            inbound_bytes: capped_sum(self.inbound_bytes, inbound),
            outbound_bytes: capped_sum(self.outbound_bytes, outbound),
        }
    }
}

/// A live TCP connection.
#[derive(Debug)]
pub struct ConnectionEntry {
    pub id: u64,
    pub peer: SockAddr,
    pub started_at: Instant,
    pub backend: Option<String>,
    pub inbound_bytes: u64,
    pub outbound_bytes: u64,
}

/// A live UDP association.
#[derive(Debug)]
pub struct UdpSessionEntry {
    pub peer: SockAddr,
    pub started_at: Instant,
}

/// A live TCP connection as plain values.
pub struct ConnView {
    pub id: u64,
    pub peer: SockAddr,
    pub backend: Option<Seq<char>>,
    pub inbound_bytes: u64,
    pub outbound_bytes: u64,
}

impl View for ConnectionEntry {
    type V = ConnView;

    open spec fn view(&self) -> ConnView {
        ConnView {
            id: self.id,
            peer: self.peer,
            backend: match self.backend {
                Some(b) => Some(b@),
                None => None,
            },
            inbound_bytes: self.inbound_bytes,
            outbound_bytes: self.outbound_bytes,
        }
    }
}

/// Whether a connection has the id `id`.
pub open spec fn with_id(id: u64) -> spec_fn(ConnView) -> bool {
    |c: ConnView| c.id == id
}

/// Whether an association is that of `peer`.
pub open spec fn from_peer(peer: SockAddr) -> spec_fn(SockAddr) -> bool {
    |p: SockAddr| p == peer
}

/// The bytes under `key` raised by `inbound` and `outbound`, under a new key
/// at the end where there is none yet.
pub open spec fn bytes_added(
    list: Seq<(Seq<char>, BackendBytes)>,
    key: Seq<char>,
    inbound: u64,
    outbound: u64,
) -> Seq<(Seq<char>, BackendBytes)> {
    match key_index(list, key) {
        Some(i) => list.update(i, (key, list[i].1.plus(inbound, outbound))),
        None => list.push((key, (BackendBytes { inbound_bytes: 0, outbound_bytes: 0 }).plus(
            inbound,
            outbound,
        ))),
    }
}

/// The statistics of an instance as plain values. The live connections and
/// associations stand in the order in which they were opened.
pub struct StatsView {
    pub total_inbound_bytes: u64,
    pub total_outbound_bytes: u64,
    pub total_connections: u64,
    pub tcp_inbound_bytes: u64,
    pub tcp_outbound_bytes: u64,
    pub tcp_total_connections: u64,
    pub udp_inbound_bytes: u64,
    pub udp_outbound_bytes: u64,
    pub udp_total_connections: u64,
    pub next_conn_id: u64,
    pub connections: Seq<ConnView>,
    pub tcp_bytes_by_backend: Seq<(Seq<char>, BackendBytes)>,
    pub udp_sessions: Seq<SockAddr>,
    pub last_success_backend: Option<Seq<char>>,
    pub failover_health: Option<HealthView>,
}

impl StatsView {
    /// Statistics in which nothing has been counted.
    pub open spec fn empty() -> StatsView {
        StatsView {
            total_inbound_bytes: 0,
            total_outbound_bytes: 0,
            total_connections: 0,
            tcp_inbound_bytes: 0,
            tcp_outbound_bytes: 0,
            tcp_total_connections: 0,
            udp_inbound_bytes: 0,
            udp_outbound_bytes: 0,
            udp_total_connections: 0,
            next_conn_id: 0,
            connections: Seq::empty(),
            tcp_bytes_by_backend: Seq::empty(),
            udp_sessions: Seq::empty(),
            last_success_backend: None,
            failover_health: None,
        }
    }

    /// The id that the next connection gets.
    pub open spec fn next_id(self) -> u64 {
        capped_sum(self.next_conn_id, 1)
    }

    /// After a connection from `peer` was opened: it is live under the next
    /// id, in place of any connection that had that id, and is counted.
    pub open spec fn opened(self, peer: SockAddr) -> StatsView {
        StatsView {
            next_conn_id: self.next_conn_id.wrapping_add(1),
            total_connections: self.total_connections.wrapping_add(1),
            tcp_total_connections: self.tcp_total_connections.wrapping_add(1),
            connections: without_first(self.connections, with_id(self.next_id())).push(
                ConnView {
                    id: self.next_id(),
                    peer,
                    backend: None,
                    inbound_bytes: 0,
                    outbound_bytes: 0,
                },
            ),
            ..self
        }
    }

    /// After connection `id` was made to `backend`: the connection, if it is
    /// live, has that backend, and the backend is the last that succeeded.
    pub open spec fn backend_selected(self, id: u64, backend: Seq<char>) -> StatsView {
        StatsView {
            connections: match first_where(self.connections, with_id(id)) {
                Some(i) => self.connections.update(
                    i,
                    ConnView { backend: Some(backend), ..self.connections[i] },
                ),
                None => self.connections,
            },
            last_success_backend: Some(backend),
            ..self
        }
    }

    /// After connection `id` carried `inbound` and `outbound` bytes: they are
    /// added to the totals, to the connection if it is live, and to the
    /// connection's backend if it has one.
    pub open spec fn transferred(self, id: u64, inbound: u64, outbound: u64) -> StatsView {
        let counted = StatsView {
            total_inbound_bytes: self.total_inbound_bytes.wrapping_add(inbound),
            tcp_inbound_bytes: self.tcp_inbound_bytes.wrapping_add(inbound),
            total_outbound_bytes: self.total_outbound_bytes.wrapping_add(outbound),
            tcp_outbound_bytes: self.tcp_outbound_bytes.wrapping_add(outbound),
            ..self
        };
        match first_where(self.connections, with_id(id)) {
            Some(i) if inbound > 0 || outbound > 0 => {
                let entry = self.connections[i];
                StatsView {
                    connections: self.connections.update(
                        i,
                        ConnView {
                            inbound_bytes: capped_sum(entry.inbound_bytes, inbound),
                            outbound_bytes: capped_sum(entry.outbound_bytes, outbound),
                            ..entry
                        },
                    ),
                    tcp_bytes_by_backend: match entry.backend {
                        Some(b) => bytes_added(self.tcp_bytes_by_backend, b, inbound, outbound),
                        None => self.tcp_bytes_by_backend,
                    },
                    ..counted
                }
            },
            _ => counted,
        }
    }

    /// After connection `id` ended: it is live no more.
    pub open spec fn ended(self, id: u64) -> StatsView {
        StatsView { connections: without_first(self.connections, with_id(id)), ..self }
    }

    /// After `peer` got an association: it is counted, and live.
    pub open spec fn session_opened(self, peer: SockAddr) -> StatsView {
        StatsView {
            total_connections: self.total_connections.wrapping_add(1),
            udp_total_connections: self.udp_total_connections.wrapping_add(1),
            udp_sessions: without_first(self.udp_sessions, from_peer(peer)).push(peer),
            ..self
        }
    }

    /// After the association of `peer` was closed.
    pub open spec fn session_closed(self, peer: SockAddr) -> StatsView {
        StatsView { udp_sessions: without_first(self.udp_sessions, from_peer(peer)), ..self }
    }

    /// After the associations carried `inbound` and `outbound` bytes.
    pub open spec fn udp_transferred(self, inbound: u64, outbound: u64) -> StatsView {
        StatsView {
            total_inbound_bytes: self.total_inbound_bytes.wrapping_add(inbound),
            udp_inbound_bytes: self.udp_inbound_bytes.wrapping_add(inbound),
            total_outbound_bytes: self.total_outbound_bytes.wrapping_add(outbound),
            udp_outbound_bytes: self.udp_outbound_bytes.wrapping_add(outbound),
            ..self
        }
    }

    /// Without what belongs to one run of the endpoint: no connection and no
    /// association is live, no backend has succeeded, and there is no
    /// health. What was counted stays.
    pub open spec fn cleared(self) -> StatsView {
        StatsView {
            connections: Seq::empty(),
            udp_sessions: Seq::empty(),
            last_success_backend: None,
            failover_health: None,
            ..self
        }
    }
}

/// The backend under which a connection is counted: its own, or the
/// instance's remote while it has none.
pub open spec fn backend_of(conn: ConnView, default: Seq<char>) -> Seq<char> {
    match conn.backend {
        Some(b) => b,
        None => default,
    }
}

/// The number of connections to each backend.
pub open spec fn tallied(conns: Seq<ConnView>, default: Seq<char>) -> Seq<(Seq<char>, u64)>
    decreases conns.len(),
{
    if conns.len() == 0 {
        Seq::empty()
    } else {
        counted(tallied(conns.drop_last(), default), backend_of(conns.last(), default), 1)
    }
}

/// What one row of a report says of a connection or association, but for
/// its duration.
pub open spec fn is_row_of(row: ConnectionStats, peer: SockAddr, backend: Seq<char>) -> bool {
    &&& row.src_ip@ == peer.ip.text()
    &&& row.src_port == peer.port
    &&& row.backend@ == backend
}

impl StatsView {
    /// The live connections and associations by backend; every association
    /// counts under the instance's remote.
    pub open spec fn connections_by_backend(self, default: Seq<char>) -> Seq<(Seq<char>, u64)> {
        if self.udp_sessions.len() > 0 {
            counted(tallied(self.connections, default), default, self.udp_sessions.len() as u64)
        } else {
            tallied(self.connections, default)
        }
    }

    /// The bytes by backend; the bytes of the associations count under the
    /// instance's remote.
    pub open spec fn bytes_by_backend(self, default: Seq<char>) -> Seq<(Seq<char>, BackendBytes)> {
        if self.udp_inbound_bytes > 0 || self.udp_outbound_bytes > 0 {
            bytes_added(
                self.tcp_bytes_by_backend,
                default,
                self.udp_inbound_bytes,
                self.udp_outbound_bytes,
            )
        } else {
            self.tcp_bytes_by_backend
        }
    }

    /// Whether `r` is the report on these statistics for the instance `id`
    /// with the remote `default`.
    pub open spec fn reported(self, id: Seq<char>, default: Seq<char>, r: InstanceStatsResponse)
        -> bool {
        &&& r.id@ == id
        &&& r.total_inbound_bytes == self.total_inbound_bytes
        &&& r.total_outbound_bytes == self.total_outbound_bytes
        &&& r.total_connections == self.total_connections
        &&& r.current_connections == capped_sum(
            self.connections.len() as u64,
            self.udp_sessions.len() as u64,
        )
        &&& r.tcp_inbound_bytes == self.tcp_inbound_bytes
        &&& r.tcp_outbound_bytes == self.tcp_outbound_bytes
        &&& r.tcp_total_connections == self.tcp_total_connections
        &&& r.tcp_current_connections == self.connections.len()
        &&& r.udp_inbound_bytes == self.udp_inbound_bytes
        &&& r.udp_outbound_bytes == self.udp_outbound_bytes
        &&& r.udp_total_sessions == self.udp_total_connections
        &&& r.udp_current_sessions == self.udp_sessions.len()
        &&& r.udp_total_connections == self.udp_total_connections
        &&& r.udp_current_connections == self.udp_sessions.len()
        &&& keyed(r.connections_by_backend@) == self.connections_by_backend(default)
        &&& keyed(r.bytes_by_backend@) == self.bytes_by_backend(default)
    }
}

/// The views of a list of connections.
pub open spec fn conn_views(conns: Seq<ConnectionEntry>) -> Seq<ConnView> {
    Seq::new(conns.len(), |i: int| conns[i]@)
}

/// The peers of a list of associations.
pub open spec fn session_peers(sessions: Seq<UdpSessionEntry>) -> Seq<SockAddr> {
    Seq::new(sessions.len(), |i: int| sessions[i].peer)
}

/// Live statistics of one instance.
#[derive(Debug)]
pub struct InstanceStats {
    total_inbound_bytes: u64,
    total_outbound_bytes: u64,
    total_connections: u64,
    tcp_inbound_bytes: u64,
    tcp_outbound_bytes: u64,
    tcp_total_connections: u64,
    udp_inbound_bytes: u64,
    udp_outbound_bytes: u64,
    udp_total_connections: u64,
    next_conn_id: u64,
    connections: Vec<ConnectionEntry>,
    tcp_bytes_by_backend: Vec<(String, BackendBytes)>,
    udp_sessions: Vec<UdpSessionEntry>,
    last_success_backend: Option<String>,
    failover_health: Option<FailoverHealth>,
}

impl View for InstanceStats {
    type V = StatsView;

    closed spec fn view(&self) -> StatsView {
        StatsView {
            total_inbound_bytes: self.total_inbound_bytes,
            total_outbound_bytes: self.total_outbound_bytes,
            total_connections: self.total_connections,
            tcp_inbound_bytes: self.tcp_inbound_bytes,
            tcp_outbound_bytes: self.tcp_outbound_bytes,
            tcp_total_connections: self.tcp_total_connections,
            udp_inbound_bytes: self.udp_inbound_bytes,
            udp_outbound_bytes: self.udp_outbound_bytes,
            udp_total_connections: self.udp_total_connections,
            next_conn_id: self.next_conn_id,
            connections: conn_views(self.connections@),
            tcp_bytes_by_backend: keyed(self.tcp_bytes_by_backend@),
            udp_sessions: session_peers(self.udp_sessions@),
            last_success_backend: match self.last_success_backend {
                Some(b) => Some(b@),
                None => None,
            },
            failover_health: match self.failover_health {
                Some(h) => Some(h@),
                None => None,
            },
        }
    }
}

/// The position of the live connection `id`.
fn find_conn(conns: &Vec<ConnectionEntry>, id: u64) -> (r: Option<usize>)
    ensures
        match r {
            Some(i) => first_where(conn_views(conns@), with_id(id)) == Some(i as int) && i
                < conns@.len(),
            None => first_where(conn_views(conns@), with_id(id)) is None,
        },
{
    let ghost views = conn_views(conns@);
    proof {
        lemma_first_where(views, with_id(id));
    }
    let mut i: usize = 0;
    while i < conns.len()
        invariant
            i <= conns.len(),
            views == conn_views(conns@),
            forall|j: int| 0 <= j < i ==> !with_id(id)(#[trigger] views[j]),
        decreases conns.len() - i,
    {
        if conns[i].id == id {
            proof {
                assert(with_id(id)(views[i as int]));
                lemma_first_where_is(views, with_id(id), i as int);
            }
            return Some(i);
        }
        proof {
            assert(!with_id(id)(views[i as int]));
        }
        i += 1;
    }
    None
}

/// The position of the live association of `peer`.
fn find_session(sessions: &Vec<UdpSessionEntry>, peer: SockAddr) -> (r: Option<usize>)
    ensures
        match r {
            Some(i) => first_where(session_peers(sessions@), from_peer(peer)) == Some(i as int)
                && i < sessions@.len(),
            None => first_where(session_peers(sessions@), from_peer(peer)) is None,
        },
{
    let ghost peers = session_peers(sessions@);
    proof {
        lemma_first_where(peers, from_peer(peer));
    }
    let mut i: usize = 0;
    while i < sessions.len()
        invariant
            i <= sessions.len(),
            peers == session_peers(sessions@),
            forall|j: int| 0 <= j < i ==> !from_peer(peer)(#[trigger] peers[j]),
        decreases sessions.len() - i,
    {
        if sessions[i].peer == peer {
            proof {
                assert(from_peer(peer)(peers[i as int]));
                lemma_first_where_is(peers, from_peer(peer), i as int);
            }
            return Some(i);
        }
        proof {
            assert(!from_peer(peer)(peers[i as int]));
        }
        i += 1;
    }
    None
}

/// Takes the live connection `id` out of `conns`.
fn remove_conn(conns: &mut Vec<ConnectionEntry>, id: u64)
    ensures
        conn_views(final(conns)@) == without_first(conn_views(old(conns)@), with_id(id)),
{
    match find_conn(conns, id) {
        Some(i) => {
            conns.remove(i);
            proof {
                assert(conn_views(conns@) =~= conn_views(old(conns)@).remove(i as int));
            }
        },
        None => {},
    }
}

/// Takes the live association of `peer` out of `sessions`.
fn remove_session(sessions: &mut Vec<UdpSessionEntry>, peer: SockAddr)
    ensures
        session_peers(final(sessions)@) == without_first(
            session_peers(old(sessions)@),
            from_peer(peer),
        ),
{
    match find_session(sessions, peer) {
        Some(i) => {
            sessions.remove(i);
            proof {
                assert(session_peers(sessions@) =~= session_peers(old(sessions)@).remove(i as int));
            }
        },
        None => {},
    }
}

/// Raises the bytes under `key` by `inbound` and `outbound`.
fn add_bytes(list: &mut Vec<(String, BackendBytes)>, key: &str, inbound: u64, outbound: u64)
    ensures
        keyed(final(list)@) == bytes_added(keyed(old(list)@), key@, inbound, outbound),
{
    match find_key(list, key) {
        Some(i) => {
            proof {
                lemma_key_index(keyed(list@), key@);
            }
            let sum = BackendBytes {
                inbound_bytes: list[i].1.inbound_bytes.saturating_add(inbound),
                outbound_bytes: list[i].1.outbound_bytes.saturating_add(outbound),
            };
            list[i].1 = sum;
            proof {
                assert(keyed(list@) =~= bytes_added(keyed(old(list)@), key@, inbound, outbound));
            }
        },
        None => {
            list.push(
                (
                    String::from_str(key),
                    BackendBytes { inbound_bytes: inbound, outbound_bytes: outbound },
                ),
            );
            proof {
                assert(keyed(list@) =~= bytes_added(keyed(old(list)@), key@, inbound, outbound));
            }
        },
    }
}

impl InstanceStats {
    /// Statistics in which nothing has been counted.
    pub fn new() -> (r: Self)
        ensures
            r@ == StatsView::empty(),
    {
        let r = InstanceStats {
            total_inbound_bytes: 0,
            total_outbound_bytes: 0,
            total_connections: 0,
            tcp_inbound_bytes: 0,
            tcp_outbound_bytes: 0,
            tcp_total_connections: 0,
            udp_inbound_bytes: 0,
            udp_outbound_bytes: 0,
            udp_total_connections: 0,
            next_conn_id: 0,
            connections: Vec::new(),
            tcp_bytes_by_backend: Vec::new(),
            udp_sessions: Vec::new(),
            last_success_backend: None,
            failover_health: None,
        };
        proof {
            assert(r@.connections =~= Seq::<ConnView>::empty());
            assert(r@.tcp_bytes_by_backend =~= Seq::<(Seq<char>, BackendBytes)>::empty());
            assert(r@.udp_sessions =~= Seq::<SockAddr>::empty());
        }
        r
    }

    /// Forgets what belongs to one run of the endpoint: the live connections
    /// and associations, the last backend that succeeded, and the health.
    pub fn clear_runtime_state(&mut self)
        ensures
            final(self)@ == old(self)@.cleared(),
    {
        self.connections = Vec::new();
        self.udp_sessions = Vec::new();
        self.last_success_backend = None;
        self.failover_health = None;
        proof {
            assert(self@.connections =~= Seq::<ConnView>::empty());
            assert(self@.udp_sessions =~= Seq::<SockAddr>::empty());
        }
    }

    /// The last backend to which a connection was made.
    pub fn get_last_success_backend(&self) -> (r: Option<String>)
        ensures
            match r {
                Some(b) => self@.last_success_backend == Some(b@),
                None => self@.last_success_backend is None,
            },
    {
        match &self.last_success_backend {
            Some(b) => Some(b.clone()),
            None => None,
        }
    }

    /// The health of the endpoint's peers, if the endpoint runs with
    /// failover.
    pub fn get_failover_health(&self) -> (r: Option<&FailoverHealth>)
        ensures
            match r {
                Some(h) => self@.failover_health == Some(h@),
                None => self@.failover_health is None,
            },
    {
        match &self.failover_health {
            Some(h) => Some(h),
            None => None,
        }
    }
}

impl InstanceStats {
    /// The live connections and the bytes, by backend. What has no backend
    /// of its own counts under `default_backend`.
    pub fn build_backend_aggregates(&self, default_backend: &str) -> (r: (
        Vec<(String, u64)>,
        Vec<(String, BackendBytes)>,
    ))
        ensures
            keyed(r.0@) == self@.connections_by_backend(default_backend@),
            keyed(r.1@) == self@.bytes_by_backend(default_backend@),
    {
        let mut connections_by_backend: Vec<(String, u64)> = Vec::new();
        let ghost conns = conn_views(self.connections@);
        let mut i: usize = 0;
        proof {
            assert(keyed(connections_by_backend@) =~= tallied(conns.take(0), default_backend@));
        }
        while i < self.connections.len()
            invariant
                i <= self.connections@.len(),
                conns == conn_views(self.connections@),
                keyed(connections_by_backend@) == tallied(conns.take(i as int), default_backend@),
            decreases self.connections@.len() - i,
        {
            proof {
                assert(conns.take(i + 1).drop_last() =~= conns.take(i as int));
                assert(conns.take(i + 1).last() == self.connections@[i as int]@);
            }
            match &self.connections[i].backend {
                Some(b) => count_under(&mut connections_by_backend, b.as_str(), 1),
                None => count_under(&mut connections_by_backend, default_backend, 1),
            }
            i += 1;
        }
        proof {
            assert(conns.take(i as int) =~= conns);
        }
        let mut bytes_by_backend: Vec<(String, BackendBytes)> = Vec::new();
        let mut k: usize = 0;
        while k < self.tcp_bytes_by_backend.len()
            invariant
                k <= self.tcp_bytes_by_backend@.len(),
                keyed(bytes_by_backend@) == keyed(self.tcp_bytes_by_backend@).take(k as int),
            decreases self.tcp_bytes_by_backend@.len() - k,
        {
            let ghost before = keyed(bytes_by_backend@);
            bytes_by_backend.push(
                (self.tcp_bytes_by_backend[k].0.clone(), self.tcp_bytes_by_backend[k].1),
            );
            proof {
                assert(keyed(bytes_by_backend@) =~= before.push(
                    keyed(self.tcp_bytes_by_backend@)[k as int],
                ));
                assert(keyed(bytes_by_backend@) =~= keyed(self.tcp_bytes_by_backend@).take(k + 1));
            }
            k += 1;
        }
        proof {
            assert(keyed(self.tcp_bytes_by_backend@).take(k as int) =~= keyed(
                self.tcp_bytes_by_backend@,
            ));
        }
        let udp_current: u64 = self.udp_sessions.len() as u64;
        if udp_current > 0 {
            count_under(&mut connections_by_backend, default_backend, udp_current);
        }
        if self.udp_inbound_bytes > 0 || self.udp_outbound_bytes > 0 {
            add_bytes(
                &mut bytes_by_backend,
                default_backend,
                self.udp_inbound_bytes,
                self.udp_outbound_bytes,
            );
        }
        (connections_by_backend, bytes_by_backend)
    }

    /// The report on the counters of the instance `id`, whose remote is
    /// `default_backend`.
    pub fn report(&self, id: &str, default_backend: &str) -> (r: InstanceStatsResponse)
        ensures
            self@.reported(id@, default_backend@, r),
    {
        let tcp_current: u64 = self.connections.len() as u64;
        let udp_current: u64 = self.udp_sessions.len() as u64;
        let (connections_by_backend, bytes_by_backend) = self.build_backend_aggregates(
            default_backend,
        );
        InstanceStatsResponse {
            id: String::from_str(id),
            total_inbound_bytes: self.total_inbound_bytes,
            total_outbound_bytes: self.total_outbound_bytes,
            total_connections: self.total_connections,
            current_connections: tcp_current.saturating_add(udp_current),
            tcp_inbound_bytes: self.tcp_inbound_bytes,
            tcp_outbound_bytes: self.tcp_outbound_bytes,
            tcp_total_connections: self.tcp_total_connections,
            tcp_current_connections: tcp_current,
            udp_inbound_bytes: self.udp_inbound_bytes,
            udp_outbound_bytes: self.udp_outbound_bytes,
            udp_total_sessions: self.udp_total_connections,
            udp_current_sessions: udp_current,
            udp_total_connections: self.udp_total_connections,
            udp_current_connections: udp_current,
            connections_by_backend,
            bytes_by_backend,
        }
    }

    /// One row for each live connection, in the order in which they were
    /// opened, with the time that each has lasted so far.
    pub fn tcp_rows(&self, default_backend: &str) -> (rows: Vec<ConnectionStats>)
        ensures
            rows@.len() == self@.connections.len(),
            forall|i: int|
                0 <= i < rows@.len() ==> is_row_of(
                    #[trigger] rows@[i],
                    self@.connections[i].peer,
                    backend_of(self@.connections[i], default_backend@),
                ),
    {
        let mut rows: Vec<ConnectionStats> = Vec::new();
        let mut i: usize = 0;
        while i < self.connections.len()
            invariant
                i <= self.connections@.len(),
                rows@.len() == i,
                forall|k: int|
                    0 <= k < i ==> is_row_of(
                        #[trigger] rows@[k],
                        self@.connections[k].peer,
                        backend_of(self@.connections[k], default_backend@),
                    ),
            decreases self.connections@.len() - i,
        {
            let entry = &self.connections[i];
            let mut src_ip = String::new();
            entry.peer.ip.push_text(&mut src_ip);
            let backend: String = match &entry.backend {
                Some(b) => b.clone(),
                None => String::from_str(default_backend),
            };
            rows.push(
                ConnectionStats {
                    src_ip,
                    src_port: entry.peer.port,
                    duration_secs: secs_since(&entry.started_at),
                    backend,
                },
            );
            i += 1;
        }
        rows
    }

    /// One row for each live association, in the order in which they were
    /// opened, with the time that each has lasted so far. Each counts under
    /// `default_backend`.
    pub fn udp_rows(&self, default_backend: &str) -> (rows: Vec<ConnectionStats>)
        ensures
            rows@.len() == self@.udp_sessions.len(),
            forall|i: int|
                0 <= i < rows@.len() ==> is_row_of(
                    #[trigger] rows@[i],
                    self@.udp_sessions[i],
                    default_backend@,
                ),
    {
        let mut rows: Vec<ConnectionStats> = Vec::new();
        let mut i: usize = 0;
        while i < self.udp_sessions.len()
            invariant
                i <= self.udp_sessions@.len(),
                rows@.len() == i,
                forall|k: int|
                    0 <= k < i ==> is_row_of(
                        #[trigger] rows@[k],
                        self@.udp_sessions[k],
                        default_backend@,
                    ),
            decreases self.udp_sessions@.len() - i,
        {
            let entry = &self.udp_sessions[i];
            let mut src_ip = String::new();
            entry.peer.ip.push_text(&mut src_ip);
            rows.push(
                ConnectionStats {
                    src_ip,
                    src_port: entry.peer.port,
                    duration_secs: secs_since(&entry.started_at),
                    backend: String::from_str(default_backend),
                },
            );
            i += 1;
        }
        rows
    }
}

impl InstanceStats {
    /// One step of a connection's plan, with the health that is kept here:
    /// the plan consults it, and records in it what came of an attempt. The
    /// moment is read off the health's clock; the rest is as the plan's own
    /// step says.
    pub fn step_plan<E>(
        &mut self,
        plan: &mut ConnectPlan,
        event: ConnectEvent<E>,
        elapsed_ms: u64,
    ) -> (action: ConnectAction<E>)
        requires
            old(plan)@.wf(),
        ensures
            final(plan)@.wf(),
            exists|now: u64| #[trigger]
                moment(now) && {
                    let step = old(plan)@.stepped(
                        old(self)@.failover_health,
                        event,
                        now,
                        elapsed_ms,
                    );
                    &&& final(plan)@ == step.plan
                    &&& action == step.action
                    &&& final(self)@ == (StatsView { failover_health: step.health, ..old(self)@ })
                },
    {
        let now_ms: u64 = match &self.failover_health {
            Some(h) => h.now_ms(),
            None => 0,
        };
        proof {
            assert(moment(now_ms));
        }
        match &mut self.failover_health {
            Some(h) => plan.step(Some(h), event, now_ms, elapsed_ms),
            None => plan.step(None, event, now_ms, elapsed_ms),
        }
    }

    /// Folds the outcome of a probe of peer `idx` into the health that is
    /// kept here, at the moment that its clock shows. Without health nothing
    /// happens.
    pub fn fold_probe(&mut self, idx: u8, connected: bool)
        ensures
            exists|now: u64| #[trigger]
                moment(now) && final(self)@ == (StatsView {
                    failover_health: match old(self)@.failover_health {
                        Some(h) => Some(
                            if connected {
                                h.marked_ok(idx as int, now)
                            } else {
                                h.marked_fail(idx as int, now)
                            },
                        ),
                        None => None,
                    },
                    ..old(self)@
                }),
    {
        match &mut self.failover_health {
            Some(h) => {
                let now_ms: u64 = h.now_ms();
                proof {
                    assert(moment(now_ms));
                }
                fold_probe(h, idx, connected, now_ms);
            },
            None => {
                proof {
                    assert(moment(0));
                }
            },
        }
    }
}

impl TcpObserver for InstanceStats {
    fn on_connection_open(&mut self, peer: SockAddr) -> (id: u64)
        ensures
            id == old(self)@.next_id(),
            final(self)@ == old(self)@.opened(peer),
    {
        let id: u64 = self.next_conn_id.saturating_add(1);
        self.next_conn_id = self.next_conn_id.wrapping_add(1);
        self.total_connections = self.total_connections.wrapping_add(1);
        self.tcp_total_connections = self.tcp_total_connections.wrapping_add(1);
        remove_conn(&mut self.connections, id);
        let ghost before = conn_views(self.connections@);
        self.connections.push(
            ConnectionEntry {
                id,
                peer,
                started_at: instant_now(),
                backend: None,
                inbound_bytes: 0,
                outbound_bytes: 0,
            },
        );
        proof {
            assert(conn_views(self.connections@) =~= before.push(
                ConnView { id, peer, backend: None, inbound_bytes: 0, outbound_bytes: 0 },
            ));
        }
        id
    }

    fn on_connection_backend(&mut self, id: u64, backend: &RemoteAddr)
        ensures
            final(self)@ == old(self)@.backend_selected(id, backend.text()),
    {
        let text = backend.to_text();
        match find_conn(&self.connections, id) {
            Some(i) => {
                self.connections[i].backend = Some(text.clone());
                proof {
                    assert(conn_views(self.connections@) =~= conn_views(old(self).connections@).update(
                        i as int,
                        ConnView {
                            backend: Some(backend.text()),
                            ..conn_views(old(self).connections@)[i as int]
                        },
                    ));
                }
            },
            None => {},
        }
        self.last_success_backend = Some(text);
    }

    fn on_connection_bytes(&mut self, id: u64, inbound_delta: u64, outbound_delta: u64)
        ensures
            final(self)@ == old(self)@.transferred(id, inbound_delta, outbound_delta),
    {
        if inbound_delta > 0 {
            self.total_inbound_bytes = self.total_inbound_bytes.wrapping_add(inbound_delta);
            self.tcp_inbound_bytes = self.tcp_inbound_bytes.wrapping_add(inbound_delta);
        }
        if outbound_delta > 0 {
            self.total_outbound_bytes = self.total_outbound_bytes.wrapping_add(outbound_delta);
            self.tcp_outbound_bytes = self.tcp_outbound_bytes.wrapping_add(outbound_delta);
        }
        if inbound_delta == 0 && outbound_delta == 0 {
            return ;
        }
        let i: usize = match find_conn(&self.connections, id) {
            Some(i) => i,
            None => {
                return ;
            },
        };
        let inbound: u64 = self.connections[i].inbound_bytes.saturating_add(inbound_delta);
        let outbound: u64 = self.connections[i].outbound_bytes.saturating_add(outbound_delta);
        self.connections[i].inbound_bytes = inbound;
        self.connections[i].outbound_bytes = outbound;
        proof {
            let entry = conn_views(old(self).connections@)[i as int];
            assert(conn_views(self.connections@) =~= conn_views(old(self).connections@).update(
                i as int,
                ConnView { inbound_bytes: inbound, outbound_bytes: outbound, ..entry },
            ));
        }
        match &self.connections[i].backend {
            Some(backend) => {
                add_bytes(
                    &mut self.tcp_bytes_by_backend,
                    backend.as_str(),
                    inbound_delta,
                    outbound_delta,
                );
            },
            None => {},
        }
    }

    fn on_connection_end(&mut self, id: u64, _error: Option<String>)
        ensures
            final(self)@ == old(self)@.ended(id),
    {
        remove_conn(&mut self.connections, id);
    }

    fn on_failover_health(&mut self, health: Option<FailoverHealth>)
        ensures
            final(self)@ == (StatsView {
                failover_health: match health {
                    Some(h) => Some(h@),
                    None => None,
                },
                ..old(self)@
            }),
    {
        self.failover_health = health;
    }
}

impl UdpObserver for InstanceStats {
    fn on_session_open(&mut self, peer: SockAddr)
        ensures
            final(self)@ == old(self)@.session_opened(peer),
    {
        self.total_connections = self.total_connections.wrapping_add(1);
        self.udp_total_connections = self.udp_total_connections.wrapping_add(1);
        remove_session(&mut self.udp_sessions, peer);
        let ghost before = session_peers(self.udp_sessions@);
        self.udp_sessions.push(UdpSessionEntry { peer, started_at: instant_now() });
        proof {
            assert(session_peers(self.udp_sessions@) =~= before.push(peer));
        }
    }

    fn on_session_close(&mut self, peer: SockAddr)
        ensures
            final(self)@ == old(self)@.session_closed(peer),
    {
        remove_session(&mut self.udp_sessions, peer);
    }

    fn on_bytes(&mut self, inbound_delta: u64, outbound_delta: u64)
        ensures
            final(self)@ == old(self)@.udp_transferred(inbound_delta, outbound_delta),
    {
        if inbound_delta > 0 {
            self.total_inbound_bytes = self.total_inbound_bytes.wrapping_add(inbound_delta);
            self.udp_inbound_bytes = self.udp_inbound_bytes.wrapping_add(inbound_delta);
        }
        if outbound_delta > 0 {
            self.total_outbound_bytes = self.total_outbound_bytes.wrapping_add(outbound_delta);
            self.udp_outbound_bytes = self.udp_outbound_bytes.wrapping_add(outbound_delta);
        }
    }
}

/// No two live connections have one id.
pub open spec fn distinct_ids(conns: Seq<ConnView>) -> bool {
    forall|j: int, k: int|
        0 <= j < k < conns.len() ==> (#[trigger] conns[j]).id != (#[trigger] conns[k]).id
}

/// No two entries of a table stand under one key.
pub open spec fn distinct_keys<V>(list: Seq<(Seq<char>, V)>) -> bool {
    forall|j: int, k: int|
        0 <= j < k < list.len() ==> (#[trigger] list[j]).0 != (#[trigger] list[k]).0
}

impl StatsView {
    /// The live connections, the live associations and the backends each
    /// stand once: the lists are maps.
    pub open spec fn wf(self) -> bool {
        &&& distinct_ids(self.connections)
        &&& self.udp_sessions.no_duplicates()
        &&& distinct_keys(self.tcp_bytes_by_backend)
    }
}

/// What is left when the first match is taken out of a list without
/// doubles holds no match, and no doubles.
proof fn lemma_without_first<T>(s: Seq<T>, f: spec_fn(T) -> bool, same: spec_fn(T, T) -> bool)
    requires
        forall|j: int, k: int| 0 <= j < k < s.len() ==> !same(#[trigger] s[j], #[trigger] s[k]),
        forall|a: T, b: T| f(a) && f(b) ==> #[trigger] same(a, b),
    ensures
        first_where(without_first(s, f), f) is None,
        forall|j: int| 0 <= j < without_first(s, f).len() ==> !f(#[trigger] without_first(s, f)[j]),
        forall|j: int, k: int|
            0 <= j < k < without_first(s, f).len() ==> !same(
                #[trigger] without_first(s, f)[j],
                #[trigger] without_first(s, f)[k],
            ),
        without_first(s, f).len() <= s.len(),
{
    lemma_first_where(s, f);
    let rest = without_first(s, f);
    match first_where(s, f) {
        Some(i) => {
            assert forall|j: int| 0 <= j < rest.len() implies !f(#[trigger] rest[j]) by {
                if j < i {
                    assert(rest[j] == s[j]);
                } else {
                    assert(rest[j] == s[j + 1]);
                    assert(!same(s[i], s[j + 1]));
                }
            }
            assert forall|j: int, k: int| 0 <= j < k < rest.len() implies !same(
                #[trigger] rest[j],
                #[trigger] rest[k],
            ) by {
                let jj = if j < i {
                    j
                } else {
                    j + 1
                };
                let kk = if k < i {
                    k
                } else {
                    k + 1
                };
                assert(rest[j] == s[jj]);
                assert(rest[k] == s[kk]);
            }
        },
        None => {},
    }
    lemma_first_where(rest, f);
}

/// Whether two connections have one id.
pub open spec fn same_id() -> spec_fn(ConnView, ConnView) -> bool {
    |a: ConnView, b: ConnView| a.id == b.id
}

/// Whether two peers are one.
pub open spec fn same_peer() -> spec_fn(SockAddr, SockAddr) -> bool {
    |a: SockAddr, b: SockAddr| a == b
}

/// Whatever is reported, the lists stay maps.
pub proof fn lemma_stats_stay_wf(
    stats: StatsView,
    id: u64,
    peer: SockAddr,
    backend: Seq<char>,
    inbound: u64,
    outbound: u64,
)
    requires
        stats.wf(),
    ensures
        stats.opened(peer).wf(),
        stats.backend_selected(id, backend).wf(),
        stats.transferred(id, inbound, outbound).wf(),
        stats.ended(id).wf(),
        stats.session_opened(peer).wf(),
        stats.session_closed(peer).wf(),
        stats.udp_transferred(inbound, outbound).wf(),
        stats.cleared().wf(),
{
    lemma_without_first(stats.connections, with_id(stats.next_id()), same_id());
    lemma_without_first(stats.connections, with_id(id), same_id());
    lemma_without_first(stats.udp_sessions, from_peer(peer), same_peer());
    lemma_first_where(stats.connections, with_id(id));
    // a live connection keeps its id whatever is written into it
    match first_where(stats.connections, with_id(id)) {
        Some(i) => {
            let entry = stats.connections[i];
            match entry.backend {
                Some(b) => {
                    lemma_key_index(stats.tcp_bytes_by_backend, b);
                },
                None => {},
            }
        },
        None => {},
    }
}

/// The bytes that a list of deltas carries in one direction.
pub open spec fn delta_sum(deltas: Seq<(u64, u64)>, inbound: bool) -> nat
    decreases deltas.len(),
{
    if deltas.len() == 0 {
        0
    } else {
        delta_sum(deltas.drop_last(), inbound) + if inbound {
            deltas.last().0 as nat
        } else {
            deltas.last().1 as nat
        }
    }
}

/// `n`, or the largest `u64` where `n` is larger.
pub open spec fn capped(n: int) -> u64 {
    if 0 <= n <= u64::MAX {
        n as u64
    } else {
        u64::MAX
    }
}

/// `n` as a counter of 64 bits shows it.
pub open spec fn wrapped(n: int) -> u64 {
    (n % 0x1_0000_0000_0000_0000) as u64
}

impl StatsView {
    /// After connection `id` carried each of `deltas` in turn.
    pub open spec fn transferred_each(self, id: u64, deltas: Seq<(u64, u64)>) -> StatsView
        decreases deltas.len(),
    {
        if deltas.len() == 0 {
            self
        } else {
            self.transferred_each(id, deltas.drop_last()).transferred(
                id,
                deltas.last().0,
                deltas.last().1,
            )
        }
    }
}

/// Adding to a capped count is adding to the count, and capping; adding
/// to a wrapped count is adding to the count, and wrapping.
proof fn lemma_counts_add_up(n: int, d: u64)
    requires
        n >= 0,
    ensures
        capped_sum(capped(n), d) == capped(n + d),
        wrapped(n).wrapping_add(d) == wrapped(n + d),
{
    let m = 0x1_0000_0000_0000_0000int;
    let q = n / m;
    let r = n % m;
    assert(n == q * m + r && 0 <= r < m) by (nonlinear_arith)
        requires
            m == 0x1_0000_0000_0000_0000int,
            q == n / m,
            r == n % m,
            n >= 0,
    ;
    if r + d >= m {
        assert((n + d) % m == r + d - m) by (nonlinear_arith)
            requires
                n == q * m + r,
                m <= r + d < 2 * m,
                m > 0,
        ;
    } else {
        assert((n + d) % m == r + d) by (nonlinear_arith)
            requires
                n == q * m + r,
                0 <= r + d < m,
                m > 0,
        ;
    }
}

/// What one transfer does to a live connection and to the totals.
proof fn lemma_transfer_step(stats: StatsView, id: u64, i: int, inbound: u64, outbound: u64)
    requires
        first_where(stats.connections, with_id(id)) == Some(i),
    ensures
        ({
            let after = stats.transferred(id, inbound, outbound);
            &&& 0 <= i < stats.connections.len()
            &&& after.connections.len() == stats.connections.len()
            &&& first_where(after.connections, with_id(id)) == Some(i)
            &&& after.connections[i].inbound_bytes == capped_sum(
                stats.connections[i].inbound_bytes,
                inbound,
            )
            &&& after.connections[i].outbound_bytes == capped_sum(
                stats.connections[i].outbound_bytes,
                outbound,
            )
            &&& after.connections[i].id == id
            &&& after.connections[i].peer == stats.connections[i].peer
            &&& after.connections[i].backend == stats.connections[i].backend
            &&& forall|j: int|
                0 <= j < stats.connections.len() && j != i ==> after.connections[j]
                    == stats.connections[j]
            &&& after.total_inbound_bytes == stats.total_inbound_bytes.wrapping_add(inbound)
            &&& after.total_outbound_bytes == stats.total_outbound_bytes.wrapping_add(outbound)
            &&& after.tcp_inbound_bytes == stats.tcp_inbound_bytes.wrapping_add(inbound)
            &&& after.tcp_outbound_bytes == stats.tcp_outbound_bytes.wrapping_add(outbound)
        }),
{
    lemma_first_where(stats.connections, with_id(id));
    let after = stats.transferred(id, inbound, outbound);
    assert(with_id(id)(after.connections[i]));
    assert forall|j: int| 0 <= j < i implies !with_id(id)(#[trigger] after.connections[j]) by {
        assert(after.connections[j] == stats.connections[j]);
        assert(!with_id(id)(stats.connections[j]));
    }
    lemma_first_where_is(after.connections, with_id(id), i);
}

/// What a live connection carries is added up: in its own counts, which
/// stop at the top, and in the totals of the instance, which wrap as
/// counters do. Nothing else changes of the live connections.
pub proof fn lemma_bytes_add_up(stats: StatsView, id: u64, deltas: Seq<(u64, u64)>)
    requires
        first_where(stats.connections, with_id(id)) is Some,
    ensures
        ({
            let i = first_where(stats.connections, with_id(id)).unwrap();
            let after = stats.transferred_each(id, deltas);
            &&& 0 <= i < stats.connections.len()
            &&& after.connections.len() == stats.connections.len()
            &&& first_where(after.connections, with_id(id)) == Some(i)
            &&& after.connections[i].inbound_bytes == capped(
                stats.connections[i].inbound_bytes + delta_sum(deltas, true),
            )
            &&& after.connections[i].outbound_bytes == capped(
                stats.connections[i].outbound_bytes + delta_sum(deltas, false),
            )
            &&& after.connections[i].id == id
            &&& after.connections[i].peer == stats.connections[i].peer
            &&& after.connections[i].backend == stats.connections[i].backend
            &&& forall|j: int|
                0 <= j < stats.connections.len() && j != i ==> after.connections[j]
                    == stats.connections[j]
            &&& after.total_inbound_bytes == wrapped(
                stats.total_inbound_bytes + delta_sum(deltas, true),
            )
            &&& after.total_outbound_bytes == wrapped(
                stats.total_outbound_bytes + delta_sum(deltas, false),
            )
            &&& after.tcp_inbound_bytes == wrapped(
                stats.tcp_inbound_bytes + delta_sum(deltas, true),
            )
            &&& after.tcp_outbound_bytes == wrapped(
                stats.tcp_outbound_bytes + delta_sum(deltas, false),
            )
        }),
    decreases deltas.len(),
{
    let i = first_where(stats.connections, with_id(id)).unwrap();
    lemma_first_where(stats.connections, with_id(id));
    if deltas.len() > 0 {
        let front = deltas.drop_last();
        let before = stats.transferred_each(id, front);
        let (inbound, outbound) = deltas.last();
        lemma_bytes_add_up(stats, id, front);
        lemma_transfer_step(before, id, i, inbound, outbound);
        let e = stats.connections[i];
        lemma_counts_add_up(e.inbound_bytes + delta_sum(front, true), inbound);
        lemma_counts_add_up(e.outbound_bytes + delta_sum(front, false), outbound);
        lemma_counts_add_up(stats.total_inbound_bytes + delta_sum(front, true), inbound);
        lemma_counts_add_up(stats.total_outbound_bytes + delta_sum(front, false), outbound);
        lemma_counts_add_up(stats.tcp_inbound_bytes + delta_sum(front, true), inbound);
        lemma_counts_add_up(stats.tcp_outbound_bytes + delta_sum(front, false), outbound);
        assert(delta_sum(deltas, true) == delta_sum(front, true) + inbound);
        assert(delta_sum(deltas, false) == delta_sum(front, false) + outbound);
    }
}

/// The deltas that a stream counted in `direction` reports for writes of
/// `writes` bytes, one after the other.
pub open spec fn write_deltas(direction: CountDirection, writes: Seq<usize>) -> Seq<(u64, u64)> {
    Seq::new(
        writes.len(),
        |k: int|
            match direction {
                CountDirection::Inbound => (writes[k] as u64, 0u64),
                CountDirection::Outbound => (0u64, writes[k] as u64),
            },
    )
}

/// The bytes of writes of `writes` bytes, all together.
pub open spec fn bytes_written(writes: Seq<usize>) -> nat
    decreases writes.len(),
{
    if writes.len() == 0 {
        0
    } else {
        bytes_written(writes.drop_last()) + writes.last() as nat
    }
}

/// What a counted stream reports adds up to what was written to it, in its
/// direction, and to nothing in the other: the stream to the remote reports
/// the bytes from the client as inbound, the stream to the client those from
/// the remote as outbound.
pub proof fn lemma_written_is_counted(direction: CountDirection, writes: Seq<usize>)
    ensures
        delta_sum(write_deltas(direction, writes), direction == CountDirection::Inbound)
            == bytes_written(writes),
        delta_sum(write_deltas(direction, writes), direction != CountDirection::Inbound) == 0,
    decreases writes.len(),
{
    if writes.len() > 0 {
        lemma_written_is_counted(direction, writes.drop_last());
        assert(write_deltas(direction, writes).drop_last() =~= write_deltas(
            direction,
            writes.drop_last(),
        ));
    }
}

/// A connection that is opened is live, once, under the id that was handed
/// out; when its end is reported it is live no more, and the connections
/// that were live beside it are as they were. One end is all that counts:
/// an end that is reported again changes nothing.
pub proof fn lemma_open_then_end(stats: StatsView, peer: SockAddr)
    requires
        stats.wf(),
    ensures
        stats.opened(peer).ended(stats.next_id()).ended(stats.next_id()) == stats.opened(
            peer,
        ).ended(stats.next_id()),
        first_where(stats.opened(peer).connections, with_id(stats.next_id())) == Some(
            stats.opened(peer).connections.len() - 1,
        ),
        stats.opened(peer).connections.last().peer == peer,
        first_where(stats.opened(peer).ended(stats.next_id()).connections, with_id(stats.next_id()))
            is None,
        stats.opened(peer).ended(stats.next_id()).connections == without_first(
            stats.connections,
            with_id(stats.next_id()),
        ),
{
    let id = stats.next_id();
    let rest = without_first(stats.connections, with_id(id));
    lemma_without_first(stats.connections, with_id(id), same_id());
    let live = stats.opened(peer).connections;
    assert(with_id(id)(live[rest.len() as int]));
    assert forall|j: int| 0 <= j < rest.len() implies !with_id(id)(#[trigger] live[j]) by {
        assert(live[j] == rest[j]);
    }
    lemma_first_where_is(live, with_id(id), rest.len() as int);
    assert(live.remove(rest.len() as int) =~= rest);
}

} // verus!
