//! The reports on an instance: its counters, its live connections and
//! associations page by page, and the state of its backends.

use crate::api::failure;
use crate::api::ApiFailure;
use crate::api::FailureView;
use crate::api::BAD_REQUEST;
use crate::clock::moment;
use crate::conf::opt_text;
use crate::conf::texts;
use crate::health::FailoverHealth;
use crate::health::FailoverPeerSnapshot;
use crate::health::HealthView;
use crate::stats::backend_of;
use crate::stats::is_row_of;
use crate::stats::BackendBytes;
use crate::stats::InstanceStats;
use crate::stats::StatsView;
use crate::tally::keyed;
use crate::text::chars_of;
use crate::text::find_char;
use crate::text::first_index;
use crate::text::str_eq;
use crate::text::trim_bounds;
use crate::text::trimmed;
use crate::tally::first_where;
use crate::tally::lemma_first_where;
use crate::tally::lemma_first_where_is;
use vstd::prelude::*;
use vstd::string::StringExecFns;

verus! {

/// The counters of an instance.
#[derive(Debug)]
pub struct InstanceStatsResponse {
    pub id: String,
    pub total_inbound_bytes: u64,
    pub total_outbound_bytes: u64,
    pub total_connections: u64,
    pub current_connections: u64,
    pub tcp_inbound_bytes: u64,
    pub tcp_outbound_bytes: u64,
    pub tcp_total_connections: u64,
    pub tcp_current_connections: u64,
    pub udp_inbound_bytes: u64,
    pub udp_outbound_bytes: u64,
    pub udp_total_sessions: u64,
    pub udp_current_sessions: u64,
    /// An older name of `udp_total_sessions`.
    pub udp_total_connections: u64,
    /// An older name of `udp_current_sessions`.
    pub udp_current_connections: u64,
    pub connections_by_backend: Vec<(String, u64)>,
    pub bytes_by_backend: Vec<(String, BackendBytes)>,
}

/// One backend in a route report.
#[derive(Debug)]
pub struct InstanceRouteBackend {
    pub addr: String,
    pub role: String,
    pub state: String,
    pub backoff_until_ms: Option<u64>,
    pub ok_recent: bool,
}

/// The route report of an instance.
#[derive(Debug)]
pub struct InstanceRouteResponse {
    pub id: String,
    pub strategy: String,
    pub preferred_backend: Option<String>,
    pub last_success_backend: Option<String>,
    pub backends: Vec<InstanceRouteBackend>,
    pub connections_by_backend: Vec<(String, u64)>,
    pub bytes_by_backend: Vec<(String, BackendBytes)>,
    pub updated_at: String,
}

/// One live connection or association in a report.
#[derive(Debug)]
pub struct ConnectionStats {
    pub src_ip: String,
    pub src_port: u16,
    pub duration_secs: u64,
    pub backend: String,
}

/// What a request for a page of connections asks for.
#[derive(Debug)]
pub struct ConnectionsQuery {
    pub protocol: Option<String>,
    pub limit: Option<usize>,
    pub offset: Option<usize>,
}

/// A page of TCP connections.
#[derive(Debug)]
pub struct TcpConnectionsPageResponse {
    pub id: String,
    pub protocol: String,
    pub total: u64,
    pub limit: u64,
    pub offset: u64,
    pub connections: Vec<ConnectionStats>,
}

/// A page of UDP associations.
#[derive(Debug)]
pub struct UdpSessionsPageResponse {
    pub id: String,
    pub protocol: String,
    pub total: u64,
    pub limit: u64,
    pub offset: u64,
    pub sessions: Vec<ConnectionStats>,
}

/// A page of each.
#[derive(Debug)]
pub struct ConnectionsAndSessionsPageResponse {
    pub id: String,
    pub protocol: String,
    pub tcp_total: u64,
    pub udp_total: u64,
    pub limit: u64,
    pub offset: u64,
    pub connections: Vec<ConnectionStats>,
    pub sessions: Vec<ConnectionStats>,
}

/// A page of connections, of associations, or of both.
#[derive(Debug)]
pub enum ConnectionsPageResponse {
    Tcp(TcpConnectionsPageResponse),
    Udp(UdpSessionsPageResponse),
    All(ConnectionsAndSessionsPageResponse),
}

/// The rows of a page where the request names no limit.
pub const DEFAULT_PAGE_LIMIT: usize = 100;

/// The most rows of a page.
pub const MAX_PAGE_LIMIT: usize = 1000;

/// The limit of a page: what the request asks for, a hundred where it asks
/// for nothing, and never more than a thousand.
pub open spec fn page_limit(asked: Option<usize>) -> usize {
    match asked {
        Some(n) => if n > MAX_PAGE_LIMIT {
            MAX_PAGE_LIMIT
        } else {
            n
        },
        None => DEFAULT_PAGE_LIMIT,
    }
}

/// Where a page starts: where the request asks, at the first row where it
/// does not ask.
pub open spec fn page_offset(asked: Option<usize>) -> usize {
    match asked {
        Some(n) => n,
        None => 0,
    }
}

/// The limit of a page.
pub fn limit_of(asked: Option<usize>) -> (r: usize)
    ensures
        r == page_limit(asked),
{
    match asked {
        Some(n) => if n > MAX_PAGE_LIMIT {
            MAX_PAGE_LIMIT
        } else {
            n
        },
        None => DEFAULT_PAGE_LIMIT,
    }
}

/// Whether a row has lasted `d` seconds.
pub open spec fn lasting(d: u64) -> spec_fn(ConnectionStats) -> bool {
    |r: ConnectionStats| r.duration_secs == d
}

/// The rows of `rows` that have lasted `d` seconds, in their order.
pub open spec fn kept(rows: Seq<ConnectionStats>, d: u64) -> Seq<ConnectionStats> {
    rows.filter(lasting(d))
}

/// Whether the rows stand by falling duration.
pub open spec fn longest_first(rows: Seq<ConnectionStats>) -> bool {
    forall|i: int, j: int|
        0 <= i < j < rows.len() ==> (#[trigger] rows[i]).duration_secs >= (
        #[trigger] rows[j]).duration_secs
}

/// What one step of the sort keeps: a row put in after every row that has
/// lasted as long or longer leaves the rows of each duration in their order.
proof fn lemma_sort_step(
    out: Seq<ConnectionStats>,
    rows: Seq<ConnectionStats>,
    p: int,
    d: u64,
)
    requires
        rows.len() > 0,
        0 <= p <= out.len(),
        longest_first(out),
        forall|j: int| 0 <= j < p ==> (#[trigger] out[j]).duration_secs >= rows[0].duration_secs,
        p < out.len() ==> out[p].duration_secs < rows[0].duration_secs,
    ensures
        kept(out.insert(p, rows[0]), d) + kept(rows.remove(0), d) == kept(out, d) + kept(rows, d),
        longest_first(out.insert(p, rows[0])),
{
    let row = rows[0];
    let head = out.take(p);
    let tail = out.skip(p);
    let one = seq![row];
    let f = lasting(d);
    assert(out =~= head + tail);
    assert(out.insert(p, row) =~= head + one + tail);
    assert(rows =~= one + rows.remove(0));
    Seq::filter_distributes_over_add(head, tail, f);
    Seq::filter_distributes_over_add(head + one, tail, f);
    Seq::filter_distributes_over_add(head, one, f);
    Seq::filter_distributes_over_add(one, rows.remove(0), f);
    assert(one.filter(f) =~= if row.duration_secs == d {
        one
    } else {
        Seq::empty()
    }) by {
        reveal(Seq::filter);
        assert(one.drop_last() =~= Seq::<ConnectionStats>::empty());
        assert(one.drop_last().filter(f) =~= Seq::<ConnectionStats>::empty());
    }
    if row.duration_secs == d {
        assert(tail.all(|x: ConnectionStats| !f(x))) by {
            assert forall|i: int| 0 <= i < tail.len() implies !f(#[trigger] tail[i]) by {
                assert(tail[i] == out[p + i]);
                if i > 0 {
                    assert(out[p].duration_secs >= out[p + i].duration_secs);
                }
            }
        }
        tail.lemma_all_neg_filter_empty(f);
        assert(tail.filter(f) =~= Seq::<ConnectionStats>::empty());
    }
    assert(kept(out.insert(p, row), d) + kept(rows.remove(0), d) =~= kept(out, d) + kept(rows, d));
    let next = out.insert(p, row);
    assert forall|i: int, j: int| 0 <= i < j < next.len() implies (
    #[trigger] next[i]).duration_secs >= (#[trigger] next[j]).duration_secs by {
        let a = if i < p {
            out[i]
        } else if i == p {
            row
        } else {
            out[i - 1]
        };
        let b = if j < p {
            out[j]
        } else if j == p {
            row
        } else {
            out[j - 1]
        };
        assert(next[i] == a);
        assert(next[j] == b);
        if i < p && j > p {
            assert(out[i].duration_secs >= out[j - 1].duration_secs);
        }
        if i == p && j > p {
            assert(out[p].duration_secs >= out[j - 1].duration_secs);
        }
        if i > p {
            assert(out[i - 1].duration_secs >= out[j - 1].duration_secs);
        }
    }
}

/// Whether a row has lasted less than `d` seconds.
pub open spec fn shorter_than(d: u64) -> spec_fn(ConnectionStats) -> bool {
    |r: ConnectionStats| r.duration_secs < d
}

/// Where a row goes among rows that stand by falling duration: before the
/// first that has lasted less, at the end where there is none.
pub open spec fn slot(rows: Seq<ConnectionStats>, row: ConnectionStats) -> int {
    match first_where(rows, shorter_than(row.duration_secs)) {
        Some(p) => p,
        None => rows.len() as int,
    }
}

/// The rows by falling duration; rows that have lasted equally long keep
/// their order.
pub open spec fn sorted_rows(rows: Seq<ConnectionStats>) -> Seq<ConnectionStats>
    decreases rows.len(),
{
    if rows.len() == 0 {
        rows
    } else {
        let front = sorted_rows(rows.drop_last());
        front.insert(slot(front, rows.last()), rows.last())
    }
}

/// Sorted rows are the rows, by falling duration, those of each duration in
/// the order in which they stood.
pub proof fn lemma_sorted_rows(rows: Seq<ConnectionStats>)
    ensures
        sorted_rows(rows).len() == rows.len(),
        longest_first(sorted_rows(rows)),
        forall|d: u64| #[trigger] kept(sorted_rows(rows), d) == kept(rows, d),
        sorted_rows(rows).to_multiset() == rows.to_multiset(),
    decreases rows.len(),
{
    broadcast use vstd::seq_lib::to_multiset_insert, vstd::seq_lib::to_multiset_build;

    if rows.len() == 0 {
    } else {
        let front_rows = rows.drop_last();
        let row = rows.last();
        lemma_sorted_rows(front_rows);
        let front = sorted_rows(front_rows);
        let p = slot(front, row);
        lemma_first_where(front, shorter_than(row.duration_secs));
        assert forall|j: int| 0 <= j < p implies (#[trigger] front[j]).duration_secs
            >= row.duration_secs by {
            assert(!shorter_than(row.duration_secs)(front[j]));
        }
        if p < front.len() {
            assert(shorter_than(row.duration_secs)(front[p]));
        }
        assert forall|d: u64| #[trigger] kept(sorted_rows(rows), d) == kept(rows, d) by {
            lemma_sort_step(front, seq![row], p, d);
            assert(seq![row][0] == row);
            assert(seq![row].remove(0) =~= Seq::<ConnectionStats>::empty());
            assert(kept(Seq::<ConnectionStats>::empty(), d) =~= Seq::<ConnectionStats>::empty()) by {
                reveal(Seq::filter);
            }
            assert(kept(front, d) == kept(front_rows, d));
            assert(rows =~= front_rows + seq![row]);
            Seq::filter_distributes_over_add(front_rows, seq![row], lasting(d));
            assert(kept(front.insert(p, row), d) + Seq::<ConnectionStats>::empty() =~= kept(
                front.insert(p, row),
                d,
            ));
        }
        lemma_sort_step(front, seq![row], p, 0);
        assert(seq![row][0] == row);
        assert(rows =~= front_rows.push(row));
    }
}

/// Sorts rows by falling duration. Rows that have lasted equally long keep
/// their order.
pub fn sort_rows(rows: Vec<ConnectionStats>) -> (out: Vec<ConnectionStats>)
    ensures
        out@ == sorted_rows(rows@),
{
    let mut rest = rows;
    let mut out: Vec<ConnectionStats> = Vec::new();
    let ghost mut done: int = 0;
    proof {
        assert(rows@.take(0) =~= Seq::<ConnectionStats>::empty());
    }
    while rest.len() > 0
        invariant
            0 <= done <= rows@.len(),
            rest@ == rows@.skip(done),
            out@ == sorted_rows(rows@.take(done)),
        decreases rest@.len(),
    {
        let row = rest.remove(0);
        let ghost d = row.duration_secs;
        proof {
            lemma_first_where(out@, shorter_than(d));
            lemma_sorted_rows(rows@.take(done));
        }
        let mut p: usize = 0;
        while p < out.len() && out[p].duration_secs >= row.duration_secs
            invariant
                p <= out@.len(),
                d == row.duration_secs,
                forall|j: int| 0 <= j < p ==> !shorter_than(d)(#[trigger] out@[j]),
            decreases out@.len() - p,
        {
            p += 1;
        }
        proof {
            if p < out.len() {
                assert(shorter_than(d)(out@[p as int]));
                lemma_first_where_is(out@, shorter_than(d), p as int);
            } else {
                lemma_first_where(out@, shorter_than(d));
            }
            assert(rows@.take(done + 1).drop_last() =~= rows@.take(done));
            assert(rows@.take(done + 1).last() == row);
            assert(rest@ =~= rows@.skip(done + 1));
        }
        out.insert(p, row);
        proof {
            done = done + 1;
        }
    }
    proof {
        assert(rows@.take(done) =~= rows@);
    }
    out
}

/// The rows of a page: `limit` rows from `offset` on, as far as there are
/// rows.
pub open spec fn paged(rows: Seq<ConnectionStats>, offset: usize, limit: usize) -> Seq<
    ConnectionStats,
> {
    let start = if offset <= rows.len() {
        offset as int
    } else {
        rows.len() as int
    };
    let end = if start + limit <= rows.len() {
        start + limit
    } else {
        rows.len() as int
    };
    rows.subrange(start, end)
}

/// The rows of a page.
pub fn page_rows(rows: Vec<ConnectionStats>, offset: usize, limit: usize) -> (out: Vec<
    ConnectionStats,
>)
    ensures
        out@ == paged(rows@, offset, limit),
{
    let ghost all = rows@;
    let mut rows = rows;
    let n: usize = rows.len();
    let start: usize = if offset <= n {
        offset
    } else {
        n
    };
    let end: usize = if limit <= n - start {
        start + limit
    } else {
        n
    };
    rows.truncate(end);
    let out = rows.split_off(start);
    proof {
        assert(out@ =~= paged(all, offset, limit));
    }
    out
}

/// What a backend's health says in a route report: its state, the end of
/// its backoff if it is in one, and whether it was healthy of late.
pub open spec fn backend_state(snap: Option<FailoverPeerSnapshot>) -> (Seq<char>, Option<u64>, bool) {
    match snap {
        Some(s) => if s.should_skip {
            ("backoff"@, Some(s.down_until_ms), s.ok_recent)
        } else if s.ok_recent {
            ("healthy"@, None, true)
        } else if s.fail_count > 0 {
            ("unhealthy"@, None, false)
        } else {
            ("unknown"@, None, false)
        },
        None => ("unknown"@, None, false),
    }
}

/// The role of the backend at `i`: the first is the primary.
pub open spec fn backend_role(i: int) -> Seq<char> {
    if i == 0 {
        "primary"@
    } else {
        "backup"@
    }
}

/// What the health in use says of the backend at `i` at `now`: nothing
/// where there is no health, or none for that backend.
pub open spec fn backend_snapshot(health: Option<HealthView>, i: int, now: u64) -> Option<
    FailoverPeerSnapshot,
> {
    match health {
        Some(h) => h.snapshot(i % 256, now),
        None => None,
    }
}

/// Whether the backend at `i` can be preferred at `now`: it is not in
/// backoff.
pub open spec fn backend_usable(health: Option<HealthView>, i: int, now: u64) -> bool {
    match backend_snapshot(health, i, now) {
        Some(s) => !s.should_skip,
        None => true,
    }
}

/// Whether `b` is the report's line on the backend `addr` at `i`.
pub open spec fn is_backend_line(
    b: InstanceRouteBackend,
    addr: Seq<char>,
    health: Option<HealthView>,
    i: int,
    now: u64,
) -> bool {
    let state = backend_state(backend_snapshot(health, i, now));
    &&& b.addr@ == addr
    &&& b.role@ == backend_role(i)
    &&& b.state@ == state.0
    &&& b.backoff_until_ms == state.1
    &&& b.ok_recent == state.2
}

/// The lines of a route report: one for each backend, in order, with what
/// the health in use says of it at `now_ms`; and the position of the
/// preferred backend, the first that is not in backoff, or the primary
/// where every one is.
pub fn route_backends(addrs: &Vec<String>, health: Option<&FailoverHealth>, now_ms: u64) -> (r: (
    Vec<InstanceRouteBackend>,
    usize,
))
    ensures
        r.0@.len() == addrs@.len(),
        forall|i: int|
            0 <= i < addrs@.len() ==> is_backend_line(
                #[trigger] r.0@[i],
                addrs@[i]@,
                match health {
                    Some(h) => Some(h@),
                    None => None,
                },
                i,
                now_ms,
            ),
        addrs@.len() > 0 ==> r.1 < addrs@.len(),
        first_usable(
            match health {
                Some(h) => Some(h@),
                None => None,
            },
            addrs@.len() as int,
            now_ms,
        ) == Some(r.1 as int) || (first_usable(
            match health {
                Some(h) => Some(h@),
                None => None,
            },
            addrs@.len() as int,
            now_ms,
        ) is None && r.1 == 0),
{
    let ghost hv: Option<HealthView> = match health {
        Some(h) => Some(h@),
        None => None,
    };
    let mut lines: Vec<InstanceRouteBackend> = Vec::new();
    let mut preferred: Option<usize> = None;
    let mut i: usize = 0;
    while i < addrs.len()
        invariant
            i <= addrs@.len(),
            lines@.len() == i,
            hv == match health {
                Some(h) => Some(h@),
                None => None,
            },
            forall|k: int|
                0 <= k < i ==> is_backend_line(#[trigger] lines@[k], addrs@[k]@, hv, k, now_ms),
            match preferred {
                Some(p) => p < i && backend_usable(hv, p as int, now_ms) && forall|j: int|
                    0 <= j < p ==> !backend_usable(hv, j, now_ms),
                None => forall|j: int| 0 <= j < i ==> !backend_usable(hv, j, now_ms),
            },
        decreases addrs@.len() - i,
    {
        let snap: Option<FailoverPeerSnapshot> = match health {
            Some(h) => h.peer_snapshot_at(index_byte(i), now_ms),
            None => None,
        };
        let role = if i == 0 {
            "primary"
        } else {
            "backup"
        };
        let (state, backoff_until_ms, ok_recent): (&str, Option<u64>, bool) = match snap {
            Some(s) => if s.should_skip {
                ("backoff", Some(s.down_until_ms), s.ok_recent)
            } else if s.ok_recent {
                ("healthy", None, true)
            } else if s.fail_count > 0 {
                ("unhealthy", None, false)
            } else {
                ("unknown", None, false)
            },
            None => ("unknown", None, false),
        };
        if preferred.is_none() {
            let usable: bool = match snap {
                Some(s) => !s.should_skip,
                None => true,
            };
            if usable {
                preferred = Some(i);
            }
        }
        lines.push(
            InstanceRouteBackend {
                addr: addrs[i].clone(),
                role: String::from_str(role),
                state: String::from_str(state),
                backoff_until_ms,
                ok_recent,
            },
        );
        i += 1;
    }
    proof {
        lemma_first_usable(hv, addrs@.len() as int, now_ms);
    }
    let at: usize = match preferred {
        Some(p) => p,
        None => 0,
    };
    (lines, at)
}

/// The low eight bits of an index: the name under which the health knows a
/// peer.
pub fn index_byte(i: usize) -> (r: u8)
    ensures
        r == (i as int) % 256,
{
    assert((i & 0xff) == i % 256) by (bit_vector);
    (i & 0xff) as u8
}

/// The position of the first of `n` backends that is not in backoff at
/// `now`.
pub open spec fn first_usable(health: Option<HealthView>, n: int, now: u64) -> Option<int>
    decreases n,
{
    if n <= 0 {
        None
    } else {
        match first_usable(health, n - 1, now) {
            Some(i) => Some(i),
            None => if backend_usable(health, n - 1, now) {
                Some(n - 1)
            } else {
                None
            },
        }
    }
}

/// The first usable backend is usable, and none before it is.
pub proof fn lemma_first_usable(health: Option<HealthView>, n: int, now: u64)
    ensures
        match first_usable(health, n, now) {
            Some(i) => 0 <= i < n && backend_usable(health, i, now) && forall|j: int|
                0 <= j < i ==> !backend_usable(health, j, now),
            None => forall|j: int| 0 <= j < n ==> !backend_usable(health, j, now),
        },
    decreases n,
{
    if n > 0 {
        lemma_first_usable(health, n - 1, now);
    }
}

/// What `str::to_lowercase` returns for a text: its characters in lower
/// case, as Unicode defines it.
pub uninterp spec fn lowercased(s: Seq<char>) -> Seq<char>;

/// `str::to_lowercase`: the text in lower case.
#[verifier::external_body]
fn to_lowercase(s: &str) -> (r: String)
    ensures
        r@ == lowercased(s@),
{
    s.to_lowercase()
}

/// What a page of connections is about.
#[derive(Debug, Clone, Copy, PartialEq, Eq, Structural)]
pub enum Protocol {
    Tcp,
    Udp,
    /// Both, each on a page of its own.
    All,
}

/// What a request asks about, by the name it gives in lower case: both where
/// it gives none, nothing where the name is neither `tcp` nor `udp`.
pub open spec fn protocol_named(name: Option<Seq<char>>) -> Option<Protocol> {
    match name {
        None => Some(Protocol::All),
        Some(n) => if n == "tcp"@ {
            Some(Protocol::Tcp)
        } else if n == "udp"@ {
            Some(Protocol::Udp)
        } else {
            None
        },
    }
}

/// The failure of a request for a page of something else than `tcp` or
/// `udp`.
pub open spec fn invalid_query() -> FailureView {
    FailureView {
        status: BAD_REQUEST,
        code: "invalid_query"@,
        message: "protocol must be `tcp` or `udp`"@,
    }
}

/// What a request asks about, by the name it gives in lower case.
pub fn protocol_of(name: Option<&str>) -> (r: Result<Protocol, ApiFailure>)
    ensures
        match protocol_named(
            match name {
                Some(n) => Some(n@),
                None => None,
            },
        ) {
            Some(p) => r == Ok::<Protocol, ApiFailure>(p),
            None => r matches Err(e) && e@ == invalid_query(),
        },
{
    match name {
        None => Ok(Protocol::All),
        Some(n) => if str_eq(n, "tcp") {
            Ok(Protocol::Tcp)
        } else if str_eq(n, "udp") {
            Ok(Protocol::Udp)
        } else {
            Err(failure(BAD_REQUEST, "invalid_query", "protocol must be `tcp` or `udp`"))
        },
    }
}

/// Whether `page` is the page of the instance `id` that shows `limit` rows
/// from `offset` on: of the connections in `tcp`, of the associations in
/// `udp`, or of both, each by falling duration.
pub open spec fn is_page(
    page: ConnectionsPageResponse,
    id: Seq<char>,
    protocol: Protocol,
    tcp: Seq<ConnectionStats>,
    udp: Seq<ConnectionStats>,
    limit: usize,
    offset: usize,
) -> bool {
    match protocol {
        Protocol::Tcp => page matches ConnectionsPageResponse::Tcp(p) && {
            &&& p.id@ == id
            &&& p.protocol@ == "tcp"@
            &&& p.total == tcp.len()
            &&& p.limit == limit
            &&& p.offset == offset
            &&& p.connections@ == paged(sorted_rows(tcp), offset, limit)
        },
        Protocol::Udp => page matches ConnectionsPageResponse::Udp(p) && {
            &&& p.id@ == id
            &&& p.protocol@ == "udp"@
            &&& p.total == udp.len()
            &&& p.limit == limit
            &&& p.offset == offset
            &&& p.sessions@ == paged(sorted_rows(udp), offset, limit)
        },
        Protocol::All => page matches ConnectionsPageResponse::All(p) && {
            &&& p.id@ == id
            &&& p.protocol@ == "all"@
            &&& p.tcp_total == tcp.len()
            &&& p.udp_total == udp.len()
            &&& p.limit == limit
            &&& p.offset == offset
            &&& p.connections@ == paged(sorted_rows(tcp), offset, limit)
            &&& p.sessions@ == paged(sorted_rows(udp), offset, limit)
        },
    }
}

/// The page of the instance `id` that a request asks for, from the rows of
/// its live connections and associations: the rows by falling duration,
/// `limit` of them from `offset` on.
pub fn page_of(
    id: &str,
    protocol: Protocol,
    tcp_rows: Vec<ConnectionStats>,
    udp_rows: Vec<ConnectionStats>,
    limit: usize,
    offset: usize,
) -> (page: ConnectionsPageResponse)
    ensures
        is_page(page, id@, protocol, tcp_rows@, udp_rows@, limit, offset),
{
    match protocol {
        Protocol::Tcp => {
            let total: u64 = tcp_rows.len() as u64;
            ConnectionsPageResponse::Tcp(
                TcpConnectionsPageResponse {
                    id: String::from_str(id),
                    protocol: String::from_str("tcp"),
                    total,
                    limit: limit as u64,
                    offset: offset as u64,
                    connections: page_rows(sort_rows(tcp_rows), offset, limit),
                },
            )
        },
        Protocol::Udp => {
            let total: u64 = udp_rows.len() as u64;
            ConnectionsPageResponse::Udp(
                UdpSessionsPageResponse {
                    id: String::from_str(id),
                    protocol: String::from_str("udp"),
                    total,
                    limit: limit as u64,
                    offset: offset as u64,
                    sessions: page_rows(sort_rows(udp_rows), offset, limit),
                },
            )
        },
        Protocol::All => {
            let tcp_total: u64 = tcp_rows.len() as u64;
            let udp_total: u64 = udp_rows.len() as u64;
            ConnectionsPageResponse::All(
                ConnectionsAndSessionsPageResponse {
                    id: String::from_str(id),
                    protocol: String::from_str("all"),
                    tcp_total,
                    udp_total,
                    limit: limit as u64,
                    offset: offset as u64,
                    connections: page_rows(sort_rows(tcp_rows), offset, limit),
                    sessions: page_rows(sort_rows(udp_rows), offset, limit),
                },
            )
        },
    }
}

/// The number of rows on a page of `limit` rows from `offset` on, of `total`
/// rows.
pub open spec fn paged_len(total: nat, offset: usize, limit: usize) -> nat {
    if offset >= total {
        0
    } else if total - offset <= limit {
        (total - offset) as nat
    } else {
        limit as nat
    }
}

/// Whether `rows` can be a page of `limit` rows from `offset` on, of `total`
/// rows by falling duration.
pub open spec fn can_be_page(rows: Seq<ConnectionStats>, total: nat, offset: usize, limit: usize)
    -> bool {
    rows.len() == paged_len(total, offset, limit) && longest_first(rows)
}

/// Whether `page` can be the page of the instance `id` that shows `limit`
/// rows from `offset` on, of `tcp_total` live connections and `udp_total`
/// live associations.
pub open spec fn can_be_page_of(
    page: ConnectionsPageResponse,
    id: Seq<char>,
    protocol: Protocol,
    tcp_total: nat,
    udp_total: nat,
    limit: usize,
    offset: usize,
) -> bool {
    match protocol {
        Protocol::Tcp => page matches ConnectionsPageResponse::Tcp(p) && {
            &&& p.id@ == id
            &&& p.protocol@ == "tcp"@
            &&& p.total == tcp_total
            &&& p.limit == limit
            &&& p.offset == offset
            &&& can_be_page(p.connections@, tcp_total, offset, limit)
        },
        Protocol::Udp => page matches ConnectionsPageResponse::Udp(p) && {
            &&& p.id@ == id
            &&& p.protocol@ == "udp"@
            &&& p.total == udp_total
            &&& p.limit == limit
            &&& p.offset == offset
            &&& can_be_page(p.sessions@, udp_total, offset, limit)
        },
        Protocol::All => page matches ConnectionsPageResponse::All(p) && {
            &&& p.id@ == id
            &&& p.protocol@ == "all"@
            &&& p.tcp_total == tcp_total
            &&& p.udp_total == udp_total
            &&& p.limit == limit
            &&& p.offset == offset
            &&& can_be_page(p.connections@, tcp_total, offset, limit)
            &&& can_be_page(p.sessions@, udp_total, offset, limit)
        },
    }
}

/// A page of sorted rows shows as many rows as it can, by falling duration.
pub proof fn lemma_page_of_sorted(rows: Seq<ConnectionStats>, offset: usize, limit: usize)
    ensures
        can_be_page(paged(sorted_rows(rows), offset, limit), rows.len(), offset, limit),
{
    lemma_sorted_rows(rows);
    let sorted = sorted_rows(rows);
    let page = paged(sorted, offset, limit);
    let start = if offset <= sorted.len() {
        offset as int
    } else {
        sorted.len() as int
    };
    assert forall|i: int, j: int| 0 <= i < j < page.len() implies (
    #[trigger] page[i]).duration_secs >= (#[trigger] page[j]).duration_secs by {
        assert(page[i] == sorted[start + i]);
        assert(page[j] == sorted[start + j]);
    }
}

/// Rows read off the statistics: marks the rows of which a page was made.
pub open spec fn rows_read(tcp: Seq<ConnectionStats>, udp: Seq<ConnectionStats>) -> bool {
    true
}

/// Whether `tcp` and `udp` are rows of the live connections and
/// associations, one for each and in their order, whatever their durations.
pub open spec fn rows_describe(
    tcp: Seq<ConnectionStats>,
    udp: Seq<ConnectionStats>,
    stats: StatsView,
    default: Seq<char>,
) -> bool {
    &&& tcp.len() == stats.connections.len()
    &&& forall|i: int|
        0 <= i < tcp.len() ==> is_row_of(
            #[trigger] tcp[i],
            stats.connections[i].peer,
            backend_of(stats.connections[i], default),
        )
    &&& udp.len() == stats.udp_sessions.len()
    &&& forall|i: int|
        0 <= i < udp.len() ==> is_row_of(#[trigger] udp[i], stats.udp_sessions[i], default)
}

/// The page of live connections and associations that `query` asks for, of
/// the instance `id` with the remote `default_backend`. The durations are
/// read off the clock; the page is the one that `page_of` makes of the rows
/// that `tcp_rows` and `udp_rows` hand out.
pub fn connections_page(
    stats: &InstanceStats,
    id: &str,
    default_backend: &str,
    query: &ConnectionsQuery,
) -> (r: Result<ConnectionsPageResponse, ApiFailure>)
    ensures
        match protocol_named(
            match query.protocol {
                Some(p) => Some(lowercased(p@)),
                None => None,
            },
        ) {
            None => r matches Err(e) && e@ == invalid_query(),
            Some(protocol) => r matches Ok(page) && can_be_page_of(
                page,
                id@,
                protocol,
                stats@.connections.len(),
                stats@.udp_sessions.len(),
                page_limit(query.limit),
                page_offset(query.offset),
            ) && exists|tcp: Seq<ConnectionStats>, udp: Seq<ConnectionStats>| #[trigger]
                rows_read(tcp, udp) && rows_describe(tcp, udp, stats@, default_backend@)
                    && is_page(
                    page,
                    id@,
                    protocol,
                    tcp,
                    udp,
                    page_limit(query.limit),
                    page_offset(query.offset),
                ),
        },
{
    let limit: usize = limit_of(query.limit);
    let offset: usize = match query.offset {
        Some(o) => o,
        None => 0,
    };
    let protocol: Protocol = match &query.protocol {
        Some(p) => {
            let lowered = to_lowercase(p.as_str());
            match protocol_of(Some(lowered.as_str())) {
                Ok(x) => x,
                Err(e) => {
                    return Err(e);
                },
            }
        },
        None => Protocol::All,
    };
    let tcp_rows = stats.tcp_rows(default_backend);
    let udp_rows = stats.udp_rows(default_backend);
    proof {
        lemma_page_of_sorted(tcp_rows@, offset, limit);
        lemma_page_of_sorted(udp_rows@, offset, limit);
        assert(rows_read(tcp_rows@, udp_rows@));
    }
    Ok(page_of(id, protocol, tcp_rows, udp_rows, limit, offset))
}

/// The name of the strategy in a `balance` string, before it is put in
/// lower case: what stands before the first colon, trimmed; `off` where no
/// balance is configured.
pub open spec fn strategy_written(balance: Option<Seq<char>>) -> Seq<char> {
    match balance {
        None => "off"@,
        Some(s) => match first_index(s, ':') {
            Some(i) => trimmed(s.take(i)),
            None => trimmed(s),
        },
    }
}

/// The name of the strategy in a `balance` string, before it is put in
/// lower case.
pub fn strategy_name(balance: &Option<String>) -> (r: String)
    ensures
        r@ == strategy_written(opt_text(*balance)),
{
    match balance {
        None => String::from_str("off"),
        Some(s) => {
            let chars = chars_of(s.as_str());
            let n: usize = chars.len();
            proof {
                assert(chars@.subrange(0, n as int) =~= s@);
            }
            let end: usize = match find_char(&chars, 0, n, ':') {
                Some(i) => i,
                None => n,
            };
            proof {
                assert(chars@.subrange(0, end as int) =~= s@.take(end as int));
                assert(s@.take(n as int) =~= s@);
            }
            let (a, b) = trim_bounds(&chars, 0, end);
            String::from_str(s.as_str().substring_char(a, b))
        },
    }
}

/// The addresses of a configuration's backends: the remote, then the extra
/// remotes.
pub open spec fn backend_addrs(remote: Seq<char>, extras: Seq<Seq<char>>) -> Seq<Seq<char>> {
    seq![remote] + extras
}

/// Whether `r` is the route report of the instance `id` at `now`, the
/// strategy's name being `strategy`: a line for each backend, with what the
/// health says of it under failover and `unknown` otherwise; the preferred
/// backend, the first that is not in backoff; and the aggregates.
pub open spec fn is_route_report(
    r: InstanceRouteResponse,
    id: Seq<char>,
    strategy: Seq<char>,
    remote: Seq<char>,
    extras: Seq<Seq<char>>,
    stats: StatsView,
    now: u64,
    updated_at: Seq<char>,
) -> bool {
    let addrs = backend_addrs(remote, extras);
    let health = if strategy == "failover"@ {
        stats.failover_health
    } else {
        None
    };
    &&& r.id@ == id
    &&& r.strategy@ == strategy
    &&& r.updated_at@ == updated_at
    &&& opt_text(r.last_success_backend) == stats.last_success_backend
    &&& r.backends@.len() == addrs.len()
    &&& forall|i: int|
        0 <= i < addrs.len() ==> is_backend_line(#[trigger] r.backends@[i], addrs[i], health, i, now)
    &&& opt_text(r.preferred_backend) == Some(
        addrs[match first_usable(health, addrs.len() as int, now) {
            Some(p) => p,
            None => 0,
        }],
    )
    &&& keyed(r.connections_by_backend@) == stats.connections_by_backend(remote)
    &&& keyed(r.bytes_by_backend@) == stats.bytes_by_backend(remote)
}

/// The route report of the instance `id` at `now_ms` on the health's clock:
/// `strategy` is the strategy's name in lower case, `remote` and
/// `extra_remotes` the configured backends.
pub fn route_report_at(
    stats: &InstanceStats,
    id: &str,
    strategy: String,
    remote: &String,
    extra_remotes: &Vec<String>,
    now_ms: u64,
    updated_at: String,
) -> (r: InstanceRouteResponse)
    ensures
        is_route_report(
            r,
            id@,
            strategy@,
            remote@,
            texts(extra_remotes@),
            stats@,
            now_ms,
            updated_at@,
        ),
{
    let mut addrs: Vec<String> = Vec::new();
    addrs.push(remote.clone());
    let mut i: usize = 0;
    while i < extra_remotes.len()
        invariant
            i <= extra_remotes@.len(),
            addrs@.len() == i + 1,
            addrs@[0]@ == remote@,
            forall|k: int| 0 <= k < i ==> (#[trigger] addrs@[k + 1])@ == extra_remotes@[k]@,
        decreases extra_remotes@.len() - i,
    {
        addrs.push(extra_remotes[i].clone());
        i += 1;
    }
    let ghost backends = backend_addrs(remote@, texts(extra_remotes@));
    proof {
        assert forall|k: int| 0 <= k < backends.len() implies (#[trigger] addrs@[k])@
            == backends[k] by {
            if k > 0 {
                assert(addrs@[(k - 1) + 1]@ == extra_remotes@[k - 1]@);
            }
        }
    }
    let failover: bool = str_eq(strategy.as_str(), "failover");
    let health: Option<&FailoverHealth> = if failover {
        stats.get_failover_health()
    } else {
        None
    };
    let (backends, preferred) = route_backends(&addrs, health, now_ms);
    let preferred_backend: Option<String> = Some(addrs[preferred].clone());
    let (connections_by_backend, bytes_by_backend) = stats.build_backend_aggregates(
        remote.as_str(),
    );
    InstanceRouteResponse {
        id: String::from_str(id),
        strategy,
        preferred_backend,
        last_success_backend: stats.get_last_success_backend(),
        backends,
        connections_by_backend,
        bytes_by_backend,
        updated_at,
    }
}

/// The route report of the instance `id`, as things stand now. The moment
/// is read off the health's clock, and the strategy's name is put in lower
/// case; the rest is as `route_report_at` says.
pub fn route_report(
    stats: &InstanceStats,
    id: &str,
    balance: &Option<String>,
    remote: &String,
    extra_remotes: &Vec<String>,
    updated_at: String,
) -> (r: InstanceRouteResponse)
    ensures
        exists|now: u64| #[trigger]
            moment(now) && is_route_report(
                r,
                id@,
                lowercased(strategy_written(opt_text(*balance))),
                remote@,
                texts(extra_remotes@),
                stats@,
                now,
                updated_at@,
            ),
{
    let strategy = to_lowercase(strategy_name(balance).as_str());
    let now_ms: u64 = match stats.get_failover_health() {
        Some(h) => h.now_ms(),
        None => 0,
    };
    assert(moment(now_ms));
    route_report_at(stats, id, strategy, remote, extra_remotes, now_ms, updated_at)
}

} // verus!
