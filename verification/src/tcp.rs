//! The TCP pipeline's decisions: which peers a connection tries and in what
//! order, how long an attempt may take, when to retry and when to give up.
//!
//! The sockets are the driver's: it performs each action that the plan hands
//! out and reports what came of it.

use crate::addr::SockAddr;
use crate::balancer::Strategy;
use crate::balancer::Token;
use crate::endpoint::Endpoint;
use crate::endpoint::FailoverOpts;
use crate::endpoint::RemoteAddr;
use crate::health::FailoverHealth;
use crate::health::HealthView;
use vstd::prelude::*;

verus! {

/// A sink for what happens on an endpoint's TCP connections. The pipeline
/// reports the opening of a connection, then its backend and its bytes as
/// they come, then its end; it works without a sink as well.
pub trait TcpObserver {
    /// A client has connected. The result names the connection in the
    /// reports that follow.
    fn on_connection_open(&mut self, peer: SockAddr) -> u64;

    /// The connection has been made to `_backend`.
    fn on_connection_backend(&mut self, _id: u64, _backend: &RemoteAddr) {
    }

    /// Bytes were written: `inbound_delta` from the client to the remote,
    /// `outbound_delta` from the remote to the client.
    fn on_connection_bytes(&mut self, id: u64, inbound_delta: u64, outbound_delta: u64);

    /// The connection has ended, with `error` if it failed.
    fn on_connection_end(&mut self, id: u64, error: Option<String>);

    /// The endpoint has started with `_health`, or stopped.
    fn on_failover_health(&mut self, _health: Option<FailoverHealth>) {
    }
}

/// The peers that a list of tokens names among the primary and `extras`
/// extra remotes, in the tokens' order. A token that names no peer is left
/// out.
pub open spec fn known_peers(tokens: Seq<Token>, extras: nat) -> Seq<u8>
    decreases tokens.len(),
{
    if tokens.len() == 0 {
        Seq::empty()
    } else {
        let head = known_peers(tokens.drop_last(), extras);
        if tokens.last().0 <= extras {
            head.push(tokens.last().0)
        } else {
            head
        }
    }
}

/// The candidates of a connection: the peers that the balancer's tokens
/// name, or the primary alone where they name none.
pub open spec fn candidates_for(tokens: Seq<Token>, extras: nat) -> Seq<u8> {
    if known_peers(tokens, extras).len() == 0 {
        seq![0u8]
    } else {
        known_peers(tokens, extras)
    }
}

/// The peers of `peers` that are not in backoff at `now`, in their order.
pub open spec fn not_skipped(peers: Seq<u8>, health: HealthView, now: u64) -> Seq<u8>
    decreases peers.len(),
{
    if peers.len() == 0 {
        Seq::empty()
    } else {
        let head = not_skipped(peers.drop_last(), health, now);
        if health.skips(peers.last() as int, now) {
            head
        } else {
            head.push(peers.last())
        }
    }
}

/// The peers to try in one pass: the candidates that are not in backoff, or
/// all candidates where every one is (so that no connection is refused for
/// the breaker's sake). Without health every candidate is tried.
pub open spec fn allowed_peers(candidates: Seq<u8>, health: Option<HealthView>, now: u64) -> Seq<
    u8,
> {
    match health {
        None => candidates,
        Some(h) => if not_skipped(candidates, h, now).len() == 0 {
            candidates
        } else {
            not_skipped(candidates, h, now)
        },
    }
}

/// What is left of a list when peers in backoff are taken out holds nothing
/// that the list did not, and nothing twice that the list held once.
pub proof fn lemma_not_skipped_is_selection(peers: Seq<u8>, health: HealthView, now: u64)
    ensures
        forall|i: int|
            0 <= i < not_skipped(peers, health, now).len() ==> peers.contains(
                #[trigger] not_skipped(peers, health, now)[i],
            ),
        peers.no_duplicates() ==> not_skipped(peers, health, now).no_duplicates(),
    decreases peers.len(),
{
    if peers.len() > 0 {
        let front = peers.drop_last();
        lemma_not_skipped_is_selection(front, health, now);
        let head = not_skipped(front, health, now);
        assert forall|i: int| 0 <= i < head.len() implies peers.contains(#[trigger] head[i]) by {
            let k = choose|k: int| 0 <= k < front.len() && front[k] == head[i];
            assert(peers[k] == head[i]);
        }
        assert(peers.contains(peers.last())) by {
            assert(peers[peers.len() - 1] == peers.last());
        }
        if peers.no_duplicates() {
            assert(front.no_duplicates());
            assert forall|i: int| 0 <= i < head.len() implies head[i] != peers.last() by {
                let k = choose|k: int| 0 <= k < front.len() && front[k] == head[i];
                assert(peers[k] == front[k]);
            }
        }
    }
}

/// The peers of one pass are distinct where the candidates are.
pub proof fn lemma_allowed_peers_distinct(candidates: Seq<u8>, health: Option<HealthView>, now: u64)
    requires
        candidates.no_duplicates(),
    ensures
        allowed_peers(candidates, health, now).no_duplicates(),
        candidates.len() > 0 ==> allowed_peers(candidates, health, now).len() > 0,
{
    match health {
        Some(h) => lemma_not_skipped_is_selection(candidates, h, now),
        None => {},
    }
}

/// With failover the candidates are the peers by index, each once.
pub proof fn lemma_failover_candidates(total: nat, extras: nat)
    requires
        total <= 256,
    ensures
        total <= extras + 1 ==> known_peers(Seq::new(total, |i: int| Token(i as u8)), extras)
            == Seq::new(total, |i: int| i as u8),
        candidates_for(Seq::new(total, |i: int| Token(i as u8)), extras).no_duplicates(),
    decreases total,
{
    let tokens = Seq::new(total, |i: int| Token(i as u8));
    if total > 0 {
        let fewer = Seq::new((total - 1) as nat, |i: int| Token(i as u8));
        assert(tokens.drop_last() =~= fewer);
        lemma_failover_candidates((total - 1) as nat, extras);
        lemma_known_peers_ascend(tokens, extras);
        if total <= extras + 1 {
            assert(known_peers(tokens, extras) =~= Seq::new(total, |i: int| i as u8));
        }
    }
    lemma_known_peers_ascend(tokens, extras);
    let known = known_peers(tokens, extras);
    assert(known.no_duplicates()) by {
        assert forall|i: int, j: int| 0 <= i < known.len() && 0 <= j < known.len() && i != j implies known[i] != known[j] by {
            if i < j {
                assert(known[i] < known[j]);
            } else {
                assert(known[j] < known[i]);
            }
        }
    }
}

/// The peers named by ascending tokens ascend.
proof fn lemma_known_peers_ascend(tokens: Seq<Token>, extras: nat)
    requires
        forall|i: int, j: int| 0 <= i < j < tokens.len() ==> tokens[i].0 < tokens[j].0,
    ensures
        forall|i: int, j: int|
            #![trigger known_peers(tokens, extras)[i], known_peers(tokens, extras)[j]]
            0 <= i < j < known_peers(tokens, extras).len() ==> known_peers(tokens, extras)[i]
                < known_peers(tokens, extras)[j],
        forall|i: int|
            0 <= i < known_peers(tokens, extras).len() ==> exists|k: int|
                0 <= k < tokens.len() && tokens[k].0 == #[trigger] known_peers(tokens, extras)[i],
    decreases tokens.len(),
{
    if tokens.len() > 0 {
        let front = tokens.drop_last();
        lemma_known_peers_ascend(front, extras);
        let head = known_peers(front, extras);
        let known = known_peers(tokens, extras);
        assert forall|i: int| 0 <= i < head.len() implies #[trigger] head[i] < tokens.last().0 by {
            let k = choose|k: int| 0 <= k < front.len() && front[k].0 == head[i];
            assert(tokens[k].0 < tokens[tokens.len() - 1].0);
        }
        assert forall|i: int| 0 <= i < known.len() implies exists|k: int|
            0 <= k < tokens.len() && tokens[k].0 == #[trigger] known[i] by {
            if i < head.len() {
                let k = choose|k: int| 0 <= k < front.len() && front[k].0 == head[i];
                assert(tokens[k].0 == known[i]);
            } else {
                assert(tokens[tokens.len() - 1].0 == known[i]);
            }
        }
    }
}

/// The candidates of a connection, from the balancer's tokens.
pub fn candidate_peers(tokens: &Vec<Token>, extras: usize) -> (r: Vec<u8>)
    ensures
        r@ == candidates_for(tokens@, extras as nat),
        r@.len() > 0,
{
    let mut out: Vec<u8> = Vec::new();
    let mut i: usize = 0;
    while i < tokens.len()
        invariant
            i <= tokens.len(),
            out@ == known_peers(tokens@.take(i as int), extras as nat),
        decreases tokens.len() - i,
    {
        proof {
            assert(tokens@.take(i + 1).drop_last() =~= tokens@.take(i as int));
        }
        let idx: u8 = tokens[i].0;
        if idx as usize <= extras {
            out.push(idx);
        }
        i += 1;
    }
    proof {
        assert(tokens@.take(i as int) =~= tokens@);
    }
    if out.len() == 0 {
        out.push(0);
        proof {
            assert(out@ =~= seq![0u8]);
        }
    }
    out
}

/// The view of the health in use.
pub open spec fn health_view(health: Option<&mut FailoverHealth>) -> Option<HealthView> {
    match health {
        Some(h) => Some(h@),
        None => None,
    }
}

/// The peers to try in one pass.
pub fn pass_peers(candidates: &Vec<u8>, health: Option<&FailoverHealth>, now_ms: u64) -> (r: Vec<
    u8,
>)
    ensures
        r@ == allowed_peers(
            candidates@,
            match health {
                Some(h) => Some(h@),
                None => None,
            },
            now_ms,
        ),
{
    match health {
        None => candidates.clone(),
        Some(h) => {
            let mut out: Vec<u8> = Vec::new();
            let mut i: usize = 0;
            while i < candidates.len()
                invariant
                    i <= candidates.len(),
                    out@ == not_skipped(candidates@.take(i as int), h@, now_ms),
                decreases candidates.len() - i,
            {
                proof {
                    assert(candidates@.take(i + 1).drop_last() =~= candidates@.take(i as int));
                }
                if !h.should_skip_at(candidates[i], now_ms) {
                    out.push(candidates[i]);
                }
                i += 1;
            }
            proof {
                assert(candidates@.take(i as int) =~= candidates@);
            }
            if out.len() == 0 {
                candidates.clone()
            } else {
                out
            }
        },
    }
}

/// The milliseconds between two looks at the client while a connect is in
/// flight: a connect is given up within that time after the client closed.
pub const CLIENT_POLL_MS: u64 = 100;

/// Where a connection stands.
#[derive(Debug, Clone, Copy, PartialEq, Eq, Structural)]
pub enum Phase {
    /// The driver is looking whether the client is still there.
    Polling,
    /// A connect attempt is in flight.
    Connecting,
    /// The driver is sleeping before the next pass.
    Waiting,
    /// The plan has ended: the connection relays, or has failed.
    Done,
}

/// Why a connection was not made.
#[derive(Debug)]
pub enum ConnectFailure<E> {
    /// The client closed its side before a peer was connected.
    ClientClosed,
    /// Every attempt of the last pass failed; this is the error of the last
    /// one.
    Refused(E),
    /// No attempt was made.
    NoPeer,
    /// The driver reported something that the plan was not waiting for.
    OutOfTurn,
}

/// What the driver does next.
#[derive(Debug)]
pub enum ConnectAction<E> {
    /// Look whether the client has closed its side, and report `ClientOpen`
    /// or `ClientClosed`.
    PollClient,
    /// Connect to peer `idx`, giving up after `failfast_ms` where it is set,
    /// and report `Connected` or `Failed`. While the attempt is in flight the
    /// driver keeps an eye on the client, and reports `Failed` at once when
    /// the client closes.
    Connect { idx: u8, failfast_ms: Option<u64> },
    /// Sleep for `ms` milliseconds (yield where it is zero), and report
    /// `Waited`.
    Wait { ms: u64 },
    /// The connection to peer `idx` stands: relay.
    Relay { idx: u8 },
    /// The connection has failed.
    Fail(ConnectFailure<E>),
}

/// What the driver reports.
#[derive(Debug)]
pub enum ConnectEvent<E> {
    ClientOpen,
    ClientClosed,
    Connected,
    Failed(E),
    Waited,
}

/// The plan of one connection as plain values.
pub struct PlanView {
    /// The peers that the balancer offered, in order.
    pub candidates: Seq<u8>,
    /// The peers of the current pass.
    pub allowed: Seq<u8>,
    /// The position in `allowed` of the attempt in flight.
    pub pos: nat,
    pub phase: Phase,
    /// Whether the strategy is failover: only then health is consulted, and
    /// only then a failed pass may be retried.
    pub failover: bool,
    pub failfast_timeout_ms: u64,
    pub retry_window_ms: u64,
    pub retry_sleep_ms: u64,
    /// Every peer to which a connect was started, in order.
    pub attempted: Seq<u8>,
}

/// A plan, the health in use and the driver's next action.
pub struct Step<E> {
    pub plan: PlanView,
    pub health: Option<HealthView>,
    pub action: ConnectAction<E>,
}

impl PlanView {
    /// There is a candidate, an attempt in flight is on a peer of the pass,
    /// and the peers of a pass are distinct where the candidates are. A plan
    /// without a retry window makes one pass: what it has attempted is the
    /// front of that pass.
    pub open spec fn wf(self) -> bool {
        &&& self.candidates.len() > 0
        &&& self.phase == Phase::Connecting ==> self.pos < self.allowed.len()
        &&& self.candidates.no_duplicates() ==> self.allowed.no_duplicates()
        &&& !self.failover ==> self.retry_window_ms == 0
        &&& self.retry_window_ms == 0 ==> {
            &&& self.phase != Phase::Waiting
            &&& self.attempted.len() <= self.allowed.len()
            &&& self.attempted == self.allowed.take(self.attempted.len() as int)
            &&& self.phase == Phase::Polling ==> self.attempted.len() == 0
            &&& self.phase == Phase::Connecting ==> self.attempted.len() == self.pos + 1
        }
    }

    /// The health that the plan consults: none unless the strategy is
    /// failover.
    pub open spec fn consulted(self, health: Option<HealthView>) -> Option<HealthView> {
        if self.failover {
            health
        } else {
            None
        }
    }

    /// The bound on an attempt on peer `idx`: the fail-fast timeout where the
    /// peer is not recently healthy, none otherwise.
    pub open spec fn failfast_for(self, health: Option<HealthView>, idx: u8, now: u64) -> Option<
        u64,
    > {
        match self.consulted(health) {
            Some(h) => if !h.recent_ok(idx as int, now) && self.failfast_timeout_ms > 0 {
                Some(self.failfast_timeout_ms)
            } else {
                None
            },
            None => None,
        }
    }

    /// The plan ended with `failure`.
    pub open spec fn ended<E>(self, health: Option<HealthView>, failure: ConnectFailure<E>) -> Step<
        E,
    > {
        Step {
            plan: PlanView { phase: Phase::Done, ..self },
            health,
            action: ConnectAction::Fail(failure),
        }
    }

    /// The plan with an attempt started on the peer at `pos` of the pass.
    pub open spec fn attempting<E>(self, health: Option<HealthView>, pos: nat, now: u64) -> Step<
        E,
    > {
        let idx = self.allowed[pos as int];
        Step {
            plan: PlanView {
                pos,
                phase: Phase::Connecting,
                attempted: self.attempted.push(idx),
                ..self
            },
            health,
            action: ConnectAction::Connect { idx, failfast_ms: self.failfast_for(health, idx, now) },
        }
    }

    /// The health after the plan recorded the outcome of an attempt on peer
    /// `idx`.
    pub open spec fn recorded(self, health: Option<HealthView>, idx: u8, ok: bool, now: u64)
        -> Option<HealthView> {
        match health {
            Some(h) if self.failover => Some(
                if ok {
                    h.marked_ok(idx as int, now)
                } else {
                    h.marked_fail(idx as int, now)
                },
            ),
            _ => health,
        }
    }

    /// What the plan does on `event`, `now` on the health's clock and
    /// `elapsed` milliseconds after the connection was accepted.
    pub open spec fn stepped<E>(
        self,
        health: Option<HealthView>,
        event: ConnectEvent<E>,
        now: u64,
        elapsed: u64,
    ) -> Step<E> {
        match (self.phase, event) {
            (Phase::Polling, ConnectEvent::ClientClosed) => self.ended(
                health,
                ConnectFailure::ClientClosed,
            ),
            (Phase::Polling, ConnectEvent::ClientOpen) => {
                let pass = PlanView {
                    allowed: allowed_peers(self.candidates, self.consulted(health), now),
                    ..self
                };
                if pass.allowed.len() == 0 {
                    pass.ended(health, ConnectFailure::NoPeer)
                } else {
                    pass.attempting(health, 0, now)
                }
            },
            (Phase::Connecting, ConnectEvent::Connected) => {
                let idx = self.allowed[self.pos as int];
                Step {
                    plan: PlanView { phase: Phase::Done, ..self },
                    health: self.recorded(health, idx, true, now),
                    action: ConnectAction::Relay { idx },
                }
            },
            (Phase::Connecting, ConnectEvent::Failed(e)) => {
                let idx = self.allowed[self.pos as int];
                let after = self.recorded(health, idx, false, now);
                if self.pos + 1 < self.allowed.len() {
                    self.attempting(after, self.pos + 1, now)
                } else if self.retry_window_ms == 0 || elapsed >= self.retry_window_ms {
                    self.ended(after, ConnectFailure::Refused(e))
                } else {
                    Step {
                        plan: PlanView { phase: Phase::Waiting, ..self },
                        health: after,
                        action: ConnectAction::Wait { ms: self.retry_sleep_ms },
                    }
                }
            },
            (Phase::Waiting, ConnectEvent::Waited) => Step {
                plan: PlanView { phase: Phase::Polling, ..self },
                health,
                action: ConnectAction::PollClient,
            },
            _ => self.ended(health, ConnectFailure::OutOfTurn),
        }
    }
}

/// The plan of one connection: the state between the driver's reports.
pub struct ConnectPlan {
    candidates: Vec<u8>,
    allowed: Vec<u8>,
    pos: usize,
    phase: Phase,
    failover: bool,
    failfast_timeout_ms: u64,
    retry_window_ms: u64,
    retry_sleep_ms: u64,
    attempted: Ghost<Seq<u8>>,
}

impl View for ConnectPlan {
    type V = PlanView;

    closed spec fn view(&self) -> PlanView {
        PlanView {
            candidates: self.candidates@,
            allowed: self.allowed@,
            pos: self.pos as nat,
            phase: self.phase,
            failover: self.failover,
            failfast_timeout_ms: self.failfast_timeout_ms,
            retry_window_ms: self.retry_window_ms,
            retry_sleep_ms: self.retry_sleep_ms,
            attempted: self.attempted@,
        }
    }
}

impl ConnectPlan {
    /// The plan of a connection to one of the peers that `tokens` name, among
    /// the primary and `extras` extra remotes. The options count under the
    /// failover strategy only. The driver starts by polling the client.
    pub fn new(tokens: &Vec<Token>, extras: usize, strategy: Strategy, opts: &FailoverOpts) -> (r:
        Self)
        ensures
            r@.wf(),
            r@ == (PlanView {
                candidates: candidates_for(tokens@, extras as nat),
                allowed: Seq::empty(),
                pos: 0,
                phase: Phase::Polling,
                failover: strategy == Strategy::Failover,
                failfast_timeout_ms: opts.failfast_timeout_ms,
                retry_window_ms: if strategy == Strategy::Failover {
                    opts.retry_window_ms
                } else {
                    0
                },
                retry_sleep_ms: if strategy == Strategy::Failover {
                    opts.retry_sleep_ms
                } else {
                    0
                },
                attempted: Seq::empty(),
            }),
    {
        let failover: bool = strategy == Strategy::Failover;
        let r = ConnectPlan {
            candidates: candidate_peers(tokens, extras),
            allowed: Vec::new(),
            pos: 0,
            phase: Phase::Polling,
            failover,
            failfast_timeout_ms: opts.failfast_timeout_ms,
            retry_window_ms: if failover {
                opts.retry_window_ms
            } else {
                0
            },
            retry_sleep_ms: if failover {
                opts.retry_sleep_ms
            } else {
                0
            },
            attempted: Ghost(Seq::empty()),
        };
        proof {
            assert(r@.attempted =~= r@.allowed.take(0));
        }
        r
    }

    /// Whether the plan has ended.
    pub fn is_done(&self) -> (r: bool)
        ensures
            r == (self@.phase == Phase::Done),
    {
        self.phase == Phase::Done
    }

    /// The bound on an attempt on peer `idx`.
    fn failfast(&self, health: Option<&FailoverHealth>, idx: u8, now_ms: u64) -> (r: Option<u64>)
        ensures
            r == self@.failfast_for(
                match health {
                    Some(h) => Some(h@),
                    None => None,
                },
                idx,
                now_ms,
            ),
    {
        if !self.failover {
            return None;
        }
        match health {
            Some(h) => if !h.is_recent_ok_at(idx, now_ms) && self.failfast_timeout_ms > 0 {
                Some(self.failfast_timeout_ms)
            } else {
                None
            },
            None => None,
        }
    }

    /// Takes the driver's report and hands out its next action. `now_ms` is
    /// the moment on the health's clock, `elapsed_ms` the time since the
    /// connection was accepted.
    pub fn step<E>(
        &mut self,
        health: Option<&mut FailoverHealth>,
        event: ConnectEvent<E>,
        now_ms: u64,
        elapsed_ms: u64,
    ) -> (action: ConnectAction<E>)
        requires
            old(self)@.wf(),
        ensures
            final(self)@.wf(),
            final(self)@ == old(self)@.stepped(health_view(health), event, now_ms, elapsed_ms).plan,
            action == old(self)@.stepped(health_view(health), event, now_ms, elapsed_ms).action,
            match health {
                Some(h) => Some(final(h)@) == old(self)@.stepped(
                    health_view(health),
                    event,
                    now_ms,
                    elapsed_ms,
                ).health,
                None => old(self)@.stepped(health_view(health), event, now_ms, elapsed_ms).health
                    is None,
            },
    {
        let ghost before = self@;
        let ghost hv = health_view(health);
        proof {
            lemma_step_logs_attempts(before, hv, event, now_ms, elapsed_ms);
        }
        assert(self.phase == Phase::Connecting ==> self.pos < self.allowed.len());
        match (self.phase, event) {
            (Phase::Polling, ConnectEvent::ClientClosed) => {
                self.phase = Phase::Done;
                ConnectAction::Fail(ConnectFailure::ClientClosed)
            },
            (Phase::Polling, ConnectEvent::ClientOpen) => {
                let consulted: Option<&FailoverHealth> = match health {
                    Some(h) if self.failover => Some(&*h),
                    _ => None,
                };
                self.allowed = pass_peers(&self.candidates, consulted, now_ms);
                if self.allowed.len() == 0 {
                    self.phase = Phase::Done;
                    return ConnectAction::Fail(ConnectFailure::NoPeer);
                }
                self.start_attempt(consulted, 0, now_ms)
            },
            (Phase::Connecting, ConnectEvent::Connected) => {
                let idx: u8 = self.allowed[self.pos];
                self.phase = Phase::Done;
                match health {
                    Some(h) if self.failover => h.mark_ok_at(idx, now_ms),
                    _ => {},
                }
                ConnectAction::Relay { idx }
            },
            (Phase::Connecting, ConnectEvent::Failed(e)) => {
                let idx: u8 = self.allowed[self.pos];
                let next: usize = self.pos + 1;
                let consulted: Option<&FailoverHealth> = match health {
                    Some(h) if self.failover => {
                        h.mark_fail_at(idx, now_ms);
                        Some(&*h)
                    },
                    Some(h) => Some(&*h),
                    None => None,
                };
                if next < self.allowed.len() {
                    self.start_attempt(consulted, next, now_ms)
                } else if self.retry_window_ms == 0 || elapsed_ms >= self.retry_window_ms {
                    self.phase = Phase::Done;
                    ConnectAction::Fail(ConnectFailure::Refused(e))
                } else {
                    self.phase = Phase::Waiting;
                    ConnectAction::Wait { ms: self.retry_sleep_ms }
                }
            },
            (Phase::Waiting, ConnectEvent::Waited) => {
                self.phase = Phase::Polling;
                ConnectAction::PollClient
            },
            _ => {
                self.phase = Phase::Done;
                ConnectAction::Fail(ConnectFailure::OutOfTurn)
            },
        }
    }

    /// Starts the attempt on the peer at `pos` of the pass.
    fn start_attempt<E>(&mut self, health: Option<&FailoverHealth>, pos: usize, now_ms: u64) -> (action:
        ConnectAction<E>)
        requires
            pos < old(self)@.allowed.len(),
        ensures
            final(self)@ == old(self)@.attempting::<E>(
                match health {
                    Some(h) => Some(h@),
                    None => None,
                },
                pos as nat,
                now_ms,
            ).plan,
            action == old(self)@.attempting::<E>(
                match health {
                    Some(h) => Some(h@),
                    None => None,
                },
                pos as nat,
                now_ms,
            ).action,
    {
        let idx: u8 = self.allowed[pos];
        let failfast_ms = self.failfast(health, idx, now_ms);
        self.pos = pos;
        self.phase = Phase::Connecting;
        self.attempted = Ghost(self.attempted@.push(idx));
        ConnectAction::Connect { idx, failfast_ms }
    }
}

/// The peers of one pass are distinct where the candidates are.
proof fn lemma_allowed_peers_distinct_if(candidates: Seq<u8>, health: Option<HealthView>, now: u64)
    ensures
        candidates.no_duplicates() ==> allowed_peers(candidates, health, now).no_duplicates(),
{
    if candidates.no_duplicates() {
        lemma_allowed_peers_distinct(candidates, health, now);
    }
}

/// A step keeps a plan well formed, and logs a peer as attempted exactly
/// when it tells the driver to connect to it.
pub proof fn lemma_step_logs_attempts<E>(
    plan: PlanView,
    health: Option<HealthView>,
    event: ConnectEvent<E>,
    now: u64,
    elapsed: u64,
)
    requires
        plan.wf(),
    ensures
        plan.stepped(health, event, now, elapsed).plan.wf(),
        plan.stepped(health, event, now, elapsed).plan.candidates == plan.candidates,
        plan.stepped(health, event, now, elapsed).plan.retry_window_ms == plan.retry_window_ms,
        match plan.stepped(health, event, now, elapsed).action {
            ConnectAction::Connect { idx, .. } => plan.stepped(
                health,
                event,
                now,
                elapsed,
            ).plan.attempted == plan.attempted.push(idx),
            _ => plan.stepped(health, event, now, elapsed).plan.attempted == plan.attempted,
        },
{
    let next = plan.stepped(health, event, now, elapsed);
    lemma_allowed_peers_distinct_if(plan.candidates, plan.consulted(health), now);
    match (plan.phase, event) {
        (Phase::Polling, ConnectEvent::ClientOpen) => {
            let allowed = allowed_peers(plan.candidates, plan.consulted(health), now);
            if allowed.len() > 0 && plan.retry_window_ms == 0 {
                assert(next.plan.attempted =~= allowed.take(1));
            }
            if plan.retry_window_ms == 0 {
                assert(plan.attempted =~= allowed.take(0));
            }
        },
        (Phase::Connecting, ConnectEvent::Failed(e)) => {
            if plan.pos + 1 < plan.allowed.len() && plan.retry_window_ms == 0 {
                assert(next.plan.attempted =~= plan.allowed.take(plan.pos + 2 as int));
            }
        },
        _ => {},
    }
}

/// One report of the driver, with the health and the clocks at that moment.
pub struct Report<E> {
    pub health: Option<HealthView>,
    pub event: ConnectEvent<E>,
    pub now: u64,
    pub elapsed: u64,
}

impl PlanView {
    /// The plan after each of `reports` in turn.
    pub open spec fn after<E>(self, reports: Seq<Report<E>>) -> PlanView
        decreases reports.len(),
    {
        if reports.len() == 0 {
            self
        } else {
            let r = reports.last();
            self.after(reports.drop_last()).stepped(r.health, r.event, r.now, r.elapsed).plan
        }
    }
}

/// Whatever the driver reports, and whatever the health says, a connection
/// without a retry window tries each of its candidates at most once.
pub proof fn lemma_no_candidate_is_tried_twice<E>(plan: PlanView, reports: Seq<Report<E>>)
    requires
        plan.wf(),
        plan.retry_window_ms == 0,
        plan.candidates.no_duplicates(),
    ensures
        plan.after(reports).wf(),
        plan.after(reports).candidates == plan.candidates,
        plan.after(reports).retry_window_ms == 0,
        plan.after(reports).attempted.no_duplicates(),
    decreases reports.len(),
{
    if reports.len() > 0 {
        let r = reports.last();
        lemma_no_candidate_is_tried_twice(plan, reports.drop_last());
        lemma_step_logs_attempts(
            plan.after(reports.drop_last()),
            r.health,
            r.event,
            r.now,
            r.elapsed,
        );
    }
    lemma_single_pass_tries_each_once(plan.after(reports));
}

/// With no retry window, a connection tries each candidate at most once.
pub proof fn lemma_single_pass_tries_each_once(plan: PlanView)
    requires
        plan.wf(),
        plan.retry_window_ms == 0,
        plan.candidates.no_duplicates(),
    ensures
        plan.attempted.no_duplicates(),
        forall|i: int|
            0 <= i < plan.attempted.len() ==> plan.allowed.contains(#[trigger] plan.attempted[i]),
{
    assert forall|i: int| 0 <= i < plan.attempted.len() implies plan.allowed.contains(
        #[trigger] plan.attempted[i],
    ) by {
        assert(plan.allowed[i] == plan.attempted[i]);
    }
}

/// A client that closes its side never gets a relay out of it. Where the
/// driver finds the client gone while it polls, the plan ends at once with
/// nothing attempted and nothing recorded. Where it gives up the attempt in
/// flight because the client has gone, and reports that failure, no relay
/// follows and the peer has a failure recorded, never a success; and where
/// that peer was the last of a plan without a retry window, the plan ends
/// with the failure that the driver reported.
pub proof fn lemma_client_gone_ends_without_relay<E>(
    plan: PlanView,
    health: Option<HealthView>,
    e: E,
    now: u64,
    elapsed: u64,
)
    requires
        plan.wf(),
    ensures
        plan.phase == Phase::Polling ==> plan.stepped(
            health,
            ConnectEvent::<E>::ClientClosed,
            now,
            elapsed,
        ) == plan.ended(health, ConnectFailure::<E>::ClientClosed),
        plan.phase == Phase::Connecting ==> ({
            let step = plan.stepped(health, ConnectEvent::Failed(e), now, elapsed);
            let after = plan.recorded(health, plan.allowed[plan.pos as int], false, now);
            &&& !(step.action is Relay)
            &&& step.health == after
            &&& plan.retry_window_ms == 0 && plan.pos + 1 == plan.allowed.len() ==> step
                == plan.ended(after, ConnectFailure::Refused(e))
        }),
{
}

/// The direction of the bytes that a counted stream takes: a stream counts
/// what is written to it.
#[derive(Debug, Clone, Copy, PartialEq, Eq, Structural)]
pub enum CountDirection {
    /// From the client to the remote: what is written to the remote.
    Inbound,
    /// From the remote to the client: what is written to the client.
    Outbound,
}

impl CountDirection {
    /// What `n` written bytes add to the inbound and to the outbound count
    /// of a connection.
    pub fn deltas(&self, n: usize) -> (r: (u64, u64))
        ensures
            r == match self {
                CountDirection::Inbound => (n as u64, 0u64),
                CountDirection::Outbound => (0u64, n as u64),
            },
    {
        match self {
            CountDirection::Inbound => (n as u64, 0),
            CountDirection::Outbound => (0, n as u64),
        }
    }
}

/// The health of an endpoint's peers: made where the strategy is failover,
/// with one slot for the primary and one for each extra remote.
pub fn endpoint_health(endpoint: &Endpoint) -> (r: Option<FailoverHealth>)
    requires
        endpoint.extra_raddrs@.len() < usize::MAX,
    ensures
        r is Some <==> endpoint.conn_opts.balancer@.strategy() == Strategy::Failover,
        r matches Some(h) ==> {
            &&& h@.peers.len() == endpoint.peers()
            &&& forall|i: int|
                0 <= i < h@.peers.len() ==> h@.peers[i] == crate::health::PeerHealth::unknown()
            &&& h@.ok_ttl_ms == endpoint.conn_opts.failover.ok_ttl_ms
            &&& h@.backoff_base_ms == endpoint.conn_opts.failover.backoff_base_ms
            &&& h@.backoff_max_ms == endpoint.conn_opts.failover.backoff_max_ms
        },
{
    if endpoint.conn_opts.balancer.strategy() == Strategy::Failover {
        Some(
            FailoverHealth::new(
                1 + endpoint.extra_raddrs.len(),
                endpoint.conn_opts.failover.ok_ttl_ms,
                endpoint.conn_opts.failover.backoff_base_ms,
                endpoint.conn_opts.failover.backoff_max_ms,
            ),
        )
    } else {
        None
    }
}

/// How an endpoint's peers are probed in the background.
#[derive(Debug)]
pub struct ProbePlan {
    /// The time between two rounds.
    pub interval_ms: u64,
    /// The bound on one probe.
    pub timeout_ms: u64,
    /// The peers to probe in each round.
    pub peers: Vec<u8>,
    /// How many probes run at once.
    pub concurrency: usize,
}

/// The most probes that run at once.
pub const MAX_PROBES: usize = 8;

/// The peers of a round of probes: every peer that an index of eight bits
/// can name.
pub open spec fn probe_peers(peers: nat) -> Seq<u8> {
    Seq::new(
        if peers <= 256 {
            peers
        } else {
            256
        },
        |i: int| i as u8,
    )
}

/// The probing of an endpoint's peers: on where the strategy is failover and
/// the probe interval is not zero. A round starts at once, and then one at
/// each interval.
pub fn probe_plan(endpoint: &Endpoint) -> (r: Option<ProbePlan>)
    ensures
        r is Some <==> endpoint.conn_opts.balancer@.strategy() == Strategy::Failover
            && endpoint.conn_opts.failover.probe_interval_ms > 0,
        r matches Some(p) ==> {
            &&& p.interval_ms == endpoint.conn_opts.failover.probe_interval_ms
            &&& p.timeout_ms == endpoint.conn_opts.failover.probe_timeout_ms
            &&& p.peers@ == probe_peers(endpoint.peers())
            &&& p.concurrency == if p.peers@.len() < MAX_PROBES {
                p.peers@.len()
            } else {
                MAX_PROBES as nat
            }
        },
{
    let fo = endpoint.conn_opts.failover;
    if endpoint.conn_opts.balancer.strategy() != Strategy::Failover || fo.probe_interval_ms == 0 {
        return None;
    }
    let mut peers: Vec<u8> = Vec::new();
    peers.push(0);
    let mut i: usize = 0;
    while i < endpoint.extra_raddrs.len() && i < 255
        invariant
            i <= endpoint.extra_raddrs.len(),
            i <= 255,
            peers@ == Seq::new((i + 1) as nat, |j: int| j as u8),
        decreases endpoint.extra_raddrs.len() - i,
    {
        peers.push((i + 1) as u8);
        proof {
            assert(peers@ =~= Seq::new((i + 2) as nat, |j: int| j as u8));
        }
        i += 1;
    }
    proof {
        assert(peers@ =~= probe_peers(endpoint.peers()));
    }
    let concurrency: usize = if peers.len() < MAX_PROBES {
        peers.len()
    } else {
        MAX_PROBES
    };
    Some(
        ProbePlan {
            interval_ms: fo.probe_interval_ms,
            timeout_ms: fo.probe_timeout_ms,
            peers,
            concurrency,
        },
    )
}

/// Folds the outcome of a probe of peer `idx` into the health: a connect
/// that succeeded in time is a success, anything else a failure.
pub fn fold_probe(health: &mut FailoverHealth, idx: u8, connected: bool, now_ms: u64)
    ensures
        final(health)@ == if connected {
            old(health)@.marked_ok(idx as int, now_ms)
        } else {
            old(health)@.marked_fail(idx as int, now_ms)
        },
{
    if connected {
        health.mark_ok_at(idx, now_ms);
    } else {
        health.mark_fail_at(idx, now_ms);
    }
}

/// Probing keeps a healthy peer fresh. Once a probe of peer `idx` that
/// connected at the moment `at` is folded in, whatever the health held
/// before, the peer's last success is `at` and it is down no longer. So at
/// every moment no more than `within` milliseconds later the last success
/// is that young, and where the TTL is no shorter than `within` the peer is
/// recently healthy and is not skipped, with no connection of a client.
///
/// The probe must not fall on the very first millisecond, which stands for
/// "no success".
pub proof fn lemma_probe_keeps_fresh(health: HealthView, idx: u8, at: u64, now: u64, within: u64)
    requires
        idx < health.peers.len(),
        at > 0,
        at <= now,
        now - at <= within,
        within <= health.ok_ttl_ms,
    ensures
        ({
            let after = health.marked_ok(idx as int, at);
            &&& after.peers[idx as int].last_ok_ms == at
            &&& after.peers[idx as int].fail_count == 0
            &&& now - after.peers[idx as int].last_ok_ms <= within
            &&& after.recent_ok(idx as int, now)
            &&& !after.skips(idx as int, now)
        }),
{
    crate::health::lemma_ok_is_recent_and_not_skipped(health, idx as int, at, now);
}

} // verus!
