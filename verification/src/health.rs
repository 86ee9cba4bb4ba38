//! Failover health: a circuit breaker per backend peer.
//!
//! After a connect failure a peer is "down" for a backoff window that doubles
//! with each further failure; a success clears it. Time is in milliseconds
//! since the health object was made, on a monotonic clock.

use crate::clock::instant_now;
use crate::clock::millis_since;
use std::time::Instant;
use vstd::arithmetic::power2::lemma2_to64;
use vstd::arithmetic::power2::lemma_pow2_strictly_increases;
use vstd::arithmetic::power2::pow2;
use vstd::prelude::*;

verus! {

/// The largest exponent by which the base backoff is doubled.
pub const MAX_BACKOFF_EXP: u32 = 16;

/// The breaker state of one peer.
#[derive(Debug, Clone, Copy)]
pub struct PeerHealth {
    /// The peer is skipped before this moment.
    pub down_until_ms: u64,
    /// The moment of the last success; zero when there was none since the
    /// last failure.
    pub last_ok_ms: u64,
    /// Failures in a row, counted up to `MAX_BACKOFF_EXP`.
    pub fail_count: u32,
}

/// What one peer's state says at one moment.
#[derive(Debug, Clone, Copy)]
pub struct FailoverPeerSnapshot {
    pub down_until_ms: u64,
    pub last_ok_ms: u64,
    pub fail_count: u32,
    pub should_skip: bool,
    pub ok_recent: bool,
}

/// `a - b`, or zero where `b` is the larger.
pub open spec fn minus_or_zero(a: u64, b: u64) -> u64 {
    if a >= b {
        (a - b) as u64
    } else {
        0
    }
}

/// `a + b`, or the largest `u64` where the sum does not fit.
pub open spec fn plus_or_max(a: u64, b: u64) -> u64 {
    if a + b <= u64::MAX {
        (a + b) as u64
    } else {
        u64::MAX
    }
}

/// The backoff after `fails` failures in a row: the base doubled `fails`
/// times, and no more than the ceiling.
pub open spec fn backoff_ms(fails: nat, base: u64, ceiling: u64) -> u64 {
    if base * pow2(fails) <= ceiling {
        (base * pow2(fails)) as u64
    } else {
        ceiling
    }
}

impl PeerHealth {
    /// A peer of which nothing is known yet.
    pub open spec fn unknown() -> PeerHealth {
        PeerHealth { down_until_ms: 0, last_ok_ms: 0, fail_count: 0 }
    }

    /// Whether the peer is in backoff at `now`.
    pub open spec fn skips(self, now: u64) -> bool {
        now < self.down_until_ms
    }

    /// Whether the last success is no older than `ttl` at `now`.
    pub open spec fn recent_ok(self, now: u64, ttl: u64) -> bool {
        self.last_ok_ms != 0 && minus_or_zero(now, self.last_ok_ms) <= ttl
    }

    /// The state after a success at `now`.
    pub open spec fn marked_ok(self, now: u64) -> PeerHealth {
        PeerHealth { down_until_ms: 0, last_ok_ms: now, fail_count: 0 }
    }

    /// The state after a failure at `now`.
    pub open spec fn marked_fail(self, now: u64, base: u64, ceiling: u64) -> PeerHealth {
        let count = if self.fail_count >= MAX_BACKOFF_EXP {
            MAX_BACKOFF_EXP
        } else {
            (self.fail_count + 1) as u32
        };
        PeerHealth {
            down_until_ms: plus_or_max(now, backoff_ms(count as nat, base, ceiling)),
            last_ok_ms: 0,
            fail_count: count,
        }
    }

    /// What the state says at `now`.
    pub open spec fn snapshot(self, now: u64, ttl: u64) -> FailoverPeerSnapshot {
        FailoverPeerSnapshot {
            down_until_ms: self.down_until_ms,
            last_ok_ms: self.last_ok_ms,
            fail_count: self.fail_count,
            should_skip: self.skips(now),
            ok_recent: self.recent_ok(now, ttl),
        }
    }
}

/// The health of an endpoint's peers as plain values: the primary at index
/// zero, then the backups in their order.
pub struct HealthView {
    pub peers: Seq<PeerHealth>,
    pub ok_ttl_ms: u64,
    pub backoff_base_ms: u64,
    pub backoff_max_ms: u64,
}

impl HealthView {
    /// Whether peer `idx` is in backoff at `now`. A peer that does not exist
    /// is never skipped.
    pub open spec fn skips(self, idx: int, now: u64) -> bool {
        0 <= idx < self.peers.len() && self.peers[idx].skips(now)
    }

    /// Whether peer `idx` had a success no older than the TTL at `now`.
    pub open spec fn recent_ok(self, idx: int, now: u64) -> bool {
        0 <= idx < self.peers.len() && self.peers[idx].recent_ok(now, self.ok_ttl_ms)
    }

    /// The health after a success of peer `idx` at `now`. A peer that does
    /// not exist changes nothing.
    pub open spec fn marked_ok(self, idx: int, now: u64) -> HealthView {
        if 0 <= idx < self.peers.len() {
            HealthView { peers: self.peers.update(idx, self.peers[idx].marked_ok(now)), ..self }
        } else {
            self
        }
    }

    /// The health after a failure of peer `idx` at `now`. A peer that does
    /// not exist changes nothing.
    pub open spec fn marked_fail(self, idx: int, now: u64) -> HealthView {
        if 0 <= idx < self.peers.len() {
            HealthView {
                peers: self.peers.update(
                    idx,
                    self.peers[idx].marked_fail(now, self.backoff_base_ms, self.backoff_max_ms),
                ),
                ..self
            }
        } else {
            self
        }
    }

    /// The health after peer `idx` failed at each of `times` in turn.
    pub open spec fn failed_at_each(self, idx: int, times: Seq<u64>) -> HealthView
        decreases times.len(),
    {
        if times.len() == 0 {
            self
        } else {
            self.failed_at_each(idx, times.drop_last()).marked_fail(idx, times.last())
        }
    }

    /// What peer `idx` says at `now`, if it exists.
    pub open spec fn snapshot(self, idx: int, now: u64) -> Option<FailoverPeerSnapshot> {
        if 0 <= idx < self.peers.len() {
            Some(self.peers[idx].snapshot(now, self.ok_ttl_ms))
        } else {
            None
        }
    }
}

/// Per-endpoint failover health state.
///
/// A lightweight circuit breaker:
/// - after a connect failure, the peer is "down" for a short backoff window
/// - "down" peers are skipped when a remote is selected
/// - after the backoff the peer is tried again (with a fail-fast timeout)
#[derive(Debug)]
pub struct FailoverHealth {
    start: Instant,
    peers: Vec<PeerHealth>,
    ok_ttl_ms: u64,
    backoff_base_ms: u64,
    backoff_max_ms: u64,
}

impl View for FailoverHealth {
    type V = HealthView;

    closed spec fn view(&self) -> HealthView {
        HealthView {
            peers: self.peers@,
            ok_ttl_ms: self.ok_ttl_ms,
            backoff_base_ms: self.backoff_base_ms,
            backoff_max_ms: self.backoff_max_ms,
        }
    }
}

/// The backoff after `fails` failures in a row.
fn backoff_after(fails: u32, base: u64, ceiling: u64) -> (r: u64)
    requires
        fails <= MAX_BACKOFF_EXP,
    ensures
        r == backoff_ms(fails as nat, base, ceiling),
{
    let factor: u64 = 1u64 << fails;
    proof {
        lemma2_to64();
        if fails < 16 {
            lemma_pow2_strictly_increases(fails as nat, 16);
        }
        assert(1u64 << fails == pow2(fails as nat)) by {
            vstd::bits::lemma_u64_shl_is_mul(1, fails as u64);
        }
    }
    match base.checked_mul(factor) {
        Some(b) => if b > ceiling {
            ceiling
        } else {
            b
        },
        None => ceiling,
    }
}

impl FailoverHealth {
    /// Health for `peer_count` peers, of which nothing is known yet.
    pub fn new(peer_count: usize, ok_ttl_ms: u64, backoff_base_ms: u64, backoff_max_ms: u64) -> (r:
        Self)
        ensures
            r@.peers.len() == peer_count,
            forall|i: int| 0 <= i < peer_count ==> r@.peers[i] == PeerHealth::unknown(),
            r@.ok_ttl_ms == ok_ttl_ms,
            r@.backoff_base_ms == backoff_base_ms,
            r@.backoff_max_ms == backoff_max_ms,
    {
        let mut peers: Vec<PeerHealth> = Vec::new();
        let mut i: usize = 0;
        while i < peer_count
            invariant
                i <= peer_count,
                peers@.len() == i,
                forall|j: int| 0 <= j < i ==> peers@[j] == PeerHealth::unknown(),
            decreases peer_count - i,
        {
            peers.push(PeerHealth { down_until_ms: 0, last_ok_ms: 0, fail_count: 0 });
            i += 1;
        }
        FailoverHealth { start: instant_now(), peers, ok_ttl_ms, backoff_base_ms, backoff_max_ms }
    }

    /// Milliseconds since this health object was made.
    pub fn now_ms(&self) -> u64 {
        millis_since(&self.start)
    }

    /// Whether peer `idx` is in backoff at `now`.
    pub fn should_skip_at(&self, idx: u8, now: u64) -> (r: bool)
        ensures
            r == self@.skips(idx as int, now),
    {
        if (idx as usize) < self.peers.len() {
            now < self.peers[idx as usize].down_until_ms
        } else {
            false
        }
    }

    /// Whether peer `idx` had a success no older than the TTL at `now`.
    pub fn is_recent_ok_at(&self, idx: u8, now: u64) -> (r: bool)
        ensures
            r == self@.recent_ok(idx as int, now),
    {
        if (idx as usize) < self.peers.len() {
            let last_ok: u64 = self.peers[idx as usize].last_ok_ms;
            last_ok != 0 && now.saturating_sub(last_ok) <= self.ok_ttl_ms
        } else {
            false
        }
    }

    /// Records a success of peer `idx` at `now`.
    pub fn mark_ok_at(&mut self, idx: u8, now: u64)
        ensures
            final(self)@ == old(self)@.marked_ok(idx as int, now),
    {
        if (idx as usize) < self.peers.len() {
            self.peers.set(idx as usize, PeerHealth { down_until_ms: 0, last_ok_ms: now, fail_count: 0 });
        }
    }

    /// Records a failure of peer `idx` at `now`: the peer counts as unhealthy
    /// until it succeeds again, and is down for the next backoff window.
    pub fn mark_fail_at(&mut self, idx: u8, now: u64)
        ensures
            final(self)@ == old(self)@.marked_fail(idx as int, now),
    {
        if (idx as usize) < self.peers.len() {
            let before: PeerHealth = self.peers[idx as usize];
            let count: u32 = if before.fail_count >= MAX_BACKOFF_EXP {
                MAX_BACKOFF_EXP
            } else {
                before.fail_count + 1
            };
            let backoff: u64 = backoff_after(count, self.backoff_base_ms, self.backoff_max_ms);
            self.peers.set(
                idx as usize,
                PeerHealth {
                    down_until_ms: now.saturating_add(backoff),
                    last_ok_ms: 0,
                    fail_count: count,
                },
            );
        }
    }

    /// What peer `idx` says at `now`, each field read once.
    pub fn peer_snapshot_at(&self, idx: u8, now: u64) -> (r: Option<FailoverPeerSnapshot>)
        ensures
            r == self@.snapshot(idx as int, now),
    {
        if (idx as usize) < self.peers.len() {
            let peer: PeerHealth = self.peers[idx as usize];
            Some(
                FailoverPeerSnapshot {
                    down_until_ms: peer.down_until_ms,
                    last_ok_ms: peer.last_ok_ms,
                    fail_count: peer.fail_count,
                    should_skip: now < peer.down_until_ms,
                    ok_recent: peer.last_ok_ms != 0 && now.saturating_sub(peer.last_ok_ms)
                        <= self.ok_ttl_ms,
                },
            )
        } else {
            None
        }
    }

    /// Whether peer `idx` is in backoff now. A peer that does not exist is
    /// never skipped.
    pub fn should_skip(&self, idx: u8) -> (r: bool)
        ensures
            exists|now: u64| r == #[trigger] self@.skips(idx as int, now),
    {
        let now: u64 = self.now_ms();
        self.should_skip_at(idx, now)
    }

    /// Whether peer `idx` had a success no older than the TTL.
    pub fn is_recent_ok(&self, idx: u8) -> (r: bool)
        ensures
            exists|now: u64| r == #[trigger] self@.recent_ok(idx as int, now),
    {
        let now: u64 = self.now_ms();
        self.is_recent_ok_at(idx, now)
    }

    /// Records a success of peer `idx` now.
    pub fn mark_ok(&mut self, idx: u8)
        ensures
            exists|now: u64| final(self)@ == #[trigger] old(self)@.marked_ok(idx as int, now),
    {
        let now: u64 = self.now_ms();
        self.mark_ok_at(idx, now)
    }

    /// Records a failure of peer `idx` now.
    pub fn mark_fail(&mut self, idx: u8)
        ensures
            exists|now: u64| final(self)@ == #[trigger] old(self)@.marked_fail(idx as int, now),
    {
        let now: u64 = self.now_ms();
        self.mark_fail_at(idx, now)
    }

    /// What peer `idx` says now, if it exists.
    pub fn peer_snapshot(&self, idx: u8) -> (r: Option<FailoverPeerSnapshot>)
        ensures
            exists|now: u64| r == #[trigger] self@.snapshot(idx as int, now),
    {
        let now: u64 = self.now_ms();
        self.peer_snapshot_at(idx, now)
    }

    /// The number of peers.
    pub fn peer_count(&self) -> (r: usize)
        ensures
            r == self@.peers.len(),
    {
        self.peers.len()
    }
}

/// While a success is the latest event of a peer and no older than the TTL,
/// the peer counts as recently healthy and is not skipped.
///
/// The success must not fall on the very first millisecond: a zero in
/// `last_ok_ms` stands for "no success".
pub proof fn lemma_ok_is_recent_and_not_skipped(health: HealthView, idx: int, at: u64, now: u64)
    requires
        0 <= idx < health.peers.len(),
        at > 0,
        minus_or_zero(now, at) <= health.ok_ttl_ms,
    ensures
        health.marked_ok(idx, at).recent_ok(idx, now),
        !health.marked_ok(idx, at).skips(idx, now),
{
}

/// After `k >= 1` failures in a row of a peer that had none before, the peer
/// is down until the moment of the last failure plus the base backoff
/// doubled `min(k, 16)` times, capped by the ceiling.
pub proof fn lemma_backoff_after_failures(health: HealthView, idx: int, times: Seq<u64>)
    requires
        0 <= idx < health.peers.len(),
        health.peers[idx].fail_count == 0,
        times.len() >= 1,
    ensures
        ({
            let after = health.failed_at_each(idx, times);
            let k = if times.len() <= 16 {
                times.len()
            } else {
                16
            };
            &&& after.peers.len() == health.peers.len()
            &&& after.peers[idx].fail_count == k
            &&& after.peers[idx].last_ok_ms == 0
            &&& after.peers[idx].down_until_ms == plus_or_max(
                times.last(),
                backoff_ms(k, health.backoff_base_ms, health.backoff_max_ms),
            )
            &&& after.ok_ttl_ms == health.ok_ttl_ms
            &&& after.backoff_base_ms == health.backoff_base_ms
            &&& after.backoff_max_ms == health.backoff_max_ms
        }),
    decreases times.len(),
{
    if times.len() == 1 {
        assert(times.drop_last().len() == 0);
        assert(health.failed_at_each(idx, times.drop_last()) == health);
    } else {
        lemma_backoff_after_failures(health, idx, times.drop_last());
    }
}

/// A failure or a success of one peer leaves every other peer as it was.
pub proof fn lemma_marks_touch_one_peer(health: HealthView, idx: int, other: int, now: u64)
    requires
        0 <= other < health.peers.len(),
        other != idx,
    ensures
        health.marked_ok(idx, now).peers[other] == health.peers[other],
        health.marked_fail(idx, now).peers[other] == health.peers[other],
{
}

} // verus!
