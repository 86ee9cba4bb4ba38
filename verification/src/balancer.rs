//! Peer selection: from a connection's context to the peers to try, in order.
//!
//! A peer is named by a token: `Token(0)` is the primary remote, `Token(k)`
//! for `k > 0` the extra remote at position `k - 1`.

use crate::addr::IpAddress;
use crate::text::chars_of;
use crate::text::find_char;
use crate::text::first_index;
use crate::text::lemma_first_index;
use crate::text::parse_unsigned;
use crate::text::parsed_unsigned;
use crate::text::str_eq;
use crate::text::trim_bounds;
use crate::text::trimmed;
use vstd::prelude::*;
use vstd::string::StringExecFns;

verus! {

/// The name of a peer in an endpoint's list of remotes.
#[derive(Debug, Clone, Copy, PartialEq, Eq, Structural)]
pub struct Token(pub u8);

/// Balance strategy.
#[derive(Debug, Clone, Copy, PartialEq, Eq, Structural)]
pub enum Strategy {
    Off,
    Failover,
    IpHash,
    RoundRobin,
}

impl Strategy {
    /// The strategy that `name` names, if it names one.
    pub open spec fn named(name: Seq<char>) -> Option<Strategy> {
        if name == "off"@ {
            Some(Strategy::Off)
        } else if name == "failover"@ {
            Some(Strategy::Failover)
        } else if name == "iphash"@ {
            Some(Strategy::IpHash)
        } else if name == "roundrobin"@ {
            Some(Strategy::RoundRobin)
        } else {
            None
        }
    }

    /// The strategy's name.
    pub open spec fn label(self) -> Seq<char> {
        match self {
            Strategy::Off => "off"@,
            Strategy::Failover => "failover"@,
            Strategy::IpHash => "iphash"@,
            Strategy::RoundRobin => "roundrobin"@,
        }
    }

    /// The strategy that `name` names, if it names one.
    pub fn from_name(name: &str) -> (r: Option<Strategy>)
        ensures
            r == Strategy::named(name@),
    {
        if str_eq(name, "off") {
            Some(Strategy::Off)
        } else if str_eq(name, "failover") {
            Some(Strategy::Failover)
        } else if str_eq(name, "iphash") {
            Some(Strategy::IpHash)
        } else if str_eq(name, "roundrobin") {
            Some(Strategy::RoundRobin)
        } else {
            None
        }
    }

    /// The strategy's name.
    pub fn name(&self) -> (r: &'static str)
        ensures
            r@ == self.label(),
    {
        match self {
            Strategy::Off => "off",
            Strategy::Failover => "failover",
            Strategy::IpHash => "iphash",
            Strategy::RoundRobin => "roundrobin",
        }
    }
}

/// A strategy's name names that strategy.
pub proof fn lemma_strategy_name_round_trips(strategy: Strategy)
    ensures
        Strategy::named(strategy.label()) == Some(strategy),
{
    reveal_strlit("off");
    reveal_strlit("failover");
    reveal_strlit("iphash");
    reveal_strlit("roundrobin");
    assert("off"@.len() == 3);
    assert("failover"@.len() == 8);
    assert("iphash"@.len() == 6);
    assert("roundrobin"@.len() == 10);
}

/// Balance context to select the next peer.
#[derive(Debug, Clone, Copy)]
pub struct BalanceCtx {
    /// The client's address.
    pub src_ip: IpAddress,
}

/// What one piece of a list of weights holds: a number from 0 to 255, or
/// nothing where the piece is empty once trimmed. A piece that is no such
/// number holds nothing when reading leniently, and is the error when
/// reading strictly.
#[verifier::opaque]
pub open spec fn weight_in(piece: Seq<char>, strict: bool) -> Result<Seq<u8>, Seq<char>> {
    let p = trimmed(piece);
    match parsed_unsigned(p, 255) {
        Some(v) => Ok(seq![v as u8]),
        None => if strict && p.len() > 0 {
            Err(p)
        } else {
            Ok(Seq::empty())
        },
    }
}

/// `ws` put in front of what a reading gave.
pub open spec fn after_weights(ws: Seq<u8>, reading: Result<Seq<u8>, Seq<char>>) -> Result<
    Seq<u8>,
    Seq<char>,
> {
    match reading {
        Ok(more) => Ok(ws + more),
        Err(e) => Err(e),
    }
}

/// The weights in `s`, which stand between its commas, in order; or the
/// first piece on which a strict reading fails.
#[verifier::opaque]
pub open spec fn weights_listed(s: Seq<char>, strict: bool) -> Result<Seq<u8>, Seq<char>>
    decreases s.len(),
{
    match first_index(s, ',') {
        Some(i) if 0 <= i < s.len() => match weight_in(s.take(i), strict) {
            Ok(w) => after_weights(w, weights_listed(s.skip(i + 1), strict)),
            Err(e) => Err(e),
        },
        _ => weight_in(s, strict),
    }
}

/// The weights written in `s`, separated by commas.
pub open spec fn weights_in(s: Seq<char>, strict: bool) -> Result<Seq<u8>, Seq<char>> {
    weights_listed(trimmed(s), strict)
}

/// The weights that can be read in `s`, separated by commas.
pub open spec fn lenient_weights(s: Seq<char>) -> Seq<u8> {
    match weights_in(s, false) {
        Ok(ws) => ws,
        Err(_) => Seq::empty(),
    }
}

/// The weights in a text are those of its first piece, then those of what
/// follows the first comma.
pub proof fn lemma_weights_listed_unfold(s: Seq<char>, strict: bool)
    ensures
        weights_listed(s, strict) == match first_index(s, ',') {
            Some(i) => match weight_in(s.take(i), strict) {
                Ok(w) => after_weights(w, weights_listed(s.skip(i + 1), strict)),
                Err(e) => Err(e),
            },
            None => weight_in(s, strict),
        },
{
    reveal(weights_listed);
    lemma_first_index(s, ',');
}

/// A lenient reading never fails.
pub proof fn lemma_lenient_reading_succeeds(s: Seq<char>)
    ensures
        weights_listed(s, false) is Ok,
    decreases s.len(),
{
    reveal(weight_in);
    lemma_weights_listed_unfold(s, false);
    match first_index(s, ',') {
        Some(i) => {
            lemma_first_index(s, ',');
            lemma_lenient_reading_succeeds(s.skip(i + 1));
        },
        None => {},
    }
}

/// Reads the weight in the piece `chars[from..to]`.
fn read_weight(s: &str, chars: &Vec<char>, from: usize, to: usize, strict: bool) -> (r: Result<
    Option<u8>,
    String,
>)
    requires
        chars@ == s@,
        from <= to <= chars.len(),
    ensures
        match weight_in(chars@.subrange(from as int, to as int), strict) {
            Ok(w) => r matches Ok(o) && w == match o {
                Some(v) => seq![v],
                None => Seq::<u8>::empty(),
            },
            Err(p) => r matches Err(e) && e@ == p,
        },
{
    proof {
        reveal(weight_in);
    }
    let (a, b) = trim_bounds(chars, from, to);
    match parse_unsigned(chars, a, b, 255) {
        Some(v) => Ok(Some(v as u8)),
        None => if strict && a < b {
            Err(String::from_str(s.substring_char(a, b)))
        } else {
            Ok(None)
        },
    }
}

/// Reads the weights in `chars[from..to]`, separated by commas. On a piece
/// that is no weight, a strict reading stops and returns the piece.
pub(crate) fn read_weights(s: &str, chars: &Vec<char>, from: usize, to: usize, strict: bool) -> (r:
    Result<Vec<u8>, String>)
    requires
        chars@ == s@,
        from <= to <= chars.len(),
    ensures
        match weights_listed(chars@.subrange(from as int, to as int), strict) {
            Ok(ws) => r matches Ok(v) && v@ == ws,
            Err(p) => r matches Err(e) && e@ == p,
        },
{
    let ghost whole = chars@.subrange(from as int, to as int);
    let mut out: Vec<u8> = Vec::new();
    let mut pos: usize = from;
    proof {
        let reading = weights_listed(whole, strict);
        assert(reading matches Ok(ws) ==> out@ + ws =~= ws);
    }
    loop
        invariant
            chars@ == s@,
            from <= pos <= to <= chars.len(),
            whole == chars@.subrange(from as int, to as int),
            weights_listed(whole, strict) == after_weights(
                out@,
                weights_listed(chars@.subrange(pos as int, to as int), strict),
            ),
        decreases to - pos,
    {
        let ghost rest = chars@.subrange(pos as int, to as int);
        let ghost before = out@;
        let comma = find_char(chars, pos, to, ',');
        let end: usize = match comma {
            Some(i) => i,
            None => to,
        };
        let ghost piece = chars@.subrange(pos as int, end as int);
        let ghost next = chars@.subrange(
            if end < to {
                end + 1
            } else {
                to as int
            },
            to as int,
        );
        proof {
            lemma_weights_listed_unfold(rest, strict);
            if comma is Some {
                assert(rest.take(end - pos) =~= piece);
                assert(rest.skip(end - pos + 1) =~= next);
            } else {
                assert(rest =~= piece);
            }
        }
        match read_weight(s, chars, pos, end, strict) {
            Ok(Some(v)) => {
                out.push(v);
            },
            Ok(None) => {},
            Err(e) => {
                return Err(e);
            },
        }
        proof {
            let w = weight_in(piece, strict)->Ok_0;
            assert(out@ =~= before + w);
            if comma is Some {
                lemma_weights_follow(before, w, weights_listed(next, strict));
            }
        }
        match comma {
            Some(i) => {
                pos = i + 1;
            },
            None => {
                return Ok(out);
            },
        }
    }
}

/// Weights put in front one after the other are put in front together.
proof fn lemma_weights_follow(a: Seq<u8>, b: Seq<u8>, reading: Result<Seq<u8>, Seq<char>>)
    ensures
        after_weights(a, after_weights(b, reading)) == after_weights(a + b, reading),
{
    match reading {
        Ok(ws) => {
            assert(a + (b + ws) =~= (a + b) + ws);
        },
        Err(_) => {},
    }
}

/// The ring of a list of weights: each peer's index as many times as its
/// weight says, the peers in their order.
pub open spec fn weighted_ring(weights: Seq<u8>) -> Seq<u8>
    decreases weights.len(),
{
    if weights.len() == 0 {
        Seq::empty()
    } else {
        weighted_ring(weights.drop_last()) + Seq::new(
            weights.last() as nat,
            |i: int| (weights.len() - 1) as u8,
        )
    }
}

/// Every entry of a ring names a peer that has a weight.
pub proof fn lemma_ring_names_peers(weights: Seq<u8>)
    requires
        weights.len() <= 256,
    ensures
        forall|i: int|
            0 <= i < weighted_ring(weights).len() ==> (#[trigger] weighted_ring(weights)[i] as int)
                < weights.len(),
        weighted_ring(weights).len() <= 255 * weights.len(),
    decreases weights.len(),
{
    if weights.len() > 0 {
        lemma_ring_names_peers(weights.drop_last());
    }
}

/// How often `peer` stands in a ring.
pub open spec fn places(ring: Seq<u8>, peer: u8) -> nat
    decreases ring.len(),
{
    if ring.len() == 0 {
        0
    } else {
        places(ring.drop_last(), peer) + if ring.last() == peer {
            1nat
        } else {
            0nat
        }
    }
}

/// The places of a peer in two rings, one after the other, are its places
/// in each.
proof fn lemma_places_add(a: Seq<u8>, b: Seq<u8>, peer: u8)
    ensures
        places(a + b, peer) == places(a, peer) + places(b, peer),
    decreases b.len(),
{
    if b.len() == 0 {
        assert(a + b =~= a);
    } else {
        assert((a + b).drop_last() =~= a + b.drop_last());
        lemma_places_add(a, b.drop_last(), peer);
    }
}

/// A run of one peer holds that peer as often as it is long, and no other.
proof fn lemma_places_in_run(len: nat, of: u8, peer: u8)
    ensures
        places(Seq::new(len, |i: int| of), peer) == if of == peer {
            len
        } else {
            0
        },
    decreases len,
{
    if len > 0 {
        assert(Seq::new(len, |i: int| of).drop_last() =~= Seq::new((len - 1) as nat, |i: int| of));
        lemma_places_in_run((len - 1) as nat, of, peer);
    }
}

/// A peer has as many places in the ring as its weight says: its share of
/// the selections of a round, and of the clients' addresses.
pub proof fn lemma_ring_shares(weights: Seq<u8>, peer: u8)
    requires
        weights.len() <= 256,
    ensures
        places(weighted_ring(weights), peer) == if peer < weights.len() {
            weights[peer as int] as nat
        } else {
            0
        },
    decreases weights.len(),
{
    if weights.len() > 0 {
        let front = weights.drop_last();
        let last = (weights.len() - 1) as u8;
        lemma_ring_shares(front, peer);
        lemma_places_add(
            weighted_ring(front),
            Seq::new(weights.last() as nat, |i: int| last),
            peer,
        );
        lemma_places_in_run(weights.last() as nat, last, peer);
        if peer < front.len() {
            assert(front[peer as int] == weights[peer as int]);
        }
    }
}

fn build_ring(weights: &[u8]) -> (ring: Vec<u8>)
    requires
        weights.len() <= 255,
    ensures
        ring@ == weighted_ring(weights@),
{
    let mut ring: Vec<u8> = Vec::new();
    let mut i: usize = 0;
    while i < weights.len()
        invariant
            i <= weights.len() <= 255,
            ring@ == weighted_ring(weights@.take(i as int)),
        decreases weights.len() - i,
    {
        let w: u8 = weights[i];
        let ghost before = ring@;
        let mut k: u8 = 0;
        while k < w
            invariant
                k <= w,
                i < 255,
                ring@ == before + Seq::new(k as nat, |j: int| i as u8),
            decreases w - k,
        {
            ring.push(i as u8);
            proof {
                assert(ring@ =~= before + Seq::new((k + 1) as nat, |j: int| i as u8));
            }
            k += 1;
        }
        proof {
            assert(weights@.take(i + 1).drop_last() =~= weights@.take(i as int));
            assert(weights@.take(i + 1).last() == w);
            assert(ring@ =~= weighted_ring(weights@.take(i + 1)));
        }
        i += 1;
    }
    proof {
        assert(weights@.take(i as int) =~= weights@);
    }
    ring
}

/// Failover balancer.
///
/// Always prefers the primary peer (`Token(0)`). If it is unavailable, the
/// caller tries the next candidates in order: `Token(1)`, `Token(2)`, ...
#[derive(Debug)]
pub struct Failover {
    total: u8,
}

impl Failover {
    /// The number of peers.
    pub closed spec fn peers(&self) -> nat {
        self.total as nat
    }

    /// A failover balancer over as many peers as there are weights.
    pub fn new(weights: &[u8]) -> (r: Self)
        requires
            weights.len() <= 255,
        ensures
            r.peers() == weights.len(),
    {
        Failover { total: weights.len() as u8 }
    }

    /// The peers in the order in which to try them: all of them, by index.
    pub fn order(&self) -> (r: Vec<Token>)
        ensures
            r@ == Seq::new(self.peers(), |i: int| Token(i as u8)),
    {
        let mut out: Vec<Token> = Vec::new();
        let mut i: u8 = 0;
        while i < self.total
            invariant
                i <= self.total,
                out@ == Seq::new(i as nat, |j: int| Token(j as u8)),
            decreases self.total - i,
        {
            out.push(Token(i));
            proof {
                assert(out@ =~= Seq::new((i + 1) as nat, |j: int| Token(j as u8)));
            }
            i += 1;
        }
        out
    }

    /// The preferred peer: the primary.
    pub fn next(&self) -> (r: Option<Token>)
        ensures
            r == Some(Token(0)),
    {
        Some(Token(0))
    }

    /// The number of peers.
    pub fn total(&self) -> (r: u8)
        ensures
            r == self.peers(),
    {
        self.total
    }
}

impl Clone for Failover {
    fn clone(&self) -> (r: Self)
        ensures
            r.peers() == self.peers(),
    {
        Failover { total: self.total }
    }
}

/// One step of the hash: a byte is folded into the state.
pub open spec fn hash_step(h: u32, b: u8) -> u32 {
    (h ^ (b as u32)).wrapping_mul(16777619)
}

/// The hash of a sequence of bytes (FNV-1a, 32 bits).
pub open spec fn hash_of(bytes: Seq<u8>) -> u32
    decreases bytes.len(),
{
    if bytes.len() == 0 {
        2166136261
    } else {
        hash_step(hash_of(bytes.drop_last()), bytes.last())
    }
}

fn hash_bytes(bytes: &Vec<u8>) -> (h: u32)
    ensures
        h == hash_of(bytes@),
{
    let mut h: u32 = 2166136261;
    let mut i: usize = 0;
    while i < bytes.len()
        invariant
            i <= bytes.len(),
            h == hash_of(bytes@.take(i as int)),
        decreases bytes.len() - i,
    {
        proof {
            assert(bytes@.take(i + 1).drop_last() =~= bytes@.take(i as int));
        }
        h = (h ^ (bytes[i] as u32)).wrapping_mul(16777619);
        i += 1;
    }
    proof {
        assert(bytes@.take(i as int) =~= bytes@);
    }
    h
}

/// The peer that a ring gives at position `at`, counted round the ring: the
/// primary where the ring is empty.
pub open spec fn ring_pick(ring: Seq<u8>, at: nat) -> Token {
    if ring.len() == 0 {
        Token(0)
    } else {
        Token(ring[(at % ring.len()) as int])
    }
}

/// Source-address hash balancer: a client's address always leads to the same
/// peer, and a peer gets a share of the addresses in proportion to its weight.
#[derive(Debug)]
pub struct IpHash {
    ring: Vec<u8>,
    total: u8,
}

impl IpHash {
    /// The ring of peers.
    pub closed spec fn ring(&self) -> Seq<u8> {
        self.ring@
    }

    /// The number of peers.
    pub closed spec fn peers(&self) -> nat {
        self.total as nat
    }

    pub fn new(weights: &[u8]) -> (r: Self)
        requires
            weights.len() <= 255,
        ensures
            r.peers() == weights.len(),
            r.ring() == weighted_ring(weights@),
    {
        IpHash { ring: build_ring(weights), total: weights.len() as u8 }
    }

    /// The peer for a client address.
    pub fn next(&self, src_ip: &IpAddress) -> (r: Option<Token>)
        ensures
            r == Some(ring_pick(self.ring(), hash_of(src_ip.octets()) as nat)),
    {
        if self.ring.len() == 0 {
            return Some(Token(0));
        }
        let octets = src_ip.to_octets();
        let h: usize = hash_bytes(&octets) as usize;
        Some(Token(self.ring[h % self.ring.len()]))
    }

    pub fn total(&self) -> (r: u8)
        ensures
            r == self.peers(),
    {
        self.total
    }
}

impl Clone for IpHash {
    fn clone(&self) -> (r: Self)
        ensures
            r.peers() == self.peers(),
            r.ring() == self.ring(),
    {
        IpHash { ring: self.ring.clone(), total: self.total }
    }
}

/// Round-robin balancer: a cursor walks round the ring, one step for each
/// selection.
#[derive(Debug)]
pub struct RoundRobin {
    ring: Vec<u8>,
    total: u8,
    cursor: usize,
}

impl RoundRobin {
    /// The ring of peers.
    pub closed spec fn ring(&self) -> Seq<u8> {
        self.ring@
    }

    /// The number of peers.
    pub closed spec fn peers(&self) -> nat {
        self.total as nat
    }

    /// The position of the cursor in the ring.
    pub closed spec fn cursor(&self) -> nat {
        self.cursor as nat
    }

    /// The cursor stands inside the ring.
    pub closed spec fn wf(&self) -> bool {
        self.cursor < self.ring.len() || (self.cursor == 0 && self.ring.len() == 0)
    }

    pub fn new(weights: &[u8]) -> (r: Self)
        requires
            weights.len() <= 255,
        ensures
            r.wf(),
            r.peers() == weights.len(),
            r.ring() == weighted_ring(weights@),
            r.cursor() == 0,
    {
        RoundRobin { ring: build_ring(weights), total: weights.len() as u8, cursor: 0 }
    }

    /// The peer under the cursor; the cursor moves on by one.
    pub fn next(&mut self) -> (r: Option<Token>)
        requires
            old(self).wf(),
        ensures
            final(self).wf(),
            r == Some(ring_pick(old(self).ring(), old(self).cursor())),
            final(self).ring() == old(self).ring(),
            final(self).peers() == old(self).peers(),
            final(self).cursor() == if old(self).ring().len() == 0 {
                0
            } else {
                (old(self).cursor() + 1) % old(self).ring().len()
            },
    {
        if self.ring.len() == 0 {
            return Some(Token(0));
        }
        let at: usize = self.cursor;
        proof {
            vstd::arithmetic::div_mod::lemma_small_mod(at as nat, self.ring.len() as nat);
            if at + 1 == self.ring.len() {
                vstd::arithmetic::div_mod::lemma_mod_self_0(self.ring.len() as int);
            } else {
                vstd::arithmetic::div_mod::lemma_small_mod((at + 1) as nat, self.ring.len() as nat);
            }
        }
        self.cursor = if at + 1 == self.ring.len() {
            0
        } else {
            at + 1
        };
        Some(Token(self.ring[at]))
    }

    pub fn total(&self) -> (r: u8)
        ensures
            r == self.peers(),
    {
        self.total
    }
}

impl Clone for RoundRobin {
    /// A balancer with a cursor of its own, which starts where this one
    /// stands.
    fn clone(&self) -> (r: Self)
        ensures
            r.peers() == self.peers(),
            r.ring() == self.ring(),
            r.cursor() == self.cursor(),
            self.wf() ==> r.wf(),
    {
        RoundRobin { ring: self.ring.clone(), total: self.total, cursor: self.cursor }
    }
}

/// Combined load balancer.
#[derive(Debug)]
pub enum Balancer {
    Off,
    Failover(Failover),
    IpHash(IpHash),
    RoundRobin(RoundRobin),
}

/// A balancer as plain values.
pub enum BalancerView {
    Off,
    Failover { total: nat },
    IpHash { total: nat, ring: Seq<u8> },
    RoundRobin { total: nat, ring: Seq<u8>, cursor: nat },
}

impl BalancerView {
    /// The balancer that `Balancer::new` makes.
    pub open spec fn fresh(strategy: Strategy, weights: Seq<u8>) -> BalancerView {
        match strategy {
            Strategy::Off => BalancerView::Off,
            Strategy::Failover => BalancerView::Failover { total: weights.len() },
            Strategy::IpHash => BalancerView::IpHash {
                total: weights.len(),
                ring: weighted_ring(weights),
            },
            Strategy::RoundRobin => BalancerView::RoundRobin {
                total: weights.len(),
                ring: weighted_ring(weights),
                cursor: 0,
            },
        }
    }

    pub open spec fn strategy(self) -> Strategy {
        match self {
            BalancerView::Off => Strategy::Off,
            BalancerView::Failover { .. } => Strategy::Failover,
            BalancerView::IpHash { .. } => Strategy::IpHash,
            BalancerView::RoundRobin { .. } => Strategy::RoundRobin,
        }
    }

    pub open spec fn total(self) -> nat {
        match self {
            BalancerView::Off => 0,
            BalancerView::Failover { total } => total,
            BalancerView::IpHash { total, .. } => total,
            BalancerView::RoundRobin { total, .. } => total,
        }
    }

    /// The peer selected for a connection from `src_ip`.
    pub open spec fn selected(self, src_ip: IpAddress) -> Token {
        match self {
            BalancerView::Off => Token(0),
            BalancerView::Failover { .. } => Token(0),
            BalancerView::IpHash { ring, .. } => ring_pick(ring, hash_of(src_ip.octets()) as nat),
            BalancerView::RoundRobin { ring, cursor, .. } => ring_pick(ring, cursor),
        }
    }

    /// The balancer after a selection: a round-robin cursor has moved on by
    /// one, and nothing else has changed.
    pub open spec fn advanced(self) -> BalancerView {
        match self {
            BalancerView::RoundRobin { total, ring, cursor } => BalancerView::RoundRobin {
                total,
                ring,
                cursor: if ring.len() == 0 {
                    0
                } else {
                    (cursor + 1) % ring.len()
                },
            },
            other => other,
        }
    }

    /// The peers to try for a connection from `src_ip`, in order: with
    /// failover every peer by index (the primary alone where there are no
    /// weights), else the one selected peer.
    pub open spec fn candidates(self, src_ip: IpAddress) -> Seq<Token> {
        match self {
            BalancerView::Failover { total } => if total == 0 {
                seq![Token(0)]
            } else {
                Seq::new(total, |i: int| Token(i as u8))
            },
            _ => seq![self.selected(src_ip)],
        }
    }
}

/// The strategy and the weights written in `s` as `strategy: w1, w2, ...`;
/// what follows the colon may be empty. The error says what is wrong.
pub enum BalanceSyntaxError {
    /// There is no colon.
    NoColon,
    /// What stands before the colon names no strategy.
    UnknownStrategy(Seq<char>),
    /// A piece after the colon is no number from 0 to 255.
    InvalidWeight(Seq<char>),
    /// There are more than 255 weights for a strategy that uses them.
    TooManyWeights,
}

/// What a strict reading of `s` gives.
pub open spec fn balance_syntax(s: Seq<char>) -> Result<(Strategy, Seq<u8>), BalanceSyntaxError> {
    match first_index(s, ':') {
        None => Err(BalanceSyntaxError::NoColon),
        Some(i) => match Strategy::named(trimmed(s.take(i))) {
            None => Err(BalanceSyntaxError::UnknownStrategy(trimmed(s.take(i)))),
            Some(strategy) => match weights_in(s.skip(i + 1), true) {
                Err(p) => Err(BalanceSyntaxError::InvalidWeight(p)),
                Ok(ws) => if strategy != Strategy::Off && ws.len() > 255 {
                    Err(BalanceSyntaxError::TooManyWeights)
                } else {
                    Ok((strategy, ws))
                },
            },
        },
    }
}

/// Whether a lenient reading of `s` can be made into a balancer: if there is
/// a colon, what stands before it names a strategy, and where that strategy
/// uses weights, no more than 255 follow it.
pub open spec fn balance_readable(s: Seq<char>) -> bool {
    match first_index(s, ':') {
        None => true,
        Some(i) => match Strategy::named(trimmed(s.take(i))) {
            None => false,
            Some(strategy) => strategy != Strategy::Off ==> lenient_weights(s.skip(i + 1)).len()
                <= 255,
        },
    }
}

/// What a lenient reading of `s` gives: without a colon no balancing, else
/// the strategy and the weights that could be read.
pub open spec fn balance_read(s: Seq<char>) -> BalancerView {
    match first_index(s, ':') {
        None => BalancerView::Off,
        Some(i) => BalancerView::fresh(
            Strategy::named(trimmed(s.take(i))).unwrap(),
            lenient_weights(s.skip(i + 1)),
        ),
    }
}

impl View for Balancer {
    type V = BalancerView;

    open spec fn view(&self) -> BalancerView {
        match self {
            Balancer::Off => BalancerView::Off,
            Balancer::Failover(fo) => BalancerView::Failover { total: fo.peers() },
            Balancer::IpHash(h) => BalancerView::IpHash { total: h.peers(), ring: h.ring() },
            Balancer::RoundRobin(rr) => BalancerView::RoundRobin {
                total: rr.peers(),
                ring: rr.ring(),
                cursor: rr.cursor(),
            },
        }
    }
}

impl Balancer {
    /// The cursor of a round-robin balancer stands inside its ring.
    pub open spec fn wf(&self) -> bool {
        match self {
            Balancer::RoundRobin(rr) => rr.wf(),
            _ => true,
        }
    }

    /// A balancer of the given strategy over the peers that have a weight.
    pub fn new(strategy: Strategy, weights: &[u8]) -> (r: Self)
        requires
            strategy != Strategy::Off ==> weights.len() <= 255,
        ensures
            r.wf(),
            r@ == BalancerView::fresh(strategy, weights@),
    {
        match strategy {
            Strategy::Off => Balancer::Off,
            Strategy::Failover => Balancer::Failover(Failover::new(weights)),
            Strategy::IpHash => Balancer::IpHash(IpHash::new(weights)),
            Strategy::RoundRobin => Balancer::RoundRobin(RoundRobin::new(weights)),
        }
    }

    /// The current balance strategy.
    pub fn strategy(&self) -> (r: Strategy)
        ensures
            r == self@.strategy(),
    {
        match self {
            Balancer::Off => Strategy::Off,
            Balancer::Failover(_) => Strategy::Failover,
            Balancer::IpHash(_) => Strategy::IpHash,
            Balancer::RoundRobin(_) => Strategy::RoundRobin,
        }
    }

    /// The number of peers.
    pub fn total(&self) -> (r: u8)
        ensures
            r == self@.total(),
    {
        match self {
            Balancer::Off => 0,
            Balancer::Failover(fo) => fo.total(),
            Balancer::IpHash(iphash) => iphash.total(),
            Balancer::RoundRobin(rr) => rr.total(),
        }
    }

    /// Selects the next peer.
    pub fn next(&mut self, ctx: BalanceCtx) -> (r: Option<Token>)
        requires
            old(self).wf(),
        ensures
            final(self).wf(),
            r == Some(old(self)@.selected(ctx.src_ip)),
            final(self)@ == old(self)@.advanced(),
    {
        match self {
            Balancer::Off => Some(Token(0)),
            Balancer::Failover(fo) => fo.next(),
            Balancer::IpHash(iphash) => iphash.next(&ctx.src_ip),
            Balancer::RoundRobin(rr) => rr.next(),
        }
    }

    /// The candidate peers to try, in order.
    ///
    /// For failover these are all peers in priority order: 0, 1, 2, ... For
    /// the other strategies it is the one selected peer.
    pub fn candidates(&mut self, ctx: BalanceCtx) -> (r: Vec<Token>)
        requires
            old(self).wf(),
        ensures
            final(self).wf(),
            r@ == old(self)@.candidates(ctx.src_ip),
            final(self)@ == old(self)@.advanced(),
    {
        match self {
            Balancer::Off => {
                let mut out: Vec<Token> = Vec::new();
                out.push(Token(0));
                proof {
                    assert(out@ =~= seq![Token(0)]);
                }
                out
            },
            Balancer::Failover(fo) => {
                if fo.total() == 0 {
                    let mut out: Vec<Token> = Vec::new();
                    out.push(Token(0));
                    proof {
                        assert(out@ =~= seq![Token(0)]);
                    }
                    out
                } else {
                    fo.order()
                }
            },
            Balancer::IpHash(_) | Balancer::RoundRobin(_) => {
                let mut out: Vec<Token> = Vec::new();
                match self.next(ctx) {
                    Some(t) => {
                        out.push(t);
                    },
                    None => {},
                }
                proof {
                    assert(out@ =~= seq![old(self)@.selected(ctx.src_ip)]);
                }
                out
            },
        }
    }

    /// Reads a balancer from `strategy: weight1, weight2, ...`, passing
    /// over what is no weight. Without a colon there is no balancing.
    pub fn parse_from_str(s: &str) -> (r: Self)
        requires
            balance_readable(s@),
        ensures
            r.wf(),
            r@ == balance_read(s@),
    {
        let chars = chars_of(s);
        let colon = match find_char(&chars, 0, chars.len(), ':') {
            Some(i) => i,
            None => {
                proof {
                    assert(chars@.subrange(0, chars.len() as int) =~= s@);
                }
                return Balancer::Off;
            },
        };
        proof {
            assert(chars@.subrange(0, chars.len() as int) =~= s@);
            assert(chars@.subrange(0, colon as int) =~= s@.take(colon as int));
            assert(chars@.subrange(colon + 1, chars.len() as int) =~= s@.skip(colon + 1));
        }
        let (a, b) = trim_bounds(&chars, 0, colon);
        let strategy = match Strategy::from_name(s.substring_char(a, b)) {
            Some(x) => x,
            None => Strategy::Off,
        };
        let (wa, wb) = trim_bounds(&chars, colon + 1, chars.len());
        let weights = match read_weights(s, &chars, wa, wb, false) {
            Ok(w) => w,
            Err(_) => Vec::new(),
        };
        Balancer::new(strategy, weights.as_slice())
    }

    /// Reads a balancer from `strategy: weight1, weight2, ...`. What follows
    /// the colon may be empty; anything else that is no weight is an error,
    /// and so is a name that names no strategy. Without balancing the
    /// weights are read and then left aside, however many there are.
    pub fn try_parse_from_str(s: &str) -> (r: Result<Self, String>)
        ensures
            match balance_syntax(s@) {
                Ok((strategy, weights)) => r matches Ok(b) && b.wf() && b@ == BalancerView::fresh(
                    strategy,
                    weights,
                ),
                Err(BalanceSyntaxError::NoColon) => r matches Err(e) && e@
                    == "invalid format, expected `$strategy: $weight1, $weight2, ...`"@,
                Err(BalanceSyntaxError::UnknownStrategy(name)) => r matches Err(e) && e@
                    == "unknown strategy: "@ + name,
                Err(BalanceSyntaxError::InvalidWeight(p)) => r matches Err(e) && e@
                    == "invalid weight `"@ + p + "` (expected 0-255 integer)"@,
                Err(BalanceSyntaxError::TooManyWeights) => r matches Err(e) && e@
                    == "too many weights (at most 255)"@,
            },
    {
        let chars = chars_of(s);
        proof {
            assert(chars@.subrange(0, chars.len() as int) =~= s@);
        }
        let colon = match find_char(&chars, 0, chars.len(), ':') {
            Some(i) => i,
            None => {
                return Err(
                    String::from_str(
                        "invalid format, expected `$strategy: $weight1, $weight2, ...`",
                    ),
                );
            },
        };
        proof {
            assert(chars@.subrange(0, colon as int) =~= s@.take(colon as int));
            assert(chars@.subrange(colon + 1, chars.len() as int) =~= s@.skip(colon + 1));
        }
        let (a, b) = trim_bounds(&chars, 0, colon);
        let name = s.substring_char(a, b);
        let strategy = match Strategy::from_name(name) {
            Some(x) => x,
            None => {
                let mut msg = String::from_str("unknown strategy: ");
                msg.append(name);
                return Err(msg);
            },
        };
        let (wa, wb) = trim_bounds(&chars, colon + 1, chars.len());
        let weights = match read_weights(s, &chars, wa, wb, true) {
            Ok(w) => w,
            Err(p) => {
                let mut msg = String::from_str("invalid weight `");
                msg.append(p.as_str());
                msg.append("` (expected 0-255 integer)");
                return Err(msg);
            },
        };
        let uses_weights = match strategy {
            Strategy::Off => false,
            _ => true,
        };
        if uses_weights && weights.len() > 255 {
            return Err(String::from_str("too many weights (at most 255)"));
        }
        Ok(Balancer::new(strategy, weights.as_slice()))
    }
}

impl Clone for Balancer {
    fn clone(&self) -> (r: Self)
        ensures
            r@ == self@,
            self.wf() ==> r.wf(),
    {
        match self {
            Balancer::Off => Balancer::Off,
            Balancer::Failover(fo) => Balancer::Failover(fo.clone()),
            Balancer::IpHash(iphash) => Balancer::IpHash(iphash.clone()),
            Balancer::RoundRobin(rr) => Balancer::RoundRobin(rr.clone()),
        }
    }
}

impl Default for Balancer {
    /// No balancing.
    fn default() -> (r: Self)
        ensures
            r@ == BalancerView::Off,
    {
        Balancer::Off
    }
}

} // verus!
