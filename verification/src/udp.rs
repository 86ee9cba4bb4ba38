//! The UDP pipeline's bookkeeping: a batch of received datagrams, and its
//! grouping by source address, so that each source's datagrams go upstream
//! together.

use crate::addr::IpAddress;
use crate::addr::SockAddr;
use crate::tally::first_where;
use crate::tally::lemma_first_where;
use crate::tally::lemma_first_where_is;
use std::ops::Range;
use vstd::prelude::*;

verus! {

/// A sink for what happens on an endpoint's UDP associations.
pub trait UdpObserver {
    /// A source has got its upstream socket.
    fn on_session_open(&mut self, peer: SockAddr);

    /// A source's upstream socket has gone.
    fn on_session_close(&mut self, peer: SockAddr);

    /// Bytes were sent on: `inbound_delta` upstream, `outbound_delta` back
    /// to the clients.
    fn on_bytes(&mut self, inbound_delta: u64, outbound_delta: u64);
}

/// The milliseconds between two looks of a return path at whether its
/// endpoint still runs.
pub const RUN_GUARD_CHECK_MS: u64 = 500;

/// The most datagrams in one batch.
pub const MAX_PACKETS: usize = 128;

/// One datagram: where it came from, and its bytes.
#[derive(Debug)]
pub struct Packet {
    /// The source address.
    pub addr: SockAddr,
    /// The number of bytes received.
    pub cursor: u16,
    /// The backing buffer; the datagram is its first `cursor` bytes.
    pub buf: Vec<u8>,
}

impl Packet {
    /// A slot that holds no datagram yet.
    pub fn new() -> (r: Self)
        ensures
            r.cursor == 0,
            r.buf@.len() == 0,
            r.addr == (SockAddr { ip: IpAddress::V4(0), port: 0 }),
    {
        Packet { addr: SockAddr { ip: IpAddress::V4(0), port: 0 }, cursor: 0, buf: Vec::new() }
    }
}

/// The bytes of a batch, all datagrams together.
pub open spec fn bytes_of(pkts: Seq<Packet>) -> nat
    decreases pkts.len(),
{
    if pkts.len() == 0 {
        0
    } else {
        bytes_of(pkts.drop_last()) + pkts.last().cursor as nat
    }
}

/// The bytes of a batch, all datagrams together: what is reported to the
/// observer when the batch has been sent on.
pub fn batch_bytes(pkts: &[Packet]) -> (r: u64)
    ensures
        r == if bytes_of(pkts@) <= u64::MAX {
            bytes_of(pkts@)
        } else {
            u64::MAX as nat
        },
{
    let mut sum: u64 = 0;
    let mut i: usize = 0;
    while i < pkts.len()
        invariant
            i <= pkts.len(),
            sum == if bytes_of(pkts@.take(i as int)) <= u64::MAX {
                bytes_of(pkts@.take(i as int))
            } else {
                u64::MAX as nat
            },
        decreases pkts.len() - i,
    {
        proof {
            assert(pkts@.take(i + 1).drop_last() =~= pkts@.take(i as int));
        }
        sum = sum.saturating_add(pkts[i].cursor as u64);
        i += 1;
    }
    proof {
        assert(pkts@.take(i as int) =~= pkts@);
    }
    sum
}

/// Whether `groups` splits the batch `pkts` by source address: the groups
/// follow one another from the first datagram to the last, none is empty,
/// the datagrams of a group come from one address, and no two groups share
/// an address.
pub open spec fn is_grouping(pkts: Seq<Packet>, groups: Seq<Range<u16>>) -> bool {
    &&& (groups.len() == 0 <==> pkts.len() == 0)
    &&& groups.len() > 0 ==> groups[0].start == 0 && groups.last().end == pkts.len()
    &&& forall|g: int| 0 <= g < groups.len() ==> (#[trigger] groups[g]).start < groups[g].end
    &&& forall|g: int|
        0 <= g < groups.len() - 1 ==> (#[trigger] groups[g]).end == groups[g + 1].start
    &&& forall|g: int, i: int|
        0 <= g < groups.len() && groups[g].start <= i < groups[g].end && i < pkts.len()
            ==> #[trigger] pkts[i].addr == pkts[(#[trigger] groups[g]).start as int].addr
    &&& forall|g: int, h: int|
        0 <= g < h < groups.len() && groups[h].start < pkts.len() ==> pkts[(
        #[trigger] groups[g]).start as int].addr != pkts[(#[trigger] groups[h]).start as int].addr
}

/// The datagrams of `pkts` that come from `addr`, in their order.
pub open spec fn sent_from(pkts: Seq<Packet>, addr: SockAddr) -> Seq<Packet>
    decreases pkts.len(),
{
    if pkts.len() == 0 {
        pkts
    } else if pkts.last().addr == addr {
        sent_from(pkts.drop_last(), addr).push(pkts.last())
    } else {
        sent_from(pkts.drop_last(), addr)
    }
}

/// The datagrams of `pkts` that come from another address than `addr`, in
/// their order.
pub open spec fn not_from(pkts: Seq<Packet>, addr: SockAddr) -> Seq<Packet>
    decreases pkts.len(),
{
    if pkts.len() == 0 {
        pkts
    } else if pkts.last().addr != addr {
        not_from(pkts.drop_last(), addr).push(pkts.last())
    } else {
        not_from(pkts.drop_last(), addr)
    }
}

/// The batch `pkts` grouped by source address: the datagrams of the first
/// datagram's source in the order in which they came, then the others,
/// grouped in the same way. So the sources stand in the order in which each
/// first sent, and each source's datagrams in the order in which they came.
pub open spec fn grouped(pkts: Seq<Packet>) -> Seq<Packet>
    decreases pkts.len(),
    via grouped_decreases
{
    if pkts.len() == 0 {
        pkts
    } else {
        sent_from(pkts, pkts[0].addr) + grouped(not_from(pkts, pkts[0].addr))
    }
}

#[via_fn]
proof fn grouped_decreases(pkts: Seq<Packet>) {
    if pkts.len() > 0 {
        lemma_split_lengths(pkts, pkts[0].addr);
        lemma_first_is_sent(pkts);
    }
}

/// Every datagram is from `addr` or from another address.
pub proof fn lemma_split_lengths(pkts: Seq<Packet>, addr: SockAddr)
    ensures
        sent_from(pkts, addr).len() + not_from(pkts, addr).len() == pkts.len(),
    decreases pkts.len(),
{
    if pkts.len() > 0 {
        lemma_split_lengths(pkts.drop_last(), addr);
    }
}

/// The first datagram of a batch is the first of those from its source.
pub proof fn lemma_first_is_sent(pkts: Seq<Packet>)
    requires
        pkts.len() > 0,
    ensures
        sent_from(pkts, pkts[0].addr).len() > 0,
        sent_from(pkts, pkts[0].addr)[0] == pkts[0],
    decreases pkts.len(),
{
    if pkts.len() > 1 {
        assert(pkts.drop_last()[0] == pkts[0]);
        lemma_first_is_sent(pkts.drop_last());
    } else {
        assert(sent_from(pkts.drop_last(), pkts[0].addr).len() == 0);
    }
}

/// The datagrams from `addr` are from `addr`, and the others are not.
pub proof fn lemma_split_addrs(pkts: Seq<Packet>, addr: SockAddr)
    ensures
        forall|k: int|
            0 <= k < sent_from(pkts, addr).len() ==> (#[trigger] sent_from(pkts, addr)[k]).addr
                == addr,
        forall|k: int|
            0 <= k < not_from(pkts, addr).len() ==> (#[trigger] not_from(pkts, addr)[k]).addr
                != addr,
    decreases pkts.len(),
{
    if pkts.len() > 0 {
        lemma_split_addrs(pkts.drop_last(), addr);
    }
}

/// Taking one source's datagrams out of a batch leaves those of every other
/// source as they were.
pub proof fn lemma_others_stay(pkts: Seq<Packet>, gone: SockAddr, addr: SockAddr)
    requires
        gone != addr,
    ensures
        sent_from(not_from(pkts, gone), addr) == sent_from(pkts, addr),
    decreases pkts.len(),
{
    if pkts.len() > 0 {
        lemma_others_stay(pkts.drop_last(), gone, addr);
        if pkts.last().addr != gone {
            let rest = not_from(pkts.drop_last(), gone);
            assert(rest.push(pkts.last()).drop_last() =~= rest);
        }
    }
}

/// The datagrams from `addr` and the others are together the batch.
pub proof fn lemma_split_rearranges(pkts: Seq<Packet>, addr: SockAddr)
    ensures
        sent_from(pkts, addr).to_multiset().add(not_from(pkts, addr).to_multiset())
            == pkts.to_multiset(),
    decreases pkts.len(),
{
    broadcast use vstd::multiset::group_multiset_axioms;

    if pkts.len() > 0 {
        let head = pkts.drop_last();
        lemma_split_rearranges(head, addr);
        head.to_multiset_ensures();
        sent_from(head, addr).to_multiset_ensures();
        not_from(head, addr).to_multiset_ensures();
        assert(head.push(pkts.last()) =~= pkts);
        assert(pkts.to_multiset() =~= head.to_multiset().insert(pkts.last()));
        let mine = sent_from(head, addr).to_multiset();
        let others = not_from(head, addr).to_multiset();
        if pkts.last().addr == addr {
            assert(sent_from(pkts, addr).to_multiset() =~= mine.insert(pkts.last()));
            assert(mine.insert(pkts.last()).add(others) =~= mine.add(others).insert(pkts.last()));
        } else {
            assert(not_from(pkts, addr).to_multiset() =~= others.insert(pkts.last()));
            assert(mine.add(others.insert(pkts.last())) =~= mine.add(others).insert(pkts.last()));
        }
    } else {
        pkts.to_multiset_ensures();
        assert(pkts.to_multiset() =~= vstd::multiset::Multiset::empty());
    }
}

/// Grouping rearranges a batch: no datagram is lost, none is made up.
pub proof fn lemma_grouped_rearranges(pkts: Seq<Packet>)
    ensures
        grouped(pkts).len() == pkts.len(),
        grouped(pkts).to_multiset() == pkts.to_multiset(),
    decreases pkts.len(),
{
    if pkts.len() > 0 {
        let addr = pkts[0].addr;
        lemma_split_lengths(pkts, addr);
        lemma_first_is_sent(pkts);
        lemma_grouped_rearranges(not_from(pkts, addr));
        lemma_split_rearranges(pkts, addr);
        vstd::seq_lib::lemma_multiset_commutative(
            sent_from(pkts, addr),
            grouped(not_from(pkts, addr)),
        );
    }
}

/// `<[T]>::swap` on the elements of a vector: the elements at `i` and `j`
/// change places, and every other element stays.
#[verifier::external_body]
fn swap_packets(data: &mut Vec<Packet>, i: usize, j: usize)
    requires
        i < old(data)@.len(),
        j < old(data)@.len(),
    ensures
        final(data)@ == old(data)@.update(i as int, old(data)@[j as int]).update(
            j as int,
            old(data)@[i as int],
        ),
{
    data.swap(i, j);
}

/// Moves the datagram at `from` down to `to`. Those that stood between move
/// up by one place, in their order; every other stays.
fn move_down(data: &mut Vec<Packet>, to: usize, from: usize)
    requires
        to <= from < old(data)@.len(),
    ensures
        final(data)@.len() == old(data)@.len(),
        final(data)@[to as int] == old(data)@[from as int],
        forall|k: int| to < k <= from ==> final(data)@[k] == old(data)@[k - 1],
        forall|k: int|
            0 <= k < to || from < k < old(data)@.len() ==> final(data)@[k] == old(data)@[k],
{
    let mut at: usize = from;
    while at > to
        invariant
            to <= at <= from < data@.len(),
            data@.len() == old(data)@.len(),
            data@[at as int] == old(data)@[from as int],
            forall|k: int| at < k <= from ==> data@[k] == old(data)@[k - 1],
            forall|k: int| 0 <= k < at || from < k < data@.len() ==> data@[k] == old(data)@[k],
        decreases at,
    {
        swap_packets(data, at, at - 1);
        at -= 1;
    }
}

/// Groups the first `n` datagrams of `data` by source address, in place and
/// keeping their order: the sources stand in the order in which each first
/// sent, the datagrams of a source side by side in the order in which they
/// came, and `groups` gets one range for each source.
fn group_by_inner(data: &mut Vec<Packet>, n: usize, groups: &mut Vec<Range<u16>>)
    requires
        n <= old(data)@.len(),
        n <= u16::MAX,
        old(groups)@.len() == 0,
    ensures
        final(data)@.len() == old(data)@.len(),
        final(data)@.take(n as int) == grouped(old(data)@.take(n as int)),
        forall|k: int| n <= k < old(data)@.len() ==> final(data)@[k] == old(data)@[k],
        n > 0 ==> final(data)@[0] == old(data)@[0],
        is_grouping(final(data)@.take(n as int), final(groups)@),
        forall|g: int|
            0 <= g < final(groups)@.len() ==> final(data)@.subrange(
                (#[trigger] final(groups)@[g]).start as int,
                final(groups)@[g].end as int,
            ) == sent_from(
                old(data)@.take(n as int),
                final(data)@[final(groups)@[g].start as int].addr,
            ),
{
    let ghost orig = data@.take(n as int);
    let ghost mut done: Set<SockAddr> = Set::empty();
    let mut beg: usize = 0;
    proof {
        assert(data@.subrange(0, 0) + grouped(data@.subrange(0, n as int)) =~= grouped(orig));
    }
    while beg < n
        invariant
            beg <= n <= u16::MAX,
            n <= data@.len(),
            data@.len() == old(data)@.len(),
            orig == old(data)@.take(n as int),
            forall|k: int| n <= k < data@.len() ==> data@[k] == old(data)@[k],
            beg == 0 ==> data@ == old(data)@,
            beg > 0 ==> data@[0] == old(data)@[0],
            // what is done, and what is still to do
            data@.subrange(0, beg as int) + grouped(data@.subrange(beg as int, n as int))
                == grouped(orig),
            forall|a: SockAddr|
                !done.contains(a) ==> #[trigger] sent_from(data@.subrange(beg as int, n as int), a)
                    == sent_from(orig, a),
            forall|k: int| beg <= k < n ==> !done.contains((#[trigger] data@[k]).addr),
            forall|g: int|
                0 <= g < groups@.len() ==> done.contains(
                    data@[(#[trigger] groups@[g]).start as int].addr,
                ),
            // the groups so far
            groups@.len() == 0 <==> beg == 0,
            groups@.len() > 0 ==> groups@[0].start == 0 && groups@.last().end == beg,
            forall|g: int| 0 <= g < groups@.len() ==> (#[trigger] groups@[g]).start < groups@[g].end,
            forall|g: int| 0 <= g < groups@.len() ==> (#[trigger] groups@[g]).end <= beg,
            forall|g: int|
                0 <= g < groups@.len() - 1 ==> (#[trigger] groups@[g]).end == groups@[g + 1].start,
            forall|g: int, i: int|
                0 <= g < groups@.len() && groups@[g].start <= i < groups@[g].end ==> (
                #[trigger] data@[i]).addr == data@[(#[trigger] groups@[g]).start as int].addr,
            forall|g: int, h: int|
                0 <= g < h < groups@.len() ==> data@[(#[trigger] groups@[g]).start as int].addr
                    != data@[(#[trigger] groups@[h]).start as int].addr,
            forall|g: int|
                0 <= g < groups@.len() ==> data@.subrange(
                    (#[trigger] groups@[g]).start as int,
                    groups@[g].end as int,
                ) == sent_from(orig, data@[groups@[g].start as int].addr),
        decreases n - beg,
    {
        let ghost before = data@;
        let ghost rest = data@.subrange(beg as int, n as int);
        let ghost source = data@[beg as int].addr;
        let mut end: usize = beg + 1;
        let mut probe: usize = beg + 1;
        proof {
            assert(rest.take(1).drop_last() =~= Seq::<Packet>::empty());
            assert(sent_from(rest.take(1).drop_last(), source) =~= Seq::<Packet>::empty());
            assert(not_from(rest.take(1).drop_last(), source) =~= Seq::<Packet>::empty());
            assert(data@.subrange(beg as int, end as int) =~= sent_from(rest.take(1), source));
            assert(data@.subrange(end as int, probe as int) =~= not_from(rest.take(1), source));
        }
        // pick the datagrams of this source from what follows
        while probe < n
            invariant
                beg < end <= probe <= n,
                n <= data@.len(),
                data@.len() == before.len(),
                rest == before.subrange(beg as int, n as int),
                source == rest[0].addr,
                data@[beg as int] == rest[0],
                forall|k: int| 0 <= k < beg || n <= k < data@.len() ==> data@[k] == before[k],
                data@.subrange(beg as int, end as int) == sent_from(
                    rest.take(probe - beg),
                    source,
                ),
                data@.subrange(end as int, probe as int) == not_from(
                    rest.take(probe - beg),
                    source,
                ),
                forall|k: int| probe <= k < n ==> data@[k] == rest[k - beg],
                forall|k: int| beg <= k < n ==> !done.contains((#[trigger] data@[k]).addr),
            decreases n - probe,
        {
            let ghost seen = rest.take(probe - beg);
            let ghost was = data@;
            proof {
                assert(rest.take(probe - beg + 1).drop_last() =~= seen);
                assert(rest.take(probe - beg + 1).last() == rest[probe - beg]);
            }
            if data[probe].addr == data[beg].addr {
                move_down(data, end, probe);
                proof {
                    assert(data@.subrange(beg as int, end + 1) =~= was.subrange(
                        beg as int,
                        end as int,
                    ).push(rest[probe - beg]));
                    assert(data@.subrange(end + 1, probe + 1) =~= was.subrange(
                        end as int,
                        probe as int,
                    ));
                    assert forall|k: int| beg <= k < n implies !done.contains(
                        (#[trigger] data@[k]).addr,
                    ) by {
                        if k == end {
                            assert(data@[k] == was[probe as int]);
                        } else if end < k <= probe {
                            assert(data@[k] == was[k - 1]);
                        } else {
                            assert(data@[k] == was[k]);
                        }
                    }
                }
                end += 1;
            } else {
                proof {
                    assert(data@.subrange(end as int, probe + 1) =~= was.subrange(
                        end as int,
                        probe as int,
                    ).push(rest[probe - beg]));
                }
            }
            probe += 1;
        }
        let ghost groups_before = groups@;
        groups.push(beg as u16..end as u16);
        proof {
            let gs = groups@;
            let last = groups_before.len() as int;
            let others = not_from(rest, source);
            assert(rest.take(n - beg) =~= rest);
            lemma_split_addrs(rest, source);
            assert forall|g: int| 0 <= g < last implies #[trigger] gs[g] == groups_before[g] by {}
            assert(gs[last].start == beg && gs[last].end == end);
            // what is done, and what is still to do
            assert(data@.subrange(0, beg as int) =~= before.subrange(0, beg as int));
            assert(data@.subrange(0, end as int) =~= before.subrange(0, beg as int) + sent_from(
                rest,
                source,
            ));
            assert(data@.subrange(end as int, n as int) =~= others);
            assert(grouped(rest) == sent_from(rest, source) + grouped(others));
            assert(data@.subrange(0, end as int) + grouped(others) =~= before.subrange(
                0,
                beg as int,
            ) + grouped(rest));
            assert forall|a: SockAddr| !done.insert(source).contains(a) implies #[trigger] sent_from(
                others,
                a,
            ) == sent_from(orig, a) by {
                lemma_others_stay(rest, source, a);
                assert(!done.contains(a));
                assert(sent_from(rest, a) == sent_from(orig, a));
            }
            assert forall|k: int| end <= k < n implies !done.insert(source).contains(
                (#[trigger] data@[k]).addr,
            ) by {
                assert(data@[k] == others[k - end]);
            }
            assert forall|i: int| beg <= i < end implies (#[trigger] data@[i]).addr == source by {
                assert(data@[i] == sent_from(rest, source)[i - beg]);
            }
            assert(!done.contains(source)) by {
                assert(before[beg as int].addr == source);
            }
            assert(sent_from(rest, source) == sent_from(orig, source));
            assert forall|g: int| 0 <= g < gs.len() implies data@.subrange(
                (#[trigger] gs[g]).start as int,
                gs[g].end as int,
            ) == sent_from(orig, data@[gs[g].start as int].addr) by {
                if g < last {
                    assert(data@.subrange(gs[g].start as int, gs[g].end as int)
                        =~= before.subrange(gs[g].start as int, gs[g].end as int));
                } else {
                    assert(data@.subrange(beg as int, end as int) == sent_from(rest, source));
                }
            }
            assert forall|g: int, i: int|
                0 <= g < gs.len() && gs[g].start <= i < gs[g].end implies (
            #[trigger] data@[i]).addr == data@[(#[trigger] gs[g]).start as int].addr by {
                if g < last {
                    assert(gs[g] == groups_before[g]);
                    assert(data@[i] == before[i]);
                }
            }
            assert forall|g: int, h: int| 0 <= g < h < gs.len() implies data@[(
            #[trigger] gs[g]).start as int].addr != data@[(#[trigger] gs[h]).start as int].addr by {
                if h < last {
                    assert(gs[g] == groups_before[g] && gs[h] == groups_before[h]);
                } else {
                    assert(done.contains(before[groups_before[g].start as int].addr));
                }
            }
            assert forall|g: int|
                0 <= g < gs.len() - 1 implies (#[trigger] gs[g]).end == gs[g + 1].start by {
                if g + 1 < last {
                    assert(gs[g + 1] == groups_before[g + 1]);
                }
            }
            done = done.insert(source);
        }
        beg = end;
    }
    proof {
        assert(data@.subrange(beg as int, n as int) =~= Seq::<Packet>::empty());
        assert(data@.subrange(0, n as int) + Seq::<Packet>::empty() =~= data@.take(n as int));
        let pkts = data@.take(n as int);
        let gs = groups@;
        assert forall|g: int, i: int|
            0 <= g < gs.len() && gs[g].start <= i < gs[g].end && i < pkts.len() implies (
        #[trigger] pkts[i]).addr == pkts[(#[trigger] gs[g]).start as int].addr by {
            assert(pkts[i] == data@[i]);
        }
    }
}

/// A batch of datagrams in reusable slots, with its grouping by source
/// address.
#[derive(Debug)]
pub struct Registry {
    pkts: Vec<Packet>,
    groups: Vec<Range<u16>>,
    cursor: u16,
}

impl Registry {
    /// Every slot, used or not.
    pub closed spec fn slots(&self) -> Seq<Packet> {
        self.pkts@
    }

    /// The number of datagrams in the batch.
    pub closed spec fn len(&self) -> nat {
        self.cursor as nat
    }

    /// The groups of the batch, as ranges of slots.
    pub closed spec fn groups(&self) -> Seq<Range<u16>> {
        self.groups@
    }

    /// The datagrams of the batch: the slots in use.
    pub open spec fn packets(&self) -> Seq<Packet> {
        self.slots().take(self.len() as int)
    }

    /// The batch fits in the slots, and every group lies in the batch.
    pub open spec fn wf(&self) -> bool {
        &&& self.len() <= self.slots().len() <= MAX_PACKETS
        &&& forall|g: int|
            0 <= g < self.groups().len() ==> (#[trigger] self.groups()[g]).start
                <= self.groups()[g].end <= self.len()
    }

    /// A registry with `npkts` slots and no datagram.
    pub fn new(npkts: usize) -> (r: Self)
        requires
            npkts <= MAX_PACKETS,
        ensures
            r.wf(),
            r.slots().len() == npkts,
            r.len() == 0,
            r.groups().len() == 0,
    {
        let mut pkts: Vec<Packet> = Vec::new();
        let mut i: usize = 0;
        while i < npkts
            invariant
                i <= npkts,
                pkts@.len() == i,
            decreases npkts - i,
        {
            pkts.push(Packet::new());
            i += 1;
        }
        Registry { pkts, groups: Vec::new(), cursor: 0 }
    }

    /// Takes a received batch into the slots. The grouping of the batch
    /// before it is gone.
    pub fn receive(&mut self, batch: Vec<Packet>)
        requires
            old(self).wf(),
            batch@.len() <= old(self).slots().len(),
        ensures
            final(self).wf(),
            final(self).packets() == batch@,
            final(self).slots().len() == old(self).slots().len(),
            final(self).groups().len() == 0,
    {
        let n: usize = batch.len();
        let slots: usize = self.pkts.len();
        let mut pkts = batch;
        while pkts.len() < slots
            invariant
                n <= pkts@.len() <= slots,
                pkts@.take(n as int) == batch@,
            decreases slots - pkts@.len(),
        {
            let ghost before = pkts@;
            pkts.push(Packet::new());
            proof {
                assert(pkts@.take(n as int) =~= before.take(n as int));
            }
        }
        self.pkts = pkts;
        self.groups = Vec::new();
        self.cursor = n as u16;
    }

    /// Groups the batch by source address, keeping the order in which the
    /// datagrams came: the sources stand in the order in which each first
    /// sent, the datagrams of a source side by side in the order in which
    /// they came, and there is one group for each source.
    pub fn group_by_addr(&mut self)
        requires
            old(self).wf(),
        ensures
            final(self).wf(),
            final(self).len() == old(self).len(),
            final(self).slots().len() == old(self).slots().len(),
            final(self).packets() == grouped(old(self).packets()),
            final(self).packets().to_multiset() == old(self).packets().to_multiset(),
            forall|k: int|
                old(self).len() <= k < old(self).slots().len() ==> final(self).slots()[k] == old(
                    self,
                ).slots()[k],
            final(self).len() > 0 ==> final(self).packets()[0] == old(self).packets()[0],
            is_grouping(final(self).packets(), final(self).groups()),
            forall|g: int|
                0 <= g < final(self).groups().len() ==> final(self).packets().subrange(
                    (#[trigger] final(self).groups()[g]).start as int,
                    final(self).groups()[g].end as int,
                ) == sent_from(
                    old(self).packets(),
                    final(self).packets()[final(self).groups()[g].start as int].addr,
                ),
    {
        let n: usize = self.cursor as usize;
        self.groups = Vec::new();
        group_by_inner(&mut self.pkts, n, &mut self.groups);
        proof {
            let gs = self.groups@;
            lemma_grouped_rearranges(old(self).packets());
            assert forall|g: int| 0 <= g < gs.len() implies (#[trigger] gs[g]).start <= gs[g].end
                <= n by {
                lemma_groups_in_bounds(self.pkts@.take(n as int), gs, g);
            }
            assert forall|g: int| 0 <= g < gs.len() implies self.packets().subrange(
                (#[trigger] gs[g]).start as int,
                gs[g].end as int,
            ) == sent_from(old(self).packets(), self.packets()[gs[g].start as int].addr) by {
                lemma_groups_in_bounds(self.pkts@.take(n as int), gs, g);
                assert(self.packets().subrange(gs[g].start as int, gs[g].end as int)
                    =~= self.pkts@.subrange(gs[g].start as int, gs[g].end as int));
            }
        }
    }

    /// The groups of the batch, one after the other.
    pub fn group_iter(&self) -> (r: GroupIter<'_>)
        requires
            self.wf(),
        ensures
            r.wf(),
            r.slots() == self.slots(),
            r.ranges() == self.groups(),
            r.at() == 0,
    {
        let r = GroupIter { pkts: &self.pkts, ranges: &self.groups, pos: 0 };
        proof {
            assert forall|g: int| 0 <= g < r.ranges().len() implies (#[trigger] r.ranges()[g]).start
                <= r.ranges()[g].end <= r.slots().len() by {
                assert(self.groups()[g].end <= self.len());
            }
        }
        r
    }

    /// The datagrams of the batch.
    pub fn iter(&self) -> (r: &[Packet])
        requires
            self.wf(),
        ensures
            r@ == self.packets(),
    {
        vstd::slice::slice_subrange(self.pkts.as_slice(), 0, self.cursor as usize)
    }

    /// The number of datagrams in the batch.
    pub fn count(&self) -> (r: usize)
        ensures
            r == self.len(),
    {
        self.cursor as usize
    }
}

/// Every group of a grouping lies in the batch.
pub proof fn lemma_groups_in_bounds(pkts: Seq<Packet>, gs: Seq<Range<u16>>, g: int)
    requires
        is_grouping(pkts, gs),
        0 <= g < gs.len(),
    ensures
        gs[g].start < gs[g].end <= pkts.len(),
    decreases gs.len() - g,
{
    if g < gs.len() - 1 {
        lemma_groups_in_bounds(pkts, gs, g + 1);
        assert(gs[g].end == gs[g + 1].start);
    }
}

/// Hands out the groups of a batch, one after the other.
#[derive(Debug)]
pub struct GroupIter<'a> {
    pkts: &'a Vec<Packet>,
    ranges: &'a Vec<Range<u16>>,
    pos: usize,
}

impl<'a> GroupIter<'a> {
    /// The slots that the groups lie in.
    pub closed spec fn slots(&self) -> Seq<Packet> {
        self.pkts@
    }

    /// The groups, as ranges of slots.
    pub closed spec fn ranges(&self) -> Seq<Range<u16>> {
        self.ranges@
    }

    /// The number of groups handed out.
    pub closed spec fn at(&self) -> nat {
        self.pos as nat
    }

    /// Every group lies in the slots.
    pub open spec fn wf(&self) -> bool {
        &&& self.at() <= self.ranges().len()
        &&& forall|g: int|
            0 <= g < self.ranges().len() ==> (#[trigger] self.ranges()[g]).start
                <= self.ranges()[g].end <= self.slots().len()
    }

    /// The datagrams of the next group, if there is one.
    pub fn next(&mut self) -> (r: Option<&'a [Packet]>)
        requires
            old(self).wf(),
        ensures
            final(self).wf(),
            final(self).slots() == old(self).slots(),
            final(self).ranges() == old(self).ranges(),
            match r {
                Some(group) => {
                    &&& old(self).at() < old(self).ranges().len()
                    &&& final(self).at() == old(self).at() + 1
                    &&& group@ == old(self).slots().subrange(
                        old(self).ranges()[old(self).at() as int].start as int,
                        old(self).ranges()[old(self).at() as int].end as int,
                    )
                },
                None => old(self).at() == old(self).ranges().len() && final(self).at() == old(
                    self,
                ).at(),
            },
    {
        if self.pos < self.ranges.len() {
            let start: usize = self.ranges[self.pos].start as usize;
            let end: usize = self.ranges[self.pos].end as usize;
            self.pos += 1;
            Some(vstd::slice::slice_subrange(self.pkts.as_slice(), start, end))
        } else {
            None
        }
    }
}

/// Whether an entry of the socket map belongs to the source `addr`.
pub open spec fn of_source<S>(addr: SockAddr) -> spec_fn((SockAddr, S)) -> bool {
    |e: (SockAddr, S)| e.0 == addr
}

/// No two entries belong to one source.
pub open spec fn one_per_source<S>(entries: Seq<(SockAddr, S)>) -> bool {
    forall|i: int, j: int|
        0 <= i < j < entries.len() ==> (#[trigger] entries[i]).0 != (#[trigger] entries[j]).0
}

/// The upstream socket of each source that has sent of late: one socket for
/// a source, made when its first datagram comes, and taken out when its
/// return path ends.
#[derive(Debug)]
pub struct SockMap<S> {
    entries: Vec<(SockAddr, S)>,
}

impl<S> View for SockMap<S> {
    type V = Seq<(SockAddr, S)>;

    closed spec fn view(&self) -> Seq<(SockAddr, S)> {
        self.entries@
    }
}

impl<S> SockMap<S> {
    /// No source has two sockets.
    pub open spec fn wf(&self) -> bool {
        one_per_source(self@)
    }

    /// A map without sockets.
    pub fn new() -> (r: Self)
        ensures
            r@.len() == 0,
            r.wf(),
    {
        SockMap { entries: Vec::new() }
    }

    /// The number of sources with a socket.
    pub fn len(&self) -> (r: usize)
        ensures
            r == self@.len(),
    {
        self.entries.len()
    }

    fn position(&self, addr: &SockAddr) -> (r: Option<usize>)
        ensures
            match r {
                Some(i) => first_where(self@, of_source(*addr)) == Some(i as int) && i
                    < self@.len() && self@[i as int].0 == *addr,
                None => first_where(self@, of_source(*addr)) is None,
            },
    {
        proof {
            lemma_first_where(self@, of_source::<S>(*addr));
        }
        let mut i: usize = 0;
        while i < self.entries.len()
            invariant
                i <= self@.len(),
                forall|j: int| 0 <= j < i ==> !of_source::<S>(*addr)(#[trigger] self@[j]),
            decreases self@.len() - i,
        {
            if self.entries[i].0 == *addr {
                proof {
                    assert(of_source::<S>(*addr)(self@[i as int]));
                    lemma_first_where_is(self@, of_source::<S>(*addr), i as int);
                }
                return Some(i);
            }
            proof {
                assert(!of_source::<S>(*addr)(self@[i as int]));
            }
            i += 1;
        }
        None
    }

    /// The socket of the source `addr`, if it has one.
    pub fn find(&self, addr: &SockAddr) -> (r: Option<&S>)
        ensures
            match first_where(self@, of_source(*addr)) {
                Some(i) => r == Some(&self@[i].1),
                None => r is None,
            },
    {
        match self.position(addr) {
            Some(i) => Some(&self.entries[i].1),
            None => None,
        }
    }

    /// Gives the source `addr` the socket `sock`, unless it has one: then
    /// nothing changes. The result says whether the socket went in, and so
    /// whether this is the moment to start the source's return path.
    pub fn insert(&mut self, addr: SockAddr, sock: S) -> (inserted: bool)
        requires
            old(self).wf(),
        ensures
            final(self).wf(),
            inserted == (first_where(old(self)@, of_source(addr)) is None),
            final(self)@ == if inserted {
                old(self)@.push((addr, sock))
            } else {
                old(self)@
            },
            first_where(final(self)@, of_source(addr)) is Some,
    {
        proof {
            lemma_first_where(self@, of_source::<S>(addr));
        }
        match self.position(&addr) {
            Some(_) => false,
            None => {
                self.entries.push((addr, sock));
                proof {
                    let i = old(self)@.len() as int;
                    assert(of_source::<S>(addr)(self@[i]));
                    assert forall|j: int| 0 <= j < i implies !of_source::<S>(addr)(
                        #[trigger] self@[j],
                    ) by {
                        assert(self@[j] == old(self)@[j]);
                        assert(!of_source::<S>(addr)(old(self)@[j]));
                    }
                    lemma_first_where_is(self@, of_source::<S>(addr), i);
                    assert forall|a: int, b: int| 0 <= a < b < self@.len() implies (
                    #[trigger] self@[a]).0 != (#[trigger] self@[b]).0 by {
                        if b < i {
                            assert(self@[a] == old(self)@[a]);
                            assert(self@[b] == old(self)@[b]);
                        } else {
                            assert(self@[a] == old(self)@[a]);
                            assert(!of_source::<S>(addr)(old(self)@[a]));
                        }
                    }
                }
                true
            },
        }
    }

    /// Takes the socket of the source `addr` out, if it has one.
    pub fn remove(&mut self, addr: &SockAddr) -> (r: Option<S>)
        requires
            old(self).wf(),
        ensures
            final(self).wf(),
            match first_where(old(self)@, of_source(*addr)) {
                Some(i) => r == Some(old(self)@[i].1) && final(self)@ == old(self)@.remove(i),
                None => r is None && final(self)@ == old(self)@,
            },
            first_where(final(self)@, of_source(*addr)) is None,
    {
        match self.position(addr) {
            Some(i) => {
                let (_, sock) = self.entries.remove(i);
                proof {
                    let after = self@;
                    assert forall|j: int| 0 <= j < after.len() implies !of_source::<S>(*addr)(
                        #[trigger] after[j],
                    ) by {
                        if j < i {
                            assert(after[j] == old(self)@[j]);
                        } else {
                            assert(after[j] == old(self)@[j + 1]);
                        }
                    }
                    lemma_first_where(after, of_source::<S>(*addr));
                    assert forall|a: int, b: int| 0 <= a < b < after.len() implies (
                    #[trigger] after[a]).0 != (#[trigger] after[b]).0 by {
                        let aa = if a < i {
                            a
                        } else {
                            a + 1
                        };
                        let bb = if b < i {
                            b
                        } else {
                            b + 1
                        };
                        assert(after[a] == old(self)@[aa]);
                        assert(after[b] == old(self)@[bb]);
                    }
                }
                Some(sock)
            },
            None => None,
        }
    }
}

} // verus!
