//! Socket addresses as plain values.

use crate::text::decimal;
use crate::text::hexadecimal;
use crate::text::push_decimal;
use crate::text::push_hexadecimal;
use vstd::prelude::*;

verus! {

/// An IP address, by its bits in network order.
#[derive(Debug, Clone, Copy, PartialEq, Eq, Structural)]
pub enum IpAddress {
    V4(u32),
    V6(u128),
}

/// An IP address and a port.
#[derive(Debug, Clone, Copy, PartialEq, Eq, Structural)]
pub struct SockAddr {
    pub ip: IpAddress,
    pub port: u16,
}

/// Byte `i` of `bits`, counted from the most significant of `width` bytes.
pub open spec fn octet(bits: u128, width: nat, i: nat) -> u8 {
    ((bits >> (8 * (width - 1 - i)) as u128) & 0xff) as u8
}

/// The sixteen bits of group `i` of an IPv6 address, counted from the left.
pub open spec fn group(bits: u128, i: nat) -> u16 {
    ((bits >> (16 * (7 - i)) as u128) & 0xffff) as u16
}

impl IpAddress {
    /// The bytes of the address in network order: four or sixteen.
    pub open spec fn octets(self) -> Seq<u8> {
        match self {
            IpAddress::V4(bits) => Seq::new(4, |i: int| octet(bits as u128, 4, i as nat)),
            IpAddress::V6(bits) => Seq::new(16, |i: int| octet(bits, 16, i as nat)),
        }
    }

    /// The address in text. IPv4 is in dotted decimal. IPv6 is in groups of
    /// lower-case hexadecimal without leading zeros, with `::` in place of
    /// the longest run of two or more zero groups (the first of the longest);
    /// an IPv4-mapped address is `::ffff:` and the IPv4 address.
    pub open spec fn text(self) -> Seq<char> {
        match self {
            IpAddress::V4(bits) => dotted(bits),
            IpAddress::V6(bits) => if bits >> 32u128 == 0xffff {
                seq![':', ':', 'f', 'f', 'f', 'f', ':'] + dotted((bits & 0xffff_ffff) as u32)
            } else {
                let gs = groups(bits);
                let run = longest_zero_run(gs, 8);
                if run.1 > 1 {
                    joined(gs.take(run.0)) + seq![':', ':'] + joined(gs.skip(run.0 + run.1))
                } else {
                    joined(gs)
                }
            },
        }
    }

    /// The bytes of the address in network order.
    pub fn to_octets(&self) -> (r: Vec<u8>)
        ensures
            r@ == self.octets(),
    {
        let (bits, width): (u128, usize) = match self {
            IpAddress::V4(b) => (*b as u128, 4),
            IpAddress::V6(b) => (*b, 16),
        };
        let mut out: Vec<u8> = Vec::new();
        let mut i: usize = 0;
        while i < width
            invariant
                i <= width,
                width == 4 || width == 16,
                out@.len() == i,
                forall|j: int| 0 <= j < i ==> out@[j] == octet(bits, width as nat, j as nat),
            decreases width - i,
        {
            let shift: u128 = (8 * (width - 1 - i)) as u128;
            out.push(((bits >> shift) & 0xff) as u8);
            i += 1;
        }
        proof {
            assert(out@ =~= self.octets());
        }
        out
    }

    /// Appends the address in text to `out`.
    pub fn push_text(&self, out: &mut String)
        ensures
            final(out)@ == old(out)@ + self.text(),
    {
        match self {
            IpAddress::V4(b) => push_dotted(out, *b),
            IpAddress::V6(b) => {
                let bits: u128 = *b;
                if bits >> 32u128 == 0xffff {
                    proof {
                        reveal_strlit("::ffff:");
                        assert("::ffff:"@ =~= seq![':', ':', 'f', 'f', 'f', 'f', ':']);
                    }
                    out.append("::ffff:");
                    push_dotted(out, (bits & 0xffff_ffff) as u32);
                    proof {
                        assert(out@ =~= old(out)@ + self.text());
                    }
                    return ;
                }
                let gs = group_list(bits);
                let (start, len) = find_zero_run(&gs);
                if len > 1 {
                    proof {
                        reveal_strlit("::");
                        assert("::"@ =~= seq![':', ':']);
                    }
                    push_joined(out, &gs, 0, start);
                    out.append("::");
                    push_joined(out, &gs, start + len, 8);
                    proof {
                        assert(gs@.subrange(0, start as int) =~= gs@.take(start as int));
                        assert(gs@.subrange(start + len, 8) =~= gs@.skip(start + len));
                        assert(out@ =~= old(out)@ + self.text());
                    }
                } else {
                    push_joined(out, &gs, 0, 8);
                    proof {
                        assert(gs@.subrange(0, 8) =~= gs@);
                    }
                }
            },
        }
    }
}

/// An IPv4 address in dotted decimal.
pub open spec fn dotted(bits: u32) -> Seq<char> {
    decimal(octet(bits as u128, 4, 0) as nat) + seq!['.'] + decimal(
        octet(bits as u128, 4, 1) as nat,
    ) + seq!['.'] + decimal(octet(bits as u128, 4, 2) as nat) + seq!['.'] + decimal(
        octet(bits as u128, 4, 3) as nat,
    )
}

fn push_dotted(out: &mut String, b: u32)
    ensures
        final(out)@ == old(out)@ + dotted(b),
{
    let bits: u128 = b as u128;
    proof {
        reveal_strlit(".");
    }
    push_decimal(out, ((bits >> 24u128) & 0xff) as u64);
    out.append(".");
    push_decimal(out, ((bits >> 16u128) & 0xff) as u64);
    out.append(".");
    push_decimal(out, ((bits >> 8u128) & 0xff) as u64);
    out.append(".");
    push_decimal(out, ((bits >> 0u128) & 0xff) as u64);
    proof {
        assert(octet(bits, 4, 0) == ((bits >> 24u128) & 0xff) as u8);
        assert(octet(bits, 4, 1) == ((bits >> 16u128) & 0xff) as u8);
        assert(octet(bits, 4, 2) == ((bits >> 8u128) & 0xff) as u8);
        assert(octet(bits, 4, 3) == ((bits >> 0u128) & 0xff) as u8);
        assert(forall|x: u128| #[trigger] (x & 0xff) < 256) by (bit_vector);
        assert(out@ =~= old(out)@ + dotted(b));
    }
}

/// The eight groups of an IPv6 address, from the left.
pub open spec fn groups(bits: u128) -> Seq<u16> {
    Seq::new(8, |i: int| group(bits, i as nat))
}

/// The number of zero groups in a row from `i` on.
pub open spec fn zeros_from(gs: Seq<u16>, i: int) -> nat
    decreases gs.len() - i,
{
    if 0 <= i < gs.len() && gs[i] == 0 {
        1 + zeros_from(gs, i + 1)
    } else {
        0
    }
}

/// Where the longest run of zero groups starts among the first `n` groups,
/// and how long it is: the first of the longest.
pub open spec fn longest_zero_run(gs: Seq<u16>, n: int) -> (int, int)
    decreases n,
{
    if n <= 0 {
        (0, 0)
    } else {
        let before = longest_zero_run(gs, n - 1);
        if zeros_from(gs, n - 1) > before.1 {
            (n - 1, zeros_from(gs, n - 1) as int)
        } else {
            before
        }
    }
}

/// Groups in text, with colons between them.
pub open spec fn joined(gs: Seq<u16>) -> Seq<char>
    decreases gs.len(),
{
    if gs.len() == 0 {
        Seq::empty()
    } else if gs.len() == 1 {
        hexadecimal(gs[0] as nat)
    } else {
        joined(gs.drop_last()) + seq![':'] + hexadecimal(gs.last() as nat)
    }
}

fn group_list(bits: u128) -> (gs: Vec<u16>)
    ensures
        gs@ == groups(bits),
{
    let mut gs: Vec<u16> = Vec::new();
    let mut i: usize = 0;
    while i < 8
        invariant
            i <= 8,
            gs@.len() == i,
            forall|j: int| 0 <= j < i ==> gs@[j] == group(bits, j as nat),
        decreases 8 - i,
    {
        let shift: u128 = (16 * (7 - i)) as u128;
        gs.push(((bits >> shift) & 0xffff) as u16);
        i += 1;
    }
    proof {
        assert(gs@ =~= groups(bits));
    }
    gs
}

/// The number of zero groups in a row from `i` on.
fn count_zeros(gs: &Vec<u16>, i: usize) -> (r: usize)
    requires
        i <= gs@.len(),
    ensures
        r == zeros_from(gs@, i as int),
        i + r <= gs@.len(),
    decreases gs@.len() - i,
{
    if i < gs.len() && gs[i] == 0 {
        1 + count_zeros(gs, i + 1)
    } else {
        0
    }
}

fn find_zero_run(gs: &Vec<u16>) -> (r: (usize, usize))
    requires
        gs@.len() == 8,
    ensures
        (r.0 as int, r.1 as int) == longest_zero_run(gs@, 8),
        r.0 + r.1 <= 8,
{
    let mut best: (usize, usize) = (0, 0);
    let mut i: usize = 0;
    while i < 8
        invariant
            i <= 8,
            gs@.len() == 8,
            (best.0 as int, best.1 as int) == longest_zero_run(gs@, i as int),
            best.0 + best.1 <= 8,
        decreases 8 - i,
    {
        let run: usize = count_zeros(gs, i);
        if run > best.1 {
            best = (i, run);
        }
        i += 1;
    }
    best
}

/// Appends the groups `gs[from..to]` in text to `out`.
fn push_joined(out: &mut String, gs: &Vec<u16>, from: usize, to: usize)
    requires
        from <= to <= gs@.len(),
    ensures
        final(out)@ == old(out)@ + joined(gs@.subrange(from as int, to as int)),
{
    let mut i: usize = from;
    proof {
        reveal_strlit(":");
        assert(gs@.subrange(from as int, from as int) =~= Seq::<u16>::empty());
        assert(out@ =~= old(out)@ + joined(gs@.subrange(from as int, i as int)));
    }
    while i < to
        invariant
            from <= i <= to <= gs@.len(),
            ":"@ == seq![':'],
            out@ == old(out)@ + joined(gs@.subrange(from as int, i as int)),
        decreases to - i,
    {
        let ghost before = gs@.subrange(from as int, i as int);
        let ghost next = gs@.subrange(from as int, i + 1);
        if i > from {
            out.append(":");
        }
        push_hexadecimal(out, gs[i] as u64);
        proof {
            assert(next.drop_last() =~= before);
            assert(next.last() == gs@[i as int]);
            if i > from {
                assert(out@ =~= old(out)@ + (joined(before) + seq![':'] + hexadecimal(
                    gs@[i as int] as nat,
                )));
            } else {
                assert(next[0] == gs@[i as int]);
                assert(out@ =~= old(out)@ + hexadecimal(gs@[i as int] as nat));
            }
        }
        i += 1;
    }
}

impl SockAddr {
    /// The address in text: `ip:port`, with an IPv6 address in brackets.
    pub open spec fn text(self) -> Seq<char> {
        match self.ip {
            IpAddress::V4(_) => self.ip.text() + seq![':'] + decimal(self.port as nat),
            IpAddress::V6(_) => seq!['['] + self.ip.text() + seq![']', ':'] + decimal(
                self.port as nat,
            ),
        }
    }

    /// The address in text.
    pub fn to_text(&self) -> (r: String)
        ensures
            r@ == self.text(),
    {
        let mut out = String::new();
        proof {
            reveal_strlit("[");
            reveal_strlit("]:");
            reveal_strlit(":");
        }
        match self.ip {
            IpAddress::V4(_) => {
                self.ip.push_text(&mut out);
                out.append(":");
            },
            IpAddress::V6(_) => {
                out.append("[");
                self.ip.push_text(&mut out);
                out.append("]:");
            },
        }
        push_decimal(&mut out, self.port as u64);
        proof {
            assert(out@ =~= self.text());
        }
        out
    }
}

} // verus!
