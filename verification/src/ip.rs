//! Addresses and networks: the values, the text that denotes them, and the
//! text they are written as.

use crate::number::{
    decimal_text, hex_group_of, hex_text, parse_hex_group, parse_shortest_decimal, push_decimal,
    push_hex, shortest_decimal_of,
};
use crate::seqs::{first_index, join, lemma_join_push, slice_views, split_on};
use crate::text::{alphanumeric, chars_of, find_char, push_chars, split_chars};
use vstd::prelude::*;
use vstd::slice::slice_subrange;
use vstd::std_specs::convert::FromSpecImpl;
use vstd::string::*;

verus! {

/// An IPv4 address: four octets, the first one leading.
#[derive(Debug, Clone, Copy, PartialEq, Eq, PartialOrd, Ord, Hash)]
pub struct Ipv4Addr {
    pub octets: [u8; 4],
}

/// An IPv6 address: eight groups of sixteen bits, the first one leading.
#[derive(Debug, Clone, Copy, PartialEq, Eq, PartialOrd, Ord, Hash)]
pub struct Ipv6Addr {
    pub segments: [u16; 8],
}

/// An address of either family.
#[derive(Debug, Clone, Copy, PartialEq, Eq, PartialOrd, Ord, Hash)]
pub enum IpAddr {
    V4(Ipv4Addr),
    V6(Ipv6Addr),
}

/// A network, that is an IP address and a mask
#[derive(Debug, Clone, Copy, PartialEq, Eq, PartialOrd, Ord, Hash)]
pub enum Network {
    /// Represent an IPv4 network address
    V4(Ipv4Addr, Ipv4Addr),
    /// Represent an IPv6 network address
    V6(Ipv6Addr, Ipv6Addr),
}

/// Represent an IP address. This type is similar to `IpAddr` but it supports IPv6 scope
/// identifiers.
#[derive(Debug, PartialEq, Eq, PartialOrd, Ord, Hash)]
pub enum ScopedIp {
    /// Represent an IPv4 address
    V4(Ipv4Addr),
    /// Represent an IPv6 and its scope identifier, if any
    V6(Ipv6Addr, Option<String>),
}

/// What a `ScopedIp` stands for: the scope as a sequence of characters.
pub enum ScopedIpView {
    V4(Ipv4Addr),
    V6(Ipv6Addr, Option<Seq<char>>),
}

/// An error which can be returned when parsing an IP address.
#[derive(Debug, Clone, Copy, PartialEq, Eq)]
pub struct AddrParseError;

impl View for ScopedIp {
    type V = ScopedIpView;

    open spec fn view(&self) -> ScopedIpView {
        match self {
            ScopedIp::V4(a) => ScopedIpView::V4(*a),
            ScopedIp::V6(a, None) => ScopedIpView::V6(*a, None),
            ScopedIp::V6(a, Some(scope)) => ScopedIpView::V6(*a, Some(scope@)),
        }
    }
}

// ---------------------------------------------------------------------------
// What a text denotes
// ---------------------------------------------------------------------------
/// One octet of a dotted quad: the shortest numeral of a number below 256.
pub open spec fn octet_of(s: Seq<char>) -> Option<u8> {
    match shortest_decimal_of(s, 255) {
        Some(v) => Some(v as u8),
        None => None,
    }
}

/// The IPv4 address that a dotted quad denotes: exactly four octets between dots.
pub open spec fn ipv4_of(s: Seq<char>) -> Option<Ipv4Addr> {
    let p = split_on(s, '.');
    if p.len() == 4 && octet_of(p[0]) is Some && octet_of(p[1]) is Some && octet_of(p[2]) is Some
        && octet_of(p[3]) is Some {
        Some(
            Ipv4Addr {
                octets: [
                    octet_of(p[0])->0,
                    octet_of(p[1])->0,
                    octet_of(p[2])->0,
                    octet_of(p[3])->0,
                ],
            },
        )
    } else {
        None
    }
}

/// The groups that a list of numerals denotes, when each of them is a group.
pub open spec fn groups_of(p: Seq<Seq<char>>) -> Option<Seq<u16>> {
    if forall|i: int| 0 <= i < p.len() ==> (#[trigger] hex_group_of(p[i])) is Some {
        Some(Seq::new(p.len(), |i: int| hex_group_of(p[i])->0))
    } else {
        None
    }
}

/// The two groups that hold an IPv4 address inside an IPv6 address.
pub open spec fn v4_groups(a: Ipv4Addr) -> Seq<u16> {
    seq![
        (a.octets[0] as int * 256 + a.octets[1] as int) as u16,
        (a.octets[2] as int * 256 + a.octets[3] as int) as u16,
    ]
}

/// The groups of a colon-separated list. Each piece is a hexadecimal group;
/// where `dotted_tail` allows it, the last piece may be a dotted quad, which
/// stands for two groups.
pub open spec fn segments_of(s: Seq<char>, dotted_tail: bool) -> Option<Seq<u16>> {
    let p = split_on(s, ':');
    match groups_of(p.drop_last()) {
        None => None,
        Some(g) => match hex_group_of(p.last()) {
            Some(x) => Some(g.push(x)),
            None => match ipv4_of(p.last()) {
                Some(a) => if dotted_tail {
                    Some(g + v4_groups(a))
                } else {
                    None
                },
                None => None,
            },
        },
    }
}

/// Index of the first `::`; the length when there is none.
pub open spec fn double_colon(s: Seq<char>) -> int
    decreases s.len(),
{
    if s.len() < 2 {
        s.len() as int
    } else if s[0] == ':' && s[1] == ':' {
        0
    } else {
        1 + double_colon(s.skip(1))
    }
}

pub open spec fn zero_groups(n: int) -> Seq<u16> {
    Seq::new(n as nat, |i: int| 0u16)
}

/// The address with the given eight groups.
pub open spec fn ipv6_from(g: Seq<u16>) -> Ipv6Addr {
    Ipv6Addr { segments: [g[0], g[1], g[2], g[3], g[4], g[5], g[6], g[7]] }
}

/// The IPv6 address that a text denotes. Without `::` the text is a list of
/// eight groups. With `::` it is two lists, either of which may be empty,
/// of seven groups at most together; the groups between them are zero. Only
/// the very end of the text may be a dotted quad.
pub open spec fn ipv6_of(s: Seq<char>) -> Option<Ipv6Addr> {
    let p = double_colon(s);
    if p >= s.len() {
        match segments_of(s, true) {
            Some(g) => if g.len() == 8 {
                Some(ipv6_from(g))
            } else {
                None
            },
            None => None,
        }
    } else {
        let head = if p == 0 {
            Some(Seq::<u16>::empty())
        } else {
            segments_of(s.take(p), false)
        };
        let tail = if p + 2 == s.len() {
            Some(Seq::<u16>::empty())
        } else {
            segments_of(s.skip(p + 2), true)
        };
        match (head, tail) {
            (Some(h), Some(t)) => if h.len() + t.len() <= 7 {
                Some(ipv6_from(h + zero_groups(8 - h.len() - t.len()) + t))
            } else {
                None
            },
            _ => None,
        }
    }
}

/// The address that a text denotes: a dotted quad or an IPv6 text.
pub open spec fn ip_of(s: Seq<char>) -> Option<IpAddr> {
    match ipv4_of(s) {
        Some(a) => Some(IpAddr::V4(a)),
        None => match ipv6_of(s) {
            Some(a) => Some(IpAddr::V6(a)),
            None => None,
        },
    }
}

/// A scope identifier: not empty, and alphanumeric throughout.
pub open spec fn is_scope(s: Seq<char>) -> bool {
    s.len() > 0 && forall|i: int| 0 <= i < s.len() ==> alphanumeric(#[trigger] s[i])
}

/// The scoped address that a text denotes. The text is cut at its first `%`.
/// What stands before is an address; what stands behind, if there is a `%`,
/// is the scope. An IPv4 address takes no scope, not even an empty one.
#[verifier::opaque]
pub open spec fn scoped_ip_of(s: Seq<char>) -> Option<ScopedIpView> {
    let i = first_index(s, '%');
    match ip_of(s.take(i)) {
        None => None,
        Some(IpAddr::V4(a)) => if i < s.len() {
            None
        } else {
            Some(ScopedIpView::V4(a))
        },
        Some(IpAddr::V6(a)) => if i < s.len() {
            if is_scope(s.skip(i + 1)) {
                Some(ScopedIpView::V6(a, Some(s.skip(i + 1))))
            } else {
                None
            }
        } else {
            Some(ScopedIpView::V6(a, None))
        },
    }
}

pub open spec fn is_unspecified_v4(a: Ipv4Addr) -> bool {
    a.octets[0] == 0 && a.octets[1] == 0 && a.octets[2] == 0 && a.octets[3] == 0
}

pub open spec fn octet_sum(a: Ipv4Addr) -> int {
    a.octets[0] + a.octets[1] + a.octets[2] + a.octets[3]
}

pub open spec fn v4(a: u8, b: u8, c: u8, d: u8) -> Ipv4Addr {
    Ipv4Addr { octets: [a, b, c, d] }
}

/// The mask of an IPv4 network written without one: one octet of ones for
/// each octet of the address up to the last that is not zero, and at least one.
pub open spec fn inferred_mask(a: Ipv4Addr) -> Ipv4Addr {
    if a.octets[3] != 0 {
        v4(255, 255, 255, 255)
    } else if a.octets[2] != 0 {
        v4(255, 255, 255, 0)
    } else if a.octets[1] != 0 {
        v4(255, 255, 0, 0)
    } else {
        v4(255, 0, 0, 0)
    }
}

/// The mask of an IPv6 network written without one: all ones.
pub open spec fn full_mask_v6() -> Ipv6Addr {
    Ipv6Addr {
        segments: [
            0xffffu16,
            0xffffu16,
            0xffffu16,
            0xffffu16,
            0xffffu16,
            0xffffu16,
            0xffffu16,
            0xffffu16,
        ],
    }
}

/// The IPv4 network that a text denotes. The text is cut at its first `/`.
/// The address must not be `0.0.0.0`. A mask that is written must be a dotted
/// quad whose octets do not add up to zero; one that is not written is inferred.
pub open spec fn v4_network_of(s: Seq<char>) -> Option<Network> {
    let i = first_index(s, '/');
    match ipv4_of(s.take(i)) {
        None => None,
        Some(a) => if is_unspecified_v4(a) {
            None
        } else if i < s.len() {
            match ipv4_of(s.skip(i + 1)) {
                Some(m) => if octet_sum(m) != 0 {
                    Some(Network::V4(a, m))
                } else {
                    None
                },
                None => None,
            }
        } else {
            Some(Network::V4(a, inferred_mask(a)))
        },
    }
}

/// The IPv6 network that a text denotes. A mask that is written is taken as
/// it stands; one that is not written is all ones.
pub open spec fn v6_network_of(s: Seq<char>) -> Option<Network> {
    let i = first_index(s, '/');
    match ipv6_of(s.take(i)) {
        None => None,
        Some(a) => if i < s.len() {
            match ipv6_of(s.skip(i + 1)) {
                Some(m) => Some(Network::V6(a, m)),
                None => None,
            }
        } else {
            Some(Network::V6(a, full_mask_v6()))
        },
    }
}

/// The network that a text denotes: an IPv4 network, or else an IPv6 network.
#[verifier::opaque]
pub open spec fn network_of(s: Seq<char>) -> Option<Network> {
    match v4_network_of(s) {
        Some(n) => Some(n),
        None => v6_network_of(s),
    }
}

// ---------------------------------------------------------------------------
// How a value is written
// ---------------------------------------------------------------------------
/// The dotted quad of an IPv4 address.
pub open spec fn ipv4_text(a: Ipv4Addr) -> Seq<char> {
    decimal_text(a.octets[0] as nat) + seq!['.'] + decimal_text(a.octets[1] as nat) + seq!['.']
        + decimal_text(a.octets[2] as nat) + seq!['.'] + decimal_text(a.octets[3] as nat)
}

/// The numerals of a list of groups.
pub open spec fn group_texts(g: Seq<u16>) -> Seq<Seq<char>> {
    Seq::new(g.len(), |i: int| hex_text(g[i] as nat))
}

/// A list of groups written with colons between them.
pub open spec fn groups_text(g: Seq<u16>) -> Seq<char> {
    join(group_texts(g), ':')
}

/// How many groups from `i` on are zero without a break.
pub open spec fn zero_run(g: Seq<u16>, i: int) -> nat
    decreases g.len() - i,
{
    if 0 <= i < g.len() && g[i] == 0 {
        1 + zero_run(g, i + 1)
    } else {
        0
    }
}

/// Start and length of the longest run of zero groups that starts at `i` or
/// later; of several longest runs the first. The length is 0 when no group is zero.
pub open spec fn longest_zero_run(g: Seq<u16>, i: int) -> (int, nat)
    decreases g.len() - i,
{
    if 0 <= i < g.len() {
        let here = zero_run(g, i);
        let later = longest_zero_run(g, i + 1);
        if here > 0 && here >= later.1 {
            (i, here)
        } else {
            later
        }
    } else {
        (i, 0)
    }
}

/// An address that carries an IPv4 address behind the prefix `::ffff:`.
pub open spec fn is_v4_mapped(a: Ipv6Addr) -> bool {
    a.segments[0] == 0 && a.segments[1] == 0 && a.segments[2] == 0 && a.segments[3] == 0
        && a.segments[4] == 0 && a.segments[5] == 0xffff
}

/// The IPv4 address in the last two groups.
pub open spec fn embedded_v4(a: Ipv6Addr) -> Ipv4Addr {
    v4(
        (a.segments[6] / 256) as u8,
        (a.segments[6] % 256) as u8,
        (a.segments[7] / 256) as u8,
        (a.segments[7] % 256) as u8,
    )
}

/// The text of an IPv6 address. An address that carries an IPv4 address is
/// written as `::ffff:` and the dotted quad. Otherwise the groups are written
/// in lower-case hexadecimal, and the longest run of two or more zero groups
/// is replaced by `::`.
pub open spec fn ipv6_text(a: Ipv6Addr) -> Seq<char> {
    let g = a.segments@;
    if is_v4_mapped(a) {
        "::ffff:"@ + ipv4_text(embedded_v4(a))
    } else {
        let run = longest_zero_run(g, 0);
        if run.1 > 1 {
            groups_text(g.take(run.0)) + seq![':', ':'] + groups_text(g.skip(run.0 + run.1))
        } else {
            groups_text(g)
        }
    }
}

/// The text of a scoped address: the address, then `%` and the scope if there is one.
#[verifier::opaque]
pub open spec fn scoped_ip_text(ip: ScopedIpView) -> Seq<char> {
    match ip {
        ScopedIpView::V4(a) => ipv4_text(a),
        ScopedIpView::V6(a, None) => ipv6_text(a),
        ScopedIpView::V6(a, Some(scope)) => ipv6_text(a) + seq!['%'] + scope,
    }
}

/// The text of a network: address, `/`, mask.
#[verifier::opaque]
pub open spec fn network_text(n: Network) -> Seq<char> {
    match n {
        Network::V4(a, m) => ipv4_text(a) + seq!['/'] + ipv4_text(m),
        Network::V6(a, m) => ipv6_text(a) + seq!['/'] + ipv6_text(m),
    }
}

// ---------------------------------------------------------------------------
// Reading
// ---------------------------------------------------------------------------
pub proof fn lemma_split_nonempty<T>(s: Seq<T>, sep: T)
    ensures
        split_on(s, sep).len() >= 1,
    decreases s.len(),
{
    let i = first_index(s, sep);
    if 0 <= i < s.len() {
        lemma_split_nonempty(s.skip(i + 1), sep);
    }
}

pub proof fn lemma_double_colon_is(s: Seq<char>, i: int)
    requires
        0 <= i <= s.len(),
        forall|j: int|
            0 <= j < i && j + 1 < s.len() ==> !(#[trigger] s[j] == ':' && s[j + 1] == ':'),
        i < s.len() ==> i + 1 < s.len() && s[i] == ':' && s[i + 1] == ':',
    ensures
        double_colon(s) == i,
    decreases s.len(),
{
    if s.len() < 2 {
    } else if s[0] == ':' && s[1] == ':' {
    } else {
        assert forall|j: int| 0 <= j < i - 1 && j + 1 < s.skip(1).len() implies !(
        #[trigger] s.skip(1)[j] == ':' && s.skip(1)[j + 1] == ':') by {
            assert(s.skip(1)[j] == s[j + 1]);
            assert(s.skip(1)[j + 1] == s[j + 2]);
        }
        lemma_double_colon_is(s.skip(1), i - 1);
    }
}

/// Reads one octet of a dotted quad.
fn parse_octet(s: &[char]) -> (r: Option<u8>)
    ensures
        r == octet_of(s@),
{
    match parse_shortest_decimal(s, 255) {
        Some(v) => Some(v as u8),
        None => None,
    }
}

/// Reads a dotted quad.
pub fn parse_ipv4(s: &[char]) -> (r: Option<Ipv4Addr>)
    ensures
        r == ipv4_of(s@),
{
    let p = split_chars(s, '.');
    if p.len() != 4 {
        return None;
    }
    let ghost q = split_on(s@, '.');
    assert(q[0] == p@[0]@ && q[1] == p@[1]@ && q[2] == p@[2]@ && q[3] == p@[3]@);
    let a = match parse_octet(p[0]) {
        Some(v) => v,
        None => { return None; },
    };
    let b = match parse_octet(p[1]) {
        Some(v) => v,
        None => { return None; },
    };
    let c = match parse_octet(p[2]) {
        Some(v) => v,
        None => { return None; },
    };
    let d = match parse_octet(p[3]) {
        Some(v) => v,
        None => { return None; },
    };
    Some(Ipv4Addr { octets: [a, b, c, d] })
}

/// Reads a colon-separated list of groups.
fn parse_segments(s: &[char], dotted_tail: bool) -> (r: Option<Vec<u16>>)
    ensures
        match r {
            Some(v) => segments_of(s@, dotted_tail) == Some(v@),
            None => segments_of(s@, dotted_tail) is None,
        },
{
    let p = split_chars(s, ':');
    proof {
        lemma_split_nonempty(s@, ':');
    }
    let ghost q = split_on(s@, ':');
    let n = p.len();
    let mut out: Vec<u16> = Vec::new();
    let mut i: usize = 0;
    while i < n - 1
        invariant
            n == p.len(),
            n >= 1,
            q == slice_views(p@),
            q == split_on(s@, ':'),
            i <= n - 1,
            out@.len() == i,
            forall|j: int| 0 <= j < i ==> hex_group_of(q[j]) == Some(#[trigger] out@[j]),
        decreases n - i,
    {
        assert(q[i as int] == p@[i as int]@);
        match parse_hex_group(p[i]) {
            Some(g) => {
                out.push(g);
            },
            None => {
                assert(hex_group_of(q.drop_last()[i as int]) is None);
                return None;
            },
        }
        i += 1;
    }
    proof {
        assert forall|j: int| 0 <= j < q.drop_last().len() implies (#[trigger] hex_group_of(
            q.drop_last()[j],
        )) is Some by {
            assert(q.drop_last()[j] == q[j]);
            assert(hex_group_of(q[j]) == Some(out@[j]));
        }
        assert(groups_of(q.drop_last())->0 =~= out@) by {
            assert forall|j: int| 0 <= j < out@.len() implies groups_of(q.drop_last())->0[j]
                == out@[j] by {
                assert(q.drop_last()[j] == q[j]);
                assert(hex_group_of(q[j]) == Some(out@[j]));
            }
        }
        assert(q.last() == p@[n - 1]@);
    }
    match parse_hex_group(p[n - 1]) {
        Some(g) => {
            out.push(g);
            Some(out)
        },
        None => {
            if !dotted_tail {
                return None;
            }
            match parse_ipv4(p[n - 1]) {
                Some(a) => {
                    let hi: u16 = a.octets[0] as u16 * 256 + a.octets[1] as u16;
                    let lo: u16 = a.octets[2] as u16 * 256 + a.octets[3] as u16;
                    let ghost before = out@;
                    out.push(hi);
                    out.push(lo);
                    assert(out@ =~= before + v4_groups(a));
                    Some(out)
                },
                None => None,
            }
        },
    }
}

/// Reads an IPv6 text.
pub fn parse_ipv6(s: &[char]) -> (r: Option<Ipv6Addr>)
    ensures
        r == ipv6_of(s@),
{
    let mut p: usize = 0;
    while p < s.len() && !(p + 1 < s.len() && s[p] == ':' && s[p + 1] == ':')
        invariant
            p <= s.len(),
            forall|j: int|
                0 <= j < p && j + 1 < s.len() ==> !(#[trigger] s@[j] == ':' && s@[j + 1] == ':'),
        decreases s.len() - p,
    {
        p += 1;
    }
    proof {
        lemma_double_colon_is(s@, p as int);
    }
    if p >= s.len() {
        match parse_segments(s, true) {
            Some(g) => {
                if g.len() == 8 {
                    Some(
                        Ipv6Addr { segments: [g[0], g[1], g[2], g[3], g[4], g[5], g[6], g[7]] },
                    )
                } else {
                    None
                }
            },
            None => None,
        }
    } else {
        let head: Vec<u16> = if p == 0 {
            Vec::new()
        } else {
            assert(s@.subrange(0, p as int) =~= s@.take(p as int));
            match parse_segments(slice_subrange(s, 0, p), false) {
                Some(h) => h,
                None => { return None; },
            }
        };
        let tail: Vec<u16> = if p + 2 == s.len() {
            Vec::new()
        } else {
            assert(s@.subrange(p + 2, s.len() as int) =~= s@.skip(p + 2));
            match parse_segments(slice_subrange(s, p + 2, s.len()), true) {
                Some(t) => t,
                None => { return None; },
            }
        };
        if head.len() > 7 || tail.len() > 7 - head.len() {
            return None;
        }
        let mut segments: [u16; 8] = [0, 0, 0, 0, 0, 0, 0, 0];
        let ghost all = head@ + zero_groups(8 - head@.len() - tail@.len()) + tail@;
        let mut i: usize = 0;
        while i < head.len()
            invariant
                i <= head.len() <= 7,
                tail.len() <= 7 - head.len(),
                all == head@ + zero_groups(8 - head@.len() - tail@.len()) + tail@,
                forall|j: int| 0 <= j < i ==> segments@[j] == all[j],
                forall|j: int| i <= j < 8 ==> segments@[j] == 0,
            decreases head.len() - i,
        {
            segments[i] = head[i];
            i += 1;
        }
        let gap: usize = 8 - tail.len();
        let mut k: usize = 0;
        while k < tail.len()
            invariant
                k <= tail.len(),
                head.len() <= 7,
                tail.len() <= 7 - head.len(),
                gap == 8 - tail.len(),
                all == head@ + zero_groups(8 - head@.len() - tail@.len()) + tail@,
                forall|j: int| 0 <= j < gap + k ==> segments@[j] == all[j],
                forall|j: int| gap + k <= j < 8 ==> segments@[j] == 0,
            decreases tail.len() - k,
        {
            segments[gap + k] = tail[k];
            k += 1;
        }
        let r = Ipv6Addr { segments };
        assert(r.segments =~= ipv6_from(all).segments);
        Some(r)
    }
}

/// Reads an address of either family.
pub fn parse_ip(s: &[char]) -> (r: Option<IpAddr>)
    ensures
        r == ip_of(s@),
{
    match parse_ipv4(s) {
        Some(a) => Some(IpAddr::V4(a)),
        None => match parse_ipv6(s) {
            Some(a) => Some(IpAddr::V6(a)),
            None => None,
        },
    }
}

/// Tells whether the characters can be a scope identifier.
fn check_scope(s: &[char]) -> (r: bool)
    ensures
        r == is_scope(s@),
{
    if s.len() == 0 {
        return false;
    }
    let mut i: usize = 0;
    while i < s.len()
        invariant
            i <= s.len(),
            forall|j: int| 0 <= j < i ==> alphanumeric(#[trigger] s@[j]),
        decreases s.len() - i,
    {
        if !s[i].is_alphanumeric() {
            return false;
        }
        i += 1;
    }
    true
}

/// Parse an IPv4 network: an address, and a mask that is written or inferred.
pub fn ip_v4_netw(val: &[char]) -> (r: Result<Network, AddrParseError>)
    ensures
        match r {
            Ok(n) => v4_network_of(val@) == Some(n),
            Err(_) => v4_network_of(val@) is None,
        },
{
    let i = find_char(val, '/', 0);
    assert(val@.skip(0) =~= val@);
    assert(val@.subrange(0, i as int) =~= val@.take(i as int));
    let ip = match parse_ipv4(slice_subrange(val, 0, i)) {
        Some(a) => a,
        None => { return Err(AddrParseError); },
    };
    if ip.is_unspecified() {
        return Err(AddrParseError);
    }
    if i < val.len() {
        assert(val@.subrange(i + 1, val.len() as int) =~= val@.skip(i + 1));
        let mask = match parse_ipv4(slice_subrange(val, i + 1, val.len())) {
            Some(m) => m,
            None => { return Err(AddrParseError); },
        };
        // a mask whose octets add up to nothing masks nothing
        let value: u32 = mask.octets[0] as u32 + mask.octets[1] as u32 + mask.octets[2] as u32
            + mask.octets[3] as u32;
        if value == 0 {
            Err(AddrParseError)
        } else {
            Ok(Network::V4(ip, mask))
        }
    } else {
        // The mask is guessed from the number of octets that are zero at the
        // end of the address, not from the number of bits: `128.192.0.0`
        // gets `255.255.0.0`.
        let mask = if ip.octets[3] == 0 {
            if ip.octets[2] == 0 {
                if ip.octets[1] == 0 {
                    Ipv4Addr::new(255, 0, 0, 0)
                } else {
                    Ipv4Addr::new(255, 255, 0, 0)
                }
            } else {
                Ipv4Addr::new(255, 255, 255, 0)
            }
        } else {
            Ipv4Addr::new(255, 255, 255, 255)
        };
        Ok(Network::V4(ip, mask))
    }
}

/// Parse an IPv6 network: an address, and a mask that is written or all ones.
pub fn ip_v6_netw(val: &[char]) -> (r: Result<Network, AddrParseError>)
    ensures
        match r {
            Ok(n) => v6_network_of(val@) == Some(n),
            Err(_) => v6_network_of(val@) is None,
        },
{
    let i = find_char(val, '/', 0);
    assert(val@.skip(0) =~= val@);
    assert(val@.subrange(0, i as int) =~= val@.take(i as int));
    let ip = match parse_ipv6(slice_subrange(val, 0, i)) {
        Some(a) => a,
        None => { return Err(AddrParseError); },
    };
    if i < val.len() {
        assert(val@.subrange(i + 1, val.len() as int) =~= val@.skip(i + 1));
        // the mask is not validated
        match parse_ipv6(slice_subrange(val, i + 1, val.len())) {
            Some(m) => Ok(Network::V6(ip, m)),
            None => Err(AddrParseError),
        }
    } else {
        Ok(
            Network::V6(
                ip,
                Ipv6Addr::new(65_535, 65_535, 65_535, 65_535, 65_535, 65_535, 65_535, 65_535),
            ),
        )
    }
}

// ---------------------------------------------------------------------------
// The types' own functions
// ---------------------------------------------------------------------------
impl Ipv4Addr {
    /// The address `a.b.c.d`.
    pub fn new(a: u8, b: u8, c: u8, d: u8) -> (r: Ipv4Addr)
        ensures
            r == v4(a, b, c, d),
    {
        Ipv4Addr { octets: [a, b, c, d] }
    }

    /// The four octets, the first one leading.
    pub fn octets(&self) -> (r: [u8; 4])
        ensures
            r == self.octets,
    {
        self.octets
    }

    /// Whether this is the address `0.0.0.0`.
    pub fn is_unspecified(&self) -> (r: bool)
        ensures
            r == is_unspecified_v4(*self),
    {
        self.octets[0] == 0 && self.octets[1] == 0 && self.octets[2] == 0 && self.octets[3] == 0
    }

    /// Reads a dotted quad.
    pub fn from_str(s: &str) -> (r: Result<Ipv4Addr, AddrParseError>)
        ensures
            match r {
                Ok(a) => ipv4_of(s@) == Some(a),
                Err(_) => ipv4_of(s@) is None,
            },
    {
        let chars = chars_of(s);
        match parse_ipv4(chars.as_slice()) {
            Some(a) => Ok(a),
            None => Err(AddrParseError),
        }
    }

    /// Appends the dotted quad of the address.
    pub fn write_to(&self, out: &mut String)
        ensures
            final(out)@ == old(out)@ + ipv4_text(*self),
    {
        push_decimal(out, self.octets[0] as u64);
        out.push('.');
        push_decimal(out, self.octets[1] as u64);
        out.push('.');
        push_decimal(out, self.octets[2] as u64);
        out.push('.');
        push_decimal(out, self.octets[3] as u64);
        assert(final(out)@ =~= old(out)@ + ipv4_text(*self));
    }

    /// The dotted quad of the address.
    pub fn to_string(&self) -> (r: String)
        ensures
            r@ == ipv4_text(*self),
    {
        let mut out = String::new();
        self.write_to(&mut out);
        assert(Seq::<char>::empty() + ipv4_text(*self) =~= ipv4_text(*self));
        out
    }
}

/// Appends the groups with colons between them.
fn push_groups(out: &mut String, g: &[u16])
    ensures
        final(out)@ == old(out)@ + groups_text(g@),
{
    let mut i: usize = 0;
    assert(group_texts(g@.take(0)) =~= Seq::<Seq<char>>::empty());
    assert(out@ =~= old(out)@ + groups_text(g@.take(0)));
    while i < g.len()
        invariant
            i <= g.len(),
            out@ == old(out)@ + groups_text(g@.take(i as int)),
        decreases g.len() - i,
    {
        let ghost before = group_texts(g@.take(i as int));
        let ghost now = group_texts(g@.take(i + 1));
        proof {
            assert(now =~= before.push(hex_text(g@[i as int] as nat)));
            if i > 0 {
                lemma_join_push(before, ':', hex_text(g@[i as int] as nat));
            }
        }
        if i > 0 {
            out.push(':');
        }
        push_hex(out, g[i]);
        assert(out@ =~= old(out)@ + groups_text(g@.take(i + 1)));
        i += 1;
    }
    assert(g@.take(g.len() as int) =~= g@);
}

impl Ipv6Addr {
    /// The address with the given groups, the first one leading.
    pub fn new(a: u16, b: u16, c: u16, d: u16, e: u16, f: u16, g: u16, h: u16) -> (r: Ipv6Addr)
        ensures
            r.segments@ == seq![a, b, c, d, e, f, g, h],
            r == (Ipv6Addr { segments: [a, b, c, d, e, f, g, h] }),
    {
        let r = Ipv6Addr { segments: [a, b, c, d, e, f, g, h] };
        assert(r.segments@ =~= seq![a, b, c, d, e, f, g, h]);
        r
    }

    /// The eight groups, the first one leading.
    pub fn segments(&self) -> (r: [u16; 8])
        ensures
            r == self.segments,
    {
        self.segments
    }

    /// Reads an IPv6 text.
    pub fn from_str(s: &str) -> (r: Result<Ipv6Addr, AddrParseError>)
        ensures
            match r {
                Ok(a) => ipv6_of(s@) == Some(a),
                Err(_) => ipv6_of(s@) is None,
            },
    {
        let chars = chars_of(s);
        match parse_ipv6(chars.as_slice()) {
            Some(a) => Ok(a),
            None => Err(AddrParseError),
        }
    }

    /// Start and length of the first of the longest runs of zero groups.
    fn longest_zeros(&self) -> (r: (usize, usize))
        ensures
            r.0 == longest_zero_run(self.segments@, 0).0,
            r.1 == longest_zero_run(self.segments@, 0).1,
            r.0 + r.1 <= 8,
    {
        let ghost g = self.segments@;
        let mut run: usize = 0;
        let mut best: (usize, usize) = (8, 0);
        let mut i: usize = 8;
        while i > 0
            invariant
                i <= 8,
                g == self.segments@,
                run == zero_run(g, i as int),
                best.0 == longest_zero_run(g, i as int).0,
                best.1 == longest_zero_run(g, i as int).1,
                i + run <= 8,
                best.0 + best.1 <= 8,
            decreases i,
        {
            i -= 1;
            if self.segments[i] == 0 {
                run += 1;
            } else {
                run = 0;
            }
            if run > 0 && run >= best.1 {
                best = (i, run);
            }
        }
        best
    }

    /// Appends the text of the address.
    pub fn write_to(&self, out: &mut String)
        ensures
            final(out)@ == old(out)@ + ipv6_text(*self),
    {
        let s = &self.segments;
        if s[0] == 0 && s[1] == 0 && s[2] == 0 && s[3] == 0 && s[4] == 0 && s[5] == 0xffff {
            let inner = Ipv4Addr::new(
                (s[6] / 256) as u8,
                (s[6] % 256) as u8,
                (s[7] / 256) as u8,
                (s[7] % 256) as u8,
            );
            out.append("::ffff:");
            inner.write_to(out);
            assert(final(out)@ =~= old(out)@ + ipv6_text(*self));
        } else {
            let (start, len) = self.longest_zeros();
            let all = self.segments.as_slice();
            if len > 1 {
                assert(all@.subrange(0, start as int) =~= self.segments@.take(start as int));
                assert(all@.subrange(start + len, 8) =~= self.segments@.skip(start + len));
                push_groups(out, slice_subrange(all, 0, start));
                out.push(':');
                out.push(':');
                push_groups(out, slice_subrange(all, start + len, 8));
                assert(final(out)@ =~= old(out)@ + ipv6_text(*self));
            } else {
                push_groups(out, all);
            }
        }
    }

    /// The text of the address.
    pub fn to_string(&self) -> (r: String)
        ensures
            r@ == ipv6_text(*self),
    {
        let mut out = String::new();
        self.write_to(&mut out);
        assert(Seq::<char>::empty() + ipv6_text(*self) =~= ipv6_text(*self));
        out
    }
}

impl Network {
    /// Reads a network: an IPv4 network, or else an IPv6 network.
    pub fn from_chars(val: &[char]) -> (r: Result<Network, AddrParseError>)
        ensures
            match r {
                Ok(n) => network_of(val@) == Some(n),
                Err(_) => network_of(val@) is None,
            },
    {
        reveal(network_of);
        match ip_v4_netw(val) {
            Ok(n) => Ok(n),
            Err(_) => ip_v6_netw(val),
        }
    }

    /// Reads a network: an IPv4 network, or else an IPv6 network.
    pub fn from_str(val: &str) -> (r: Result<Network, AddrParseError>)
        ensures
            match r {
                Ok(n) => network_of(val@) == Some(n),
                Err(_) => network_of(val@) is None,
            },
    {
        let chars = chars_of(val);
        Network::from_chars(chars.as_slice())
    }

    /// Appends the text of the network.
    pub fn write_to(&self, out: &mut String)
        ensures
            final(out)@ == old(out)@ + network_text(*self),
    {
        reveal(network_text);
        match self {
            Network::V4(address, mask) => {
                address.write_to(out);
                out.push('/');
                mask.write_to(out);
            },
            Network::V6(address, mask) => {
                address.write_to(out);
                out.push('/');
                mask.write_to(out);
            },
        }
        assert(final(out)@ =~= old(out)@ + network_text(*self));
    }

    /// The text of the network: address, `/`, mask.
    pub fn to_string(&self) -> (r: String)
        ensures
            r@ == network_text(*self),
    {
        let mut out = String::new();
        self.write_to(&mut out);
        assert(Seq::<char>::empty() + network_text(*self) =~= network_text(*self));
        out
    }
}

impl ScopedIp {
    /// A scope identifier is never empty and is alphanumeric throughout.
    pub open spec fn wf(&self) -> bool {
        match self {
            ScopedIp::V6(_, Some(scope)) => is_scope(scope@),
            _ => true,
        }
    }

    /// Reads a scoped address.
    pub fn from_chars(s: &[char]) -> (r: Result<ScopedIp, AddrParseError>)
        ensures
            match r {
                Ok(ip) => scoped_ip_of(s@) == Some(ip@) && ip.wf(),
                Err(_) => scoped_ip_of(s@) is None,
            },
    {
        reveal(scoped_ip_of);
        let i = find_char(s, '%', 0);
        assert(s@.skip(0) =~= s@);
        assert(s@.subrange(0, i as int) =~= s@.take(i as int));
        match parse_ip(slice_subrange(s, 0, i)) {
            Some(IpAddr::V4(ip)) => {
                if i < s.len() {
                    // an IPv4 address takes no scope
                    Err(AddrParseError)
                } else {
                    Ok(ScopedIp::V4(ip))
                }
            },
            Some(IpAddr::V6(ip)) => {
                if i < s.len() {
                    let scope_id = slice_subrange(s, i + 1, s.len());
                    assert(scope_id@ =~= s@.skip(i + 1));
                    if !check_scope(scope_id) {
                        return Err(AddrParseError);
                    }
                    let mut scope = String::new();
                    push_chars(&mut scope, scope_id);
                    assert(scope@ =~= scope_id@);
                    Ok(ScopedIp::V6(ip, Some(scope)))
                } else {
                    Ok(ScopedIp::V6(ip, None))
                }
            },
            None => Err(AddrParseError),
        }
    }

    /// Parse a string representing an IP address.
    pub fn from_str(s: &str) -> (r: Result<ScopedIp, AddrParseError>)
        ensures
            match r {
                Ok(ip) => scoped_ip_of(s@) == Some(ip@) && ip.wf(),
                Err(_) => scoped_ip_of(s@) is None,
            },
    {
        let chars = chars_of(s);
        ScopedIp::from_chars(chars.as_slice())
    }

    /// Appends the text of the address.
    pub fn write_to(&self, out: &mut String)
        ensures
            final(out)@ == old(out)@ + scoped_ip_text(self@),
    {
        reveal(scoped_ip_text);
        match self {
            ScopedIp::V4(address) => address.write_to(out),
            ScopedIp::V6(address, None) => address.write_to(out),
            ScopedIp::V6(address, Some(scope)) => {
                address.write_to(out);
                out.push('%');
                out.append(scope.as_str());
                assert(final(out)@ =~= old(out)@ + scoped_ip_text(self@));
            },
        }
    }

    /// The text of the address, with `%` and the scope if there is one.
    pub fn to_string(&self) -> (r: String)
        ensures
            r@ == scoped_ip_text(self@),
    {
        let mut out = String::new();
        self.write_to(&mut out);
        assert(Seq::<char>::empty() + scoped_ip_text(self@) =~= scoped_ip_text(self@));
        out
    }
}

impl AddrParseError {
    /// What went wrong, in words.
    pub fn to_string(&self) -> (r: String)
        ensures
            r@ == "invalid IP address syntax"@,
    {
        "invalid IP address syntax".to_owned()
    }
}

impl Clone for ScopedIp {
    fn clone(&self) -> (r: Self)
        ensures
            r@ == self@,
            self.wf() ==> r.wf(),
    {
        match self {
            ScopedIp::V4(a) => ScopedIp::V4(*a),
            ScopedIp::V6(a, None) => ScopedIp::V6(*a, None),
            ScopedIp::V6(a, Some(scope)) => ScopedIp::V6(*a, Some(scope.clone())),
        }
    }
}

impl core::str::FromStr for ScopedIp {
    type Err = AddrParseError;

    /// Reads an address with its scope, as the type's own `from_str` does:
    /// the text is an address exactly when `scoped_ip_of` gives one, and
    /// that one is returned.
    fn from_str(s: &str) -> (r: Result<ScopedIp, AddrParseError>)
        ensures
            match r {
                Ok(ip) => scoped_ip_of(s@) == Some(ip@) && ip.wf(),
                Err(_) => scoped_ip_of(s@) is None,
            },
    {
        ScopedIp::from_str(s)
    }
}

impl core::str::FromStr for Network {
    type Err = AddrParseError;

    /// Reads a network, as the type's own `from_str` does: the text is a
    /// network exactly when `network_of` gives one, and that one is returned.
    fn from_str(s: &str) -> (r: Result<Network, AddrParseError>)
        ensures
            match r {
                Ok(n) => network_of(s@) == Some(n),
                Err(_) => network_of(s@) is None,
            },
    {
        Network::from_str(s)
    }
}

impl From<Ipv6Addr> for ScopedIp {
    fn from(value: Ipv6Addr) -> (r: ScopedIp) {
        ScopedIp::V6(value, None)
    }
}

impl FromSpecImpl<Ipv6Addr> for ScopedIp {
    open spec fn obeys_from_spec() -> bool {
        true
    }

    open spec fn from_spec(value: Ipv6Addr) -> ScopedIp {
        ScopedIp::V6(value, None)
    }
}

impl From<Ipv4Addr> for ScopedIp {
    fn from(value: Ipv4Addr) -> (r: ScopedIp) {
        ScopedIp::V4(value)
    }
}

impl FromSpecImpl<Ipv4Addr> for ScopedIp {
    open spec fn obeys_from_spec() -> bool {
        true
    }

    open spec fn from_spec(value: Ipv4Addr) -> ScopedIp {
        ScopedIp::V4(value)
    }
}

impl From<IpAddr> for ScopedIp {
    fn from(value: IpAddr) -> (r: ScopedIp) {
        match value {
            IpAddr::V4(ip) => ScopedIp::V4(ip),
            IpAddr::V6(ip) => ScopedIp::V6(ip, None),
        }
    }
}

impl FromSpecImpl<IpAddr> for ScopedIp {
    open spec fn obeys_from_spec() -> bool {
        true
    }

    open spec fn from_spec(value: IpAddr) -> ScopedIp {
        match value {
            IpAddr::V4(ip) => ScopedIp::V4(ip),
            IpAddr::V6(ip) => ScopedIp::V6(ip, None),
        }
    }
}

impl From<ScopedIp> for IpAddr {
    fn from(val: ScopedIp) -> (r: IpAddr) {
        match val {
            ScopedIp::V4(ip) => IpAddr::V4(ip),
            ScopedIp::V6(ip, _) => IpAddr::V6(ip),
        }
    }
}

impl FromSpecImpl<ScopedIp> for IpAddr {
    open spec fn obeys_from_spec() -> bool {
        true
    }

    open spec fn from_spec(val: ScopedIp) -> IpAddr {
        match val {
            ScopedIp::V4(ip) => IpAddr::V4(ip),
            ScopedIp::V6(ip, _) => IpAddr::V6(ip),
        }
    }
}

impl<'a> From<&'a ScopedIp> for IpAddr {
    fn from(val: &'a ScopedIp) -> (r: IpAddr) {
        match val {
            ScopedIp::V4(ip) => IpAddr::V4(*ip),
            ScopedIp::V6(ip, _) => IpAddr::V6(*ip),
        }
    }
}

impl<'a> FromSpecImpl<&'a ScopedIp> for IpAddr {
    open spec fn obeys_from_spec() -> bool {
        true
    }

    open spec fn from_spec(val: &'a ScopedIp) -> IpAddr {
        match val {
            ScopedIp::V4(ip) => IpAddr::V4(*ip),
            ScopedIp::V6(ip, _) => IpAddr::V6(*ip),
        }
    }
}

} // verus!
