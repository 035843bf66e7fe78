//! Addresses and networks read back from their own text.

use crate::ip::{
    double_colon, embedded_v4, group_texts, groups_of, groups_text, ip_of, ipv4_of, ipv4_text,
    ipv6_from, ipv6_of, ipv6_text, is_scope, is_unspecified_v4, is_v4_mapped, lemma_double_colon_is,
    longest_zero_run, network_of, network_text, octet_of, octet_sum, scoped_ip_of, scoped_ip_text,
    segments_of, v4_groups, v4_network_of, v6_network_of, zero_groups, zero_run, IpAddr, Ipv4Addr,
    Ipv6Addr, Network, ScopedIpView,
};
use crate::number::{
    all_hex_digits, decimal_text, hex_group_of, hex_value, is_digit, is_hex_digit,
    lemma_decimal_text_shape, lemma_hex_group_round_trip, lemma_hex_text_shape,
    lemma_shortest_decimal_round_trip,
};
use crate::seqs::{
    first_index, join, lemma_first_index_is, lemma_join_contains, lemma_split_cons,
    lemma_split_join, lemma_split_none, split_on,
};
use vstd::prelude::*;

verus! {

/// A character that can stand in the text of an address.
pub open spec fn is_address_char(c: char) -> bool {
    is_hex_digit(c) || c == ':' || c == '.'
}

/// A text made of characters of addresses only.
pub open spec fn is_address_text(s: Seq<char>) -> bool {
    forall|i: int| 0 <= i < s.len() ==> is_address_char(#[trigger] s[i])
}

/// Texts of address characters joined are a text of address characters.
pub proof fn lemma_address_text_add(a: Seq<char>, b: Seq<char>)
    requires
        is_address_text(a),
        is_address_text(b),
    ensures
        is_address_text(a + b),
{
    assert forall|i: int| 0 <= i < (a + b).len() implies is_address_char(#[trigger] (a + b)[i]) by {
        if i < a.len() {
            assert((a + b)[i] == a[i]);
        } else {
            assert((a + b)[i] == b[i - a.len()]);
        }
    }
}

/// Joining gives back what was split.
pub proof fn lemma_join_split<T>(s: Seq<T>, sep: T)
    ensures
        join(split_on(s, sep), sep) == s,
    decreases s.len(),
{
    let i = first_index(s, sep);
    if 0 <= i < s.len() {
        let rest = split_on(s.skip(i + 1), sep);
        lemma_join_split(s.skip(i + 1), sep);
        crate::ip::lemma_split_nonempty(s.skip(i + 1), sep);
        crate::seqs::lemma_first_index(s, sep);
        let all = seq![s.take(i)] + rest;
        assert(all.skip(1) =~= rest);
        assert(all[0] == s.take(i));
        assert(s.take(i) + seq![sep] + s.skip(i + 1) =~= s);
    }
}

/// The dotted quad of an address is made of digits and dots, and is not empty.
pub proof fn lemma_ipv4_text_chars(a: Ipv4Addr)
    ensures
        ipv4_text(a).len() >= 7,
        forall|i: int|
            0 <= i < ipv4_text(a).len() ==> is_digit(#[trigger] ipv4_text(a)[i]) || ipv4_text(
                a,
            )[i] == '.',
        is_address_text(ipv4_text(a)),
        is_digit(ipv4_text(a)[0]),
        ipv4_text(a).contains('.'),
{
    let d0 = decimal_text(a.octets[0] as nat);
    let d1 = decimal_text(a.octets[1] as nat);
    let d2 = decimal_text(a.octets[2] as nat);
    let d3 = decimal_text(a.octets[3] as nat);
    lemma_decimal_text_shape(a.octets[0] as nat);
    lemma_decimal_text_shape(a.octets[1] as nat);
    lemma_decimal_text_shape(a.octets[2] as nat);
    lemma_decimal_text_shape(a.octets[3] as nat);
    let t = ipv4_text(a);
    assert forall|i: int| 0 <= i < t.len() implies is_digit(#[trigger] t[i]) || t[i] == '.' by {
        if i < d0.len() {
            assert(t[i] == d0[i]);
        } else if i == d0.len() {
        } else if i < d0.len() + 1 + d1.len() {
            assert(t[i] == d1[i - d0.len() - 1]);
        } else if i == d0.len() + 1 + d1.len() {
        } else if i < d0.len() + 1 + d1.len() + 1 + d2.len() {
            assert(t[i] == d2[i - d0.len() - 1 - d1.len() - 1]);
        } else if i == d0.len() + 1 + d1.len() + 1 + d2.len() {
        } else {
            assert(t[i] == d3[i - d0.len() - 1 - d1.len() - 1 - d2.len() - 1]);
        }
    }
    assert(t[0] == d0[0]);
    assert(t[d0.len() as int] == '.');
}

/// A dotted quad read back gives the address.
pub proof fn lemma_ipv4_round_trip(a: Ipv4Addr)
    ensures
        ipv4_of(ipv4_text(a)) == Some(a),
{
    let d0 = decimal_text(a.octets[0] as nat);
    let d1 = decimal_text(a.octets[1] as nat);
    let d2 = decimal_text(a.octets[2] as nat);
    let d3 = decimal_text(a.octets[3] as nat);
    let pieces = seq![d0, d1, d2, d3];
    lemma_decimal_text_shape(a.octets[0] as nat);
    lemma_decimal_text_shape(a.octets[1] as nat);
    lemma_decimal_text_shape(a.octets[2] as nat);
    lemma_decimal_text_shape(a.octets[3] as nat);
    assert(join(pieces, '.') =~= ipv4_text(a)) by {
        reveal_with_fuel(join, 5);
        assert(pieces.skip(1) =~= seq![d1, d2, d3]);
        assert(pieces.skip(1).skip(1) =~= seq![d2, d3]);
        assert(pieces.skip(1).skip(1).skip(1) =~= seq![d3]);
    }
    assert forall|i: int| 0 <= i < pieces.len() implies !(#[trigger] pieces[i]).contains('.') by {
        if pieces[i].contains('.') {
            let k = choose|k: int| 0 <= k < pieces[i].len() && pieces[i][k] == '.';
            assert(is_digit(pieces[i][k]));
        }
    }
    lemma_split_join(pieces, '.');
    lemma_shortest_decimal_round_trip(a.octets[0] as nat, 255);
    lemma_shortest_decimal_round_trip(a.octets[1] as nat, 255);
    lemma_shortest_decimal_round_trip(a.octets[2] as nat, 255);
    lemma_shortest_decimal_round_trip(a.octets[3] as nat, 255);
    let p = split_on(ipv4_text(a), '.');
    assert(p == pieces);
    assert(octet_of(p[0]) == Some(a.octets[0]));
    assert(octet_of(p[1]) == Some(a.octets[1]));
    assert(octet_of(p[2]) == Some(a.octets[2]));
    assert(octet_of(p[3]) == Some(a.octets[3]));
    let r = ipv4_of(ipv4_text(a))->0;
    assert(r.octets =~= a.octets);
}

/// A text with a character that is neither digit nor dot is no dotted quad.
pub proof fn lemma_not_ipv4(s: Seq<char>, c: char)
    requires
        s.contains(c),
        !is_digit(c),
        c != '.',
    ensures
        ipv4_of(s) is None,
{
    if ipv4_of(s) is Some {
        let p = split_on(s, '.');
        lemma_join_split(s, '.');
        assert forall|i: int| 0 <= i < p.len() implies !(#[trigger] p[i]).contains(c) by {
            assert(octet_of(p[i]) is Some);
            if p[i].contains(c) {
                let k = choose|k: int| 0 <= k < p[i].len() && p[i][k] == c;
                assert(is_digit(p[i][k]));
            }
        }
        lemma_join_contains(p, '.', c);
    }
}

/// The numerals of groups are not empty and hold hexadecimal digits only.
pub proof fn lemma_group_texts(g: Seq<u16>)
    ensures
        group_texts(g).len() == g.len(),
        forall|i: int|
            0 <= i < g.len() ==> (#[trigger] group_texts(g)[i]).len() >= 1 && all_hex_digits(
                group_texts(g)[i],
            ) && !group_texts(g)[i].contains(':') && hex_group_of(group_texts(g)[i]) == Some(g[i]),
{
    assert forall|i: int| 0 <= i < g.len() implies (#[trigger] group_texts(g)[i]).len() >= 1
        && all_hex_digits(group_texts(g)[i]) && !group_texts(g)[i].contains(':') && hex_group_of(
        group_texts(g)[i],
    ) == Some(g[i]) by {
        let t = group_texts(g)[i];
        lemma_hex_text_shape(g[i] as nat);
        lemma_hex_group_round_trip(g[i]);
        if t.contains(':') {
            let k = choose|k: int| 0 <= k < t.len() && t[k] == ':';
            assert(is_hex_digit(t[k]));
        }
    }
}

/// Non-empty pieces without the separator, joined: no two separators meet,
/// and none stands at either end.
pub proof fn lemma_join_separators(pieces: Seq<Seq<char>>, sep: char)
    requires
        forall|i: int|
            0 <= i < pieces.len() ==> (#[trigger] pieces[i]).len() >= 1 && !pieces[i].contains(
                sep,
            ),
    ensures
        pieces.len() > 0 ==> join(pieces, sep).len() > 0 && join(pieces, sep)[0] != sep && join(
            pieces,
            sep,
        ).last() != sep,
        pieces.len() == 0 ==> join(pieces, sep).len() == 0,
        forall|j: int|
            0 <= j && j + 1 < join(pieces, sep).len() ==> !(#[trigger] join(pieces, sep)[j] == sep
                && join(pieces, sep)[j + 1] == sep),
    decreases pieces.len(),
{
    if pieces.len() == 0 {
    } else if pieces.len() == 1 {
        let t = pieces[0];
        assert(t.contains(t[0]));
        assert(t.contains(t.last()));
        assert forall|j: int| 0 <= j && j + 1 < t.len() implies !(#[trigger] t[j] == sep && t[j
            + 1] == sep) by {
            assert(t.contains(t[j]));
        }
    } else {
        let rest = pieces.skip(1);
        assert forall|i: int| 0 <= i < rest.len() implies (#[trigger] rest[i]).len() >= 1
            && !rest[i].contains(sep) by {
            assert(rest[i] == pieces[i + 1]);
        }
        lemma_join_separators(rest, sep);
        let head = pieces[0];
        let tail = join(rest, sep);
        let t = join(pieces, sep);
        assert(t =~= head + seq![sep] + tail);
        assert(head.contains(head[0]));
        assert(head.contains(head.last()));
        assert(t[0] == head[0]);
        assert(t.last() == tail.last());
        assert forall|j: int| 0 <= j && j + 1 < t.len() implies !(#[trigger] t[j] == sep && t[j
            + 1] == sep) by {
            if j + 1 < head.len() {
                assert(t[j] == head[j]);
                assert(head.contains(head[j]));
            } else if j + 1 == head.len() {
                assert(t[j] == head.last());
            } else if j == head.len() {
                assert(t[j + 1] == tail[0]);
            } else {
                assert(t[j] == tail[j - head.len() - 1]);
                assert(t[j + 1] == tail[j - head.len() - 1 + 1]);
            }
        }
    }
}

/// Pieces of address characters joined by a colon are a text of address characters.
pub proof fn lemma_join_address_text(pieces: Seq<Seq<char>>)
    requires
        forall|i: int| 0 <= i < pieces.len() ==> is_address_text(#[trigger] pieces[i]),
    ensures
        is_address_text(join(pieces, ':')),
    decreases pieces.len(),
{
    if pieces.len() >= 2 {
        let rest = pieces.skip(1);
        assert forall|i: int| 0 <= i < rest.len() implies is_address_text(#[trigger] rest[i]) by {
            assert(rest[i] == pieces[i + 1]);
        }
        lemma_join_address_text(rest);
        lemma_address_text_add(pieces[0], seq![':']);
        lemma_address_text_add(pieces[0] + seq![':'], join(rest, ':'));
    }
}

/// What the text of a list of groups looks like.
pub proof fn lemma_groups_text_shape(g: Seq<u16>)
    ensures
        is_address_text(groups_text(g)),
        !groups_text(g).contains('.'),
        g.len() > 0 ==> groups_text(g).len() > 0 && groups_text(g)[0] != ':' && groups_text(
            g,
        ).last() != ':',
        g.len() == 0 ==> groups_text(g).len() == 0,
        g.len() >= 2 ==> groups_text(g).contains(':'),
        forall|j: int|
            0 <= j && j + 1 < groups_text(g).len() ==> !(#[trigger] groups_text(g)[j] == ':'
                && groups_text(g)[j + 1] == ':'),
{
    let pieces = group_texts(g);
    lemma_group_texts(g);
    lemma_join_separators(pieces, ':');
    assert forall|i: int| 0 <= i < pieces.len() implies is_address_text(#[trigger] pieces[i]) by {
        assert(all_hex_digits(pieces[i]));
    }
    lemma_join_address_text(pieces);
    assert forall|i: int| 0 <= i < pieces.len() implies !(#[trigger] pieces[i]).contains('.') by {
        if pieces[i].contains('.') {
            let k = choose|k: int| 0 <= k < pieces[i].len() && pieces[i][k] == '.';
            assert(is_hex_digit(pieces[i][k]));
        }
    }
    lemma_join_contains(pieces, ':', '.');
    if g.len() >= 2 {
        let t = join(pieces, ':');
        assert(t =~= pieces[0] + seq![':'] + join(pieces.skip(1), ':'));
        assert(t[pieces[0].len() as int] == ':');
    }
}

/// A list of groups read back from its text.
pub proof fn lemma_segments_round_trip(g: Seq<u16>, dotted_tail: bool)
    requires
        g.len() >= 1,
    ensures
        segments_of(groups_text(g), dotted_tail) == Some(g),
{
    let pieces = group_texts(g);
    lemma_group_texts(g);
    lemma_split_join(pieces, ':');
    let p = split_on(groups_text(g), ':');
    assert(p == pieces);
    assert forall|i: int| 0 <= i < p.drop_last().len() implies (#[trigger] hex_group_of(
        p.drop_last()[i],
    )) is Some by {
        assert(p.drop_last()[i] == pieces[i]);
    }
    let front = groups_of(p.drop_last())->0;
    assert(front =~= g.drop_last()) by {
        assert forall|i: int| 0 <= i < g.len() - 1 implies front[i] == g[i] by {
            assert(p.drop_last()[i] == pieces[i]);
        }
    }
    assert(p.last() == pieces[g.len() - 1]);
    assert(g.drop_last().push(g.last()) =~= g);
}

/// What the longest run of zero groups is: it lies inside the list and holds
/// zero groups only.
pub proof fn lemma_longest_zero_run(g: Seq<u16>, i: int)
    requires
        0 <= i <= g.len(),
    ensures
        i <= longest_zero_run(g, i).0,
        longest_zero_run(g, i).0 + longest_zero_run(g, i).1 <= g.len(),
        forall|j: int|
            longest_zero_run(g, i).0 <= j < longest_zero_run(g, i).0 + longest_zero_run(g, i).1
                ==> g[j] == 0,
    decreases g.len() - i,
{
    if i < g.len() {
        lemma_longest_zero_run(g, i + 1);
        lemma_zero_run(g, i);
    }
}

/// A run of zero groups lies inside the list and holds zero groups only.
pub proof fn lemma_zero_run(g: Seq<u16>, i: int)
    requires
        0 <= i <= g.len(),
    ensures
        i + zero_run(g, i) <= g.len(),
        forall|j: int| i <= j < i + zero_run(g, i) ==> g[j] == 0,
    decreases g.len() - i,
{
    if i < g.len() && g[i] == 0 {
        lemma_zero_run(g, i + 1);
    }
}

/// The text of an address is made of address characters and is not empty;
/// it holds a colon.
pub proof fn lemma_ipv6_text_chars(a: Ipv6Addr)
    ensures
        is_address_text(ipv6_text(a)),
        ipv6_text(a).len() >= 2,
        ipv6_text(a).contains(':'),
{
    let g = a.segments@;
    if is_v4_mapped(a) {
        reveal_strlit("::ffff:");
        lemma_ipv4_text_chars(embedded_v4(a));
        assert(is_address_text("::ffff:"@));
        lemma_address_text_add("::ffff:"@, ipv4_text(embedded_v4(a)));
        assert(ipv6_text(a)[0] == ':');
    } else {
        let run = longest_zero_run(g, 0);
        lemma_longest_zero_run(g, 0);
        if run.1 > 1 {
            let head = groups_text(g.take(run.0));
            let tail = groups_text(g.skip(run.0 + run.1));
            lemma_groups_text_shape(g.take(run.0));
            lemma_groups_text_shape(g.skip(run.0 + run.1));
            assert(is_address_text(seq![':', ':']));
            lemma_address_text_add(head, seq![':', ':']);
            lemma_address_text_add(head + seq![':', ':'], tail);
            assert(ipv6_text(a)[head.len() as int] == ':');
        } else {
            lemma_groups_text_shape(g);
        }
    }
}

/// The text of an address read back gives the address.
pub proof fn lemma_ipv6_round_trip(a: Ipv6Addr)
    ensures
        ipv6_of(ipv6_text(a)) == Some(a),
{
    let g = a.segments@;
    let t = ipv6_text(a);
    if is_v4_mapped(a) {
        lemma_mapped_round_trip(a);
    } else {
        let run = longest_zero_run(g, 0);
        lemma_longest_zero_run(g, 0);
        if run.1 > 1 {
            lemma_shortened_round_trip(a, run.0, run.1 as int);
        } else {
            lemma_groups_text_shape(g);
            lemma_double_colon_is(t, t.len() as int);
            lemma_segments_round_trip(g, true);
            assert(ipv6_from(g).segments =~= a.segments);
        }
    }
}

/// An address that carries an IPv4 address, read back from its text.
proof fn lemma_mapped_round_trip(a: Ipv6Addr)
    requires
        is_v4_mapped(a),
    ensures
        ipv6_of(ipv6_text(a)) == Some(a),
{
    reveal_strlit("::ffff:");
    let v = embedded_v4(a);
    let quad = ipv4_text(v);
    let t = ipv6_text(a);
    lemma_ipv4_text_chars(v);
    lemma_ipv4_round_trip(v);
    assert(t[0] == ':' && t[1] == ':');
    assert(double_colon(t) == 0);
    let rest = t.skip(2);
    let ffff = seq!['f', 'f', 'f', 'f'];
    assert(rest =~= ffff + seq![':'] + quad);
    assert(!ffff.contains(':'));
    lemma_split_cons(ffff, ':', quad);
    assert(!quad.contains(':')) by {
        if quad.contains(':') {
            let k = choose|k: int| 0 <= k < quad.len() && quad[k] == ':';
            assert(is_digit(quad[k]) || quad[k] == '.');
        }
    }
    lemma_split_none(quad, ':');
    let p = split_on(rest, ':');
    assert(p =~= seq![ffff, quad]);
    assert(p.drop_last() =~= seq![ffff]);
    assert(hex_group_of(ffff) == Some(0xffffu16)) by {
        reveal_with_fuel(hex_value, 5);
        assert(ffff.drop_last() =~= seq!['f', 'f', 'f']);
        assert(ffff.drop_last().drop_last() =~= seq!['f', 'f']);
        assert(ffff.drop_last().drop_last().drop_last() =~= seq!['f']);
        assert(ffff.drop_last().drop_last().drop_last().drop_last() =~= Seq::<char>::empty());
    }
    assert forall|i: int| 0 <= i < p.drop_last().len() implies (#[trigger] hex_group_of(
        p.drop_last()[i],
    )) is Some by {}
    assert(groups_of(p.drop_last())->0 =~= seq![0xffffu16]);
    assert(hex_group_of(quad) is None) by {
        let k = choose|k: int| 0 <= k < quad.len() && quad[k] == '.';
        assert(!is_hex_digit(quad[k]));
    }
    let tail = seq![0xffffu16] + v4_groups(v);
    assert(segments_of(rest, true) == Some(tail));
    let all = Seq::<u16>::empty() + zero_groups(5) + tail;
    assert(ipv6_from(all).segments =~= a.segments);
}

/// Where `::` stands in a text that has it between two lists of groups.
proof fn lemma_shortened_position(head: Seq<u16>, tail: Seq<u16>)
    ensures
        double_colon(groups_text(head) + seq![':', ':'] + groups_text(tail)) == groups_text(
            head,
        ).len(),
{
    let ht = groups_text(head);
    let t = ht + seq![':', ':'] + groups_text(tail);
    lemma_groups_text_shape(head);
    let p = ht.len() as int;
    assert(t[p] == ':' && t[p + 1] == ':');
    assert forall|j: int| 0 <= j < p && j + 1 < t.len() implies !(#[trigger] t[j] == ':' && t[j
        + 1] == ':') by {
        assert(t[j] == ht[j]);
        if j + 1 < p {
            assert(t[j + 1] == ht[j + 1]);
        } else {
            assert(ht[j] == ht.last());
        }
    }
    lemma_double_colon_is(t, p);
}

/// Two lists of groups with `::` between them, read back: the lists.
proof fn lemma_shortened_parts(head: Seq<u16>, tail: Seq<u16>)
    requires
        head.len() + tail.len() <= 7,
    ensures
        ipv6_of(groups_text(head) + seq![':', ':'] + groups_text(tail)) == Some(
            ipv6_from(head + zero_groups(8 - head.len() - tail.len()) + tail),
        ),
{
    let ht = groups_text(head);
    let tt = groups_text(tail);
    let t = ht + seq![':', ':'] + tt;
    let p = ht.len() as int;
    lemma_shortened_position(head, tail);
    lemma_groups_text_shape(head);
    lemma_groups_text_shape(tail);
    assert(t.take(p) =~= ht);
    assert(t.skip(p + 2) =~= tt);
    if head.len() > 0 {
        lemma_segments_round_trip(head, false);
    } else {
        assert(head =~= Seq::<u16>::empty());
    }
    if tail.len() > 0 {
        lemma_segments_round_trip(tail, true);
    } else {
        assert(tail =~= Seq::<u16>::empty());
    }
}

/// An address written with `::`, read back from its text.
proof fn lemma_shortened_round_trip(a: Ipv6Addr, start: int, len: int)
    requires
        !is_v4_mapped(a),
        (start, len as nat) == longest_zero_run(a.segments@, 0),
        len > 1,
    ensures
        ipv6_of(ipv6_text(a)) == Some(a),
{
    let g = a.segments@;
    lemma_longest_zero_run(g, 0);
    let head = g.take(start);
    let tail = g.skip(start + len);
    lemma_shortened_parts(head, tail);
    let all = head + zero_groups(8 - head.len() - tail.len()) + tail;
    assert(all =~= g);
    assert(ipv6_from(g).segments =~= a.segments);
}

/// What the texts of addresses of either family denote.
pub proof fn lemma_ip_round_trip(a: IpAddr)
    ensures
        match a {
            IpAddr::V4(v) => ip_of(ipv4_text(v)) == Some(a),
            IpAddr::V6(v) => ip_of(ipv6_text(v)) == Some(a),
        },
{
    match a {
        IpAddr::V4(v) => lemma_ipv4_round_trip(v),
        IpAddr::V6(v) => {
            lemma_ipv6_round_trip(v);
            lemma_ipv6_text_chars(v);
            lemma_not_ipv4(ipv6_text(v), ':');
        },
    }
}

/// A text of address characters holds none of the marks that end an address.
pub proof fn lemma_address_text_marks(s: Seq<char>)
    requires
        is_address_text(s),
    ensures
        !s.contains('%'),
        !s.contains('/'),
{
    if s.contains('%') {
        let k = choose|k: int| 0 <= k < s.len() && s[k] == '%';
        assert(is_address_char(s[k]));
    }
    if s.contains('/') {
        let k = choose|k: int| 0 <= k < s.len() && s[k] == '/';
        assert(is_address_char(s[k]));
    }
}

/// Where a text without a mark is followed by the mark, the mark is found
/// at the end of the text.
pub proof fn lemma_first_index_after(head: Seq<char>, mark: char, rest: Seq<char>)
    requires
        !head.contains(mark),
    ensures
        first_index(head + seq![mark] + rest, mark) == head.len(),
        first_index(head, mark) == head.len(),
{
    let s = head + seq![mark] + rest;
    assert forall|j: int| 0 <= j < head.len() implies s[j] != mark && head[j] != mark by {
        assert(s[j] == head[j]);
        if head[j] == mark {
            assert(head.contains(mark));
        }
    }
    lemma_first_index_is(s, mark, head.len() as int);
    lemma_first_index_is(head, mark, head.len() as int);
}

/// A scoped address whose scope, if it has one, is a scope identifier.
pub open spec fn scoped_ip_valid(ip: ScopedIpView) -> bool {
    match ip {
        ScopedIpView::V6(_, Some(scope)) => is_scope(scope),
        _ => true,
    }
}

/// A scoped address read back from its text gives the address.
pub proof fn lemma_scoped_ip_round_trip(ip: ScopedIpView)
    requires
        scoped_ip_valid(ip),
    ensures
        scoped_ip_of(scoped_ip_text(ip)) == Some(ip),
{
    reveal(scoped_ip_text);
    reveal(scoped_ip_of);
    match ip {
        ScopedIpView::V4(a) => {
            let t = ipv4_text(a);
            lemma_ipv4_text_chars(a);
            lemma_address_text_marks(t);
            lemma_first_index_after(t, '%', Seq::empty());
            assert(t.take(t.len() as int) =~= t);
            lemma_ip_round_trip(IpAddr::V4(a));
        },
        ScopedIpView::V6(a, None) => {
            let t = ipv6_text(a);
            lemma_ipv6_text_chars(a);
            lemma_address_text_marks(t);
            lemma_first_index_after(t, '%', Seq::empty());
            assert(t.take(t.len() as int) =~= t);
            lemma_ip_round_trip(IpAddr::V6(a));
        },
        ScopedIpView::V6(a, Some(scope)) => {
            let t = ipv6_text(a);
            let s = t + seq!['%'] + scope;
            lemma_ipv6_text_chars(a);
            lemma_address_text_marks(t);
            lemma_first_index_after(t, '%', scope);
            assert(s.take(t.len() as int) =~= t);
            assert(s.skip(t.len() as int + 1) =~= scope);
            lemma_ip_round_trip(IpAddr::V6(a));
        },
    }
}

/// A network as reading gives it: an IPv4 network has an address other than
/// `0.0.0.0` and a mask whose octets do not add up to zero.
pub open spec fn network_valid(n: Network) -> bool {
    match n {
        Network::V4(a, m) => !is_unspecified_v4(a) && octet_sum(m) != 0,
        Network::V6(_, _) => true,
    }
}

/// A network read back from its text gives the network.
pub proof fn lemma_network_round_trip(n: Network)
    requires
        network_valid(n),
    ensures
        network_of(network_text(n)) == Some(n),
{
    reveal(network_text);
    reveal(network_of);
    match n {
        Network::V4(a, m) => {
            let t = ipv4_text(a);
            let mt = ipv4_text(m);
            let s = t + seq!['/'] + mt;
            lemma_ipv4_text_chars(a);
            lemma_address_text_marks(t);
            lemma_first_index_after(t, '/', mt);
            assert(s.take(t.len() as int) =~= t);
            assert(s.skip(t.len() as int + 1) =~= mt);
            lemma_ipv4_round_trip(a);
            lemma_ipv4_round_trip(m);
            assert(v4_network_of(s) == Some(n));
        },
        Network::V6(a, m) => {
            let t = ipv6_text(a);
            let mt = ipv6_text(m);
            let s = t + seq!['/'] + mt;
            lemma_ipv6_text_chars(a);
            lemma_address_text_marks(t);
            lemma_first_index_after(t, '/', mt);
            assert(s.take(t.len() as int) =~= t);
            assert(s.skip(t.len() as int + 1) =~= mt);
            lemma_ipv6_round_trip(a);
            lemma_ipv6_round_trip(m);
            lemma_not_ipv4(t, ':');
            assert(v4_network_of(s) is None);
            assert(v6_network_of(s) == Some(n));
        },
    }
}

} // verus!
