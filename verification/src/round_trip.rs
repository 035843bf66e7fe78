//! A configuration that was read, written and read again is the same configuration.

use crate::config::{ConfigView, Dialect, Family, LastSearch, LookupView, OptionName, OptionsView};
use crate::format::{
    config_text, domain_first, domain_last, domain_text, family_word, family_words, list_line,
    lookup_word, lookup_words, nameservers_text, network_words, option_line, options_text,
    port_text, search_text, spaced,
};
use crate::grammar::{
    apply_lines, apply_option, apply_words, before_colon, behind_colon, family_line, family_of,
    kept_search, lookup_line, lookup_of, options_line, read, sortlist_items, with_domain,
    with_search, Outcome, ParseError,
};
use crate::ip::{network_text, scoped_ip_text, ipv4_text, ipv6_text, Network, ScopedIpView};
use crate::ip_laws::{
    is_address_char, is_address_text, lemma_first_index_after, lemma_ipv4_text_chars,
    lemma_ipv6_text_chars, lemma_network_round_trip, lemma_scoped_ip_round_trip, network_valid,
    scoped_ip_valid,
};
use crate::number::{
    decimal_text, is_digit, lemma_decimal_text_shape, lemma_shortest_decimal_round_trip,
};
use crate::options::option_text;
use crate::seqs::{join, lemma_join_push};
use crate::text::{is_word, is_word_char, line_words};
use crate::text_laws::{
    encoded, lemma_empty_line, lemma_encoded_line, lemma_line_words_join, lemma_lines_of_text,
    lemma_unlines_add, lemma_unlines_one, unlines,
};
use crate::words_laws::{lemma_keywords, lemma_option_names};
use vstd::prelude::*;
use vstd::utf8::encode_utf8;

verus! {

// ---------------------------------------------------------------------------
// Lines of text in place of lines of bytes
// ---------------------------------------------------------------------------
/// The words of each line applied in order; the first line has the number `base`.
pub open spec fn apply_texts(o: Outcome, dialect: Dialect, lines: Seq<Seq<char>>, base: int)
    -> Outcome
    decreases lines.len(),
{
    if lines.len() == 0 {
        o
    } else {
        apply_words(
            apply_texts(o, dialect, lines.drop_last(), base),
            dialect,
            (base + lines.len() - 1) as usize,
            line_words(lines.last()),
        )
    }
}

/// A line that holds a directive as it is written: it starts with a small
/// letter and holds no line feed.
pub open spec fn is_directive_line(line: Seq<char>) -> bool {
    line.len() > 0 && 'a' <= line[0] <= 'z' && !line.contains('\n')
}

pub open spec fn are_directive_lines(lines: Seq<Seq<char>>) -> bool {
    forall|i: int| 0 <= i < lines.len() ==> is_directive_line(#[trigger] lines[i])
}

/// Lines of directives, encoded and read as lines of bytes.
pub proof fn lemma_apply_encoded(o: Outcome, dialect: Dialect, lines: Seq<Seq<char>>)
    requires
        are_directive_lines(lines),
    ensures
        apply_lines(o, dialect, encoded(lines)) == apply_texts(o, dialect, lines, 0),
    decreases lines.len(),
{
    if lines.len() > 0 {
        let front = lines.drop_last();
        assert forall|i: int| 0 <= i < front.len() implies
            is_directive_line(#[trigger] front[i]) by {
            assert(front[i] == lines[i]);
        }
        lemma_apply_encoded(o, dialect, front);
        assert(encoded(lines).drop_last() =~= encoded(front));
        assert(encoded(lines).last() == encode_utf8(lines.last()));
        assert(is_directive_line(lines[lines.len() - 1]));
        lemma_encoded_line(lines.last());
    }
}

/// The text of lines of directives, encoded and read.
pub proof fn lemma_read_lines(dialect: Dialect, lines: Seq<Seq<char>>)
    requires
        are_directive_lines(lines),
    ensures
        read(encode_utf8(unlines(lines)), dialect) == apply_texts(
            Outcome::start(),
            dialect,
            lines,
            0,
        ),
{
    assert forall|i: int| 0 <= i < lines.len() implies !(#[trigger] lines[i]).contains('\n') by {
        assert(is_directive_line(lines[i]));
    }
    lemma_lines_of_text(lines);
    lemma_apply_encoded(Outcome::start(), dialect, lines);
    lemma_empty_line();
    reveal(apply_words);
    let all = encoded(lines).push(Seq::empty());
    assert(all.drop_last() =~= encoded(lines));
    assert(all.last() == Seq::<u8>::empty());
}

/// Lines applied in two parts.
pub proof fn lemma_apply_texts_add(
    o: Outcome,
    dialect: Dialect,
    a: Seq<Seq<char>>,
    b: Seq<Seq<char>>,
    base: int,
)
    ensures
        apply_texts(o, dialect, a + b, base) == apply_texts(
            apply_texts(o, dialect, a, base),
            dialect,
            b,
            base + a.len(),
        ),
    decreases b.len(),
{
    if b.len() == 0 {
        assert(a + b =~= a);
    } else {
        assert((a + b).drop_last() =~= a + b.drop_last());
        assert((a + b).last() == b.last());
        lemma_apply_texts_add(o, dialect, a, b.drop_last(), base);
    }
}

/// One line applied.
pub proof fn lemma_apply_texts_one(o: Outcome, dialect: Dialect, line: Seq<char>, base: int)
    ensures
        apply_texts(o, dialect, seq![line], base) == apply_words(
            o,
            dialect,
            base as usize,
            line_words(line),
        ),
{
    assert(seq![line].drop_last() =~= Seq::<Seq<char>>::empty());
    assert(apply_texts(o, dialect, Seq::<Seq<char>>::empty(), base) == o);
}

// ---------------------------------------------------------------------------
// Directives as they are written
// ---------------------------------------------------------------------------
/// A directive written out: its keyword and its arguments with single
/// spaces between them.
pub open spec fn directive(keyword: Seq<char>, args: Seq<Seq<char>>) -> Seq<char> {
    join(seq![keyword] + args, ' ')
}

pub open spec fn are_words(ws: Seq<Seq<char>>) -> bool {
    forall|i: int| 0 <= i < ws.len() ==> is_word(#[trigger] ws[i])
}

/// A directive of words is a directive line, and is read as its words.
pub proof fn lemma_directive(keyword: Seq<char>, args: Seq<Seq<char>>)
    requires
        is_word(keyword),
        'a' <= keyword[0] <= 'z',
        are_words(args),
    ensures
        is_directive_line(directive(keyword, args)),
        line_words(directive(keyword, args)) == seq![keyword] + args,
{
    let ws = seq![keyword] + args;
    assert forall|i: int| 0 <= i < ws.len() implies is_word(#[trigger] ws[i]) by {
        if i > 0 {
            assert(ws[i] == args[i - 1]);
        }
    }
    lemma_line_words_join(ws);
    let s = join(ws, ' ');
    if ws.len() == 1 {
        assert(s == keyword);
    } else {
        assert(s =~= keyword + seq![' '] + join(ws.skip(1), ' '));
    }
    assert(s[0] == keyword[0]);
}

/// A keyword with its arguments behind it, each with a space in front, is
/// the directive.
pub proof fn lemma_spaced(keyword: Seq<char>, args: Seq<Seq<char>>)
    ensures
        keyword + spaced(args) == directive(keyword, args),
    decreases args.len(),
{
    if args.len() == 0 {
        assert(seq![keyword] + args =~= seq![keyword]);
        assert(keyword + spaced(args) =~= keyword);
    } else {
        let front = args.drop_last();
        lemma_spaced(keyword, front);
        lemma_join_push(seq![keyword] + front, ' ', args.last());
        assert((seq![keyword] + front).push(args.last()) =~= seq![keyword] + args);
        assert(keyword + spaced(args) =~= keyword + spaced(front) + seq![' '] + args.last());
    }
}

/// The numeral of a number is a word of digits.
pub proof fn lemma_decimal_word(n: nat)
    ensures
        is_word(decimal_text(n)),
        !decimal_text(n).contains(':'),
{
    lemma_decimal_text_shape(n);
    let t = decimal_text(n);
    assert forall|i: int| 0 <= i < t.len() implies is_word_char(#[trigger] t[i]) by {
        assert(is_digit(t[i]));
    }
    if t.contains(':') {
        let k = choose|k: int| 0 <= k < t.len() && t[k] == ':';
        assert(is_digit(t[k]));
    }
}

/// A text of address characters that is not empty is a word.
pub proof fn lemma_address_word(t: Seq<char>)
    requires
        is_address_text(t),
        t.len() > 0,
    ensures
        is_word(t),
{
    assert forall|i: int| 0 <= i < t.len() implies is_word_char(#[trigger] t[i]) by {
        assert(is_address_char(t[i]));
    }
}

/// Words written one after the other are a word.
pub proof fn lemma_word_add(a: Seq<char>, b: Seq<char>)
    requires
        is_word(a),
        is_word(b),
    ensures
        is_word(a + b),
{
    assert forall|i: int| 0 <= i < (a + b).len() implies is_word_char(#[trigger] (a + b)[i]) by {
        if i < a.len() {
            assert((a + b)[i] == a[i]);
        } else {
            assert((a + b)[i] == b[i - a.len()]);
        }
    }
}

/// A scoped address whose scope, if it has one, is a word.
pub open spec fn scope_is_word(ip: ScopedIpView) -> bool {
    match ip {
        ScopedIpView::V6(_, Some(scope)) => is_word(scope),
        _ => true,
    }
}

/// The text of a scoped address is a word.
pub proof fn lemma_scoped_ip_word(ip: ScopedIpView)
    requires
        scope_is_word(ip),
    ensures
        is_word(scoped_ip_text(ip)),
{
    reveal(scoped_ip_text);
    match ip {
        ScopedIpView::V4(a) => {
            lemma_ipv4_text_chars(a);
            lemma_address_word(ipv4_text(a));
        },
        ScopedIpView::V6(a, None) => {
            lemma_ipv6_text_chars(a);
            lemma_address_word(ipv6_text(a));
        },
        ScopedIpView::V6(a, Some(scope)) => {
            lemma_ipv6_text_chars(a);
            lemma_address_word(ipv6_text(a));
            assert(is_word(seq!['%']));
            lemma_word_add(ipv6_text(a), seq!['%']);
            lemma_word_add(ipv6_text(a) + seq!['%'], scope);
        },
    }
}

/// The text of a network is a word.
pub proof fn lemma_network_word(n: Network)
    ensures
        is_word(network_text(n)),
{
    reveal(network_text);
    assert(is_word(seq!['/']));
    match n {
        Network::V4(a, m) => {
            lemma_ipv4_text_chars(a);
            lemma_ipv4_text_chars(m);
            lemma_address_word(ipv4_text(a));
            lemma_address_word(ipv4_text(m));
            lemma_word_add(ipv4_text(a), seq!['/']);
            lemma_word_add(ipv4_text(a) + seq!['/'], ipv4_text(m));
        },
        Network::V6(a, m) => {
            lemma_ipv6_text_chars(a);
            lemma_ipv6_text_chars(m);
            lemma_address_word(ipv6_text(a));
            lemma_address_word(ipv6_text(m));
            lemma_word_add(ipv6_text(a), seq!['/']);
            lemma_word_add(ipv6_text(a) + seq!['/'], ipv6_text(m));
        },
    }
}

// ---------------------------------------------------------------------------
// What is written, part by part
// ---------------------------------------------------------------------------
/// A database of the lookup order as reading gives it: a database that has
/// no name of its own carries a word that is not the name of another.
pub open spec fn lookup_valid(l: LookupView) -> bool {
    match l {
        LookupView::Extra(name) => is_word(name) && name != "file"@ && name != "bind"@,
        _ => true,
    }
}

/// Whether an option is written: a flag that is on, a number that is not
/// the default.
pub open spec fn option_shown(c: ConfigView, o: OptionName) -> bool {
    if o.takes_number() {
        c.number(o) != o.default_number()
    } else {
        c.flag(o)
    }
}

/// What reading under a dialect leaves behind, whatever the file: every
/// word that is stored is a word, every address and network is one that is
/// read, and the rules of the dialect are kept.
pub open spec fn conforms(c: ConfigView, dialect: Dialect) -> bool {
    &&& forall|i: int|
        0 <= i < c.nameservers.len() ==> scoped_ip_valid(#[trigger] c.nameservers[i])
            && scope_is_word(c.nameservers[i])
    &&& c.consistent()
    &&& c.domain is Some ==> is_word(c.domain->0)
    &&& c.search is Some ==> are_words(c.search->0)
    &&& c.search is Some && dialect != Dialect::Permissive ==> c.search->0.len() <= 6
    &&& dialect == Dialect::StrictGlibc ==> !(c.domain is Some && c.search is Some)
    &&& forall|i: int| 0 <= i < c.sortlist.len() ==> network_valid(#[trigger] c.sortlist[i])
    &&& forall|i: int| 0 <= i < c.lookup.len() ==> lookup_valid(#[trigger] c.lookup[i])
    &&& c.port is Some ==> dialect == Dialect::MacStyle
    &&& forall|o: OptionName| #[trigger] option_shown(c, o) ==> o.known_to(dialect)
}

/// A configuration that reading gives back from its text: one that conforms
/// to the dialect and whose search list, if it has one, is not empty.
pub open spec fn survives(c: ConfigView, dialect: Dialect) -> bool {
    conforms(c, dialect) && (c.search is Some ==> c.search->0.len() > 0)
}

pub open spec fn nameserver_lines(list: Seq<ScopedIpView>) -> Seq<Seq<char>> {
    Seq::new(list.len(), |i: int| directive("nameserver"@, seq![scoped_ip_text(list[i])]))
}

pub open spec fn domain_lines(domain: Option<Seq<char>>) -> Seq<Seq<char>> {
    match domain {
        Some(d) => seq![directive("domain"@, seq![d])],
        None => Seq::empty(),
    }
}

pub open spec fn list_lines(keyword: Seq<char>, words: Seq<Seq<char>>) -> Seq<Seq<char>> {
    if words.len() == 0 {
        Seq::empty()
    } else {
        seq![directive(keyword, words)]
    }
}

pub open spec fn search_lines(search: Option<Seq<Seq<char>>>) -> Seq<Seq<char>> {
    match search {
        Some(list) => list_lines("search"@, list),
        None => Seq::empty(),
    }
}

/// The lines of `domain` and `search`: the one applied last comes last.
pub open spec fn suffix_lines(c: ConfigView) -> Seq<Seq<char>> {
    if c.last_search == LastSearch::Domain {
        search_lines(c.search) + domain_lines(c.domain)
    } else {
        domain_lines(c.domain) + search_lines(c.search)
    }
}

pub open spec fn port_lines(port: Option<u16>) -> Seq<Seq<char>> {
    match port {
        Some(p) => seq!["port:"@ + decimal_text(p as nat)],
        None => Seq::empty(),
    }
}

/// An option as it stands behind `options`.
pub open spec fn option_token(c: ConfigView, o: OptionName) -> Seq<char> {
    if o.takes_number() {
        option_text(o) + seq![':'] + decimal_text(c.number(o) as nat)
    } else {
        option_text(o)
    }
}

pub open spec fn option_lines(c: ConfigView, o: OptionName) -> Seq<Seq<char>> {
    if option_shown(c, o) {
        seq![directive("options"@, seq![option_token(c, o)])]
    } else {
        Seq::empty()
    }
}

/// The options in the order in which they are written.
pub open spec fn option_at(i: int) -> OptionName {
    if i == 0 {
        OptionName::Debug
    } else if i == 1 {
        OptionName::Ndots
    } else if i == 2 {
        OptionName::Timeout
    } else if i == 3 {
        OptionName::Attempts
    } else if i == 4 {
        OptionName::Rotate
    } else if i == 5 {
        OptionName::NoCheckNames
    } else if i == 6 {
        OptionName::Inet6
    } else if i == 7 {
        OptionName::Ip6Bytestring
    } else if i == 8 {
        OptionName::Ip6Dotint
    } else if i == 9 {
        OptionName::Edns0
    } else if i == 10 {
        OptionName::SingleRequest
    } else if i == 11 {
        OptionName::SingleRequestReopen
    } else if i == 12 {
        OptionName::NoTldQuery
    } else if i == 13 {
        OptionName::UseVc
    } else if i == 14 {
        OptionName::NoReload
    } else if i == 15 {
        OptionName::TrustAd
    } else {
        OptionName::NoAaaa
    }
}

pub const PARTS: usize = 23;

/// The lines of one part of the text of a configuration.
#[verifier::opaque]
pub open spec fn part(c: ConfigView, k: int) -> Seq<Seq<char>> {
    if k == 0 {
        nameserver_lines(c.nameservers)
    } else if k == 1 {
        suffix_lines(c)
    } else if k == 2 {
        list_lines("sortlist"@, network_words(c.sortlist))
    } else if k == 3 {
        list_lines("lookup"@, lookup_words(c.lookup))
    } else if k == 4 {
        list_lines("family"@, family_words(c.family))
    } else if k == 5 {
        port_lines(c.port)
    } else {
        option_lines(c, option_at(k - 6))
    }
}

/// The text of one part of the text of a configuration.
#[verifier::opaque]
pub open spec fn part_text(c: ConfigView, k: int) -> Seq<char> {
    if k == 0 {
        nameservers_text(c.nameservers)
    } else if k == 1 {
        domain_first(c) + search_text(c.search) + domain_last(c)
    } else if k == 2 {
        list_line("sortlist"@, network_words(c.sortlist))
    } else if k == 3 {
        list_line("lookup"@, lookup_words(c.lookup))
    } else if k == 4 {
        list_line("family"@, family_words(c.family))
    } else if k == 5 {
        port_text(c.port)
    } else {
        option_line(c, option_at(k - 6))
    }
}

/// The options that hold of `c` what the first `k` parts of a text say.
#[verifier::opaque]
pub open spec fn partial_options(c: OptionsView, k: int) -> OptionsView {
    OptionsView {
        debug: if k >= 7 {
            c.debug
        } else {
            false
        },
        ndots: if k >= 8 {
            c.ndots
        } else {
            1
        },
        timeout: if k >= 9 {
            c.timeout
        } else {
            5
        },
        attempts: if k >= 10 {
            c.attempts
        } else {
            2
        },
        rotate: if k >= 11 {
            c.rotate
        } else {
            false
        },
        no_check_names: if k >= 12 {
            c.no_check_names
        } else {
            false
        },
        inet6: if k >= 13 {
            c.inet6
        } else {
            false
        },
        ip6_bytestring: if k >= 14 {
            c.ip6_bytestring
        } else {
            false
        },
        ip6_dotint: if k >= 15 {
            c.ip6_dotint
        } else {
            false
        },
        edns0: if k >= 16 {
            c.edns0
        } else {
            false
        },
        single_request: if k >= 17 {
            c.single_request
        } else {
            false
        },
        single_request_reopen: if k >= 18 {
            c.single_request_reopen
        } else {
            false
        },
        no_tld_query: if k >= 19 {
            c.no_tld_query
        } else {
            false
        },
        use_vc: if k >= 20 {
            c.use_vc
        } else {
            false
        },
        no_reload: if k >= 21 {
            c.no_reload
        } else {
            false
        },
        trust_ad: if k >= 22 {
            c.trust_ad
        } else {
            false
        },
        no_aaaa: if k >= 23 {
            c.no_aaaa
        } else {
            false
        },
    }
}

/// The configuration that holds of `c` what the first `k` parts of its text say.
#[verifier::opaque]
pub open spec fn partial(c: ConfigView, k: int) -> ConfigView {
    ConfigView {
        nameservers: if k >= 1 {
            c.nameservers
        } else {
            Seq::empty()
        },
        last_search: if k >= 2 {
            c.last_search
        } else {
            LastSearch::Neither
        },
        domain: if k >= 2 {
            c.domain
        } else {
            None
        },
        search: if k >= 2 {
            c.search
        } else {
            None
        },
        sortlist: if k >= 3 {
            c.sortlist
        } else {
            Seq::empty()
        },
        lookup: if k >= 4 {
            c.lookup
        } else {
            Seq::empty()
        },
        family: if k >= 5 {
            c.family
        } else {
            Seq::empty()
        },
        port: if k >= 6 {
            c.port
        } else {
            None
        },
        options: partial_options(c.options, k),
    }
}

/// The lines of the first `k` parts.
pub open spec fn lines_upto(c: ConfigView, k: int) -> Seq<Seq<char>>
    decreases k,
{
    if k <= 0 {
        Seq::empty()
    } else {
        lines_upto(c, k - 1) + part(c, k - 1)
    }
}

/// The text of the first `k` parts.
pub open spec fn text_upto(c: ConfigView, k: int) -> Seq<char>
    decreases k,
{
    if k <= 0 {
        Seq::empty()
    } else {
        text_upto(c, k - 1) + part_text(c, k - 1)
    }
}

/// What holds of each part: its lines are lines of directives, their text is
/// the text of the part, and applied to what the parts before it gave, they
/// give what the parts up to it say.
pub open spec fn part_holds(c: ConfigView, dialect: Dialect, k: int, o: Outcome, base: int)
    -> bool {
    &&& are_directive_lines(part(c, k))
    &&& unlines(part(c, k)) == part_text(c, k)
    &&& apply_texts(o, dialect, part(c, k), base) == o.with(partial(c, k + 1))
}

// ---------------------------------------------------------------------------
// Each directive read back from the words it is written as
// ---------------------------------------------------------------------------
/// `nameserver` with the text of an address adds the address.
pub proof fn lemma_nameserver_words(o: Outcome, dialect: Dialect, line: usize, ip: ScopedIpView)
    requires
        scoped_ip_valid(ip),
    ensures
        apply_words(o, dialect, line, seq!["nameserver"@, scoped_ip_text(ip)]) == o.with(
            (ConfigView { nameservers: o.config.nameservers.push(ip), ..o.config }),
        ),
{
    reveal(apply_words);
    lemma_keywords();
    lemma_scoped_ip_round_trip(ip);
    let words = seq!["nameserver"@, scoped_ip_text(ip)];
    assert(words.skip(1) =~= seq![scoped_ip_text(ip)]);
}

/// `domain` with a word sets the domain.
pub proof fn lemma_domain_words(o: Outcome, dialect: Dialect, line: usize, domain: Seq<char>)
    ensures
        apply_words(o, dialect, line, seq!["domain"@, domain]) == o.with(
            with_domain(o.config, dialect, domain),
        ),
{
    reveal(apply_words);
    lemma_keywords();
    let words = seq!["domain"@, domain];
    assert(words.skip(1) =~= seq![domain]);
}

/// `search` with words sets the search list.
pub proof fn lemma_search_words(o: Outcome, dialect: Dialect, line: usize, list: Seq<Seq<char>>)
    ensures
        apply_words(o, dialect, line, seq!["search"@] + list) == o.with(
            with_search(o.config, dialect, list),
        ),
{
    reveal(apply_words);
    lemma_keywords();
    let words = seq!["search"@] + list;
    assert(words.skip(1) =~= list);
}

/// The texts of networks, read one after the other, add the networks.
pub proof fn lemma_sortlist_items(o: Outcome, line: usize, list: Seq<Network>)
    requires
        forall|i: int| 0 <= i < list.len() ==> network_valid(#[trigger] list[i]),
    ensures
        sortlist_items(o, line, network_words(list)) == o.with(
            (ConfigView { sortlist: o.config.sortlist + list, ..o.config }),
        ),
    decreases list.len(),
{
    let args = network_words(list);
    if list.len() == 0 {
        assert(o.config.sortlist + list =~= o.config.sortlist);
    } else {
        let rest = list.skip(1);
        assert forall|i: int| 0 <= i < rest.len() implies network_valid(#[trigger] rest[i]) by {
            assert(rest[i] == list[i + 1]);
        }
        lemma_network_round_trip(list[0]);
        assert(args[0] == network_text(list[0]));
        assert(args.skip(1) =~= network_words(rest));
        let next = o.with(
            (ConfigView { sortlist: o.config.sortlist.push(list[0]), ..o.config }),
        );
        lemma_sortlist_items(next, line, rest);
        assert(o.config.sortlist.push(list[0]) + rest =~= o.config.sortlist + list);
    }
}

/// `sortlist` with the texts of networks sets the sort list.
pub proof fn lemma_sortlist_words(o: Outcome, dialect: Dialect, line: usize, list: Seq<Network>)
    requires
        forall|i: int| 0 <= i < list.len() ==> network_valid(#[trigger] list[i]),
    ensures
        apply_words(o, dialect, line, seq!["sortlist"@] + network_words(list)) == o.with(
            (ConfigView { sortlist: list, ..o.config }),
        ),
{
    reveal(apply_words);
    lemma_keywords();
    let words = seq!["sortlist"@] + network_words(list);
    assert(words.skip(1) =~= network_words(list));
    let cleared = o.with((ConfigView { sortlist: Seq::empty(), ..o.config }));
    lemma_sortlist_items(cleared, line, list);
    assert(Seq::<Network>::empty() + list =~= list);
}

/// The words of databases, read one after the other, add the databases.
pub proof fn lemma_lookup_items(o: Outcome, list: Seq<LookupView>)
    requires
        forall|i: int| 0 <= i < list.len() ==> lookup_valid(#[trigger] list[i]),
    ensures
        lookup_line(o, lookup_words(list)) == o.with(
            (ConfigView { lookup: o.config.lookup + list, ..o.config }),
        ),
    decreases list.len(),
{
    let args = lookup_words(list);
    if list.len() == 0 {
        assert(o.config.lookup + list =~= o.config.lookup);
    } else {
        let rest = list.skip(1);
        assert forall|i: int| 0 <= i < rest.len() implies lookup_valid(#[trigger] rest[i]) by {
            assert(rest[i] == list[i + 1]);
        }
        lemma_keywords();
        assert(lookup_valid(list[0]));
        assert(args[0] == lookup_word(list[0]));
        assert(lookup_of(args[0]) == list[0]);
        assert(args.skip(1) =~= lookup_words(rest));
        let next = o.with((ConfigView { lookup: o.config.lookup.push(list[0]), ..o.config }));
        lemma_lookup_items(next, rest);
        assert(o.config.lookup.push(list[0]) + rest =~= o.config.lookup + list);
    }
}

/// `lookup` with the words of databases adds the databases.
pub proof fn lemma_lookup_words(o: Outcome, dialect: Dialect, line: usize, list: Seq<LookupView>)
    requires
        forall|i: int| 0 <= i < list.len() ==> lookup_valid(#[trigger] list[i]),
    ensures
        apply_words(o, dialect, line, seq!["lookup"@] + lookup_words(list)) == o.with(
            (ConfigView { lookup: o.config.lookup + list, ..o.config }),
        ),
{
    reveal(apply_words);
    lemma_keywords();
    let words = seq!["lookup"@] + lookup_words(list);
    assert(words.skip(1) =~= lookup_words(list));
    lemma_lookup_items(o, list);
}

/// The words of families, read one after the other, add the families.
pub proof fn lemma_family_items(o: Outcome, line: usize, list: Seq<Family>)
    ensures
        family_line(o, line, family_words(list)) == o.with(
            (ConfigView { family: o.config.family + list, ..o.config }),
        ),
    decreases list.len(),
{
    let args = family_words(list);
    if list.len() == 0 {
        assert(o.config.family + list =~= o.config.family);
    } else {
        let rest = list.skip(1);
        lemma_keywords();
        assert(args[0] == family_word(list[0]));
        assert(family_of(args[0]) == Some(list[0]));
        assert(args.skip(1) =~= family_words(rest));
        let next = o.with((ConfigView { family: o.config.family.push(list[0]), ..o.config }));
        lemma_family_items(next, line, rest);
        assert(o.config.family.push(list[0]) + rest =~= o.config.family + list);
    }
}

/// `family` with the words of families adds the families.
pub proof fn lemma_family_words(o: Outcome, dialect: Dialect, line: usize, list: Seq<Family>)
    ensures
        apply_words(o, dialect, line, seq!["family"@] + family_words(list)) == o.with(
            (ConfigView { family: o.config.family + list, ..o.config }),
        ),
{
    reveal(apply_words);
    lemma_keywords();
    let words = seq!["family"@] + family_words(list);
    assert(words.skip(1) =~= family_words(list));
    lemma_family_items(o, line, list);
}

/// A word cut at its colon: what stands before and behind it.
pub proof fn lemma_colon_cut(name: Seq<char>, value: Seq<char>)
    requires
        !name.contains(':'),
    ensures
        before_colon(name + seq![':'] + value) == name,
        behind_colon(name + seq![':'] + value) == Some(value),
        before_colon(name) == name,
        behind_colon(name) is None,
{
    lemma_first_index_after(name, ':', value);
    let w = name + seq![':'] + value;
    assert(w.take(name.len() as int) =~= name);
    assert(w.skip(name.len() as int + 1) =~= value);
    assert(name.take(name.len() as int) =~= name);
}

/// The port directive of macOS with a number sets the port.
pub proof fn lemma_port_words(o: Outcome, line: usize, port: u16)
    ensures
        apply_words(o, Dialect::MacStyle, line, seq!["port:"@ + decimal_text(port as nat)])
            == o.with((ConfigView { port: Some(port), ..o.config })),
{
    reveal(apply_words);
    lemma_keywords();
    let digits = decimal_text(port as nat);
    let word = "port:"@ + digits;
    assert(word =~= "port"@ + seq![':'] + digits);
    lemma_colon_cut("port"@, digits);
    lemma_shortest_decimal_round_trip(port as nat, u16::MAX as nat);
    let words = seq![word];
    assert(words.skip(1) =~= Seq::<Seq<char>>::empty());
    assert(word[0] == 'p');
    assert(word[0] != "nameserver"@[0]);
    assert(word[0] != "domain"@[0]);
    assert(word[0] != "search"@[0]);
    assert(word[0] != "sortlist"@[0]);
    assert(word[0] != "options"@[0]);
    assert(word[0] != "lookup"@[0]);
    assert(word[0] != "family"@[0]);
}

/// What an option that is written does to a configuration: it gives the
/// number of a numeric option, and applies a flag.
pub open spec fn option_applied(to: ConfigView, c: ConfigView, o: OptionName) -> ConfigView {
    if !option_shown(c, o) {
        to
    } else if o.takes_number() {
        to.with_number(o, c.number(o))
    } else {
        to.with_flag(o)
    }
}

/// `options` with an option as it is written applies the option.
pub proof fn lemma_option_words(
    o: Outcome,
    dialect: Dialect,
    line: usize,
    c: ConfigView,
    name: OptionName,
)
    requires
        option_shown(c, name),
        name.known_to(dialect),
    ensures
        apply_words(o, dialect, line, seq!["options"@, option_token(c, name)]) == o.with(
            option_applied(o.config, c, name),
        ),
{
    reveal(apply_words);
    lemma_keywords();
    lemma_option_names(name);
    let token = option_token(c, name);
    let words = seq!["options"@, token];
    let args = words.skip(1);
    assert(args =~= seq![token]);
    assert(args.skip(1) =~= Seq::<Seq<char>>::empty());
    let digits = decimal_text(c.number(name) as nat);
    lemma_colon_cut(option_text(name), digits);
    lemma_decimal_word(c.number(name) as nat);
    lemma_shortest_decimal_round_trip(c.number(name) as nat, u32::MAX as nat);
    let applied = apply_option(
        o,
        dialect,
        line,
        before_colon(args[0]),
        behind_colon(args[0]),
    );
    assert(applied == o.with(option_applied(o.config, c, name)));
    assert(options_line(applied, dialect, line, args.skip(1)) == applied);
}

// ---------------------------------------------------------------------------
// Each part of the text read back
// ---------------------------------------------------------------------------
/// One directive applied as a line.
pub proof fn lemma_apply_directive(
    o: Outcome,
    dialect: Dialect,
    base: int,
    keyword: Seq<char>,
    args: Seq<Seq<char>>,
)
    requires
        is_word(keyword),
        'a' <= keyword[0] <= 'z',
        are_words(args),
    ensures
        apply_texts(o, dialect, seq![directive(keyword, args)], base) == apply_words(
            o,
            dialect,
            base as usize,
            seq![keyword] + args,
        ),
        are_directive_lines(seq![directive(keyword, args)]),
        unlines(seq![directive(keyword, args)]) == directive(keyword, args) + seq!['\n'],
{
    lemma_directive(keyword, args);
    lemma_apply_texts_one(o, dialect, directive(keyword, args), base);
    lemma_unlines_one(directive(keyword, args));
}

/// A keyword and one word with a space between them.
pub proof fn lemma_directive_one(keyword: Seq<char>, word: Seq<char>)
    ensures
        directive(keyword, seq![word]) == keyword.push(' ') + word,
{
    let ws = seq![keyword] + seq![word];
    assert(ws.skip(1) =~= seq![word]);
    assert(join(ws.skip(1), ' ') == word);
    assert(join(ws, ' ') =~= keyword.push(' ') + word);
}

/// The `nameserver` lines read back: the addresses are added.
pub proof fn lemma_nameservers_part(
    o: Outcome,
    dialect: Dialect,
    list: Seq<ScopedIpView>,
    base: int,
)
    requires
        forall|i: int|
            0 <= i < list.len() ==> scoped_ip_valid(#[trigger] list[i]) && scope_is_word(list[i]),
    ensures
        apply_texts(o, dialect, nameserver_lines(list), base) == o.with(
            (ConfigView { nameservers: o.config.nameservers + list, ..o.config }),
        ),
        are_directive_lines(nameserver_lines(list)),
        unlines(nameserver_lines(list)) == nameservers_text(list),
    decreases list.len(),
{
    let lines = nameserver_lines(list);
    if list.len() == 0 {
        assert(lines =~= Seq::<Seq<char>>::empty());
        assert(o.config.nameservers + list =~= o.config.nameservers);
    } else {
        let front = list.drop_last();
        let ip = list.last();
        assert(scoped_ip_valid(list[list.len() - 1]) && scope_is_word(list[list.len() - 1]));
        assert forall|i: int| 0 <= i < front.len() implies scoped_ip_valid(#[trigger] front[i])
            && scope_is_word(front[i]) by {
            assert(front[i] == list[i]);
        }
        lemma_nameservers_part(o, dialect, front, base);
        lemma_keywords();
        lemma_scoped_ip_word(ip);
        let text = scoped_ip_text(ip);
        let line = directive("nameserver"@, seq![text]);
        assert(lines =~= nameserver_lines(front) + seq![line]);
        let before = apply_texts(o, dialect, nameserver_lines(front), base);
        lemma_apply_texts_add(o, dialect, nameserver_lines(front), seq![line], base);
        lemma_apply_directive(before, dialect, base + front.len(), "nameserver"@, seq![text]);
        lemma_nameserver_words(before, dialect, (base + front.len()) as usize, ip);
        assert(seq!["nameserver"@] + seq![text] =~= seq!["nameserver"@, text]);
        assert((o.config.nameservers + front).push(ip) =~= o.config.nameservers + list);
        assert forall|i: int| 0 <= i < lines.len() implies
            is_directive_line(#[trigger] lines[i]) by {
            if i < front.len() {
                assert(lines[i] == nameserver_lines(front)[i]);
            } else {
                assert(lines[i] == seq![line][0]);
            }
        }
        lemma_unlines_add(nameserver_lines(front), seq![line]);
        lemma_directive_one("nameserver"@, text);
        assert(unlines(lines) =~= nameservers_text(list));
    }
}

/// The `domain` line and what it is read back as.
pub proof fn lemma_domain_part(o: Outcome, dialect: Dialect, domain: Option<Seq<char>>, base: int)
    requires
        domain is Some ==> is_word(domain->0),
    ensures
        apply_texts(o, dialect, domain_lines(domain), base) == (match domain {
            Some(d) => o.with(with_domain(o.config, dialect, d)),
            None => o,
        }),
        are_directive_lines(domain_lines(domain)),
        unlines(domain_lines(domain)) == domain_text(domain),
{
    match domain {
        Some(d) => {
            lemma_keywords();
            lemma_apply_directive(o, dialect, base, "domain"@, seq![d]);
            lemma_domain_words(o, dialect, base as usize, d);
            assert(seq!["domain"@] + seq![d] =~= seq!["domain"@, d]);
            lemma_directive_one("domain"@, d);
        },
        None => {},
    }
}

/// A line of a keyword with a list of words, and how it is applied.
pub proof fn lemma_list_part(
    o: Outcome,
    dialect: Dialect,
    keyword: Seq<char>,
    words: Seq<Seq<char>>,
    base: int,
)
    requires
        is_word(keyword),
        'a' <= keyword[0] <= 'z',
        are_words(words),
    ensures
        apply_texts(o, dialect, list_lines(keyword, words), base) == (if words.len() == 0 {
            o
        } else {
            apply_words(o, dialect, base as usize, seq![keyword] + words)
        }),
        are_directive_lines(list_lines(keyword, words)),
        unlines(list_lines(keyword, words)) == list_line(keyword, words),
{
    if words.len() > 0 {
        lemma_apply_directive(o, dialect, base, keyword, words);
        lemma_spaced(keyword, words);
    }
}

/// The lines of `domain` and `search` read back: both are as they were,
/// and so is the record of which came last.
pub proof fn lemma_suffix_part(c: ConfigView, dialect: Dialect, o: Outcome, base: int)
    requires
        survives(c, dialect),
        o.config.domain is None,
        o.config.search is None,
        o.config.last_search == LastSearch::Neither,
    ensures
        apply_texts(o, dialect, suffix_lines(c), base) == o.with(
            (ConfigView {
                domain: c.domain,
                search: c.search,
                last_search: c.last_search,
                ..o.config
            }),
        ),
        are_directive_lines(suffix_lines(c)),
        unlines(suffix_lines(c)) == domain_first(c) + search_text(c.search) + domain_last(c),
{
    reveal(ConfigView::set_domain);
    reveal(ConfigView::set_search);
    reveal(ConfigView::clear_domain);
    reveal(ConfigView::clear_search);
    lemma_keywords();
    let d_lines = domain_lines(c.domain);
    let s_lines = search_lines(c.search);
    let list = match c.search {
        Some(l) => l,
        None => Seq::empty(),
    };
    assert(are_words(list));
    assert(s_lines == list_lines("search"@, list));
    assert(search_text(c.search) == list_line("search"@, list));
    assert(kept_search(dialect, list) == list);
    if c.last_search == LastSearch::Domain {
        let mid = apply_texts(o, dialect, s_lines, base);
        lemma_list_part(o, dialect, "search"@, list, base);
        lemma_search_words(o, dialect, base as usize, list);
        lemma_domain_part(mid, dialect, c.domain, base + s_lines.len());
        lemma_apply_texts_add(o, dialect, s_lines, d_lines, base);
        lemma_unlines_add(s_lines, d_lines);
        assert(domain_first(c) + search_text(c.search) + domain_last(c) =~= search_text(c.search)
            + domain_text(c.domain));
        assert forall|i: int| 0 <= i < (s_lines + d_lines).len() implies is_directive_line(
            #[trigger] (s_lines + d_lines)[i],
        ) by {
            if i < s_lines.len() {
                assert((s_lines + d_lines)[i] == s_lines[i]);
            } else {
                assert((s_lines + d_lines)[i] == d_lines[i - s_lines.len()]);
            }
        }
    } else {
        let mid = apply_texts(o, dialect, d_lines, base);
        lemma_domain_part(o, dialect, c.domain, base);
        lemma_list_part(mid, dialect, "search"@, list, base + d_lines.len());
        lemma_search_words(mid, dialect, (base + d_lines.len()) as usize, list);
        lemma_apply_texts_add(o, dialect, d_lines, s_lines, base);
        lemma_unlines_add(d_lines, s_lines);
        assert(domain_first(c) + search_text(c.search) + domain_last(c) =~= domain_text(c.domain)
            + search_text(c.search));
        assert forall|i: int| 0 <= i < (d_lines + s_lines).len() implies is_directive_line(
            #[trigger] (d_lines + s_lines)[i],
        ) by {
            if i < d_lines.len() {
                assert((d_lines + s_lines)[i] == d_lines[i]);
            } else {
                assert((d_lines + s_lines)[i] == s_lines[i - d_lines.len()]);
            }
        }
    }
}

/// The texts of networks are words.
pub proof fn lemma_network_words(list: Seq<Network>)
    ensures
        are_words(network_words(list)),
{
    assert forall|i: int| 0 <= i < network_words(list).len() implies is_word(
        #[trigger] network_words(list)[i],
    ) by {
        lemma_network_word(list[i]);
    }
}

/// The words of databases are words.
pub proof fn lemma_lookup_are_words(list: Seq<LookupView>)
    requires
        forall|i: int| 0 <= i < list.len() ==> lookup_valid(#[trigger] list[i]),
    ensures
        are_words(lookup_words(list)),
{
    lemma_keywords();
    assert forall|i: int| 0 <= i < lookup_words(list).len() implies is_word(
        #[trigger] lookup_words(list)[i],
    ) by {
        assert(lookup_valid(list[i]));
    }
}

/// The words of families are words.
pub proof fn lemma_family_are_words(list: Seq<Family>)
    ensures
        are_words(family_words(list)),
{
    lemma_keywords();
    assert forall|i: int| 0 <= i < family_words(list).len() implies is_word(
        #[trigger] family_words(list)[i],
    ) by {}
}

/// The `port` line read back.
pub proof fn lemma_port_part(o: Outcome, port: Option<u16>, base: int)
    ensures
        apply_texts(o, Dialect::MacStyle, port_lines(port), base) == (match port {
            Some(p) => o.with((ConfigView { port: Some(p), ..o.config })),
            None => o,
        }),
        are_directive_lines(port_lines(port)),
        unlines(port_lines(port)) == port_text(port),
{
    match port {
        Some(p) => {
            lemma_keywords();
            lemma_decimal_word(p as nat);
            let word = "port:"@ + decimal_text(p as nat);
            assert(is_word("port:"@)) by {
                lemma_word_add("port"@, seq![':']);
                assert(is_word(seq![':']));
                assert("port"@ + seq![':'] =~= "port:"@);
            }
            lemma_word_add("port:"@, decimal_text(p as nat));
            assert(word[0] == 'p');
            lemma_apply_directive(o, Dialect::MacStyle, base, word, Seq::empty());
            assert(seq![word] + Seq::<Seq<char>>::empty() =~= seq![word]);
            assert(directive(word, Seq::empty()) == word);
            lemma_port_words(o, base as usize, p);
        },
        None => {},
    }
}

/// The `options` line of one option read back.
pub proof fn lemma_option_part(
    o: Outcome,
    dialect: Dialect,
    c: ConfigView,
    name: OptionName,
    base: int,
)
    requires
        option_shown(c, name) ==> name.known_to(dialect),
    ensures
        apply_texts(o, dialect, option_lines(c, name), base) == o.with(
            option_applied(o.config, c, name),
        ),
        are_directive_lines(option_lines(c, name)),
        unlines(option_lines(c, name)) == option_line(c, name),
{
    reveal(option_line);
    if option_shown(c, name) {
        lemma_keywords();
        lemma_option_names(name);
        let token = option_token(c, name);
        lemma_decimal_word(c.number(name) as nat);
        if name.takes_number() {
            assert(is_word(seq![':']));
            lemma_word_add(option_text(name), seq![':']);
            lemma_word_add(option_text(name) + seq![':'], decimal_text(c.number(name) as nat));
        }
        lemma_apply_directive(o, dialect, base, "options"@, seq![token]);
        assert(seq!["options"@] + seq![token] =~= seq!["options"@, token]);
        lemma_option_words(o, dialect, base as usize, c, name);
        lemma_directive_one("options"@, token);
        assert(unlines(option_lines(c, name)) =~= option_line(c, name));
    }
}

/// Before the first option is read, every option is at its default.
proof fn lemma_options_early(c: OptionsView, k: int)
    requires
        k <= 6,
    ensures
        partial_options(c, k) == OptionsView::new(),
{
    reveal(partial_options);
}

/// What the option `Debug` adds to the options read before it.
proof fn lemma_options_6(c: OptionsView)
    ensures
        c.debug ==> partial_options(c, 6).with_flag(OptionName::Debug) == partial_options(c, 7),
        !c.debug ==> partial_options(c, 6) == partial_options(c, 7),
{
    reveal(partial_options);
}

/// What the option `Ndots` adds to the options read before it.
proof fn lemma_options_7(c: OptionsView)
    ensures
        partial_options(c, 7).with_number(OptionName::Ndots, c.ndots) == partial_options(c, 8),
        c.ndots == 1 ==> partial_options(c, 7) == partial_options(c, 8),
{
    reveal(partial_options);
}

/// What the option `Timeout` adds to the options read before it.
proof fn lemma_options_8(c: OptionsView)
    ensures
        partial_options(c, 8).with_number(OptionName::Timeout, c.timeout) == partial_options(c, 9),
        c.timeout == 5 ==> partial_options(c, 8) == partial_options(c, 9),
{
    reveal(partial_options);
}

/// What the option `Attempts` adds to the options read before it.
proof fn lemma_options_9(c: OptionsView)
    ensures
        partial_options(c, 9).with_number(OptionName::Attempts, c.attempts)
            == partial_options(c, 10),
        c.attempts == 2 ==> partial_options(c, 9) == partial_options(c, 10),
{
    reveal(partial_options);
}

/// What the option `Rotate` adds to the options read before it.
proof fn lemma_options_10(c: OptionsView)
    ensures
        c.rotate ==> partial_options(c, 10).with_flag(OptionName::Rotate) == partial_options(c, 11),
        !c.rotate ==> partial_options(c, 10) == partial_options(c, 11),
{
    reveal(partial_options);
}

/// What the option `NoCheckNames` adds to the options read before it.
proof fn lemma_options_11(c: OptionsView)
    ensures
        c.no_check_names ==> partial_options(c, 11).with_flag(OptionName::NoCheckNames)
            == partial_options(c, 12),
        !c.no_check_names ==> partial_options(c, 11) == partial_options(c, 12),
{
    reveal(partial_options);
}

/// What the option `Inet6` adds to the options read before it.
proof fn lemma_options_12(c: OptionsView)
    ensures
        c.inet6 ==> partial_options(c, 12).with_flag(OptionName::Inet6) == partial_options(c, 13),
        !c.inet6 ==> partial_options(c, 12) == partial_options(c, 13),
{
    reveal(partial_options);
}

/// What the option `Ip6Bytestring` adds to the options read before it.
proof fn lemma_options_13(c: OptionsView)
    ensures
        c.ip6_bytestring ==> partial_options(c, 13).with_flag(OptionName::Ip6Bytestring)
            == partial_options(c, 14),
        !c.ip6_bytestring ==> partial_options(c, 13) == partial_options(c, 14),
{
    reveal(partial_options);
}

/// What the option `Ip6Dotint` adds to the options read before it.
proof fn lemma_options_14(c: OptionsView)
    ensures
        c.ip6_dotint
            ==> partial_options(c, 14).with_flag(OptionName::Ip6Dotint) == partial_options(c, 15),
        !c.ip6_dotint ==> partial_options(c, 14) == partial_options(c, 15),
{
    reveal(partial_options);
}

/// What the option `Edns0` adds to the options read before it.
proof fn lemma_options_15(c: OptionsView)
    ensures
        c.edns0 ==> partial_options(c, 15).with_flag(OptionName::Edns0) == partial_options(c, 16),
        !c.edns0 ==> partial_options(c, 15) == partial_options(c, 16),
{
    reveal(partial_options);
}

/// What the option `SingleRequest` adds to the options read before it.
proof fn lemma_options_16(c: OptionsView)
    ensures
        c.single_request ==> partial_options(c, 16).with_flag(OptionName::SingleRequest)
            == partial_options(c, 17),
        !c.single_request ==> partial_options(c, 16) == partial_options(c, 17),
{
    reveal(partial_options);
}

/// What the option `SingleRequestReopen` adds to the options read before it.
proof fn lemma_options_17(c: OptionsView)
    ensures
        c.single_request_reopen ==> partial_options(c, 17).with_flag(
            OptionName::SingleRequestReopen,
        ) == partial_options(c, 18),
        !c.single_request_reopen ==> partial_options(c, 17) == partial_options(c, 18),
{
    reveal(partial_options);
}

/// What the option `NoTldQuery` adds to the options read before it.
proof fn lemma_options_18(c: OptionsView)
    ensures
        c.no_tld_query
            ==> partial_options(c, 18).with_flag(OptionName::NoTldQuery) == partial_options(c, 19),
        !c.no_tld_query ==> partial_options(c, 18) == partial_options(c, 19),
{
    reveal(partial_options);
}

/// What the option `UseVc` adds to the options read before it.
proof fn lemma_options_19(c: OptionsView)
    ensures
        c.use_vc ==> partial_options(c, 19).with_flag(OptionName::UseVc) == partial_options(c, 20),
        !c.use_vc ==> partial_options(c, 19) == partial_options(c, 20),
{
    reveal(partial_options);
}

/// What the option `NoReload` adds to the options read before it.
proof fn lemma_options_20(c: OptionsView)
    ensures
        c.no_reload
            ==> partial_options(c, 20).with_flag(OptionName::NoReload) == partial_options(c, 21),
        !c.no_reload ==> partial_options(c, 20) == partial_options(c, 21),
{
    reveal(partial_options);
}

/// What the option `TrustAd` adds to the options read before it.
proof fn lemma_options_21(c: OptionsView)
    ensures
        c.trust_ad
            ==> partial_options(c, 21).with_flag(OptionName::TrustAd) == partial_options(c, 22),
        !c.trust_ad ==> partial_options(c, 21) == partial_options(c, 22),
{
    reveal(partial_options);
}

/// What the option `NoAaaa` adds to the options read before it.
proof fn lemma_options_22(c: OptionsView)
    ensures
        c.no_aaaa
            ==> partial_options(c, 22).with_flag(OptionName::NoAaaa) == partial_options(c, 23),
        !c.no_aaaa ==> partial_options(c, 22) == partial_options(c, 23),
{
    reveal(partial_options);
}

/// The name servers read back.
proof fn lemma_part_0(c: ConfigView, dialect: Dialect, o: Outcome, base: int)
    requires
        survives(c, dialect),
        o.config == partial(c, 0),
    ensures
        part_holds(c, dialect, 0, o, base),
{
    reveal(part);
    reveal(part_text);
    reveal(partial);
    lemma_options_early(c.options, 0);
    lemma_options_early(c.options, 1);
    lemma_nameservers_part(o, dialect, c.nameservers, base);
    assert(o.config.nameservers + c.nameservers =~= c.nameservers);
}

/// `domain` and `search` read back.
proof fn lemma_part_1(c: ConfigView, dialect: Dialect, o: Outcome, base: int)
    requires
        survives(c, dialect),
        o.config == partial(c, 1),
    ensures
        part_holds(c, dialect, 1, o, base),
{
    reveal(part);
    reveal(part_text);
    reveal(partial);
    lemma_options_early(c.options, 1);
    lemma_options_early(c.options, 2);
    lemma_suffix_part(c, dialect, o, base);
}

/// The sort list read back.
proof fn lemma_part_2(c: ConfigView, dialect: Dialect, o: Outcome, base: int)
    requires
        survives(c, dialect),
        o.config == partial(c, 2),
    ensures
        part_holds(c, dialect, 2, o, base),
{
    reveal(part);
    reveal(part_text);
    reveal(partial);
    lemma_options_early(c.options, 2);
    lemma_options_early(c.options, 3);
    lemma_keywords();
    lemma_network_words(c.sortlist);
    lemma_list_part(o, dialect, "sortlist"@, network_words(c.sortlist), base);
    lemma_sortlist_words(o, dialect, base as usize, c.sortlist);
    if c.sortlist.len() == 0 {
        assert(c.sortlist =~= Seq::<Network>::empty());
        assert(o == o.with(partial(c, 3)));
    }
}

/// The lookup order read back.
proof fn lemma_part_3(c: ConfigView, dialect: Dialect, o: Outcome, base: int)
    requires
        survives(c, dialect),
        o.config == partial(c, 3),
    ensures
        part_holds(c, dialect, 3, o, base),
{
    reveal(part);
    reveal(part_text);
    reveal(partial);
    lemma_options_early(c.options, 3);
    lemma_options_early(c.options, 4);
    lemma_keywords();
    lemma_lookup_are_words(c.lookup);
    lemma_list_part(o, dialect, "lookup"@, lookup_words(c.lookup), base);
    lemma_lookup_words(o, dialect, base as usize, c.lookup);
    assert(o.config.lookup + c.lookup =~= c.lookup);
    if c.lookup.len() == 0 {
        assert(c.lookup =~= Seq::<LookupView>::empty());
        assert(o == o.with(partial(c, 4)));
    }
}

/// The families read back.
proof fn lemma_part_4(c: ConfigView, dialect: Dialect, o: Outcome, base: int)
    requires
        survives(c, dialect),
        o.config == partial(c, 4),
    ensures
        part_holds(c, dialect, 4, o, base),
{
    reveal(part);
    reveal(part_text);
    reveal(partial);
    lemma_options_early(c.options, 4);
    lemma_options_early(c.options, 5);
    lemma_keywords();
    lemma_family_are_words(c.family);
    lemma_list_part(o, dialect, "family"@, family_words(c.family), base);
    lemma_family_words(o, dialect, base as usize, c.family);
    assert(o.config.family + c.family =~= c.family);
    if c.family.len() == 0 {
        assert(c.family =~= Seq::<Family>::empty());
        assert(o == o.with(partial(c, 5)));
    }
}

/// The port read back.
proof fn lemma_part_5(c: ConfigView, dialect: Dialect, o: Outcome, base: int)
    requires
        survives(c, dialect),
        o.config == partial(c, 5),
    ensures
        part_holds(c, dialect, 5, o, base),
{
    reveal(part);
    reveal(part_text);
    reveal(partial);
    lemma_options_early(c.options, 5);
    lemma_options_early(c.options, 6);
    if c.port is Some {
        lemma_port_part(o, c.port, base);
    } else {
        assert(part(c, 5) =~= Seq::<Seq<char>>::empty());
        assert(o == o.with(partial(c, 6)));
    }
}

/// The option `Debug` read back.
proof fn lemma_part_6(c: ConfigView, dialect: Dialect, o: Outcome, base: int)
    requires
        survives(c, dialect),
        o.config == partial(c, 6),
    ensures
        part_holds(c, dialect, 6, o, base),
{
    reveal(part);
    reveal(part_text);
    reveal(partial);
    assert(option_at(0) == OptionName::Debug);
    assert(option_shown(c, OptionName::Debug) ==> OptionName::Debug.known_to(dialect));
    lemma_option_part(o, dialect, c, OptionName::Debug, base);
    lemma_options_6(c.options);
    assert(option_applied(partial(c, 6), c, OptionName::Debug).options == partial_options(
        c.options,
        7,
    ));
    assert(option_applied(partial(c, 6), c, OptionName::Debug) == partial(c, 7));
}

/// The option `Ndots` read back.
proof fn lemma_part_7(c: ConfigView, dialect: Dialect, o: Outcome, base: int)
    requires
        survives(c, dialect),
        o.config == partial(c, 7),
    ensures
        part_holds(c, dialect, 7, o, base),
{
    reveal(part);
    reveal(part_text);
    reveal(partial);
    assert(option_at(1) == OptionName::Ndots);
    assert(option_shown(c, OptionName::Ndots) ==> OptionName::Ndots.known_to(dialect));
    lemma_option_part(o, dialect, c, OptionName::Ndots, base);
    lemma_options_7(c.options);
    assert(option_applied(partial(c, 7), c, OptionName::Ndots).options == partial_options(
        c.options,
        8,
    ));
    assert(option_applied(partial(c, 7), c, OptionName::Ndots) == partial(c, 8));
}

/// The option `Timeout` read back.
proof fn lemma_part_8(c: ConfigView, dialect: Dialect, o: Outcome, base: int)
    requires
        survives(c, dialect),
        o.config == partial(c, 8),
    ensures
        part_holds(c, dialect, 8, o, base),
{
    reveal(part);
    reveal(part_text);
    reveal(partial);
    assert(option_at(2) == OptionName::Timeout);
    assert(option_shown(c, OptionName::Timeout) ==> OptionName::Timeout.known_to(dialect));
    lemma_option_part(o, dialect, c, OptionName::Timeout, base);
    lemma_options_8(c.options);
    assert(option_applied(partial(c, 8), c, OptionName::Timeout).options == partial_options(
        c.options,
        9,
    ));
    assert(option_applied(partial(c, 8), c, OptionName::Timeout) == partial(c, 9));
}

/// The option `Attempts` read back.
proof fn lemma_part_9(c: ConfigView, dialect: Dialect, o: Outcome, base: int)
    requires
        survives(c, dialect),
        o.config == partial(c, 9),
    ensures
        part_holds(c, dialect, 9, o, base),
{
    reveal(part);
    reveal(part_text);
    reveal(partial);
    assert(option_at(3) == OptionName::Attempts);
    assert(option_shown(c, OptionName::Attempts) ==> OptionName::Attempts.known_to(dialect));
    lemma_option_part(o, dialect, c, OptionName::Attempts, base);
    lemma_options_9(c.options);
    assert(option_applied(partial(c, 9), c, OptionName::Attempts).options == partial_options(
        c.options,
        10,
    ));
    assert(option_applied(partial(c, 9), c, OptionName::Attempts) == partial(c, 10));
}

/// The option `Rotate` read back.
proof fn lemma_part_10(c: ConfigView, dialect: Dialect, o: Outcome, base: int)
    requires
        survives(c, dialect),
        o.config == partial(c, 10),
    ensures
        part_holds(c, dialect, 10, o, base),
{
    reveal(part);
    reveal(part_text);
    reveal(partial);
    assert(option_at(4) == OptionName::Rotate);
    assert(option_shown(c, OptionName::Rotate) ==> OptionName::Rotate.known_to(dialect));
    lemma_option_part(o, dialect, c, OptionName::Rotate, base);
    lemma_options_10(c.options);
    assert(option_applied(partial(c, 10), c, OptionName::Rotate).options == partial_options(
        c.options,
        11,
    ));
    assert(option_applied(partial(c, 10), c, OptionName::Rotate) == partial(c, 11));
}

/// The option `NoCheckNames` read back.
proof fn lemma_part_11(c: ConfigView, dialect: Dialect, o: Outcome, base: int)
    requires
        survives(c, dialect),
        o.config == partial(c, 11),
    ensures
        part_holds(c, dialect, 11, o, base),
{
    reveal(part);
    reveal(part_text);
    reveal(partial);
    assert(option_at(5) == OptionName::NoCheckNames);
    assert(option_shown(c, OptionName::NoCheckNames)
        ==> OptionName::NoCheckNames.known_to(dialect));
    lemma_option_part(o, dialect, c, OptionName::NoCheckNames, base);
    lemma_options_11(c.options);
    assert(option_applied(partial(c, 11), c, OptionName::NoCheckNames).options == partial_options(
        c.options,
        12,
    ));
    assert(option_applied(partial(c, 11), c, OptionName::NoCheckNames) == partial(c, 12));
}

/// The option `Inet6` read back.
proof fn lemma_part_12(c: ConfigView, dialect: Dialect, o: Outcome, base: int)
    requires
        survives(c, dialect),
        o.config == partial(c, 12),
    ensures
        part_holds(c, dialect, 12, o, base),
{
    reveal(part);
    reveal(part_text);
    reveal(partial);
    assert(option_at(6) == OptionName::Inet6);
    assert(option_shown(c, OptionName::Inet6) ==> OptionName::Inet6.known_to(dialect));
    lemma_option_part(o, dialect, c, OptionName::Inet6, base);
    lemma_options_12(c.options);
    assert(option_applied(partial(c, 12), c, OptionName::Inet6).options == partial_options(
        c.options,
        13,
    ));
    assert(option_applied(partial(c, 12), c, OptionName::Inet6) == partial(c, 13));
}

/// The option `Ip6Bytestring` read back.
proof fn lemma_part_13(c: ConfigView, dialect: Dialect, o: Outcome, base: int)
    requires
        survives(c, dialect),
        o.config == partial(c, 13),
    ensures
        part_holds(c, dialect, 13, o, base),
{
    reveal(part);
    reveal(part_text);
    reveal(partial);
    assert(option_at(7) == OptionName::Ip6Bytestring);
    assert(option_shown(c, OptionName::Ip6Bytestring)
        ==> OptionName::Ip6Bytestring.known_to(dialect));
    lemma_option_part(o, dialect, c, OptionName::Ip6Bytestring, base);
    lemma_options_13(c.options);
    assert(option_applied(partial(c, 13), c, OptionName::Ip6Bytestring).options == partial_options(
        c.options,
        14,
    ));
    assert(option_applied(partial(c, 13), c, OptionName::Ip6Bytestring) == partial(c, 14));
}

/// The option `Ip6Dotint` read back.
proof fn lemma_part_14(c: ConfigView, dialect: Dialect, o: Outcome, base: int)
    requires
        survives(c, dialect),
        o.config == partial(c, 14),
    ensures
        part_holds(c, dialect, 14, o, base),
{
    reveal(part);
    reveal(part_text);
    reveal(partial);
    assert(option_at(8) == OptionName::Ip6Dotint);
    assert(option_shown(c, OptionName::Ip6Dotint) ==> OptionName::Ip6Dotint.known_to(dialect));
    lemma_option_part(o, dialect, c, OptionName::Ip6Dotint, base);
    lemma_options_14(c.options);
    assert(option_applied(partial(c, 14), c, OptionName::Ip6Dotint).options == partial_options(
        c.options,
        15,
    ));
    assert(option_applied(partial(c, 14), c, OptionName::Ip6Dotint) == partial(c, 15));
}

/// The option `Edns0` read back.
proof fn lemma_part_15(c: ConfigView, dialect: Dialect, o: Outcome, base: int)
    requires
        survives(c, dialect),
        o.config == partial(c, 15),
    ensures
        part_holds(c, dialect, 15, o, base),
{
    reveal(part);
    reveal(part_text);
    reveal(partial);
    assert(option_at(9) == OptionName::Edns0);
    assert(option_shown(c, OptionName::Edns0) ==> OptionName::Edns0.known_to(dialect));
    lemma_option_part(o, dialect, c, OptionName::Edns0, base);
    lemma_options_15(c.options);
    assert(option_applied(partial(c, 15), c, OptionName::Edns0).options == partial_options(
        c.options,
        16,
    ));
    assert(option_applied(partial(c, 15), c, OptionName::Edns0) == partial(c, 16));
}

/// The option `SingleRequest` read back.
proof fn lemma_part_16(c: ConfigView, dialect: Dialect, o: Outcome, base: int)
    requires
        survives(c, dialect),
        o.config == partial(c, 16),
    ensures
        part_holds(c, dialect, 16, o, base),
{
    reveal(part);
    reveal(part_text);
    reveal(partial);
    assert(option_at(10) == OptionName::SingleRequest);
    assert(option_shown(c, OptionName::SingleRequest)
        ==> OptionName::SingleRequest.known_to(dialect));
    lemma_option_part(o, dialect, c, OptionName::SingleRequest, base);
    lemma_options_16(c.options);
    assert(option_applied(partial(c, 16), c, OptionName::SingleRequest).options == partial_options(
        c.options,
        17,
    ));
    assert(option_applied(partial(c, 16), c, OptionName::SingleRequest) == partial(c, 17));
}

/// The option `SingleRequestReopen` read back.
proof fn lemma_part_17(c: ConfigView, dialect: Dialect, o: Outcome, base: int)
    requires
        survives(c, dialect),
        o.config == partial(c, 17),
    ensures
        part_holds(c, dialect, 17, o, base),
{
    reveal(part);
    reveal(part_text);
    reveal(partial);
    assert(option_at(11) == OptionName::SingleRequestReopen);
    assert(option_shown(c, OptionName::SingleRequestReopen)
        ==> OptionName::SingleRequestReopen.known_to(dialect));
    lemma_option_part(o, dialect, c, OptionName::SingleRequestReopen, base);
    lemma_options_17(c.options);
    assert(option_applied(partial(c, 17), c, OptionName::SingleRequestReopen).options
        == partial_options(
        c.options,
        18,
    ));
    assert(option_applied(partial(c, 17), c, OptionName::SingleRequestReopen) == partial(c, 18));
}

/// The option `NoTldQuery` read back.
proof fn lemma_part_18(c: ConfigView, dialect: Dialect, o: Outcome, base: int)
    requires
        survives(c, dialect),
        o.config == partial(c, 18),
    ensures
        part_holds(c, dialect, 18, o, base),
{
    reveal(part);
    reveal(part_text);
    reveal(partial);
    assert(option_at(12) == OptionName::NoTldQuery);
    assert(option_shown(c, OptionName::NoTldQuery) ==> OptionName::NoTldQuery.known_to(dialect));
    lemma_option_part(o, dialect, c, OptionName::NoTldQuery, base);
    lemma_options_18(c.options);
    assert(option_applied(partial(c, 18), c, OptionName::NoTldQuery).options == partial_options(
        c.options,
        19,
    ));
    assert(option_applied(partial(c, 18), c, OptionName::NoTldQuery) == partial(c, 19));
}

/// The option `UseVc` read back.
proof fn lemma_part_19(c: ConfigView, dialect: Dialect, o: Outcome, base: int)
    requires
        survives(c, dialect),
        o.config == partial(c, 19),
    ensures
        part_holds(c, dialect, 19, o, base),
{
    reveal(part);
    reveal(part_text);
    reveal(partial);
    assert(option_at(13) == OptionName::UseVc);
    assert(option_shown(c, OptionName::UseVc) ==> OptionName::UseVc.known_to(dialect));
    lemma_option_part(o, dialect, c, OptionName::UseVc, base);
    lemma_options_19(c.options);
    assert(option_applied(partial(c, 19), c, OptionName::UseVc).options == partial_options(
        c.options,
        20,
    ));
    assert(option_applied(partial(c, 19), c, OptionName::UseVc) == partial(c, 20));
}

/// The option `NoReload` read back.
proof fn lemma_part_20(c: ConfigView, dialect: Dialect, o: Outcome, base: int)
    requires
        survives(c, dialect),
        o.config == partial(c, 20),
    ensures
        part_holds(c, dialect, 20, o, base),
{
    reveal(part);
    reveal(part_text);
    reveal(partial);
    assert(option_at(14) == OptionName::NoReload);
    assert(option_shown(c, OptionName::NoReload) ==> OptionName::NoReload.known_to(dialect));
    lemma_option_part(o, dialect, c, OptionName::NoReload, base);
    lemma_options_20(c.options);
    assert(option_applied(partial(c, 20), c, OptionName::NoReload).options == partial_options(
        c.options,
        21,
    ));
    assert(option_applied(partial(c, 20), c, OptionName::NoReload) == partial(c, 21));
}

/// The option `TrustAd` read back.
proof fn lemma_part_21(c: ConfigView, dialect: Dialect, o: Outcome, base: int)
    requires
        survives(c, dialect),
        o.config == partial(c, 21),
    ensures
        part_holds(c, dialect, 21, o, base),
{
    reveal(part);
    reveal(part_text);
    reveal(partial);
    assert(option_at(15) == OptionName::TrustAd);
    assert(option_shown(c, OptionName::TrustAd) ==> OptionName::TrustAd.known_to(dialect));
    lemma_option_part(o, dialect, c, OptionName::TrustAd, base);
    lemma_options_21(c.options);
    assert(option_applied(partial(c, 21), c, OptionName::TrustAd).options == partial_options(
        c.options,
        22,
    ));
    assert(option_applied(partial(c, 21), c, OptionName::TrustAd) == partial(c, 22));
}

/// The option `NoAaaa` read back.
proof fn lemma_part_22(c: ConfigView, dialect: Dialect, o: Outcome, base: int)
    requires
        survives(c, dialect),
        o.config == partial(c, 22),
    ensures
        part_holds(c, dialect, 22, o, base),
{
    reveal(part);
    reveal(part_text);
    reveal(partial);
    assert(option_at(16) == OptionName::NoAaaa);
    assert(option_shown(c, OptionName::NoAaaa) ==> OptionName::NoAaaa.known_to(dialect));
    lemma_option_part(o, dialect, c, OptionName::NoAaaa, base);
    lemma_options_22(c.options);
    assert(option_applied(partial(c, 22), c, OptionName::NoAaaa).options == partial_options(
        c.options,
        23,
    ));
    assert(option_applied(partial(c, 22), c, OptionName::NoAaaa) == partial(c, 23));
}

/// Each part of the text read back.
pub proof fn lemma_part(c: ConfigView, dialect: Dialect, k: int, o: Outcome, base: int)
    requires
        survives(c, dialect),
        0 <= k < PARTS,
        o.config == partial(c, k),
    ensures
        part_holds(c, dialect, k, o, base),
{
    if k == 0 {
        lemma_part_0(c, dialect, o, base);
    } else if k == 1 {
        lemma_part_1(c, dialect, o, base);
    } else if k == 2 {
        lemma_part_2(c, dialect, o, base);
    } else if k == 3 {
        lemma_part_3(c, dialect, o, base);
    } else if k == 4 {
        lemma_part_4(c, dialect, o, base);
    } else if k == 5 {
        lemma_part_5(c, dialect, o, base);
    } else if k == 6 {
        lemma_part_6(c, dialect, o, base);
    } else if k == 7 {
        lemma_part_7(c, dialect, o, base);
    } else if k == 8 {
        lemma_part_8(c, dialect, o, base);
    } else if k == 9 {
        lemma_part_9(c, dialect, o, base);
    } else if k == 10 {
        lemma_part_10(c, dialect, o, base);
    } else if k == 11 {
        lemma_part_11(c, dialect, o, base);
    } else if k == 12 {
        lemma_part_12(c, dialect, o, base);
    } else if k == 13 {
        lemma_part_13(c, dialect, o, base);
    } else if k == 14 {
        lemma_part_14(c, dialect, o, base);
    } else if k == 15 {
        lemma_part_15(c, dialect, o, base);
    } else if k == 16 {
        lemma_part_16(c, dialect, o, base);
    } else if k == 17 {
        lemma_part_17(c, dialect, o, base);
    } else if k == 18 {
        lemma_part_18(c, dialect, o, base);
    } else if k == 19 {
        lemma_part_19(c, dialect, o, base);
    } else if k == 20 {
        lemma_part_20(c, dialect, o, base);
    } else if k == 21 {
        lemma_part_21(c, dialect, o, base);
    } else {
        lemma_part_22(c, dialect, o, base);
    }
}

/// The first `k` parts of the text read back.
pub proof fn lemma_upto(c: ConfigView, dialect: Dialect, k: int)
    requires
        survives(c, dialect),
        0 <= k <= PARTS,
    ensures
        are_directive_lines(lines_upto(c, k)),
        unlines(lines_upto(c, k)) == text_upto(c, k),
        apply_texts(Outcome::start(), dialect, lines_upto(c, k), 0) == Outcome::start().with(
            partial(c, k),
        ),
    decreases k,
{
    if k == 0 {
        reveal(partial);
        lemma_options_early(c.options, 0);
        assert(partial(c, 0) == ConfigView::new());
    } else {
        lemma_upto(c, dialect, k - 1);
        let before = lines_upto(c, k - 1);
        let these = part(c, k - 1);
        let o = Outcome::start().with(partial(c, k - 1));
        lemma_part(c, dialect, k - 1, o, before.len() as int);
        lemma_apply_texts_add(Outcome::start(), dialect, before, these, 0);
        lemma_unlines_add(before, these);
        assert forall|i: int| 0 <= i < (before + these).len() implies is_directive_line(
            #[trigger] (before + these)[i],
        ) by {
            if i < before.len() {
                assert((before + these)[i] == before[i]);
            } else {
                assert((before + these)[i] == these[i - before.len()]);
            }
        }
    }
}

/// The lines of the first `j` options.
pub open spec fn options_upto(c: ConfigView, j: int) -> Seq<char>
    decreases j,
{
    if j <= 0 {
        Seq::empty()
    } else {
        options_upto(c, j - 1) + option_line(c, option_at(j - 1))
    }
}

/// The `options` lines are the lines of the options in their order.
proof fn lemma_options_text(c: ConfigView)
    ensures
        options_text(c) == options_upto(c, 17),
{
    assert(options_upto(c, 0) == Seq::<char>::empty());
    assert(options_upto(c, 1) == options_upto(c, 0) + option_line(c, OptionName::Debug));
    assert(options_upto(c, 2) == options_upto(c, 1) + option_line(c, OptionName::Ndots));
    assert(options_upto(c, 3) == options_upto(c, 2) + option_line(c, OptionName::Timeout));
    assert(options_upto(c, 4) == options_upto(c, 3) + option_line(c, OptionName::Attempts));
    assert(options_upto(c, 5) == options_upto(c, 4) + option_line(c, OptionName::Rotate));
    assert(options_upto(c, 6) == options_upto(c, 5) + option_line(c, OptionName::NoCheckNames));
    assert(options_upto(c, 7) == options_upto(c, 6) + option_line(c, OptionName::Inet6));
    assert(options_upto(c, 8) == options_upto(c, 7) + option_line(c, OptionName::Ip6Bytestring));
    assert(options_upto(c, 9) == options_upto(c, 8) + option_line(c, OptionName::Ip6Dotint));
    assert(options_upto(c, 10) == options_upto(c, 9) + option_line(c, OptionName::Edns0));
    assert(options_upto(c, 11) == options_upto(c, 10) + option_line(c, OptionName::SingleRequest));
    assert(options_upto(c, 12)
        == options_upto(c, 11) + option_line(c, OptionName::SingleRequestReopen));
    assert(options_upto(c, 13) == options_upto(c, 12) + option_line(c, OptionName::NoTldQuery));
    assert(options_upto(c, 14) == options_upto(c, 13) + option_line(c, OptionName::UseVc));
    assert(options_upto(c, 15) == options_upto(c, 14) + option_line(c, OptionName::NoReload));
    assert(options_upto(c, 16) == options_upto(c, 15) + option_line(c, OptionName::TrustAd));
    assert(options_upto(c, 17) == options_upto(c, 16) + option_line(c, OptionName::NoAaaa));
    assert(options_text(c) =~= options_upto(c, 17));
}

/// Behind the port, the text of the parts is the text of the options.
proof fn lemma_text_of_options(c: ConfigView, j: int)
    requires
        0 <= j,
    ensures
        text_upto(c, 6 + j) == text_upto(c, 6) + options_upto(c, j),
    decreases j,
{
    if j == 0 {
        assert(text_upto(c, 6) + options_upto(c, 0) =~= text_upto(c, 6));
    } else {
        lemma_text_of_options(c, j - 1);
        reveal(part_text);
        assert(part_text(c, 6 + j - 1) == option_line(c, option_at(j - 1)));
        assert(text_upto(c, 6 + j) =~= text_upto(c, 6) + options_upto(c, j));
    }
}

/// The text of a configuration is the text of its parts.
pub proof fn lemma_text_of_parts(c: ConfigView)
    ensures
        config_text(c) == text_upto(c, PARTS as int),
{
    let t0 = text_upto(c, 0);
    let t1 = text_upto(c, 1);
    let t2 = text_upto(c, 2);
    let t3 = text_upto(c, 3);
    let t4 = text_upto(c, 4);
    let t5 = text_upto(c, 5);
    let t6 = text_upto(c, 6);
    assert(t0 == Seq::<char>::empty());
    assert(t1 =~= nameservers_text(c.nameservers)) by {
        reveal(part_text);
    }
    assert(t2 =~= t1 + domain_first(c) + search_text(c.search) + domain_last(c)) by {
        reveal(part_text);
    }
    assert(t3 == t2 + list_line("sortlist"@, network_words(c.sortlist))) by {
        reveal(part_text);
    }
    assert(t4 == t3 + list_line("lookup"@, lookup_words(c.lookup))) by {
        reveal(part_text);
    }
    assert(t5 == t4 + list_line("family"@, family_words(c.family))) by {
        reveal(part_text);
    }
    assert(t6 == t5 + port_text(c.port)) by {
        reveal(part_text);
    }
    lemma_text_of_options(c, 17);
    lemma_options_text(c);
    assert(config_text(c) == t6 + options_text(c));
}

/// What all the parts of the text say is the configuration.
pub proof fn lemma_all_parts(c: ConfigView)
    ensures
        partial(c, PARTS as int) == c,
{
    reveal(partial);
    reveal(partial_options);
    assert(partial_options(c.options, 23) == c.options);
}

/// A configuration that was read under a dialect is read back from its own
/// text, under the same dialect, as it is and without an error. The one
/// thing that is not read back is a search list without entries: it leaves
/// no line in the text.
pub proof fn law_round_trip(c: ConfigView, dialect: Dialect)
    requires
        survives(c, dialect),
    ensures
        read(encode_utf8(config_text(c)), dialect).config == c,
        read(encode_utf8(config_text(c)), dialect).errors == Seq::<ParseError>::empty(),
{
    lemma_upto(c, dialect, PARTS as int);
    lemma_text_of_parts(c);
    lemma_all_parts(c);
    lemma_read_lines(dialect, lines_upto(c, PARTS as int));
}

} // verus!
