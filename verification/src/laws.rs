//! What holds of reading, whatever the file: comment lines and empty files
//! leave nothing behind, what is read conforms to the dialect, and what is
//! read is read again from its own text.

use crate::config::{ConfigView, Dialect, OptionName};
use crate::format::config_text;
use crate::grammar::{
    apply_line, apply_lines, apply_option, apply_words, before_colon, behind_colon, domain_line,
    family_line, kept_search, lookup_line, lookup_of, nameserver_line, options_line, port_line,
    read, search_line, sortlist_items, sortlist_line, with_domain, with_search, Outcome, ParseError,
};
use crate::ip::{is_scope, network_of, scoped_ip_of, ScopedIpView};
use crate::ip_laws::{network_valid, scoped_ip_valid};
use crate::number::unsigned_of;
use crate::options::option_named;
use crate::round_trip::{
    are_words, conforms, law_round_trip, lookup_valid, option_shown, scope_is_word,
};
use crate::seqs::{first_index, lemma_first_index, split_on};
use crate::text::{
    is_comment_mark, is_space, is_word, is_word_char, lemma_comment_start, lemma_indent_is,
    lemma_word_len, line_words, strip_comment, word_len, words,
};
use crate::text_laws::lemma_empty_line;
use vstd::prelude::*;
use vstd::utf8::{decode_utf8, encode_utf8};

verus! {

/// A line whose first byte behind tabs and spaces is `#` or `;` changes
/// nothing and reports nothing, whatever bytes follow the mark: they need
/// not even be text.
pub proof fn law_comment_line(
    o: Outcome,
    dialect: Dialect,
    line: usize,
    bytes: Seq<u8>,
    mark: int,
)
    requires
        0 <= mark < bytes.len(),
        forall|j: int| 0 <= j < mark ==> bytes[j] == 9 || bytes[j] == 32,
        bytes[mark] == 35 || bytes[mark] == 59,
    ensures
        apply_line(o, dialect, line, bytes) == o,
{
    lemma_indent_is(bytes, mark);
}

/// A file without a single byte gives the configuration in which nothing is
/// set, and no error.
pub proof fn law_empty_file(dialect: Dialect)
    ensures
        read(Seq::<u8>::empty(), dialect) == Outcome::start(),
{
    let lines = split_on(Seq::<u8>::empty(), 10u8);
    assert(lines =~= seq![Seq::<u8>::empty()]);
    assert(lines.drop_last() =~= Seq::<Seq<u8>>::empty());
    lemma_empty_line();
    reveal(apply_words);
    assert(apply_lines(Outcome::start(), dialect, lines.drop_last()) == Outcome::start());
}

// ---------------------------------------------------------------------------
// What reading leaves behind
// ---------------------------------------------------------------------------
/// The words of a text without comment marks are words.
pub proof fn lemma_words_are_words(t: Seq<char>)
    requires
        forall|j: int| 0 <= j < t.len() ==> !is_comment_mark(#[trigger] t[j]),
    ensures
        are_words(words(t)),
    decreases t.len(),
{
    if t.len() == 0 {
    } else if is_space(t[0]) {
        assert forall|j: int| 0 <= j < t.skip(1).len() implies !is_comment_mark(
            #[trigger] t.skip(1)[j],
        ) by {
            assert(t.skip(1)[j] == t[j + 1]);
        }
        lemma_words_are_words(t.skip(1));
    } else {
        let n = word_len(t) as int;
        lemma_word_len(t);
        let rest = t.skip(n);
        assert forall|j: int| 0 <= j < rest.len() implies !is_comment_mark(#[trigger] rest[j]) by {
            assert(rest[j] == t[j + n]);
        }
        lemma_words_are_words(rest);
        let w = t.take(n);
        assert(is_word(w)) by {
            assert forall|i: int| 0 <= i < w.len() implies is_word_char(#[trigger] w[i]) by {
                assert(w[i] == t[i]);
            }
        }
        let all = seq![w] + words(rest);
        assert forall|i: int| 0 <= i < all.len() implies is_word(#[trigger] all[i]) by {
            if i > 0 {
                assert(all[i] == words(rest)[i - 1]);
            }
        }
    }
}

/// The words of a line are words.
pub proof fn lemma_line_words_are_words(s: Seq<char>)
    ensures
        are_words(line_words(s)),
{
    lemma_comment_start(s);
    let t = strip_comment(s);
    assert forall|j: int| 0 <= j < t.len() implies !is_comment_mark(#[trigger] t[j]) by {
        assert(t[j] == s[j]);
    }
    lemma_words_are_words(t);
}

/// What stands behind a mark in a word is a word, where there is anything.
pub proof fn lemma_word_tail(w: Seq<char>, i: int)
    requires
        is_word(w),
        0 <= i < w.len(),
    ensures
        is_word(w.skip(i)),
{
    assert forall|j: int| 0 <= j < w.skip(i).len() implies
        is_word_char(#[trigger] w.skip(i)[j]) by {
        assert(w.skip(i)[j] == w[j + i]);
    }
}

/// An address that is read from a word has a scope that is a word.
pub proof fn lemma_scoped_ip_read(w: Seq<char>)
    requires
        is_word(w),
        scoped_ip_of(w) is Some,
    ensures
        scoped_ip_valid(scoped_ip_of(w)->0),
        scope_is_word(scoped_ip_of(w)->0),
{
    reveal(scoped_ip_of);
    let i = first_index(w, '%');
    lemma_first_index(w, '%');
    match scoped_ip_of(w)->0 {
        ScopedIpView::V6(_, Some(scope)) => {
            assert(scope == w.skip(i + 1));
            assert(is_scope(scope));
            lemma_word_tail(w, i + 1);
        },
        _ => {},
    }
}

/// A network that is read is valid.
pub proof fn lemma_network_read(w: Seq<char>)
    requires
        network_of(w) is Some,
    ensures
        network_valid(network_of(w)->0),
{
    reveal(network_of);
}

/// `nameserver` keeps a configuration conforming.
pub proof fn lemma_nameserver_conforms(
    o: Outcome,
    dialect: Dialect,
    line: usize,
    args: Seq<Seq<char>>,
)
    requires
        conforms(o.config, dialect),
        are_words(args),
    ensures
        conforms(nameserver_line(o, line, args).config, dialect),
{
    if args.len() > 0 {
        assert(is_word(args[0]));
        if scoped_ip_of(args[0]) is Some {
            lemma_scoped_ip_read(args[0]);
            let ip = scoped_ip_of(args[0])->0;
            let c = ConfigView { nameservers: o.config.nameservers.push(ip), ..o.config };
            assert forall|i: int| 0 <= i < c.nameservers.len() implies scoped_ip_valid(
                #[trigger] c.nameservers[i],
            ) && scope_is_word(c.nameservers[i]) by {
                if i < o.config.nameservers.len() {
                    assert(c.nameservers[i] == o.config.nameservers[i]);
                }
            }
            lemma_same_options(o.config, c, dialect);
        }
    }
}

/// A configuration with the options of one that conforms keeps the rule on options.
pub proof fn lemma_same_options(a: ConfigView, b: ConfigView, dialect: Dialect)
    requires
        a.options == b.options,
        forall|o: OptionName| #[trigger] option_shown(a, o) ==> o.known_to(dialect),
    ensures
        forall|o: OptionName| #[trigger] option_shown(b, o) ==> o.known_to(dialect),
{
    assert forall|o: OptionName| #[trigger] option_shown(b, o) implies o.known_to(dialect) by {
        assert(option_shown(a, o) == option_shown(b, o));
    }
}

/// `domain` keeps a configuration conforming.
pub proof fn lemma_domain_conforms(
    o: Outcome,
    dialect: Dialect,
    line: usize,
    args: Seq<Seq<char>>,
)
    requires
        conforms(o.config, dialect),
        are_words(args),
    ensures
        conforms(domain_line(o, dialect, line, args).config, dialect),
{
    reveal(ConfigView::set_domain);
    reveal(ConfigView::clear_search);
    if args.len() > 0 {
        assert(is_word(args[0]));
        lemma_same_options(o.config, with_domain(o.config, dialect, args[0]), dialect);
    }
}

/// `search` keeps a configuration conforming.
pub proof fn lemma_search_conforms(o: Outcome, dialect: Dialect, args: Seq<Seq<char>>)
    requires
        conforms(o.config, dialect),
        are_words(args),
    ensures
        conforms(search_line(o, dialect, args).config, dialect),
{
    reveal(ConfigView::set_search);
    reveal(ConfigView::clear_domain);
    let kept = kept_search(dialect, args);
    assert forall|i: int| 0 <= i < kept.len() implies is_word(#[trigger] kept[i]) by {
        assert(kept[i] == args[i]);
    }
    lemma_same_options(o.config, with_search(o.config, dialect, args), dialect);
}

/// The networks of a sort list keep a configuration conforming.
pub proof fn lemma_sortlist_items_conform(
    o: Outcome,
    dialect: Dialect,
    line: usize,
    args: Seq<Seq<char>>,
)
    requires
        conforms(o.config, dialect),
    ensures
        conforms(sortlist_items(o, line, args).config, dialect),
    decreases args.len(),
{
    if args.len() > 0 {
        let next = match network_of(args[0]) {
            Some(n) => o.with((ConfigView { sortlist: o.config.sortlist.push(n), ..o.config })),
            None => o.fail(ParseError::InvalidIp(line, crate::ip::AddrParseError)),
        };
        if network_of(args[0]) is Some {
            lemma_network_read(args[0]);
            let n = network_of(args[0])->0;
            assert forall|i: int| 0 <= i < next.config.sortlist.len() implies network_valid(
                #[trigger] next.config.sortlist[i],
            ) by {
                if i < o.config.sortlist.len() {
                    assert(next.config.sortlist[i] == o.config.sortlist[i]);
                }
            }
            lemma_same_options(o.config, next.config, dialect);
        }
        lemma_sortlist_items_conform(next, dialect, line, args.skip(1));
    }
}

/// `sortlist` keeps a configuration conforming.
pub proof fn lemma_sortlist_conforms(
    o: Outcome,
    dialect: Dialect,
    line: usize,
    args: Seq<Seq<char>>,
)
    requires
        conforms(o.config, dialect),
    ensures
        conforms(sortlist_line(o, line, args).config, dialect),
{
    let cleared = o.with((ConfigView { sortlist: Seq::empty(), ..o.config }));
    lemma_same_options(o.config, cleared.config, dialect);
    lemma_sortlist_items_conform(cleared, dialect, line, args);
}

/// `lookup` keeps a configuration conforming.
pub proof fn lemma_lookup_conforms(o: Outcome, dialect: Dialect, args: Seq<Seq<char>>)
    requires
        conforms(o.config, dialect),
        are_words(args),
    ensures
        conforms(lookup_line(o, args).config, dialect),
    decreases args.len(),
{
    if args.len() > 0 {
        assert(is_word(args[0]));
        let l = lookup_of(args[0]);
        let next = o.with((ConfigView { lookup: o.config.lookup.push(l), ..o.config }));
        assert(lookup_valid(l));
        assert forall|i: int| 0 <= i < next.config.lookup.len() implies lookup_valid(
            #[trigger] next.config.lookup[i],
        ) by {
            if i < o.config.lookup.len() {
                assert(next.config.lookup[i] == o.config.lookup[i]);
            }
        }
        lemma_same_options(o.config, next.config, dialect);
        let rest = args.skip(1);
        assert forall|i: int| 0 <= i < rest.len() implies is_word(#[trigger] rest[i]) by {
            assert(rest[i] == args[i + 1]);
        }
        lemma_lookup_conforms(next, dialect, rest);
    }
}

/// `family` keeps a configuration conforming.
pub proof fn lemma_family_conforms(
    o: Outcome,
    dialect: Dialect,
    line: usize,
    args: Seq<Seq<char>>,
)
    requires
        conforms(o.config, dialect),
    ensures
        conforms(family_line(o, line, args).config, dialect),
    decreases args.len(),
{
    if args.len() > 0 {
        let next = match crate::grammar::family_of(args[0]) {
            Some(f) => o.with((ConfigView { family: o.config.family.push(f), ..o.config })),
            None => o.fail(ParseError::InvalidValue(line)),
        };
        lemma_same_options(o.config, next.config, dialect);
        lemma_family_conforms(next, dialect, line, args.skip(1));
    }
}

/// The port directive keeps a configuration conforming.
pub proof fn lemma_port_conforms(o: Outcome, line: usize, word: Seq<char>, args: Seq<Seq<char>>)
    requires
        conforms(o.config, Dialect::MacStyle),
    ensures
        conforms(port_line(o, line, word, args).config, Dialect::MacStyle),
{
    let c = port_line(o, line, word, args).config;
    lemma_same_options(o.config, c, Dialect::MacStyle);
}

/// Naming `debug` shows no other option.
pub proof fn lemma_debug_shown(c: ConfigView, n: OptionName)
    requires
        n != OptionName::Debug,
    ensures
        option_shown(c.with_flag(OptionName::Debug), n) == option_shown(c, n),
{
}

/// Setting a numeric option shows no other option.
pub proof fn lemma_number_shown(c: ConfigView, name: OptionName, v: u32, n: OptionName)
    requires
        name.takes_number(),
        n != name,
    ensures
        option_shown(c.with_number(name, v), n) == option_shown(c, n),
{
}

/// A configuration that differs from a conforming one in its options alone
/// conforms where the options it shows are known to the dialect.
pub proof fn lemma_options_changed(a: ConfigView, b: ConfigView, dialect: Dialect)
    requires
        conforms(a, dialect),
        b == (ConfigView { options: b.options, ..a }),
        forall|o: OptionName| #[trigger] option_shown(b, o) ==> o.known_to(dialect),
    ensures
        conforms(b, dialect),
{
}

/// One option keeps a configuration conforming.
pub proof fn lemma_option_conforms(
    o: Outcome,
    dialect: Dialect,
    line: usize,
    key: Seq<char>,
    value: Option<Seq<char>>,
)
    requires
        conforms(o.config, dialect),
    ensures
        conforms(apply_option(o, dialect, line, key, value).config, dialect),
{
    let c = apply_option(o, dialect, line, key, value).config;
    if c != o.config {
        let name = option_named(key)->0;
        assert(name.known_to(dialect));
        if name.takes_number() {
            let v = unsigned_of(value->0, u32::MAX as nat)->0 as u32;
            assert(c == o.config.with_number(name, v));
            assert forall|n: OptionName| #[trigger] option_shown(c, n) implies n.known_to(
                dialect,
            ) by {
                if n != name {
                    lemma_number_shown(o.config, name, v, n);
                }
            }
        } else {
            assert(c == o.config.with_flag(name));
            assert forall|n: OptionName| #[trigger] option_shown(c, n) implies n.known_to(
                dialect,
            ) by {
                if dialect == Dialect::MacStyle && n != name {
                    assert(name == OptionName::Debug);
                    lemma_debug_shown(o.config, n);
                }
            }
        }
        lemma_options_changed(o.config, c, dialect);
    }
}

/// `options` keeps a configuration conforming.
pub proof fn lemma_options_conform(
    o: Outcome,
    dialect: Dialect,
    line: usize,
    args: Seq<Seq<char>>,
)
    requires
        conforms(o.config, dialect),
    ensures
        conforms(options_line(o, dialect, line, args).config, dialect),
    decreases args.len(),
{
    if args.len() > 0 {
        let next = apply_option(
            o,
            dialect,
            line,
            before_colon(args[0]),
            behind_colon(args[0]),
        );
        lemma_option_conforms(o, dialect, line, before_colon(args[0]), behind_colon(args[0]));
        lemma_options_conform(next, dialect, line, args.skip(1));
    }
}

/// The words of a line keep a configuration conforming.
pub proof fn lemma_words_conform(
    o: Outcome,
    dialect: Dialect,
    line: usize,
    words: Seq<Seq<char>>,
)
    requires
        conforms(o.config, dialect),
        are_words(words),
    ensures
        conforms(apply_words(o, dialect, line, words).config, dialect),
{
    reveal(apply_words);
    if words.len() > 0 {
        let args = words.skip(1);
        assert forall|i: int| 0 <= i < args.len() implies is_word(#[trigger] args[i]) by {
            assert(args[i] == words[i + 1]);
        }
        lemma_nameserver_conforms(o, dialect, line, args);
        lemma_domain_conforms(o, dialect, line, args);
        lemma_search_conforms(o, dialect, args);
        lemma_sortlist_conforms(o, dialect, line, args);
        lemma_options_conform(o, dialect, line, args);
        lemma_lookup_conforms(o, dialect, args);
        lemma_family_conforms(o, dialect, line, args);
        if dialect == Dialect::MacStyle {
            lemma_port_conforms(o, line, words[0], args);
        }
    }
}

/// The lines of a file keep a configuration conforming.
pub proof fn lemma_lines_conform(o: Outcome, dialect: Dialect, lines: Seq<Seq<u8>>)
    requires
        conforms(o.config, dialect),
    ensures
        conforms(apply_lines(o, dialect, lines).config, dialect),
    decreases lines.len(),
{
    if lines.len() > 0 {
        lemma_lines_conform(o, dialect, lines.drop_last());
        let before = apply_lines(o, dialect, lines.drop_last());
        let bytes = lines.last();
        lemma_line_words_are_words(decode_utf8(bytes));
        lemma_words_conform(
            before,
            dialect,
            (lines.len() - 1) as usize,
            line_words(decode_utf8(bytes)),
        );
    }
}

/// Whatever the file, what is read from it conforms to the dialect it was
/// read under: the words that are stored are words, the addresses and
/// networks are such as are read, the record of the last of `domain` and
/// `search` agrees with what is stored, and the rules of the dialect on the
/// search list, the port and the options are kept.
pub proof fn law_read_conforms(bytes: Seq<u8>, dialect: Dialect)
    ensures
        conforms(read(bytes, dialect).config, dialect),
{
    assert(conforms(Outcome::start().config, dialect));
    lemma_lines_conform(Outcome::start(), dialect, split_on(bytes, 10u8));
}

/// What was read from a file, written and read again under the same dialect,
/// is what was read from the file, and the text is read without an error.
/// This holds of every file but one that leaves a search list without
/// entries: such a list is not written.
pub proof fn law_read_write_read(bytes: Seq<u8>, dialect: Dialect)
    requires
        read(bytes, dialect).config.search is Some ==> read(bytes, dialect).config.search->0.len()
            > 0,
    ensures
        read(encode_utf8(config_text(read(bytes, dialect).config)), dialect).config == read(
            bytes,
            dialect,
        ).config,
        read(encode_utf8(config_text(read(bytes, dialect).config)), dialect).errors == Seq::<
            ParseError,
        >::empty(),
{
    law_read_conforms(bytes, dialect);
    law_round_trip(read(bytes, dialect).config, dialect);
}

} // verus!
