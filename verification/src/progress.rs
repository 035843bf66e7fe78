//! Errors are only ever added: what has been reported after some lines is
//! the beginning of what is reported after all of them. A reader that stops
//! at the first line in error therefore knows the first error of the file.
use crate::config::{ConfigView, Dialect};
use crate::grammar::{
    apply_line, apply_lines, apply_option, apply_words, before_colon, behind_colon, domain_line,
    family_line, family_of, lemma_lookup_keeps_errors, lookup_line, nameserver_line, options_line,
    port_line, search_line, sortlist_items, sortlist_line, Outcome, ParseError,
};
use crate::ip::{network_of, AddrParseError};
use crate::number::unsigned_of;
use vstd::prelude::*;

verus! {

/// Whether the errors of `after` begin with those of `before`.
pub open spec fn grows(before: Outcome, after: Outcome) -> bool {
    before.errors.len() <= after.errors.len() && after.errors.take(before.errors.len() as int)
        == before.errors
}

/// An outcome grows to itself.
pub proof fn lemma_grows_same(a: Outcome, b: Outcome)
    requires
        a.errors == b.errors,
    ensures
        grows(a, b),
{
    assert(b.errors.take(a.errors.len() as int) =~= a.errors);
}

/// One more error is growth.
pub proof fn lemma_grows_fail(a: Outcome, b: Outcome, e: ParseError)
    requires
        grows(a, b),
    ensures
        grows(a, b.fail(e)),
{
    assert(b.fail(e).errors.take(a.errors.len() as int) =~= b.errors.take(a.errors.len() as int));
}

/// Growth after growth is growth.
pub proof fn lemma_grows_on(a: Outcome, b: Outcome, c: Outcome)
    requires
        grows(a, b),
        grows(b, c),
    ensures
        grows(a, c),
{
    assert(c.errors.take(a.errors.len() as int) =~= c.errors.take(b.errors.len() as int).take(
        a.errors.len() as int,
    ));
}

proof fn lemma_nameserver_grows(o: Outcome, line: usize, args: Seq<Seq<char>>)
    ensures
        grows(o, nameserver_line(o, line, args)),
{
    lemma_grows_same(o, o);
    if args.len() == 0 {
        lemma_grows_fail(o, o, ParseError::InvalidValue(line));
    } else {
        let read = match crate::ip::scoped_ip_of(args[0]) {
            Some(ip) => o.with(
                (ConfigView { nameservers: o.config.nameservers.push(ip), ..o.config }),
            ),
            None => o.fail(ParseError::InvalidIp(line, AddrParseError)),
        };
        lemma_grows_same(o, o.with(read.config));
        lemma_grows_fail(o, o, ParseError::InvalidIp(line, AddrParseError));
        lemma_grows_fail(o, read, ParseError::ExtraData(line));
    }
}

proof fn lemma_domain_grows(o: Outcome, dialect: Dialect, line: usize, args: Seq<Seq<char>>)
    ensures
        grows(o, domain_line(o, dialect, line, args)),
{
    lemma_grows_same(o, o);
    if args.len() == 0 {
        lemma_grows_fail(o, o, ParseError::InvalidValue(line));
    } else {
        let read = o.with(crate::grammar::with_domain(o.config, dialect, args[0]));
        lemma_grows_same(o, read);
        lemma_grows_fail(o, read, ParseError::ExtraData(line));
    }
}

proof fn lemma_sortlist_grows(o: Outcome, line: usize, args: Seq<Seq<char>>)
    ensures
        grows(o, sortlist_items(o, line, args)),
    decreases args.len(),
{
    lemma_grows_same(o, o);
    if args.len() > 0 {
        let read = match network_of(args[0]) {
            Some(n) => o.with((ConfigView { sortlist: o.config.sortlist.push(n), ..o.config })),
            None => o.fail(ParseError::InvalidIp(line, AddrParseError)),
        };
        lemma_grows_same(o, o.with(read.config));
        lemma_grows_fail(o, o, ParseError::InvalidIp(line, AddrParseError));
        lemma_sortlist_grows(read, line, args.skip(1));
        lemma_grows_on(o, read, sortlist_items(read, line, args.skip(1)));
    }
}

proof fn lemma_family_grows(o: Outcome, line: usize, args: Seq<Seq<char>>)
    ensures
        grows(o, family_line(o, line, args)),
    decreases args.len(),
{
    lemma_grows_same(o, o);
    if args.len() > 0 {
        let read = match family_of(args[0]) {
            Some(f) => o.with((ConfigView { family: o.config.family.push(f), ..o.config })),
            None => o.fail(ParseError::InvalidValue(line)),
        };
        lemma_grows_same(o, o.with(read.config));
        lemma_grows_fail(o, o, ParseError::InvalidValue(line));
        lemma_family_grows(read, line, args.skip(1));
        lemma_grows_on(o, read, family_line(read, line, args.skip(1)));
    }
}

proof fn lemma_option_grows(
    o: Outcome,
    dialect: Dialect,
    line: usize,
    key: Seq<char>,
    value: Option<Seq<char>>,
)
    ensures
        grows(o, apply_option(o, dialect, line, key, value)),
{
    let after = apply_option(o, dialect, line, key, value);
    lemma_grows_same(o, o);
    if after.errors == o.errors {
        lemma_grows_same(o, after);
    } else {
        lemma_grows_fail(o, o, ParseError::InvalidOption(line));
        lemma_grows_fail(o, o, ParseError::InvalidOptionValue(line));
    }
}

proof fn lemma_options_grow(o: Outcome, dialect: Dialect, line: usize, args: Seq<Seq<char>>)
    ensures
        grows(o, options_line(o, dialect, line, args)),
    decreases args.len(),
{
    lemma_grows_same(o, o);
    if args.len() == 0 {
    } else if behind_colon(args[0]) is Some && behind_colon(args[0])->0.contains(':') {
        lemma_grows_fail(o, o, ParseError::ExtraData(line));
    } else {
        let read = apply_option(o, dialect, line, before_colon(args[0]), behind_colon(args[0]));
        lemma_option_grows(o, dialect, line, before_colon(args[0]), behind_colon(args[0]));
        lemma_options_grow(read, dialect, line, args.skip(1));
        lemma_grows_on(o, read, options_line(read, dialect, line, args.skip(1)));
    }
}

proof fn lemma_port_grows(o: Outcome, line: usize, word: Seq<char>, args: Seq<Seq<char>>)
    ensures
        grows(o, port_line(o, line, word, args)),
{
    let read = match behind_colon(word) {
        Some(v) => match unsigned_of(v, u16::MAX as nat) {
            Some(n) => o.with((ConfigView { port: Some(n as u16), ..o.config })),
            None => o.fail(ParseError::InvalidValue(line)),
        },
        None => o.fail(ParseError::InvalidValue(line)),
    };
    lemma_grows_same(o, o);
    lemma_grows_same(o, o.with(read.config));
    lemma_grows_fail(o, o, ParseError::InvalidValue(line));
    lemma_grows_fail(o, read, ParseError::ExtraData(line));
}

/// The words of a line add errors and take none away.
pub proof fn lemma_words_grow(o: Outcome, dialect: Dialect, line: usize, words: Seq<Seq<char>>)
    ensures
        grows(o, apply_words(o, dialect, line, words)),
{
    reveal(apply_words);
    lemma_grows_same(o, o);
    if words.len() > 0 {
        let args = words.skip(1);
        lemma_nameserver_grows(o, line, args);
        lemma_domain_grows(o, dialect, line, args);
        lemma_grows_same(o, search_line(o, dialect, args));
        let cleared = o.with((ConfigView { sortlist: Seq::empty(), ..o.config }));
        lemma_grows_same(o, cleared);
        lemma_sortlist_grows(cleared, line, args);
        lemma_grows_on(o, cleared, sortlist_line(o, line, args));
        lemma_options_grow(o, dialect, line, args);
        lemma_lookup_keeps_errors(o, args);
        lemma_grows_same(o, lookup_line(o, args));
        lemma_family_grows(o, line, args);
        lemma_port_grows(o, line, words[0], args);
        lemma_grows_fail(o, o, ParseError::InvalidDirective(line));
    }
}

/// A line adds errors and takes none away.
pub proof fn lemma_line_grows(o: Outcome, dialect: Dialect, line: usize, bytes: Seq<u8>)
    ensures
        grows(o, apply_line(o, dialect, line, bytes)),
{
    lemma_grows_same(o, o);
    lemma_grows_fail(o, o, ParseError::InvalidUtf8(line, crate::text::utf8_failure(bytes)));
    lemma_words_grow(o, dialect, line, crate::text::line_words(vstd::utf8::decode_utf8(bytes)));
}

/// The errors after the first `n` lines are the beginning of the errors
/// after all the lines.
pub proof fn lemma_lines_grow(o: Outcome, dialect: Dialect, lines: Seq<Seq<u8>>, n: int)
    requires
        0 <= n <= lines.len(),
    ensures
        grows(apply_lines(o, dialect, lines.take(n)), apply_lines(o, dialect, lines)),
    decreases lines.len() - n,
{
    let first = apply_lines(o, dialect, lines.take(n));
    if n == lines.len() {
        assert(lines.take(n) =~= lines);
        lemma_grows_same(first, first);
    } else {
        let next = apply_lines(o, dialect, lines.take(n + 1));
        assert(lines.take(n + 1).drop_last() =~= lines.take(n));
        lemma_line_grows(first, dialect, n as usize, lines[n]);
        lemma_lines_grow(o, dialect, lines, n + 1);
        lemma_grows_on(first, next, apply_lines(o, dialect, lines));
    }
}

} // verus!
