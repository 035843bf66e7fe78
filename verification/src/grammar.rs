//! The directives of a configuration file: what each line means, and the
//! reader that applies them.

use crate::config::{Config, ConfigView, Dialect, ErrorPolicy, Family, Lookup, LookupView};
use crate::ip::{network_of, scoped_ip_of, AddrParseError, Network, ScopedIp};
use crate::number::{decimal_text, parse_unsigned, push_decimal, unsigned_of};
use crate::options::{find_option, option_known_to, option_named, option_takes_number};
use crate::progress::lemma_lines_grow;
use crate::seqs::{first_index, slice_views, split_on, views};
use crate::text::{
    decode_line, find_char, is_comment_line, is_text, line_is_comment, line_words, split_bytes,
    split_words, string_of, utf8_error_text, utf8_failure,
};
use core::str::Utf8Error;
use vstd::prelude::*;
use vstd::slice::slice_subrange;
use vstd::string::*;
use vstd::utf8::{decode_utf8, valid_utf8};

verus! {

/// Error while parsing resolv.conf file
#[derive(Debug)]
pub enum ParseError {
    /// Error that may be returned when the string to parse contains invalid UTF-8 sequences
    InvalidUtf8(usize, Utf8Error),
    /// Error returned a value for a given directive is invalid.
    /// This can also happen when the value is missing, if the directive requires a value.
    InvalidValue(usize),
    /// Error returned when a value for a given option is invalid.
    /// This can also happen when the value is missing, if the option requires a value.
    InvalidOptionValue(usize),
    /// Error returned when a invalid option is found.
    InvalidOption(usize),
    /// Error returned when a invalid directive is found.
    InvalidDirective(usize),
    /// Error returned when a value cannot be parsed an an IP address.
    InvalidIp(usize, AddrParseError),
    /// Error returned when there is extra data at the end of a line.
    ExtraData(usize),
}

/// What has been read so far: the configuration, and the errors in the order
/// in which they were met.
pub struct Outcome {
    pub config: ConfigView,
    pub errors: Seq<ParseError>,
}

pub const SEARCH_ENTRIES: usize = 6;

impl Outcome {
    /// Nothing read yet.
    pub open spec fn start() -> Outcome {
        Outcome { config: ConfigView::new(), errors: Seq::empty() }
    }

    /// With one more error.
    pub open spec fn fail(self, e: ParseError) -> Outcome {
        Outcome { config: self.config, errors: self.errors.push(e) }
    }

    /// With another configuration.
    pub open spec fn with(self, c: ConfigView) -> Outcome {
        Outcome { config: c, errors: self.errors }
    }
}

/// The state of a reader as an outcome.
pub open spec fn outcome_of(cfg: Config, errors: Vec<ParseError>) -> Outcome {
    Outcome { config: cfg@, errors: errors@ }
}

// ---------------------------------------------------------------------------
// What a line means
// ---------------------------------------------------------------------------
/// `nameserver`: the first argument is an address, which is added to the
/// name servers. A missing argument is an error; so is an argument that is no
/// address, and so is anything behind the first argument.
pub open spec fn nameserver_line(o: Outcome, line: usize, args: Seq<Seq<char>>) -> Outcome {
    if args.len() == 0 {
        o.fail(ParseError::InvalidValue(line))
    } else {
        let read = match scoped_ip_of(args[0]) {
            Some(ip) => o.with(
                ConfigView { nameservers: o.config.nameservers.push(ip), ..o.config },
            ),
            None => o.fail(ParseError::InvalidIp(line, AddrParseError)),
        };
        if args.len() > 1 {
            read.fail(ParseError::ExtraData(line))
        } else {
            read
        }
    }
}

/// The configuration after `domain`. Under the rules of GNU libc the search
/// list is forgotten.
pub open spec fn with_domain(c: ConfigView, dialect: Dialect, domain: Seq<char>) -> ConfigView {
    if dialect == Dialect::StrictGlibc {
        c.set_domain(domain).clear_search()
    } else {
        c.set_domain(domain)
    }
}

/// `domain`: the first argument becomes the domain. A missing argument is an
/// error, and so is anything behind the first argument.
pub open spec fn domain_line(o: Outcome, dialect: Dialect, line: usize, args: Seq<Seq<char>>)
    -> Outcome {
    if args.len() == 0 {
        o.fail(ParseError::InvalidValue(line))
    } else {
        let read = o.with(with_domain(o.config, dialect, args[0]));
        if args.len() > 1 {
            read.fail(ParseError::ExtraData(line))
        } else {
            read
        }
    }
}

/// The entries that a dialect keeps of a search list: all of them where
/// nothing is strict, else the first six.
pub open spec fn kept_search(dialect: Dialect, args: Seq<Seq<char>>) -> Seq<Seq<char>> {
    if dialect != Dialect::Permissive && args.len() > SEARCH_ENTRIES {
        args.take(SEARCH_ENTRIES as int)
    } else {
        args
    }
}

/// The configuration after `search`. Under the rules of GNU libc the domain
/// is forgotten.
pub open spec fn with_search(c: ConfigView, dialect: Dialect, args: Seq<Seq<char>>) -> ConfigView {
    if dialect == Dialect::StrictGlibc {
        c.set_search(kept_search(dialect, args)).clear_domain()
    } else {
        c.set_search(kept_search(dialect, args))
    }
}

/// `search`: the arguments replace the search list.
pub open spec fn search_line(o: Outcome, dialect: Dialect, args: Seq<Seq<char>>) -> Outcome {
    o.with(with_search(o.config, dialect, args))
}

/// The networks of a sort list, one argument after the other. An argument
/// that is no network is an error and is left out.
pub open spec fn sortlist_items(o: Outcome, line: usize, args: Seq<Seq<char>>) -> Outcome
    decreases args.len(),
{
    if args.len() == 0 {
        o
    } else {
        let read = match network_of(args[0]) {
            Some(n) => o.with(ConfigView { sortlist: o.config.sortlist.push(n), ..o.config }),
            None => o.fail(ParseError::InvalidIp(line, AddrParseError)),
        };
        sortlist_items(read, line, args.skip(1))
    }
}

/// `sortlist`: the arguments replace the sort list.
pub open spec fn sortlist_line(o: Outcome, line: usize, args: Seq<Seq<char>>) -> Outcome {
    sortlist_items(o.with(ConfigView { sortlist: Seq::empty(), ..o.config }), line, args)
}

/// The database that a word of `lookup` names.
pub open spec fn lookup_of(word: Seq<char>) -> LookupView {
    if word == "file"@ {
        LookupView::File
    } else if word == "bind"@ {
        LookupView::Bind
    } else {
        LookupView::Extra(word)
    }
}

/// `lookup`: each argument adds a database to the lookup order.
pub open spec fn lookup_line(o: Outcome, args: Seq<Seq<char>>) -> Outcome
    decreases args.len(),
{
    if args.len() == 0 {
        o
    } else {
        lookup_line(
            o.with(ConfigView { lookup: o.config.lookup.push(lookup_of(args[0])), ..o.config }),
            args.skip(1),
        )
    }
}

/// The family that a word of `family` names.
pub open spec fn family_of(word: Seq<char>) -> Option<Family> {
    if word == "inet4"@ {
        Some(Family::Inet4)
    } else if word == "inet6"@ {
        Some(Family::Inet6)
    } else {
        None
    }
}

/// `family`: each argument adds a family; one that names none is an error.
pub open spec fn family_line(o: Outcome, line: usize, args: Seq<Seq<char>>) -> Outcome
    decreases args.len(),
{
    if args.len() == 0 {
        o
    } else {
        let read = match family_of(args[0]) {
            Some(f) => o.with(ConfigView { family: o.config.family.push(f), ..o.config }),
            None => o.fail(ParseError::InvalidValue(line)),
        };
        family_line(read, line, args.skip(1))
    }
}

/// An option that the dialect does not know, or that lacks its number: an
/// error, but where nothing is strict.
pub open spec fn unknown_option(o: Outcome, dialect: Dialect, line: usize) -> Outcome {
    if dialect == Dialect::Permissive {
        o
    } else {
        o.fail(ParseError::InvalidOption(line))
    }
}

/// One option, given as its name and what stands behind the colon, if there
/// is a colon. A flag is applied whatever stands behind it. A numeric option
/// needs a number that fits 32 bits.
pub open spec fn apply_option(
    o: Outcome,
    dialect: Dialect,
    line: usize,
    key: Seq<char>,
    value: Option<Seq<char>>,
) -> Outcome {
    match option_named(key) {
        Some(name) => if !name.known_to(dialect) {
            unknown_option(o, dialect, line)
        } else if name.takes_number() {
            match value {
                Some(v) => match unsigned_of(v, u32::MAX as nat) {
                    Some(n) => o.with(o.config.with_number(name, n as u32)),
                    None => o.fail(ParseError::InvalidOptionValue(line)),
                },
                None => unknown_option(o, dialect, line),
            }
        } else {
            o.with(o.config.with_flag(name))
        },
        None => unknown_option(o, dialect, line),
    }
}

/// What stands behind the first colon of a word, if it has a colon.
pub open spec fn behind_colon(word: Seq<char>) -> Option<Seq<char>> {
    let i = first_index(word, ':');
    if i < word.len() {
        Some(word.skip(i + 1))
    } else {
        None
    }
}

/// What stands before the first colon of a word.
pub open spec fn before_colon(word: Seq<char>) -> Seq<char> {
    word.take(first_index(word, ':'))
}

/// `options`: each argument is an option, `name` or `name:value`. An
/// argument with a second colon is an error that ends the line.
pub open spec fn options_line(o: Outcome, dialect: Dialect, line: usize, args: Seq<Seq<char>>)
    -> Outcome
    decreases args.len(),
{
    if args.len() == 0 {
        o
    } else if behind_colon(args[0]) is Some && behind_colon(args[0])->0.contains(':') {
        o.fail(ParseError::ExtraData(line))
    } else {
        options_line(
            apply_option(o, dialect, line, before_colon(args[0]), behind_colon(args[0])),
            dialect,
            line,
            args.skip(1),
        )
    }
}

/// Whether a first word is the port directive of macOS: `port` alone or with
/// a colon behind it.
pub open spec fn is_port_word(word: Seq<char>) -> bool {
    before_colon(word) == "port"@
}

/// `port:<number>`: the number becomes the port. A missing number, or one
/// that does not fit 16 bits, is an error; so is anything behind the word.
pub open spec fn port_line(o: Outcome, line: usize, word: Seq<char>, args: Seq<Seq<char>>)
    -> Outcome {
    let read = match behind_colon(word) {
        Some(v) => match unsigned_of(v, u16::MAX as nat) {
            Some(n) => o.with(ConfigView { port: Some(n as u16), ..o.config }),
            None => o.fail(ParseError::InvalidValue(line)),
        },
        None => o.fail(ParseError::InvalidValue(line)),
    };
    if args.len() > 0 {
        read.fail(ParseError::ExtraData(line))
    } else {
        read
    }
}

/// A first word that names no directive: an error, but where nothing is strict.
pub open spec fn unknown_directive(o: Outcome, dialect: Dialect, line: usize) -> Outcome {
    if dialect == Dialect::Permissive {
        o
    } else {
        o.fail(ParseError::InvalidDirective(line))
    }
}

/// The words of a line applied: the first word names the directive, the
/// others are its arguments. A line without words changes nothing.
#[verifier::opaque]
pub open spec fn apply_words(o: Outcome, dialect: Dialect, line: usize, words: Seq<Seq<char>>)
    -> Outcome {
    if words.len() == 0 {
        o
    } else {
        let keyword = words[0];
        let args = words.skip(1);
        if keyword == "nameserver"@ {
            nameserver_line(o, line, args)
        } else if keyword == "domain"@ {
            domain_line(o, dialect, line, args)
        } else if keyword == "search"@ {
            search_line(o, dialect, args)
        } else if keyword == "sortlist"@ {
            sortlist_line(o, line, args)
        } else if keyword == "options"@ {
            options_line(o, dialect, line, args)
        } else if keyword == "lookup"@ {
            lookup_line(o, args)
        } else if keyword == "family"@ {
            family_line(o, line, args)
        } else if dialect == Dialect::MacStyle && is_port_word(keyword) {
            port_line(o, line, keyword, args)
        } else {
            unknown_directive(o, dialect, line)
        }
    }
}

/// One line applied. A comment line changes nothing, whatever bytes it
/// holds. Any other line must be text; its words are applied.
pub open spec fn apply_line(o: Outcome, dialect: Dialect, line: usize, bytes: Seq<u8>) -> Outcome {
    if is_comment_line(bytes) {
        o
    } else if !valid_utf8(bytes) {
        o.fail(ParseError::InvalidUtf8(line, utf8_failure(bytes)))
    } else {
        apply_words(o, dialect, line, line_words(decode_utf8(bytes)))
    }
}

/// The lines applied in order, each under its number, counted from 0.
pub open spec fn apply_lines(o: Outcome, dialect: Dialect, lines: Seq<Seq<u8>>) -> Outcome
    decreases lines.len(),
{
    if lines.len() == 0 {
        o
    } else {
        apply_line(
            apply_lines(o, dialect, lines.drop_last()),
            dialect,
            (lines.len() - 1) as usize,
            lines.last(),
        )
    }
}

/// What reading a file gives: the lines are what stands between line feeds.
pub open spec fn read(bytes: Seq<u8>, dialect: Dialect) -> Outcome {
    apply_lines(Outcome::start(), dialect, split_on(bytes, 10u8))
}

// ---------------------------------------------------------------------------
// The reader
// ---------------------------------------------------------------------------
/// The database that a word names.
fn read_lookup_word(word: &[char]) -> (r: Lookup)
    ensures
        r@ == lookup_of(word@),
{
    if is_text(word, "file") {
        Lookup::File
    } else if is_text(word, "bind") {
        Lookup::Bind
    } else {
        Lookup::Extra(string_of(word))
    }
}

/// The family that a word names, if it names one.
fn read_family_word(word: &[char]) -> (r: Option<Family>)
    ensures
        r == family_of(word@),
{
    if is_text(word, "inet4") {
        Some(Family::Inet4)
    } else if is_text(word, "inet6") {
        Some(Family::Inet6)
    } else {
        None
    }
}

/// The first `keep` words as strings.
fn strings_of(args: &[&[char]], keep: usize) -> (list: Vec<String>)
    requires
        keep <= args.len(),
    ensures
        views(list@) == slice_views(args@).take(keep as int),
{
    let mut list: Vec<String> = Vec::new();
    let mut i: usize = 0;
    while i < keep
        invariant
            i <= keep <= args.len(),
            list@.len() == i,
            forall|j: int| 0 <= j < i ==> (#[trigger] list@[j])@ == args@[j]@,
        decreases keep - i,
    {
        let s = string_of(args[i]);
        list.push(s);
        i += 1;
    }
    assert(views(list@) =~= slice_views(args@).take(keep as int));
    list
}

/// A word cut at its first colon.
fn cut_at_colon<'a>(word: &'a [char]) -> (r: (&'a [char], Option<&'a [char]>))
    ensures
        r.0@ == before_colon(word@),
        match r.1 {
            Some(v) => behind_colon(word@) == Some(v@),
            None => behind_colon(word@) is None,
        },
{
    let colon = find_char(word, ':', 0);
    assert(word@.skip(0) =~= word@);
    assert(word@.subrange(0, colon as int) =~= word@.take(colon as int));
    let key = slice_subrange(word, 0, colon);
    if colon < word.len() {
        let value = slice_subrange(word, colon + 1, word.len());
        assert(value@ =~= word@.skip(colon + 1));
        (key, Some(value))
    } else {
        (key, None)
    }
}

/// Tells whether a word holds a colon.
fn has_colon(word: &[char]) -> (r: bool)
    ensures
        r == word@.contains(':'),
{
    let colon = find_char(word, ':', 0);
    proof {
        assert(word@.skip(0) =~= word@);
        crate::seqs::lemma_first_index(word@, ':');
    }
    colon < word.len()
}

fn read_nameserver(cfg: &mut Config, errors: &mut Vec<ParseError>, line: usize, args: &[&[char]])
    ensures
        outcome_of(*final(cfg), *final(errors)) == nameserver_line(
            outcome_of(*old(cfg), *old(errors)),
            line,
            slice_views(args@),
        ),
{
    if args.len() == 0 {
        errors.push(ParseError::InvalidValue(line));
        return ;
    }
    assert(slice_views(args@)[0] == args@[0]@);
    match ScopedIp::from_chars(args[0]) {
        Ok(addr) => cfg.push_nameserver(addr),
        Err(e) => errors.push(ParseError::InvalidIp(line, e)),
    }
    if args.len() > 1 {
        errors.push(ParseError::ExtraData(line));
    }
}

fn read_domain(
    cfg: &mut Config,
    errors: &mut Vec<ParseError>,
    dialect: Dialect,
    line: usize,
    args: &[&[char]],
)
    ensures
        outcome_of(*final(cfg), *final(errors)) == domain_line(
            outcome_of(*old(cfg), *old(errors)),
            dialect,
            line,
            slice_views(args@),
        ),
{
    if args.len() == 0 {
        errors.push(ParseError::InvalidValue(line));
        return ;
    }
    assert(slice_views(args@)[0] == args@[0]@);
    cfg.set_domain(string_of(args[0]));
    match dialect {
        Dialect::StrictGlibc => cfg.clear_search(),
        _ => {},
    }
    if args.len() > 1 {
        errors.push(ParseError::ExtraData(line));
    }
}

fn read_search(cfg: &mut Config, dialect: Dialect, args: &[&[char]])
    ensures
        final(cfg)@ == with_search(old(cfg)@, dialect, slice_views(args@)),
{
    let keep: usize = match dialect {
        Dialect::Permissive => args.len(),
        _ => if args.len() > SEARCH_ENTRIES {
            SEARCH_ENTRIES
        } else {
            args.len()
        },
    };
    let list = strings_of(args, keep);
    assert(slice_views(args@).take(args.len() as int) =~= slice_views(args@));
    cfg.set_search(list);
    match dialect {
        Dialect::StrictGlibc => cfg.clear_domain(),
        _ => {},
    }
}

fn read_sortlist(cfg: &mut Config, errors: &mut Vec<ParseError>, line: usize, args: &[&[char]])
    ensures
        outcome_of(*final(cfg), *final(errors)) == sortlist_line(
            outcome_of(*old(cfg), *old(errors)),
            line,
            slice_views(args@),
        ),
{
    cfg.clear_sortlist();
    let ghost all = slice_views(args@);
    let ghost goal = sortlist_line(outcome_of(*old(cfg), *old(errors)), line, all);
    let mut i: usize = 0;
    assert(all.skip(0) =~= all);
    while i < args.len()
        invariant
            i <= args.len(),
            all == slice_views(args@),
            goal == sortlist_items(outcome_of(*cfg, *errors), line, all.skip(i as int)),
        decreases args.len() - i,
    {
        assert(all.skip(i as int)[0] == args@[i as int]@);
        assert(all.skip(i as int).skip(1) =~= all.skip(i + 1));
        match Network::from_chars(args[i]) {
            Ok(network) => cfg.push_sortlist(network),
            Err(e) => errors.push(ParseError::InvalidIp(line, e)),
        }
        i += 1;
    }
}

fn read_lookup(cfg: &mut Config, args: &[&[char]])
    ensures
        Outcome::start().with(final(cfg)@) == lookup_line(
            Outcome::start().with(old(cfg)@),
            slice_views(args@),
        ),
{
    let ghost all = slice_views(args@);
    let ghost goal = lookup_line(Outcome::start().with(old(cfg)@), all);
    let mut i: usize = 0;
    assert(all.skip(0) =~= all);
    while i < args.len()
        invariant
            i <= args.len(),
            all == slice_views(args@),
            goal == lookup_line(Outcome::start().with(cfg@), all.skip(i as int)),
        decreases args.len() - i,
    {
        assert(all.skip(i as int)[0] == args@[i as int]@);
        assert(all.skip(i as int).skip(1) =~= all.skip(i + 1));
        cfg.push_lookup(read_lookup_word(args[i]));
        i += 1;
    }
}

fn read_family(cfg: &mut Config, errors: &mut Vec<ParseError>, line: usize, args: &[&[char]])
    ensures
        outcome_of(*final(cfg), *final(errors)) == family_line(
            outcome_of(*old(cfg), *old(errors)),
            line,
            slice_views(args@),
        ),
{
    let ghost all = slice_views(args@);
    let ghost goal = family_line(outcome_of(*old(cfg), *old(errors)), line, all);
    let mut i: usize = 0;
    assert(all.skip(0) =~= all);
    while i < args.len()
        invariant
            i <= args.len(),
            all == slice_views(args@),
            goal == family_line(outcome_of(*cfg, *errors), line, all.skip(i as int)),
        decreases args.len() - i,
    {
        assert(all.skip(i as int)[0] == args@[i as int]@);
        assert(all.skip(i as int).skip(1) =~= all.skip(i + 1));
        match read_family_word(args[i]) {
            Some(family) => cfg.push_family(family),
            None => errors.push(ParseError::InvalidValue(line)),
        }
        i += 1;
    }
}

fn read_option(
    cfg: &mut Config,
    errors: &mut Vec<ParseError>,
    dialect: Dialect,
    line: usize,
    key: &[char],
    value: Option<&[char]>,
)
    ensures
        outcome_of(*final(cfg), *final(errors)) == apply_option(
            outcome_of(*old(cfg), *old(errors)),
            dialect,
            line,
            key@,
            match value {
                Some(v) => Some(v@),
                None => None,
            },
        ),
{
    let known = match find_option(key) {
        Some(name) => if option_known_to(name, dialect) {
            if option_takes_number(name) {
                match value {
                    Some(v) => {
                        match parse_unsigned(v, u32::MAX) {
                            Some(n) => cfg.set_number(name, n),
                            None => errors.push(ParseError::InvalidOptionValue(line)),
                        }
                        true
                    },
                    None => false,
                }
            } else {
                cfg.set_flag(name);
                true
            }
        } else {
            false
        },
        None => false,
    };
    if !known {
        match dialect {
            Dialect::Permissive => {},
            _ => errors.push(ParseError::InvalidOption(line)),
        }
    }
}

fn read_options(
    cfg: &mut Config,
    errors: &mut Vec<ParseError>,
    dialect: Dialect,
    line: usize,
    args: &[&[char]],
)
    ensures
        outcome_of(*final(cfg), *final(errors)) == options_line(
            outcome_of(*old(cfg), *old(errors)),
            dialect,
            line,
            slice_views(args@),
        ),
{
    let ghost all = slice_views(args@);
    let ghost goal = options_line(outcome_of(*old(cfg), *old(errors)), dialect, line, all);
    let mut i: usize = 0;
    assert(all.skip(0) =~= all);
    while i < args.len()
        invariant
            i <= args.len(),
            all == slice_views(args@),
            goal == options_line(outcome_of(*old(cfg), *old(errors)), dialect, line, all),
            goal == options_line(outcome_of(*cfg, *errors), dialect, line, all.skip(i as int)),
        decreases args.len() - i,
    {
        assert(all.skip(i as int)[0] == args@[i as int]@);
        assert(all.skip(i as int).skip(1) =~= all.skip(i + 1));
        let (key, value) = cut_at_colon(args[i]);
        match value {
            Some(v) => {
                if has_colon(v) {
                    errors.push(ParseError::ExtraData(line));
                    return ;
                }
                read_option(cfg, errors, dialect, line, key, Some(v));
            },
            None => read_option(cfg, errors, dialect, line, key, None),
        }
        i += 1;
    }
}

fn read_port(
    cfg: &mut Config,
    errors: &mut Vec<ParseError>,
    line: usize,
    word: &[char],
    args: &[&[char]],
)
    ensures
        outcome_of(*final(cfg), *final(errors)) == port_line(
            outcome_of(*old(cfg), *old(errors)),
            line,
            word@,
            slice_views(args@),
        ),
{
    let (_, value) = cut_at_colon(word);
    match value {
        Some(v) => match parse_unsigned(v, 65535) {
            Some(n) => cfg.set_port(n as u16),
            None => errors.push(ParseError::InvalidValue(line)),
        },
        None => errors.push(ParseError::InvalidValue(line)),
    }
    if args.len() > 0 {
        errors.push(ParseError::ExtraData(line));
    }
}

/// Tells whether a first word is the port directive.
fn word_is_port(word: &[char]) -> (r: bool)
    ensures
        r == is_port_word(word@),
{
    let (key, _) = cut_at_colon(word);
    is_text(key, "port")
}

/// Applies the words of one line.
fn read_words(
    cfg: &mut Config,
    errors: &mut Vec<ParseError>,
    dialect: Dialect,
    line: usize,
    words: &[&[char]],
)
    ensures
        outcome_of(*final(cfg), *final(errors)) == apply_words(
            outcome_of(*old(cfg), *old(errors)),
            dialect,
            line,
            slice_views(words@),
        ),
{
    reveal(apply_words);
    if words.len() == 0 {
        return ;
    }
    let keyword = words[0];
    let args = slice_subrange(words, 1, words.len());
    assert(slice_views(words@)[0] == keyword@);
    assert(slice_views(args@) =~= slice_views(words@).skip(1));
    if is_text(keyword, "nameserver") {
        read_nameserver(cfg, errors, line, args);
    } else if is_text(keyword, "domain") {
        read_domain(cfg, errors, dialect, line, args);
    } else if is_text(keyword, "search") {
        read_search(cfg, dialect, args);
    } else if is_text(keyword, "sortlist") {
        read_sortlist(cfg, errors, line, args);
    } else if is_text(keyword, "options") {
        read_options(cfg, errors, dialect, line, args);
    } else if is_text(keyword, "lookup") {
        let ghost before = outcome_of(*cfg, *errors);
        read_lookup(cfg, args);
        proof {
            lemma_lookup_keeps_errors(before, slice_views(args@));
            lemma_lookup_config(before.config, before.errors, slice_views(args@));
        }
    } else if is_text(keyword, "family") {
        read_family(cfg, errors, line, args);
    } else {
        let port = match dialect {
            Dialect::MacStyle => word_is_port(keyword),
            _ => false,
        };
        if port {
            read_port(cfg, errors, line, keyword, args);
        } else {
            match dialect {
                Dialect::Permissive => {},
                _ => errors.push(ParseError::InvalidDirective(line)),
            }
        }
    }
}

/// `lookup` reports no error.
pub proof fn lemma_lookup_keeps_errors(o: Outcome, args: Seq<Seq<char>>)
    ensures
        lookup_line(o, args).errors == o.errors,
    decreases args.len(),
{
    if args.len() > 0 {
        lemma_lookup_keeps_errors(
            o.with(ConfigView { lookup: o.config.lookup.push(lookup_of(args[0])), ..o.config }),
            args.skip(1),
        );
    }
}

/// What `lookup` does to the configuration does not depend on the errors so far.
pub proof fn lemma_lookup_config(c: ConfigView, errors: Seq<ParseError>, args: Seq<Seq<char>>)
    ensures
        lookup_line(Outcome::start().with(c), args).config == lookup_line(
            (Outcome { config: c, errors }),
            args,
        ).config,
    decreases args.len(),
{
    if args.len() > 0 {
        lemma_lookup_config(
            ConfigView { lookup: c.lookup.push(lookup_of(args[0])), ..c },
            errors,
            args.skip(1),
        );
    }
}

/// Applies one line.
fn read_line(
    cfg: &mut Config,
    errors: &mut Vec<ParseError>,
    dialect: Dialect,
    line: usize,
    bytes: &[u8],
)
    ensures
        outcome_of(*final(cfg), *final(errors)) == apply_line(
            outcome_of(*old(cfg), *old(errors)),
            dialect,
            line,
            bytes@,
        ),
{
    if line_is_comment(bytes) {
        return ;
    }
    // only now must the line be text: a comment may hold any bytes

    let text = match decode_line(bytes) {
        Ok(text) => text,
        Err(e) => {
            errors.push(ParseError::InvalidUtf8(line, e));
            return ;
        },
    };
    // ignore everything after ';' or '#'
    let words = split_words(text.as_slice());
    read_words(cfg, errors, dialect, line, words.as_slice());
}

/// The errors that a policy reports: the first one, or all of them.
pub open spec fn reported(errors: Seq<ParseError>, policy: ErrorPolicy) -> Seq<ParseError> {
    if policy == ErrorPolicy::FailFast && errors.len() > 1 {
        errors.take(1)
    } else {
        errors
    }
}

impl ParseError {
    /// The line on which the error was met, counted from 0.
    pub open spec fn line_number(self) -> usize {
        match self {
            ParseError::InvalidUtf8(line, _) => line,
            ParseError::InvalidValue(line) => line,
            ParseError::InvalidOptionValue(line) => line,
            ParseError::InvalidOption(line) => line,
            ParseError::InvalidDirective(line) => line,
            ParseError::InvalidIp(line, _) => line,
            ParseError::ExtraData(line) => line,
        }
    }

    /// The words in front of the line number in the message of an error.
    pub open spec fn message_head(self) -> Seq<char> {
        match self {
            ParseError::InvalidUtf8(..) => "bad unicode at line "@,
            ParseError::InvalidValue(_) => "directive at line "@,
            ParseError::InvalidOptionValue(_) => "directive options at line "@,
            ParseError::InvalidOption(_) => "option at line "@,
            ParseError::InvalidDirective(_) => "directive at line "@,
            ParseError::InvalidIp(..) => "directive at line "@,
            ParseError::ExtraData(_) => "extra data at the end of line "@,
        }
    }

    /// The words behind the line number in the message of an error; for
    /// bytes that are no text, the description of the fault follows them.
    pub open spec fn message_tail(self) -> Seq<char> {
        match self {
            ParseError::InvalidUtf8(..) => ": "@,
            ParseError::InvalidValue(_) => " is improperly formatted or contains invalid value"@,
            ParseError::InvalidOptionValue(_) => " contains invalid value of some option"@,
            ParseError::InvalidOption(_) => " is not recognized"@,
            ParseError::InvalidDirective(_) => " is not recognized"@,
            ParseError::InvalidIp(..) => " contains invalid IP: invalid IP address syntax"@,
            ParseError::ExtraData(_) => ""@,
        }
    }

    /// The message of an error, up to where the description of a fault in
    /// the bytes begins.
    pub open spec fn message(self) -> Seq<char> {
        self.message_head() + decimal_text(self.line_number() as nat) + self.message_tail()
    }

    /// The line on which the error was met, counted from 0.
    pub fn line(&self) -> (r: usize)
        ensures
            r == self.line_number(),
    {
        match self {
            ParseError::InvalidUtf8(line, _) => *line,
            ParseError::InvalidValue(line) => *line,
            ParseError::InvalidOptionValue(line) => *line,
            ParseError::InvalidOption(line) => *line,
            ParseError::InvalidDirective(line) => *line,
            ParseError::InvalidIp(line, _) => *line,
            ParseError::ExtraData(line) => *line,
        }
    }

    /// What went wrong and on which line, in words. For bytes that are no
    /// text the description of the fault stands at the end.
    pub fn to_string(&self) -> (r: String)
        ensures
            r@.len() >= self.message().len(),
            r@.take(self.message().len() as int) == self.message(),
            !(self is InvalidUtf8) ==> r@ == self.message(),
    {
        let mut out = String::new();
        let head = match self {
            ParseError::InvalidUtf8(..) => "bad unicode at line ",
            ParseError::InvalidValue(_) => "directive at line ",
            ParseError::InvalidOptionValue(_) => "directive options at line ",
            ParseError::InvalidOption(_) => "option at line ",
            ParseError::InvalidDirective(_) => "directive at line ",
            ParseError::InvalidIp(..) => "directive at line ",
            ParseError::ExtraData(_) => "extra data at the end of line ",
        };
        let tail = match self {
            ParseError::InvalidUtf8(..) => ": ",
            ParseError::InvalidValue(_) => " is improperly formatted or contains invalid value",
            ParseError::InvalidOptionValue(_) => " contains invalid value of some option",
            ParseError::InvalidOption(_) => " is not recognized",
            ParseError::InvalidDirective(_) => " is not recognized",
            ParseError::InvalidIp(..) => " contains invalid IP: invalid IP address syntax",
            ParseError::ExtraData(_) => "",
        };
        out.append(head);
        push_decimal(&mut out, self.line() as u64);
        out.append(tail);
        assert(out@ =~= self.message());
        match self {
            ParseError::InvalidUtf8(_, err) => {
                let cause = utf8_error_text(err);
                out.append(cause.as_str());
                assert(out@.take(self.message().len() as int) =~= self.message());
            },
            _ => {
                assert(out@.take(self.message().len() as int) =~= self.message());
            },
        }
        out
    }

    /// The fault in the bytes that lies under the error, where there is one.
    pub fn source(&self) -> (r: Option<&Utf8Error>)
        ensures
            match *self {
                ParseError::InvalidUtf8(_, err) => r == Some(&err),
                _ => r is None,
            },
    {
        match self {
            ParseError::InvalidUtf8(_, err) => Some(err),
            _ => None,
        }
    }
}

impl Config {
    /// Reads a configuration and keeps going after an error: the result is
    /// what the lines without error gave, with every error met, in order.
    pub fn from_slice(bytes: &[u8], dialect: Dialect) -> (r: (Config, Vec<ParseError>))
        ensures
            r.0@ == read(bytes@, dialect).config,
            r.1@ == read(bytes@, dialect).errors,
    {
        let mut cfg = Config::new();
        let mut errors: Vec<ParseError> = Vec::new();
        let lines = split_bytes(bytes, 10);
        let ghost all = split_on(bytes@, 10u8);
        let mut i: usize = 0;
        assert(all.take(0) =~= Seq::<Seq<u8>>::empty());
        while i < lines.len()
            invariant
                i <= lines.len(),
                all == slice_views(lines@),
                outcome_of(cfg, errors)
                    == apply_lines(Outcome::start(), dialect, all.take(i as int)),
            decreases lines.len() - i,
        {
            assert(all.take(i + 1).drop_last() =~= all.take(i as int));
            assert(all.take(i + 1).last() == lines@[i as int]@);
            read_line(&mut cfg, &mut errors, dialect, i, lines[i]);
            i += 1;
        }
        assert(all.take(i as int) =~= all);
        (cfg, errors)
    }

    /// Reads the lines up to the first one in error, that line included, or
    /// to the end of the file. Without an error the configuration is that of
    /// the file; else the first error is the first error of the file.
    fn read_to_first_error(bytes: &[u8], dialect: Dialect) -> (r: (Config, Vec<ParseError>))
        ensures
            r.1@.len() == 0 ==> read(bytes@, dialect).errors.len() == 0 && r.0@ == read(
                bytes@,
                dialect,
            ).config,
            r.1@.len() > 0 ==> read(bytes@, dialect).errors.len() > 0 && r.1@[0] == read(
                bytes@,
                dialect,
            ).errors[0],
    {
        let mut cfg = Config::new();
        let mut errors: Vec<ParseError> = Vec::new();
        let lines = split_bytes(bytes, 10);
        let ghost all = split_on(bytes@, 10u8);
        let mut i: usize = 0;
        assert(all.take(0) =~= Seq::<Seq<u8>>::empty());
        while i < lines.len() && errors.len() == 0
            invariant
                i <= lines.len(),
                all == slice_views(lines@),
                outcome_of(cfg, errors)
                    == apply_lines(Outcome::start(), dialect, all.take(i as int)),
            decreases lines.len() - i,
        {
            assert(all.take(i + 1).drop_last() =~= all.take(i as int));
            assert(all.take(i + 1).last() == lines@[i as int]@);
            read_line(&mut cfg, &mut errors, dialect, i, lines[i]);
            i += 1;
        }
        proof {
            lemma_lines_grow(Outcome::start(), dialect, all, i as int);
            if errors.len() == 0 {
                assert(all.take(i as int) =~= all);
            } else {
                let full = read(bytes@, dialect).errors;
                assert(full.take(errors@.len() as int)[0] == full[0]);
            }
        }
        (cfg, errors)
    }

    /// Reads a configuration under the rules of a dialect. It is returned
    /// when no line is in error. Else the errors are: all of them in the
    /// order of their lines, or the first alone, as the policy has it. Where
    /// the first error ends the reading, no line behind it is looked at.
    pub fn parse_with(buf: &[u8], dialect: Dialect, policy: ErrorPolicy) -> (r: Result<
        Config,
        Vec<ParseError>,
    >)
        ensures
            match r {
                Ok(cfg) => read(buf@, dialect).errors.len() == 0 && cfg@ == read(
                    buf@,
                    dialect,
                ).config,
                Err(errors) => read(buf@, dialect).errors.len() > 0 && errors@ == reported(
                    read(buf@, dialect).errors,
                    policy,
                ),
            },
    {
        match policy {
            ErrorPolicy::FailFast => {
                let (cfg, mut errors) = Config::read_to_first_error(buf, dialect);
                if errors.len() == 0 {
                    Ok(cfg)
                } else {
                    errors.truncate(1);
                    assert(errors@ =~= reported(read(buf@, dialect).errors, policy));
                    Err(errors)
                }
            },
            ErrorPolicy::Accumulate => {
                let (cfg, errors) = Config::from_slice(buf, dialect);
                if errors.len() == 0 {
                    Ok(cfg)
                } else {
                    Err(errors)
                }
            },
        }
    }

    /// Parse a buffer and return the corresponding `Config` object, as GNU
    /// libc reads it. The first error is returned where a line is in error,
    /// and no line behind it is looked at.
    pub fn parse(buf: &[u8]) -> (r: Result<Config, ParseError>)
        ensures
            match r {
                Ok(cfg) => read(buf@, Dialect::StrictGlibc).errors.len() == 0 && cfg@ == read(
                    buf@,
                    Dialect::StrictGlibc,
                ).config,
                Err(e) => read(buf@, Dialect::StrictGlibc).errors.len() > 0 && e == read(
                    buf@,
                    Dialect::StrictGlibc,
                ).errors[0],
            },
    {
        let (cfg, mut errors) = Config::read_to_first_error(buf, Dialect::StrictGlibc);
        if errors.len() == 0 {
            Ok(cfg)
        } else {
            Err(errors.remove(0))
        }
    }
}

} // verus!
