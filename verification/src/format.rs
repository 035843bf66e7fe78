//! The text of a configuration: every setting that differs from its default,
//! one directive a line, in a fixed order.

use crate::config::{Config, ConfigView, Family, LastSearch, Lookup, LookupView, OptionName};
use crate::ip::{network_text, scoped_ip_text, Network, ScopedIp, ScopedIpView};
use crate::number::{decimal_text, push_decimal};
use crate::options::{option_str, option_takes_number, option_text};
use crate::seqs::views;
use vstd::prelude::*;
use vstd::string::*;

verus! {

/// One `nameserver` line for each address.
pub open spec fn nameservers_text(list: Seq<ScopedIpView>) -> Seq<char>
    decreases list.len(),
{
    if list.len() == 0 {
        Seq::empty()
    } else {
        nameservers_text(list.drop_last()) + "nameserver "@ + scoped_ip_text(list.last())
            + seq!['\n']
    }
}

/// The `domain` line, where a domain is stored.
pub open spec fn domain_text(domain: Option<Seq<char>>) -> Seq<char> {
    match domain {
        Some(d) => "domain "@ + d + seq!['\n'],
        None => Seq::empty(),
    }
}

/// Each word with a space in front of it.
pub open spec fn spaced(words: Seq<Seq<char>>) -> Seq<char>
    decreases words.len(),
{
    if words.len() == 0 {
        Seq::empty()
    } else {
        spaced(words.drop_last()) + seq![' '] + words.last()
    }
}

/// A directive with its arguments on a line of its own; nothing at all where
/// there is no argument.
pub open spec fn list_line(keyword: Seq<char>, words: Seq<Seq<char>>) -> Seq<char> {
    if words.len() == 0 {
        Seq::empty()
    } else {
        keyword + spaced(words) + seq!['\n']
    }
}

/// The `search` line, where the search list is not empty.
pub open spec fn search_text(search: Option<Seq<Seq<char>>>) -> Seq<char> {
    match search {
        Some(list) => list_line("search"@, list),
        None => Seq::empty(),
    }
}

/// The texts of the networks of a sort list.
pub open spec fn network_words(list: Seq<Network>) -> Seq<Seq<char>> {
    Seq::new(list.len(), |i: int| network_text(list[i]))
}

/// The word for a database of the lookup order.
pub open spec fn lookup_word(l: LookupView) -> Seq<char> {
    match l {
        LookupView::File => "file"@,
        LookupView::Bind => "bind"@,
        LookupView::Extra(name) => name,
    }
}

pub open spec fn lookup_words(list: Seq<LookupView>) -> Seq<Seq<char>> {
    Seq::new(list.len(), |i: int| lookup_word(list[i]))
}

/// The word for a family.
pub open spec fn family_word(f: Family) -> Seq<char> {
    match f {
        Family::Inet4 => "inet4"@,
        Family::Inet6 => "inet6"@,
    }
}

pub open spec fn family_words(list: Seq<Family>) -> Seq<Seq<char>> {
    Seq::new(list.len(), |i: int| family_word(list[i]))
}

/// The `port` line, where a port is set.
pub open spec fn port_text(port: Option<u16>) -> Seq<char> {
    match port {
        Some(p) => "port:"@ + decimal_text(p as nat) + seq!['\n'],
        None => Seq::empty(),
    }
}

/// The `options` line of one option: nothing for a flag that is off or a
/// number at its default.
#[verifier::opaque]
pub open spec fn option_line(c: ConfigView, o: OptionName) -> Seq<char> {
    if o.takes_number() {
        if c.number(o) != o.default_number() {
            "options "@ + option_text(o) + seq![':'] + decimal_text(c.number(o) as nat)
                + seq!['\n']
        } else {
            Seq::empty()
        }
    } else if c.flag(o) {
        "options "@ + option_text(o) + seq!['\n']
    } else {
        Seq::empty()
    }
}

/// The `options` lines, in the order in which the options are declared.
pub open spec fn options_text(c: ConfigView) -> Seq<char> {
    option_line(c, OptionName::Debug) + option_line(c, OptionName::Ndots) + option_line(
        c,
        OptionName::Timeout,
    ) + option_line(c, OptionName::Attempts) + option_line(c, OptionName::Rotate) + option_line(
        c,
        OptionName::NoCheckNames,
    ) + option_line(c, OptionName::Inet6) + option_line(c, OptionName::Ip6Bytestring)
        + option_line(c, OptionName::Ip6Dotint) + option_line(c, OptionName::Edns0) + option_line(
        c,
        OptionName::SingleRequest,
    ) + option_line(c, OptionName::SingleRequestReopen) + option_line(c, OptionName::NoTldQuery)
        + option_line(c, OptionName::UseVc) + option_line(c, OptionName::NoReload) + option_line(
        c,
        OptionName::TrustAd,
    ) + option_line(c, OptionName::NoAaaa)
}

/// The `domain` line where it stands in front of `search`: when `domain` was
/// not the last of the two to be applied.
pub open spec fn domain_first(c: ConfigView) -> Seq<char> {
    if c.last_search != LastSearch::Domain {
        domain_text(c.domain)
    } else {
        Seq::empty()
    }
}

/// The `domain` line where it stands behind `search`: when `domain` was the
/// last of the two to be applied.
pub open spec fn domain_last(c: ConfigView) -> Seq<char> {
    if c.last_search == LastSearch::Domain {
        domain_text(c.domain)
    } else {
        Seq::empty()
    }
}

/// The text of a configuration.
pub open spec fn config_text(c: ConfigView) -> Seq<char> {
    nameservers_text(c.nameservers) + domain_first(c) + search_text(c.search) + domain_last(c)
        + list_line("sortlist"@, network_words(c.sortlist)) + list_line(
        "lookup"@,
        lookup_words(c.lookup),
    ) + list_line("family"@, family_words(c.family)) + port_text(c.port) + options_text(c)
}

fn write_nameservers(out: &mut String, list: &Vec<ScopedIp>)
    ensures
        final(out)@ == old(out)@ + nameservers_text(views(list@)),
{
    let mut i: usize = 0;
    assert(views(list@).take(0) =~= Seq::<ScopedIpView>::empty());
    assert(out@ =~= old(out)@ + nameservers_text(views(list@).take(0)));
    while i < list.len()
        invariant
            i <= list.len(),
            out@ == old(out)@ + nameservers_text(views(list@).take(i as int)),
        decreases list.len() - i,
    {
        let ghost before = out@;
        assert(views(list@).take(i + 1).drop_last() =~= views(list@).take(i as int));
        assert(views(list@).take(i + 1).last() == list@[i as int]@);
        out.append("nameserver ");
        list[i].write_to(out);
        out.push('\n');
        assert(out@ =~= old(out)@ + nameservers_text(views(list@).take(i + 1)));
        i += 1;
    }
    assert(views(list@).take(list.len() as int) =~= views(list@));
}

fn write_domain(out: &mut String, domain: Option<&String>)
    ensures
        final(out)@ == old(out)@ + domain_text(
            match domain {
                Some(d) => Some(d@),
                None => None,
            },
        ),
{
    match domain {
        Some(d) => {
            out.append("domain ");
            out.append(d.as_str());
            out.push('\n');
            assert(final(out)@ =~= old(out)@ + ("domain "@ + d@ + seq!['\n']));
        },
        None => {
            assert(out@ =~= old(out)@ + Seq::<char>::empty());
        },
    }
}

fn write_search(out: &mut String, search: Option<&Vec<String>>)
    ensures
        final(out)@ == old(out)@ + search_text(
            match search {
                Some(list) => Some(views(list@)),
                None => None,
            },
        ),
{
    match search {
        Some(list) => {
            if list.len() == 0 {
                assert(out@ =~= old(out)@ + Seq::<char>::empty());
                return ;
            }
            out.append("search");
            let ghost head = out@;
            let mut i: usize = 0;
            assert(views(list@).take(0) =~= Seq::<Seq<char>>::empty());
            assert(out@ =~= head + spaced(views(list@).take(0)));
            while i < list.len()
                invariant
                    i <= list.len(),
                    out@ == head + spaced(views(list@).take(i as int)),
                decreases list.len() - i,
            {
                assert(views(list@).take(i + 1).drop_last() =~= views(list@).take(i as int));
                assert(views(list@).take(i + 1).last() == list@[i as int]@);
                out.push(' ');
                out.append(list[i].as_str());
                assert(out@ =~= head + spaced(views(list@).take(i + 1)));
                i += 1;
            }
            assert(views(list@).take(list.len() as int) =~= views(list@));
            out.push('\n');
            assert(out@ =~= old(out)@ + ("search"@ + spaced(views(list@)) + seq!['\n']));
        },
        None => {
            assert(out@ =~= old(out)@ + Seq::<char>::empty());
        },
    }
}

fn write_sortlist(out: &mut String, list: &Vec<Network>)
    ensures
        final(out)@ == old(out)@ + list_line("sortlist"@, network_words(list@)),
{
    if list.len() == 0 {
        assert(out@ =~= old(out)@ + Seq::<char>::empty());
        return ;
    }
    out.append("sortlist");
    let ghost head = out@;
    let ghost words = network_words(list@);
    let mut i: usize = 0;
    assert(words.take(0) =~= Seq::<Seq<char>>::empty());
    assert(out@ =~= head + spaced(words.take(0)));
    while i < list.len()
        invariant
            i <= list.len(),
            words == network_words(list@),
            out@ == head + spaced(words.take(i as int)),
        decreases list.len() - i,
    {
        assert(words.take(i + 1).drop_last() =~= words.take(i as int));
        assert(words.take(i + 1).last() == network_text(list@[i as int]));
        out.push(' ');
        list[i].write_to(out);
        assert(out@ =~= head + spaced(words.take(i + 1)));
        i += 1;
    }
    assert(words.take(list.len() as int) =~= words);
    out.push('\n');
    assert(out@ =~= old(out)@ + ("sortlist"@ + spaced(words) + seq!['\n']));
}

/// The word for a database of the lookup order.
fn lookup_str(db: &Lookup) -> (r: &str)
    ensures
        r@ == lookup_word(db@),
{
    match db {
        Lookup::File => "file",
        Lookup::Bind => "bind",
        Lookup::Extra(extra) => extra.as_str(),
    }
}

fn write_lookup(out: &mut String, list: &Vec<Lookup>)
    ensures
        final(out)@ == old(out)@ + list_line("lookup"@, lookup_words(views(list@))),
{
    if list.len() == 0 {
        assert(out@ =~= old(out)@ + Seq::<char>::empty());
        return ;
    }
    out.append("lookup");
    let ghost head = out@;
    let ghost words = lookup_words(views(list@));
    let mut i: usize = 0;
    assert(words.take(0) =~= Seq::<Seq<char>>::empty());
    assert(out@ =~= head + spaced(words.take(0)));
    while i < list.len()
        invariant
            i <= list.len(),
            words == lookup_words(views(list@)),
            out@ == head + spaced(words.take(i as int)),
        decreases list.len() - i,
    {
        assert(words.take(i + 1).drop_last() =~= words.take(i as int));
        assert(words.take(i + 1).last() == lookup_word(list@[i as int]@));
        out.push(' ');
        out.append(lookup_str(&list[i]));
        assert(out@ =~= head + spaced(words.take(i + 1)));
        i += 1;
    }
    assert(words.take(list.len() as int) =~= words);
    out.push('\n');
    assert(out@ =~= old(out)@ + ("lookup"@ + spaced(words) + seq!['\n']));
}

/// The word for a family.
fn family_str(family: &Family) -> (r: &'static str)
    ensures
        r@ == family_word(*family),
{
    match family {
        Family::Inet4 => "inet4",
        Family::Inet6 => "inet6",
    }
}

fn write_family(out: &mut String, list: &Vec<Family>)
    ensures
        final(out)@ == old(out)@ + list_line("family"@, family_words(list@)),
{
    if list.len() == 0 {
        assert(out@ =~= old(out)@ + Seq::<char>::empty());
        return ;
    }
    out.append("family");
    let ghost head = out@;
    let ghost words = family_words(list@);
    let mut i: usize = 0;
    assert(words.take(0) =~= Seq::<Seq<char>>::empty());
    assert(out@ =~= head + spaced(words.take(0)));
    while i < list.len()
        invariant
            i <= list.len(),
            words == family_words(list@),
            out@ == head + spaced(words.take(i as int)),
        decreases list.len() - i,
    {
        assert(words.take(i + 1).drop_last() =~= words.take(i as int));
        assert(words.take(i + 1).last() == family_word(list@[i as int]));
        out.push(' ');
        out.append(family_str(&list[i]));
        assert(out@ =~= head + spaced(words.take(i + 1)));
        i += 1;
    }
    assert(words.take(list.len() as int) =~= words);
    out.push('\n');
    assert(out@ =~= old(out)@ + ("family"@ + spaced(words) + seq!['\n']));
}

fn write_port(out: &mut String, port: Option<u16>)
    ensures
        final(out)@ == old(out)@ + port_text(port),
{
    match port {
        Some(p) => {
            out.append("port:");
            push_decimal(out, p as u64);
            out.push('\n');
            assert(final(out)@ =~= old(out)@ + ("port:"@ + decimal_text(p as nat) + seq!['\n']));
        },
        None => {
            assert(out@ =~= old(out)@ + Seq::<char>::empty());
        },
    }
}

/// The default of a numeric option.
fn default_number(o: OptionName) -> (r: u32)
    ensures
        r == o.default_number(),
{
    match o {
        OptionName::Ndots => 1,
        OptionName::Timeout => 5,
        OptionName::Attempts => 2,
        _ => 0,
    }
}

impl Config {
    fn write_option(&self, out: &mut String, o: OptionName)
        ensures
            final(out)@ == old(out)@ + option_line(self@, o),
    {
        reveal(option_line);
        if option_takes_number(o) {
            let n = self.number(o);
            if n != default_number(o) {
                out.append("options ");
                out.append(option_str(o));
                out.push(':');
                push_decimal(out, n as u64);
                out.push('\n');
                assert(final(out)@ =~= old(out)@ + ("options "@ + option_text(o) + seq![':']
                    + decimal_text(n as nat) + seq!['\n']));
            } else {
                assert(out@ =~= old(out)@ + Seq::<char>::empty());
            }
        } else if self.flag(o) {
            out.append("options ");
            out.append(option_str(o));
            out.push('\n');
            assert(final(out)@ =~= old(out)@ + ("options "@ + option_text(o) + seq!['\n']));
        } else {
            assert(out@ =~= old(out)@ + Seq::<char>::empty());
        }
    }

    fn write_options(&self, out: &mut String)
        ensures
            final(out)@ == old(out)@ + options_text(self@),
    {
        self.write_option(out, OptionName::Debug);
        self.write_option(out, OptionName::Ndots);
        self.write_option(out, OptionName::Timeout);
        self.write_option(out, OptionName::Attempts);
        self.write_option(out, OptionName::Rotate);
        self.write_option(out, OptionName::NoCheckNames);
        self.write_option(out, OptionName::Inet6);
        self.write_option(out, OptionName::Ip6Bytestring);
        self.write_option(out, OptionName::Ip6Dotint);
        self.write_option(out, OptionName::Edns0);
        self.write_option(out, OptionName::SingleRequest);
        self.write_option(out, OptionName::SingleRequestReopen);
        self.write_option(out, OptionName::NoTldQuery);
        self.write_option(out, OptionName::UseVc);
        self.write_option(out, OptionName::NoReload);
        self.write_option(out, OptionName::TrustAd);
        self.write_option(out, OptionName::NoAaaa);
        assert(final(out)@ =~= old(out)@ + options_text(self@));
    }

    /// The text of the configuration: what differs from the defaults, one
    /// directive a line. Of `domain` and `search` the one applied last comes last.
    pub fn to_string(&self) -> (r: String)
        ensures
            r@ == config_text(self@),
    {
        let mut out = String::new();
        write_nameservers(&mut out, self.nameservers());
        let domain_is_last = match self.last_search() {
            LastSearch::Domain => true,
            _ => false,
        };
        if !domain_is_last {
            write_domain(&mut out, self.get_domain());
        }
        write_search(&mut out, self.get_search());
        if domain_is_last {
            write_domain(&mut out, self.get_domain());
        }
        write_sortlist(&mut out, self.sortlist());
        write_lookup(&mut out, self.lookup());
        write_family(&mut out, self.family());
        write_port(&mut out, self.port());
        self.write_options(&mut out);
        assert(out@ =~= config_text(self@));
        out
    }
}

} // verus!
