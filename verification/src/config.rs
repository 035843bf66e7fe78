//! The configuration of a resolver, its defaults and what can be asked of it.

use crate::ip::{IpAddr, Ipv4Addr, Ipv6Addr, Network, ScopedIp, ScopedIpView};
use crate::seqs::{first_index, lemma_first_index_is, lemma_views_push, views};
use crate::text::text_of;
use vstd::prelude::*;
use vstd::slice::slice_subrange;
use vstd::string::*;
use vstd::utf8::{decode_utf8, encode_utf8_decode_utf8, valid_utf8};

verus! {

/// Which of the directives `domain` and `search` was applied last.
#[derive(Copy, Clone, PartialEq, Eq, Debug, Structural)]
pub enum LastSearch {
    /// Neither directive has been applied.
    Neither,
    /// `domain` came last.
    Domain,
    /// `search` came last.
    Search,
}

/// The databases that should be searched during a lookup.
/// This option is commonly found on openbsd.
#[derive(Clone, Debug, PartialEq, Eq)]
pub enum Lookup {
    /// Search for entries in /etc/hosts
    File,
    /// Query a domain name server
    Bind,
    /// A database we don't know yet
    Extra(String),
}

/// What a `Lookup` stands for.
pub enum LookupView {
    File,
    Bind,
    Extra(Seq<char>),
}

impl View for Lookup {
    type V = LookupView;

    open spec fn view(&self) -> LookupView {
        match self {
            Lookup::File => LookupView::File,
            Lookup::Bind => LookupView::Bind,
            Lookup::Extra(name) => LookupView::Extra(name@),
        }
    }
}

/// The internet protocol family that is prefered.
/// This option is commonly found on openbsd.
#[derive(Clone, Copy, Debug, PartialEq, Eq, Structural)]
pub enum Family {
    /// A A lookup for an ipv4 address
    Inet4,
    /// A AAAA lookup for an ipv6 address
    Inet6,
}

/// The rules by which a file is read.
#[derive(Clone, Copy, Debug, PartialEq, Eq, Structural)]
pub enum Dialect {
    /// As GNU libc reads the file: `domain` and `search` replace each other,
    /// at most six search entries are kept, and what is not known is an error.
    StrictGlibc,
    /// `domain` and `search` stay side by side, the search list has no limit,
    /// and what is not known is passed over.
    Permissive,
    /// As macOS reads the files under `/etc/resolver`: a port can be given,
    /// only the options `debug`, `timeout` and `ndots` are known, at most six
    /// search entries are kept, and what is not known is an error.
    MacStyle,
}

/// What becomes of a file with errors.
#[derive(Clone, Copy, Debug, PartialEq, Eq, Structural)]
pub enum ErrorPolicy {
    /// The first error ends the reading and is the only one reported.
    FailFast,
    /// Every line is read and every error reported.
    Accumulate,
}

/// The names that can stand behind `options`.
#[derive(Clone, Copy, Debug, PartialEq, Eq, Structural)]
pub enum OptionName {
    Debug,
    Ndots,
    Timeout,
    Attempts,
    Rotate,
    NoCheckNames,
    Inet6,
    Ip6Bytestring,
    Ip6Dotint,
    NoIp6Dotint,
    Edns0,
    SingleRequest,
    SingleRequestReopen,
    NoTldQuery,
    UseVc,
    NoReload,
    TrustAd,
    NoAaaa,
}

pub const NAMESERVER_LIMIT: usize = 3;

pub const SEARCH_LIMIT: usize = 6;

/// The first `n` elements of a sequence, or all of it where it has no more.
pub open spec fn first_of<T>(s: Seq<T>, n: int) -> Seq<T> {
    if s.len() > n {
        s.take(n)
    } else {
        s
    }
}

/// The scalar options of a configuration.
pub struct OptionsView {
    pub debug: bool,
    pub ndots: u32,
    pub timeout: u32,
    pub attempts: u32,
    pub rotate: bool,
    pub no_check_names: bool,
    pub inet6: bool,
    pub ip6_bytestring: bool,
    pub ip6_dotint: bool,
    pub edns0: bool,
    pub single_request: bool,
    pub single_request_reopen: bool,
    pub no_tld_query: bool,
    pub use_vc: bool,
    pub no_reload: bool,
    pub trust_ad: bool,
    pub no_aaaa: bool,
}

/// What a `Config` stands for: every field as a mathematical value, the
/// scalar options in a group of their own.
pub struct ConfigView {
    pub nameservers: Seq<ScopedIpView>,
    pub last_search: LastSearch,
    pub domain: Option<Seq<char>>,
    pub search: Option<Seq<Seq<char>>>,
    pub sortlist: Seq<Network>,
    pub lookup: Seq<LookupView>,
    pub family: Seq<Family>,
    pub port: Option<u16>,
    pub options: OptionsView,
}

impl OptionName {
    /// Whether the option is written with a number behind a colon.
    pub open spec fn takes_number(self) -> bool {
        self == OptionName::Ndots || self == OptionName::Timeout || self == OptionName::Attempts
    }

    /// The value that a numeric option has when nothing sets it.
    pub open spec fn default_number(self) -> u32 {
        match self {
            OptionName::Ndots => 1,
            OptionName::Timeout => 5,
            OptionName::Attempts => 2,
            _ => 0,
        }
    }

    /// Whether a dialect knows the option.
    pub open spec fn known_to(self, dialect: Dialect) -> bool {
        dialect != Dialect::MacStyle || self == OptionName::Debug || self == OptionName::Timeout
            || self == OptionName::Ndots
    }
}

impl ConfigView {
    /// The configuration in which nothing is set.
    pub open spec fn new() -> ConfigView {
        ConfigView {
            nameservers: Seq::empty(),
            last_search: LastSearch::Neither,
            domain: None,
            search: None,
            sortlist: Seq::empty(),
            lookup: Seq::empty(),
            family: Seq::empty(),
            port: None,
            options: OptionsView::new(),
        }
    }

    /// The record of the last directive agrees with what is stored: the
    /// directive that came last has left its value, and where none came
    /// there is no value.
    pub open spec fn consistent(self) -> bool {
        match self.last_search {
            LastSearch::Neither => self.domain is None && self.search is None,
            LastSearch::Domain => self.domain is Some,
            LastSearch::Search => self.search is Some,
        }
    }

    /// After `domain` has been set.
    #[verifier::opaque]
    pub open spec fn set_domain(self, domain: Seq<char>) -> ConfigView {
        ConfigView { domain: Some(domain), last_search: LastSearch::Domain, ..self }
    }

    /// After `search` has been set.
    #[verifier::opaque]
    pub open spec fn set_search(self, search: Seq<Seq<char>>) -> ConfigView {
        ConfigView { search: Some(search), last_search: LastSearch::Search, ..self }
    }

    /// With the stored domain forgotten; the record of the last directive stays.
    #[verifier::opaque]
    pub open spec fn clear_domain(self) -> ConfigView {
        ConfigView { domain: None, ..self }
    }

    /// With the stored search list forgotten; the record of the last directive stays.
    #[verifier::opaque]
    pub open spec fn clear_search(self) -> ConfigView {
        ConfigView { search: None, ..self }
    }

    /// The suffixes that the last of the directives `domain` and `search` gave.
    pub open spec fn last_search_or_domain(self) -> Seq<Seq<char>> {
        match self.last_search {
            LastSearch::Search => match self.search {
                Some(list) => list,
                None => Seq::empty(),
            },
            LastSearch::Domain => match self.domain {
                Some(domain) => seq![domain],
                None => Seq::empty(),
            },
            LastSearch::Neither => Seq::empty(),
        }
    }

    /// With no more than three name servers: the first three.
    #[verifier::opaque]
    pub open spec fn cut_nameservers(self) -> ConfigView {
        ConfigView { nameservers: first_of(self.nameservers, NAMESERVER_LIMIT as int), ..self }
    }

    /// With no more than six search entries: the first six.
    #[verifier::opaque]
    pub open spec fn cut_search(self) -> ConfigView {
        ConfigView {
            search: match self.search {
                Some(list) => Some(first_of(list, SEARCH_LIMIT as int)),
                None => None,
            },
            ..self
        }
    }

    /// The configuration cut down to what GNU libc uses: three name servers
    /// and six search entries.
    pub open spec fn glibc_normalize(self) -> ConfigView {
        self.cut_nameservers().cut_search()
    }

    /// The name servers, or the two loopback addresses where there is none.
    pub open spec fn nameservers_or_local(self) -> Seq<ScopedIpView> {
        if self.nameservers.len() == 0 {
            seq![
                ScopedIpView::V4(Ipv4Addr { octets: [127, 0, 0, 1] }),
                ScopedIpView::V6(Ipv6Addr { segments: [0, 0, 0, 0, 0, 0, 0, 1] }, None),
            ]
        } else {
            self.nameservers
        }
    }

    /// The value of a numeric option.
    pub open spec fn number(self, o: OptionName) -> u32 {
        self.options.number(o)
    }

    /// Whether an option that is a flag is switched on.
    pub open spec fn flag(self, o: OptionName) -> bool {
        self.options.flag(o)
    }

    /// After a numeric option has been given the value `n`.
    pub open spec fn with_number(self, o: OptionName, n: u32) -> ConfigView {
        ConfigView { options: self.options.with_number(o, n), ..self }
    }

    /// After an option that is a flag has been named.
    pub open spec fn with_flag(self, o: OptionName) -> ConfigView {
        ConfigView { options: self.options.with_flag(o), ..self }
    }
}

impl OptionsView {
    /// The options as they are when nothing sets them.
    pub open spec fn new() -> OptionsView {
        OptionsView {
            debug: false,
            ndots: 1,
            timeout: 5,
            attempts: 2,
            rotate: false,
            no_check_names: false,
            inet6: false,
            ip6_bytestring: false,
            ip6_dotint: false,
            edns0: false,
            single_request: false,
            single_request_reopen: false,
            no_tld_query: false,
            use_vc: false,
            no_reload: false,
            trust_ad: false,
            no_aaaa: false,
        }
    }

    /// The value of a numeric option.
    pub open spec fn number(self, o: OptionName) -> u32 {
        match o {
            OptionName::Ndots => self.ndots,
            OptionName::Timeout => self.timeout,
            OptionName::Attempts => self.attempts,
            _ => 0,
        }
    }

    /// Whether an option that is a flag is switched on.
    pub open spec fn flag(self, o: OptionName) -> bool {
        match o {
            OptionName::Debug => self.debug,
            OptionName::Rotate => self.rotate,
            OptionName::NoCheckNames => self.no_check_names,
            OptionName::Inet6 => self.inet6,
            OptionName::Ip6Bytestring => self.ip6_bytestring,
            OptionName::Ip6Dotint => self.ip6_dotint,
            OptionName::Edns0 => self.edns0,
            OptionName::SingleRequest => self.single_request,
            OptionName::SingleRequestReopen => self.single_request_reopen,
            OptionName::NoTldQuery => self.no_tld_query,
            OptionName::UseVc => self.use_vc,
            OptionName::NoReload => self.no_reload,
            OptionName::TrustAd => self.trust_ad,
            OptionName::NoAaaa => self.no_aaaa,
            _ => false,
        }
    }

    /// After a numeric option has been given the value `n`.
    pub open spec fn with_number(self, o: OptionName, n: u32) -> OptionsView {
        match o {
            OptionName::Ndots => OptionsView { ndots: n, ..self },
            OptionName::Timeout => OptionsView { timeout: n, ..self },
            OptionName::Attempts => OptionsView { attempts: n, ..self },
            _ => self,
        }
    }

    /// After an option that is a flag has been named. Each flag switches its
    /// field on, but for `no-ip6-dotint`, which switches `ip6_dotint` off.
    pub open spec fn with_flag(self, o: OptionName) -> OptionsView {
        match o {
            OptionName::Debug => OptionsView { debug: true, ..self },
            OptionName::Rotate => OptionsView { rotate: true, ..self },
            OptionName::NoCheckNames => OptionsView { no_check_names: true, ..self },
            OptionName::Inet6 => OptionsView { inet6: true, ..self },
            OptionName::Ip6Bytestring => OptionsView { ip6_bytestring: true, ..self },
            OptionName::Ip6Dotint => OptionsView { ip6_dotint: true, ..self },
            OptionName::NoIp6Dotint => OptionsView { ip6_dotint: false, ..self },
            OptionName::Edns0 => OptionsView { edns0: true, ..self },
            OptionName::SingleRequest => OptionsView { single_request: true, ..self },
            OptionName::SingleRequestReopen => OptionsView { single_request_reopen: true, ..self },
            OptionName::NoTldQuery => OptionsView { no_tld_query: true, ..self },
            OptionName::UseVc => OptionsView { use_vc: true, ..self },
            OptionName::NoReload => OptionsView { no_reload: true, ..self },
            OptionName::TrustAd => OptionsView { trust_ad: true, ..self },
            OptionName::NoAaaa => OptionsView { no_aaaa: true, ..self },
            _ => self,
        }
    }
}

/// Represent a resolver configuration, as described in `man 5 resolv.conf`.
/// The options and defaults match those in the linux `man` page.
///
/// Note: while most fields in the structure are public the `search` and
/// `domain` fields must be accessed via methods. This is because there are
/// few different ways to treat `domain` field. In GNU libc `search` and
/// `domain` replace each other ([`get_last_search_or_domain`]).
/// In MacOS `/etc/resolve/*` files `domain` is treated in entirely different
/// way.
///
/// Also consider using [`glibc_normalize`] and [`get_system_domain`] to match
/// behavior of GNU libc.
///
/// [`glibc_normalize`]: #method.glibc_normalize
/// [`get_last_search_or_domain`]: #method.get_last_search_or_domain
/// [`get_system_domain`]: #method.get_system_domain
#[derive(Clone, Debug, PartialEq, Eq)]
pub struct Config {
    /// List of nameservers
    pub nameservers: Vec<ScopedIp>,
    /// Indicated whether the last line that has been parsed is a "domain" directive or a "search"
    /// directive. This is important for compatibility with glibc, since in glibc's implementation,
    /// "search" and "domain" are mutually exclusive, and only the last directive is taken into
    /// consideration.
    last_search: LastSearch,
    /// Domain to append to name when it doesn't contain ndots
    domain: Option<String>,
    /// List of suffixes to append to name when it doesn't contain ndots
    search: Option<Vec<String>>,
    /// List of preferred addresses
    pub sortlist: Vec<Network>,
    /// Enable DNS resolve debugging
    pub debug: bool,
    /// Number of dots in name to try absolute resolving first (default 1)
    pub ndots: u32,
    /// Dns query timeout (default 5 [sec])
    pub timeout: u32,
    /// Number of attempts to resolve name if server is inaccesible (default 2)
    pub attempts: u32,
    /// Round-robin selection of servers (default false)
    pub rotate: bool,
    /// Don't check names for validity (default false)
    pub no_check_names: bool,
    /// Try AAAA query before A
    pub inet6: bool,
    /// Use reverse lookup of ipv6 using bit-label format described instead
    /// of nibble format
    pub ip6_bytestring: bool,
    /// Do ipv6 reverse lookups in ip6.int zone instead of ip6.arpa
    /// (default false)
    pub ip6_dotint: bool,
    /// Enable dns extensions described in RFC 2671
    pub edns0: bool,
    /// Don't make ipv4 and ipv6 requests simultaneously
    pub single_request: bool,
    /// Use same socket for the A and AAAA requests
    pub single_request_reopen: bool,
    /// Don't resolve unqualified name as top level domain
    pub no_tld_query: bool,
    /// Force using TCP for DNS resolution
    pub use_vc: bool,
    /// Disable the automatic reloading of a changed configuration file
    pub no_reload: bool,
    /// Optionally send the AD (authenticated data) bit in queries
    pub trust_ad: bool,
    /// The order in which databases should be searched during a lookup
    /// **(openbsd-only)**
    pub lookup: Vec<Lookup>,
    /// The order in which internet protocol families should be prefered
    /// **(openbsd-only)**
    pub family: Vec<Family>,
    /// Suppress AAAA queries made by the stub resolver
    pub no_aaaa: bool,
    /// The port that queries are sent to, where it is not 53 **(macos-only)**
    pub port: Option<u16>,
}

impl View for Config {
    type V = ConfigView;

    closed spec fn view(&self) -> ConfigView {
        ConfigView {
            nameservers: views(self.nameservers@),
            last_search: self.last_search,
            domain: match self.domain {
                Some(domain) => Some(domain@),
                None => None,
            },
            search: match self.search {
                Some(list) => Some(views(list@)),
                None => None,
            },
            sortlist: self.sortlist@,
            lookup: views(self.lookup@),
            family: self.family@,
            port: self.port,
            options: OptionsView {
                debug: self.debug,
                ndots: self.ndots,
                timeout: self.timeout,
                attempts: self.attempts,
                rotate: self.rotate,
                no_check_names: self.no_check_names,
                inet6: self.inet6,
                ip6_bytestring: self.ip6_bytestring,
                ip6_dotint: self.ip6_dotint,
                edns0: self.edns0,
                single_request: self.single_request,
                single_request_reopen: self.single_request_reopen,
                no_tld_query: self.no_tld_query,
                use_vc: self.use_vc,
                no_reload: self.no_reload,
                trust_ad: self.trust_ad,
                no_aaaa: self.no_aaaa,
            },
        }
    }
}

/// An iterator returned by
/// [`Config.get_last_search_or_domain`](struct.Config.html#method.get_last_search_or_domain)
#[derive(Debug, Clone)]
pub struct DomainIter<'a> {
    domain: Option<&'a String>,
    search: Option<&'a Vec<String>>,
    next: usize,
}

impl<'a> DomainIter<'a> {
    /// The suffixes that are still to come, in order.
    pub closed spec fn remaining(&self) -> Seq<Seq<char>> {
        match self.domain {
            Some(domain) => seq![domain@],
            None => match self.search {
                Some(list) => if self.next <= list@.len() {
                    views(list@).skip(self.next as int)
                } else {
                    Seq::empty()
                },
                None => Seq::empty(),
            },
        }
    }

    /// The next suffix, if one is left.
    pub fn next(&mut self) -> (r: Option<&'a String>)
        ensures
            old(self).remaining().len() == 0 ==> r is None && final(self).remaining() == old(
                self,
            ).remaining(),
            old(self).remaining().len() > 0 ==> r is Some && r->0@ == old(self).remaining()[0]
                && final(self).remaining() == old(self).remaining().skip(1),
    {
        match self.domain {
            Some(domain) => {
                self.domain = None;
                self.search = None;
                assert(seq![domain@].skip(1) =~= Seq::<Seq<char>>::empty());
                Some(domain)
            },
            None => match self.search {
                Some(list) => {
                    if self.next < list.len() {
                        let item = &list[self.next];
                        assert(views(list@).skip(self.next as int).skip(1) =~= views(list@).skip(
                            self.next + 1,
                        ));
                        self.next = self.next + 1;
                        Some(item)
                    } else {
                        assert(self.remaining() =~= Seq::<Seq<char>>::empty());
                        None
                    }
                },
                None => None,
            },
        }
    }
}

impl Config {
    /// The name servers, in order.
    pub fn nameservers(&self) -> (r: &Vec<ScopedIp>)
        ensures
            views(r@) == self@.nameservers,
    {
        &self.nameservers
    }

    /// The sort list, in order.
    pub fn sortlist(&self) -> (r: &Vec<Network>)
        ensures
            r@ == self@.sortlist,
    {
        &self.sortlist
    }

    /// The lookup order.
    pub fn lookup(&self) -> (r: &Vec<Lookup>)
        ensures
            views(r@) == self@.lookup,
    {
        &self.lookup
    }

    /// The preferred families, in order.
    pub fn family(&self) -> (r: &Vec<Family>)
        ensures
            r@ == self@.family,
    {
        &self.family
    }

    /// The port, where one is set.
    pub fn port(&self) -> (r: Option<u16>)
        ensures
            r == self@.port,
    {
        self.port
    }

    /// Which of the directives `domain` and `search` was applied last.
    pub fn last_search(&self) -> (r: LastSearch)
        ensures
            r == self@.last_search,
    {
        self.last_search
    }

    /// Create a new `Config` object with default values.
    pub fn new() -> (r: Config)
        ensures
            r@ == ConfigView::new(),
    {
        let r = Config {
            nameservers: Vec::new(),
            domain: None,
            search: None,
            last_search: LastSearch::Neither,
            sortlist: Vec::new(),
            debug: false,
            ndots: 1,
            timeout: 5,
            attempts: 2,
            rotate: false,
            no_check_names: false,
            inet6: false,
            ip6_bytestring: false,
            ip6_dotint: false,
            edns0: false,
            single_request: false,
            single_request_reopen: false,
            no_tld_query: false,
            use_vc: false,
            no_reload: false,
            trust_ad: false,
            lookup: Vec::new(),
            family: Vec::new(),
            no_aaaa: false,
            port: None,
        };
        assert(r@.nameservers =~= Seq::empty());
        assert(r@.lookup =~= Seq::empty());
        r
    }

    /// Return the suffixes declared in the last "domain" or "search" directive.
    pub fn get_last_search_or_domain(&self) -> (r: DomainIter<'_>)
        ensures
            r.remaining() == self@.last_search_or_domain(),
    {
        match self.last_search {
            LastSearch::Search => {
                let r = DomainIter { domain: None, search: self.search.as_ref(), next: 0 };
                proof {
                    if self.search is Some {
                        assert(views(self.search->0@).skip(0) =~= views(self.search->0@));
                    }
                }
                r
            },
            LastSearch::Domain => DomainIter {
                domain: self.domain.as_ref(),
                search: None,
                next: 0,
            },
            LastSearch::Neither => DomainIter { domain: None, search: None, next: 0 },
        }
    }

    /// Return the domain declared in the last "domain" directive.
    pub fn get_domain(&self) -> (r: Option<&String>)
        ensures
            match r {
                Some(domain) => self@.domain == Some(domain@),
                None => self@.domain is None,
            },
    {
        self.domain.as_ref()
    }

    /// Return the domains declared in the last "search" directive.
    pub fn get_search(&self) -> (r: Option<&Vec<String>>)
        ensures
            match r {
                Some(list) => self@.search == Some(views(list@)),
                None => self@.search is None,
            },
    {
        self.search.as_ref()
    }

    /// Set the domain corresponding to the "domain" directive.
    pub fn set_domain(&mut self, domain: String)
        ensures
            final(self)@ == old(self)@.set_domain(domain@),
    {
        reveal(ConfigView::set_domain);
        self.domain = Some(domain);
        self.last_search = LastSearch::Domain;
    }

    /// Set the domains corresponding the "search" directive.
    pub fn set_search(&mut self, search: Vec<String>)
        ensures
            final(self)@ == old(self)@.set_search(views(search@)),
    {
        reveal(ConfigView::set_search);
        self.search = Some(search);
        self.last_search = LastSearch::Search;
    }

    /// Adds a name server at the end of the list.
    pub fn push_nameserver(&mut self, ip: ScopedIp)
        ensures
            final(self)@ == (ConfigView {
                nameservers: old(self)@.nameservers.push(ip@),
                ..old(self)@
            }),
    {
        proof {
            lemma_views_push(self.nameservers@, ip);
        }
        self.nameservers.push(ip);
    }

    /// Empties the sort list.
    pub fn clear_sortlist(&mut self)
        ensures
            final(self)@ == (ConfigView { sortlist: Seq::empty(), ..old(self)@ }),
    {
        self.sortlist.clear();
    }

    /// Adds a network at the end of the sort list.
    pub fn push_sortlist(&mut self, network: Network)
        ensures
            final(self)@ == (ConfigView {
                sortlist: old(self)@.sortlist.push(network),
                ..old(self)@
            }),
    {
        self.sortlist.push(network);
    }

    /// Adds a database at the end of the lookup order.
    pub fn push_lookup(&mut self, lookup: Lookup)
        ensures
            final(self)@ == (ConfigView { lookup: old(self)@.lookup.push(lookup@), ..old(self)@ }),
    {
        proof {
            lemma_views_push(self.lookup@, lookup);
        }
        self.lookup.push(lookup);
    }

    /// Adds a family at the end of the preferred families.
    pub fn push_family(&mut self, family: Family)
        ensures
            final(self)@ == (ConfigView { family: old(self)@.family.push(family), ..old(self)@ }),
    {
        self.family.push(family);
    }

    /// Sets the port.
    pub fn set_port(&mut self, port: u16)
        ensures
            final(self)@ == (ConfigView { port: Some(port), ..old(self)@ }),
    {
        self.port = Some(port);
    }

    /// Forgets the stored domain; the record of the last directive stays.
    pub(crate) fn clear_domain(&mut self)
        ensures
            final(self)@ == old(self)@.clear_domain(),
    {
        reveal(ConfigView::clear_domain);
        self.domain = None;
    }

    /// Forgets the stored search list; the record of the last directive stays.
    pub(crate) fn clear_search(&mut self)
        ensures
            final(self)@ == old(self)@.clear_search(),
    {
        reveal(ConfigView::clear_search);
        self.search = None;
    }

    /// Normalize config according to glibc rulees
    ///
    /// Currently this method does the following things:
    ///
    /// 1. Truncates list of nameservers to 3 at max
    /// 2. Truncates search list to 6 at max
    ///
    /// Other normalizations may be added in future as long as they hold true
    /// for a particular GNU libc implementation.
    ///
    /// Note: this method is not called after parsing, because we think it's
    /// not forward-compatible to rely on such small and ugly limits. Still,
    /// it's useful to keep implementation as close to glibc as possible.
    pub fn glibc_normalize(&mut self)
        ensures
            final(self)@ == old(self)@.glibc_normalize(),
    {
        self.truncate_nameservers();
        self.truncate_search();
    }

    fn truncate_nameservers(&mut self)
        ensures
            final(self)@ == old(self)@.cut_nameservers(),
    {
        reveal(ConfigView::cut_nameservers);
        let ghost before = self@;
        self.nameservers.truncate(NAMESERVER_LIMIT);
        assert(views(self.nameservers@) =~= first_of(before.nameservers, NAMESERVER_LIMIT as int));
    }

    fn truncate_search(&mut self)
        ensures
            final(self)@ == old(self)@.cut_search(),
    {
        reveal(ConfigView::cut_search);
        let search = self.search.take();
        self.search = first_entries(search);
    }

    /// Get nameserver or on the local machine
    pub fn get_nameservers_or_local(&self) -> (r: Vec<ScopedIp>)
        ensures
            views(r@) == self@.nameservers_or_local(),
    {
        let mut out: Vec<ScopedIp> = Vec::new();
        if self.nameservers.is_empty() {
            out.push(ScopedIp::from(IpAddr::V4(Ipv4Addr::new(127, 0, 0, 1))));
            out.push(ScopedIp::from(IpAddr::V6(Ipv6Addr::new(0, 0, 0, 0, 0, 0, 0, 1))));
            assert(views(out@) =~= self@.nameservers_or_local());
        } else {
            let mut i: usize = 0;
            while i < self.nameservers.len()
                invariant
                    i <= self.nameservers.len(),
                    views(out@) =~= views(self.nameservers@).take(i as int),
                decreases self.nameservers.len() - i,
            {
                let ip = self.nameservers[i].clone();
                proof {
                    lemma_views_push(out@, ip);
                }
                out.push(ip);
                i += 1;
            }
            assert(views(self.nameservers@).take(i as int) =~= views(self.nameservers@));
        }
        out
    }

    /// Get domain from config or fallback to the suffix of a hostname
    ///
    /// This is how glibc finds out a hostname. The name of the host is what
    /// the system reports, as bytes that end with a zero byte.
    pub fn get_system_domain(&self, hostname: &[u8]) -> (r: Option<String>)
        ensures
            match r {
                Some(domain) => Some(domain@) == match self@.domain {
                    Some(own) => Some(own),
                    None => host_domain(hostname@),
                },
                None => self@.domain is None && host_domain(hostname@) is None,
            },
    {
        match &self.domain {
            Some(domain) => Some(domain.clone()),
            None => match domain_from_host(hostname) {
                Some(s) => Some(s.to_owned()),
                None => None,
            },
        }
    }

    /// Whether an option that is a flag is switched on.
    pub fn flag(&self, o: OptionName) -> (r: bool)
        ensures
            r == self@.flag(o),
    {
        match o {
            OptionName::Debug => self.debug,
            OptionName::Rotate => self.rotate,
            OptionName::NoCheckNames => self.no_check_names,
            OptionName::Inet6 => self.inet6,
            OptionName::Ip6Bytestring => self.ip6_bytestring,
            OptionName::Ip6Dotint => self.ip6_dotint,
            OptionName::Edns0 => self.edns0,
            OptionName::SingleRequest => self.single_request,
            OptionName::SingleRequestReopen => self.single_request_reopen,
            OptionName::NoTldQuery => self.no_tld_query,
            OptionName::UseVc => self.use_vc,
            OptionName::NoReload => self.no_reload,
            OptionName::TrustAd => self.trust_ad,
            OptionName::NoAaaa => self.no_aaaa,
            _ => false,
        }
    }

    /// The value of a numeric option.
    pub fn number(&self, o: OptionName) -> (r: u32)
        ensures
            r == self@.number(o),
    {
        match o {
            OptionName::Ndots => self.ndots,
            OptionName::Timeout => self.timeout,
            OptionName::Attempts => self.attempts,
            _ => 0,
        }
    }

    pub(crate) fn put_debug(&mut self, on: bool)
        ensures
            final(self)@ == (ConfigView {
                options: (OptionsView { debug: on, ..old(self)@.options }),
                ..old(self)@
            }),
    {
        self.debug = on;
    }

    pub(crate) fn put_rotate(&mut self, on: bool)
        ensures
            final(self)@ == (ConfigView {
                options: (OptionsView { rotate: on, ..old(self)@.options }),
                ..old(self)@
            }),
    {
        self.rotate = on;
    }

    pub(crate) fn put_no_check_names(&mut self, on: bool)
        ensures
            final(self)@ == (ConfigView {
                options: (OptionsView { no_check_names: on, ..old(self)@.options }),
                ..old(self)@
            }),
    {
        self.no_check_names = on;
    }

    pub(crate) fn put_inet6(&mut self, on: bool)
        ensures
            final(self)@ == (ConfigView {
                options: (OptionsView { inet6: on, ..old(self)@.options }),
                ..old(self)@
            }),
    {
        self.inet6 = on;
    }

    pub(crate) fn put_ip6_bytestring(&mut self, on: bool)
        ensures
            final(self)@ == (ConfigView {
                options: (OptionsView { ip6_bytestring: on, ..old(self)@.options }),
                ..old(self)@
            }),
    {
        self.ip6_bytestring = on;
    }

    pub(crate) fn put_ip6_dotint(&mut self, on: bool)
        ensures
            final(self)@ == (ConfigView {
                options: (OptionsView { ip6_dotint: on, ..old(self)@.options }),
                ..old(self)@
            }),
    {
        self.ip6_dotint = on;
    }

    pub(crate) fn put_edns0(&mut self, on: bool)
        ensures
            final(self)@ == (ConfigView {
                options: (OptionsView { edns0: on, ..old(self)@.options }),
                ..old(self)@
            }),
    {
        self.edns0 = on;
    }

    pub(crate) fn put_single_request(&mut self, on: bool)
        ensures
            final(self)@ == (ConfigView {
                options: (OptionsView { single_request: on, ..old(self)@.options }),
                ..old(self)@
            }),
    {
        self.single_request = on;
    }

    pub(crate) fn put_single_request_reopen(&mut self, on: bool)
        ensures
            final(self)@ == (ConfigView {
                options: (OptionsView { single_request_reopen: on, ..old(self)@.options }),
                ..old(self)@
            }),
    {
        self.single_request_reopen = on;
    }

    pub(crate) fn put_no_tld_query(&mut self, on: bool)
        ensures
            final(self)@ == (ConfigView {
                options: (OptionsView { no_tld_query: on, ..old(self)@.options }),
                ..old(self)@
            }),
    {
        self.no_tld_query = on;
    }

    pub(crate) fn put_use_vc(&mut self, on: bool)
        ensures
            final(self)@ == (ConfigView {
                options: (OptionsView { use_vc: on, ..old(self)@.options }),
                ..old(self)@
            }),
    {
        self.use_vc = on;
    }

    pub(crate) fn put_no_reload(&mut self, on: bool)
        ensures
            final(self)@ == (ConfigView {
                options: (OptionsView { no_reload: on, ..old(self)@.options }),
                ..old(self)@
            }),
    {
        self.no_reload = on;
    }

    pub(crate) fn put_trust_ad(&mut self, on: bool)
        ensures
            final(self)@ == (ConfigView {
                options: (OptionsView { trust_ad: on, ..old(self)@.options }),
                ..old(self)@
            }),
    {
        self.trust_ad = on;
    }

    pub(crate) fn put_no_aaaa(&mut self, on: bool)
        ensures
            final(self)@ == (ConfigView {
                options: (OptionsView { no_aaaa: on, ..old(self)@.options }),
                ..old(self)@
            }),
    {
        self.no_aaaa = on;
    }

    pub(crate) fn put_ndots(&mut self, n: u32)
        ensures
            final(self)@ == (ConfigView {
                options: (OptionsView { ndots: n, ..old(self)@.options }),
                ..old(self)@
            }),
    {
        self.ndots = n;
    }

    pub(crate) fn put_timeout(&mut self, n: u32)
        ensures
            final(self)@ == (ConfigView {
                options: (OptionsView { timeout: n, ..old(self)@.options }),
                ..old(self)@
            }),
    {
        self.timeout = n;
    }

    pub(crate) fn put_attempts(&mut self, n: u32)
        ensures
            final(self)@ == (ConfigView {
                options: (OptionsView { attempts: n, ..old(self)@.options }),
                ..old(self)@
            }),
    {
        self.attempts = n;
    }
}

impl Default for Config {
    fn default() -> (r: Config)
        ensures
            r@ == ConfigView::new(),
    {
        Config::new()
    }
}

/// The search list cut down to its first six entries.
fn first_entries(search: Option<Vec<String>>) -> (r: Option<Vec<String>>)
    ensures
        match search {
            Some(list) => r is Some && views(r->0@) == first_of(views(list@), SEARCH_LIMIT as int),
            None => r is None,
        },
{
    match search {
        Some(mut list) => {
            let ghost full = views(list@);
            list.truncate(SEARCH_LIMIT);
            assert(views(list@) =~= first_of(full, SEARCH_LIMIT as int));
            Some(list)
        },
        None => None,
    }
}

/// The domain in the name of a host. The name ends at the first zero byte;
/// the domain is what stands between the first dot of the name and that end,
/// if there is a dot, something behind it, and the bytes are text.
pub open spec fn host_domain(hostname: Seq<u8>) -> Option<Seq<char>> {
    let end = first_index(hostname, 0u8);
    let dot = first_index(hostname.take(end), 46u8);
    if end < hostname.len() && dot < end && end - dot >= 2 && valid_utf8(
        hostname.subrange(dot + 1, end),
    ) {
        Some(decode_utf8(hostname.subrange(dot + 1, end)))
    } else {
        None
    }
}

/// Parses the domain name from a hostname, if available
pub fn domain_from_host(hostname: &[u8]) -> (r: Option<&str>)
    ensures
        match r {
            Some(domain) => host_domain(hostname@) == Some(domain@),
            None => host_domain(hostname@) is None,
        },
{
    let mut end: usize = 0;
    while end < hostname.len() && hostname[end] != 0
        invariant
            end <= hostname.len(),
            forall|j: int| 0 <= j < end ==> hostname@[j] != 0,
        decreases hostname.len() - end,
    {
        end += 1;
    }
    proof {
        lemma_first_index_is(hostname@, 0u8, end as int);
    }
    if end == hostname.len() {
        return None;
    }
    let name = slice_subrange(hostname, 0, end);
    assert(name@ =~= hostname@.take(end as int));
    let mut dot: usize = 0;
    while dot < end && name[dot] != 46
        invariant
            dot <= end,
            end == name@.len(),
            forall|j: int| 0 <= j < dot ==> name@[j] != 46,
        decreases end - dot,
    {
        dot += 1;
    }
    proof {
        lemma_first_index_is(name@, 46u8, dot as int);
    }
    if dot == end {
        return None;
    }
    // Avoid empty domains
    if end - dot < 2 {
        return None;
    }
    match text_of(slice_subrange(hostname, dot + 1, end)) {
        Ok(s) => {
            proof {
                encode_utf8_decode_utf8(s@);
            }
            Some(s)
        },
        Err(_) => None,
    }
}

} // verus!
