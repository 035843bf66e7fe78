use resolv_conf::{
    domain_from_host, Config, Dialect, ErrorPolicy, Family, Ipv4Addr, Ipv6Addr, LastSearch, Lookup, Network,
    OptionName, ScopedIp,
};

fn strings(list: &[&str]) -> Vec<String> {
    list.iter().map(|s| s.to_string()).collect()
}

fn suffixes(c: &Config) -> Vec<String> {
    let mut it = c.get_last_search_or_domain();
    let mut out = Vec::new();
    while let Some(s) = it.next() {
        out.push(s.clone());
    }
    out
}

#[test]
fn setters_record_which_came_last() {
    let mut c = Config::new();
    assert_eq!(suffixes(&c), Vec::<String>::new());
    c.set_domain("example.com".to_string());
    assert_eq!(c.last_search(), LastSearch::Domain);
    assert_eq!(suffixes(&c), strings(&["example.com"]));
    c.set_search(strings(&["a", "b"]));
    assert_eq!(c.last_search(), LastSearch::Search);
    assert_eq!(c.get_domain(), Some(&"example.com".to_string()));
    assert_eq!(suffixes(&c), strings(&["a", "b"]));
    c.set_domain("last".to_string());
    assert_eq!(c.get_search(), Some(&strings(&["a", "b"])));
    assert_eq!(suffixes(&c), strings(&["last"]));
}

#[test]
fn domain_iter_ends_and_stays_ended() {
    let mut c = Config::new();
    c.set_search(strings(&["a"]));
    let mut it = c.get_last_search_or_domain();
    assert_eq!(it.next(), Some(&"a".to_string()));
    assert_eq!(it.next(), None);
    assert_eq!(it.next(), None);
    c.set_domain("d".to_string());
    let mut it = c.get_last_search_or_domain();
    let mut copy = it.clone();
    assert_eq!(it.next(), Some(&"d".to_string()));
    assert_eq!(it.next(), None);
    assert_eq!(copy.next(), Some(&"d".to_string()));
}

#[test]
fn glibc_normalize_cuts_nameservers_and_search() {
    let mut c = Config::parse_with(
        b"nameserver 1.1.1.1\nnameserver 2.2.2.2\nnameserver 3.3.3.3\nnameserver 4.4.4.4\n\
          search a b c d e f g h\ndomain d",
        Dialect::Permissive,
        ErrorPolicy::Accumulate,
    )
    .unwrap();
    assert_eq!(c.nameservers.len(), 4);
    assert_eq!(c.get_search().map(|s| s.len()), Some(8));
    c.glibc_normalize();
    assert_eq!(
        c.nameservers,
        vec![
            ScopedIp::V4(Ipv4Addr::new(1, 1, 1, 1)),
            ScopedIp::V4(Ipv4Addr::new(2, 2, 2, 2)),
            ScopedIp::V4(Ipv4Addr::new(3, 3, 3, 3))
        ]
    );
    assert_eq!(c.get_search(), Some(&strings(&["a", "b", "c", "d", "e", "f"])));
    assert_eq!(c.get_domain(), Some(&"d".to_string()));
    assert_eq!(c.last_search(), LastSearch::Domain);
    let mut small = Config::parse(b"nameserver 1.1.1.1\nsearch a").unwrap();
    let before = small.clone();
    small.glibc_normalize();
    assert_eq!(small, before);
    let mut none = Config::new();
    none.glibc_normalize();
    assert_eq!(none, Config::new());
}

#[test]
fn nameservers_or_local() {
    assert_eq!(
        Config::new().get_nameservers_or_local(),
        vec![
            ScopedIp::V4(Ipv4Addr::new(127, 0, 0, 1)),
            ScopedIp::V6(Ipv6Addr::new(0, 0, 0, 0, 0, 0, 0, 1), None)
        ]
    );
    let c = Config::parse(b"nameserver fe80::1%eth0\nnameserver 9.9.9.9").unwrap();
    assert_eq!(
        c.get_nameservers_or_local(),
        vec![
            ScopedIp::V6(Ipv6Addr::new(0xfe80, 0, 0, 0, 0, 0, 0, 1), Some("eth0".to_string())),
            ScopedIp::V4(Ipv4Addr::new(9, 9, 9, 9))
        ]
    );
}

#[test]
fn system_domain_prefers_the_configured_domain() {
    let c = Config::parse(b"domain example.com").unwrap();
    assert_eq!(c.get_system_domain(b"host.other.org\0"), Some("example.com".to_string()));
    let c = Config::new();
    assert_eq!(c.get_system_domain(b"host.other.org\0"), Some("other.org".to_string()));
    assert_eq!(c.get_system_domain(b"host\0"), None);
    assert_eq!(c.get_system_domain(b"host.other.org"), None);
    assert_eq!(c.get_system_domain(b""), None);
}

#[test]
fn domain_from_host_edge_cases() {
    assert_eq!(domain_from_host(b""), None);
    assert_eq!(domain_from_host(b"\0"), None);
    assert_eq!(domain_from_host(b".\0"), None);
    assert_eq!(domain_from_host(b".a\0"), Some("a"));
    assert_eq!(domain_from_host(b"a.b"), None);
    assert_eq!(domain_from_host(b"a\0.b\0"), None);
    assert_eq!(domain_from_host(b"a.b\0c.d\0"), Some("b"));
    assert_eq!(domain_from_host(b"a..b\0"), Some(".b"));
    assert_eq!(domain_from_host(b"a.\xff\0"), None);
    assert_eq!(domain_from_host("h.é\0".as_bytes()), Some("é"));
    let mut long = [0u8; 1024];
    long[..8].copy_from_slice(b"host.lan");
    assert_eq!(domain_from_host(&long), Some("lan"));
}

#[test]
fn options_by_name() {
    let mut c = Config::new();
    for o in [
        OptionName::Debug, OptionName::Rotate, OptionName::NoCheckNames, OptionName::Inet6,
        OptionName::Ip6Bytestring, OptionName::Ip6Dotint, OptionName::Edns0,
        OptionName::SingleRequest, OptionName::SingleRequestReopen, OptionName::NoTldQuery,
        OptionName::UseVc, OptionName::NoReload, OptionName::TrustAd, OptionName::NoAaaa,
    ] {
        assert!(!c.flag(o));
        c.set_flag(o);
        assert!(c.flag(o), "{:?}", o);
    }
    assert!(c.debug && c.rotate && c.no_check_names && c.inet6 && c.ip6_bytestring);
    assert!(c.ip6_dotint && c.edns0 && c.single_request && c.single_request_reopen);
    assert!(c.no_tld_query && c.use_vc && c.no_reload && c.trust_ad && c.no_aaaa);
    c.set_flag(OptionName::NoIp6Dotint);
    assert!(!c.ip6_dotint);
    assert!(!c.flag(OptionName::NoIp6Dotint));
    assert_eq!(
        (c.number(OptionName::Ndots), c.number(OptionName::Timeout), c.number(OptionName::Attempts)),
        (1, 5, 2)
    );
    c.set_number(OptionName::Ndots, 7);
    c.set_number(OptionName::Timeout, 8);
    c.set_number(OptionName::Attempts, 9);
    c.set_number(OptionName::Debug, 3);
    assert_eq!((c.ndots, c.timeout, c.attempts), (7, 8, 9));
    assert_eq!(c.number(OptionName::Debug), 0);
}

#[test]
fn getters_show_the_fields() {
    let mut c = Config::new();
    c.push_nameserver(ScopedIp::V4(Ipv4Addr::new(1, 2, 3, 4)));
    c.push_sortlist(Network::V4(Ipv4Addr::new(10, 0, 0, 0), Ipv4Addr::new(255, 0, 0, 0)));
    c.push_lookup(Lookup::Bind);
    c.push_family(Family::Inet6);
    c.set_port(53);
    assert_eq!(c.nameservers(), &c.nameservers);
    assert_eq!(c.sortlist(), &c.sortlist);
    assert_eq!(c.lookup(), &vec![Lookup::Bind]);
    assert_eq!(c.family(), &vec![Family::Inet6]);
    assert_eq!(c.port(), Some(53));
    c.clear_sortlist();
    assert_eq!(c.sortlist, vec![]);
}

#[test]
fn text_of_the_defaults_is_empty() {
    assert_eq!(Config::new().to_string(), "");
}

#[test]
fn text_holds_what_differs_from_the_defaults_in_order() {
    let mut c = Config::new();
    c.nameservers.push(ScopedIp::V6(Ipv6Addr::new(0xfe80, 0, 0, 0, 0, 0, 0, 1), Some("eth0".to_string())));
    c.nameservers.push(ScopedIp::V4(Ipv4Addr::new(8, 8, 8, 8)));
    c.set_domain("example.com".to_string());
    c.set_search(strings(&["a.example.com", "b.example.com"]));
    c.sortlist.push(Network::V4(Ipv4Addr::new(130, 155, 160, 0), Ipv4Addr::new(255, 255, 240, 0)));
    c.sortlist.push(Network::V6(Ipv6Addr::new(0x2001, 0xdb8, 0, 0, 0, 0, 0, 0), Ipv6Addr::new(0xffff, 0xffff, 0, 0, 0, 0, 0, 0)));
    c.lookup = vec![Lookup::File, Lookup::Bind, Lookup::Extra("yp".to_string())];
    c.family = vec![Family::Inet6, Family::Inet4];
    c.debug = true;
    c.ndots = 0;
    c.timeout = 4294967295;
    c.attempts = 10;
    c.rotate = true;
    c.no_check_names = true;
    c.inet6 = true;
    c.ip6_bytestring = true;
    c.ip6_dotint = true;
    c.edns0 = true;
    c.single_request = true;
    c.single_request_reopen = true;
    c.no_tld_query = true;
    c.use_vc = true;
    c.no_reload = true;
    c.trust_ad = true;
    c.no_aaaa = true;
    assert_eq!(
        c.to_string(),
        "nameserver fe80::1%eth0\n\
         nameserver 8.8.8.8\n\
         domain example.com\n\
         search a.example.com b.example.com\n\
         sortlist 130.155.160.0/255.255.240.0 2001:db8::/ffff:ffff::\n\
         lookup file bind yp\n\
         family inet6 inet4\n\
         options debug\n\
         options ndots:0\n\
         options timeout:4294967295\n\
         options attempts:10\n\
         options rotate\n\
         options no-check-names\n\
         options inet6\n\
         options ip6-bytestring\n\
         options ip6-dotint\n\
         options edns0\n\
         options single-request\n\
         options single-request-reopen\n\
         options no-tld-query\n\
         options use-vc\n\
         options no-reload\n\
         options trust-ad\n\
         options no-aaaa\n"
    );
}

#[test]
fn text_puts_the_last_of_domain_and_search_last() {
    let mut c = Config::new();
    c.set_search(strings(&["a", "b"]));
    c.set_domain("d".to_string());
    assert_eq!(c.to_string(), "search a b\ndomain d\n");
    let mut c = Config::new();
    c.set_domain("d".to_string());
    c.set_search(strings(&["a", "b"]));
    assert_eq!(c.to_string(), "domain d\nsearch a b\n");
    let mut c = Config::new();
    c.set_domain("d".to_string());
    c.set_search(Vec::new());
    assert_eq!(c.to_string(), "domain d\n");
    let mut c = Config::new();
    c.port = Some(5353);
    c.timeout = 5;
    c.ndots = 2;
    assert_eq!(c.to_string(), "port:5353\noptions ndots:2\n");
}

#[test]
fn what_was_read_survives_writing_and_reading() {
    let texts: [(&str, Dialect); 7] = [
        ("", Dialect::StrictGlibc),
        (
            "# a file\nnameserver 2001:4860:4860::8888\nnameserver 8.8.4.4\n\
             options ndots:8 timeout:8 attempts:8\ndomain example.com\n\
             search example.com sub.example.com\noptions rotate\noptions inet6 no-tld-query\n\
             sortlist 130.155.160.0/255.255.240.0 130.155.0.0",
            Dialect::StrictGlibc,
        ),
        (
            "search a b c d e f g h i\ndomain example.com\nnameserver ::ffff:1.2.3.4%7\n\
             lookup file bind other\nfamily inet6 inet4\nbogus line\noptions what debug\n\
             sortlist ::1 10.1.2.3/0.0.0.1",
            Dialect::Permissive,
        ),
        (
            "domain example.com.\nsearch example.com. sub.example.com.\nport:5353\n\
             options debug timeout:1 ndots:0\nnameserver fe80::1%en0",
            Dialect::MacStyle,
        ),
        ("search a\ndomain b\nsearch c d", Dialect::MacStyle),
        ("domain \u{e9}.example\nsearch \u{4f8b}\u{3048}.jp x", Dialect::Permissive),
        (
            "options debug rotate no-check-names inet6 ip6-bytestring ip6-dotint edns0 \
             single-request single-request-reopen no-tld-query use-vc no-reload trust-ad no-aaaa",
            Dialect::StrictGlibc,
        ),
    ];
    for (text, dialect) in texts {
        let first = Config::parse_with(text.as_bytes(), dialect, ErrorPolicy::Accumulate).unwrap();
        let written = first.to_string();
        let second =
            Config::parse_with(written.as_bytes(), dialect, ErrorPolicy::Accumulate).unwrap();
        assert_eq!(second, first, "{}", written);
        assert_eq!(second.to_string(), written);
    }
}

#[test]
fn an_empty_search_list_is_not_written() {
    let first = Config::parse(b"search").unwrap();
    assert_eq!(first.to_string(), "");
    assert_eq!(first.last_search(), LastSearch::Search);
    let second = Config::parse(first.to_string().as_bytes()).unwrap();
    assert_eq!(second.last_search(), LastSearch::Neither);
    assert_eq!(second.get_search(), None);
}
