use resolv_conf::{
    Config, Dialect, ErrorPolicy, Family, Ipv4Addr, Ipv6Addr, LastSearch, Lookup, Network,
    ParseError, ScopedIp,
};

fn strict(s: &str) -> Config {
    Config::parse_with(s.as_bytes(), Dialect::StrictGlibc, ErrorPolicy::Accumulate).unwrap()
}

fn relaxed(s: &str) -> Config {
    Config::parse_with(s.as_bytes(), Dialect::Permissive, ErrorPolicy::Accumulate).unwrap()
}

fn mac(s: &str) -> Config {
    Config::parse_with(s.as_bytes(), Dialect::MacStyle, ErrorPolicy::Accumulate).unwrap()
}

fn errors(s: &[u8], dialect: Dialect) -> Vec<ParseError> {
    match Config::parse_with(s, dialect, ErrorPolicy::Accumulate) {
        Ok(_) => Vec::new(),
        Err(e) => e,
    }
}

fn strings(list: &[&str]) -> Vec<String> {
    list.iter().map(|s| s.to_string()).collect()
}

fn suffixes(c: &Config) -> Vec<String> {
    let mut it = c.get_last_search_or_domain();
    let mut out = Vec::new();
    while let Some(s) = it.next() {
        out.push(s.clone());
    }
    out
}

#[test]
fn empty_input_gives_the_defaults() {
    for d in [Dialect::StrictGlibc, Dialect::Permissive, Dialect::MacStyle] {
        for p in [ErrorPolicy::FailFast, ErrorPolicy::Accumulate] {
            assert_eq!(Config::parse_with(b"", d, p).unwrap(), Config::new());
        }
    }
    let c = Config::new();
    assert_eq!(c, Config::default());
    assert_eq!(c.nameservers, vec![]);
    assert!(c.get_domain().is_none());
    assert!(c.get_search().is_none());
    assert_eq!(c.last_search(), LastSearch::Neither);
    assert_eq!(c.sortlist, vec![]);
    assert_eq!((c.debug, c.ndots, c.timeout, c.attempts), (false, 1, 5, 2));
    assert!(!c.rotate && !c.no_check_names && !c.inet6 && !c.ip6_bytestring && !c.ip6_dotint);
    assert!(!c.edns0 && !c.single_request && !c.single_request_reopen && !c.no_tld_query);
    assert!(!c.use_vc && !c.no_reload && !c.trust_ad && !c.no_aaaa);
    assert_eq!(c.lookup, vec![]);
    assert_eq!(c.family, vec![]);
    assert_eq!(c.port, None);
}

#[test]
fn ipv4_scope_is_an_invalid_ip() {
    let e = Config::parse(b"nameserver 10.0.0.1%1").unwrap_err();
    assert!(matches!(e, ParseError::InvalidIp(0, _)));
}

#[test]
fn nameservers_accumulate_in_order() {
    let c = Config::parse_with(
        b"nameserver 127.0.0.1\nnameserver 127.0.0.2",
        Dialect::StrictGlibc,
        ErrorPolicy::Accumulate,
    )
    .unwrap();
    assert_eq!(
        c.nameservers,
        vec![
            ScopedIp::V4(Ipv4Addr::new(127, 0, 0, 1)),
            ScopedIp::V4(Ipv4Addr::new(127, 0, 0, 2))
        ]
    );
}

#[test]
fn strict_glibc_last_of_domain_and_search_wins() {
    let c = strict("domain example.com\nsearch a.com b.com");
    assert_eq!(c.last_search(), LastSearch::Search);
    assert_eq!(c.get_search(), Some(&strings(&["a.com", "b.com"])));
    assert_eq!(c.get_domain(), None);
    assert_eq!(suffixes(&c), strings(&["a.com", "b.com"]));

    let c = strict("search a.com b.com\ndomain example.com");
    assert_eq!(c.last_search(), LastSearch::Domain);
    assert_eq!(c.get_domain(), Some(&"example.com".to_string()));
    assert_eq!(c.get_search(), None);
    assert_eq!(suffixes(&c), strings(&["example.com"]));
}

#[test]
fn other_dialects_keep_domain_and_search_side_by_side() {
    for c in [
        relaxed("domain example.com\nsearch a.com b.com"),
        mac("domain example.com\nsearch a.com b.com"),
    ] {
        assert_eq!(c.last_search(), LastSearch::Search);
        assert_eq!(c.get_search(), Some(&strings(&["a.com", "b.com"])));
        assert_eq!(c.get_domain(), Some(&"example.com".to_string()));
        assert_eq!(suffixes(&c), strings(&["a.com", "b.com"]));
    }
    for c in [
        relaxed("search a.com b.com\ndomain example.com"),
        mac("search a.com b.com\ndomain example.com"),
    ] {
        assert_eq!(c.last_search(), LastSearch::Domain);
        assert_eq!(c.get_search(), Some(&strings(&["a.com", "b.com"])));
        assert_eq!(suffixes(&c), strings(&["example.com"]));
    }
}

#[test]
fn search_is_cut_to_six_entries_but_where_nothing_is_strict() {
    let text = "search a.com b.com c.com d.com e.com f.com g.com";
    let six = strings(&["a.com", "b.com", "c.com", "d.com", "e.com", "f.com"]);
    assert_eq!(strict(text).get_search(), Some(&six));
    assert_eq!(mac(text).get_search(), Some(&six));
    assert_eq!(
        relaxed(text).get_search(),
        Some(&strings(&["a.com", "b.com", "c.com", "d.com", "e.com", "f.com", "g.com"]))
    );
    assert_eq!(strict("search a b c d e f").get_search(), Some(&strings(&["a", "b", "c", "d", "e", "f"])));
}

#[test]
fn search_replaces_and_may_be_empty() {
    let c = strict("search a b\nsearch c");
    assert_eq!(c.get_search(), Some(&strings(&["c"])));
    let c = strict("search a b\nsearch");
    assert_eq!(c.get_search(), Some(&Vec::new()));
    assert_eq!(c.last_search(), LastSearch::Search);
    assert_eq!(suffixes(&c), Vec::<String>::new());
}

#[test]
fn sortlist_reads_networks_and_replaces() {
    let c = strict("sortlist 130.155.160.0/255.255.240.0 130.155.0.0");
    assert_eq!(
        c.sortlist,
        vec![
            Network::V4(Ipv4Addr::new(130, 155, 160, 0), Ipv4Addr::new(255, 255, 240, 0)),
            Network::V4(Ipv4Addr::new(130, 155, 0, 0), Ipv4Addr::new(255, 255, 0, 0)),
        ]
    );
    let c = strict("sortlist 10.0.0.0\nsortlist 2001:db8::/ffff::");
    assert_eq!(
        c.sortlist,
        vec![Network::V6(
            Ipv6Addr::new(0x2001, 0xdb8, 0, 0, 0, 0, 0, 0),
            Ipv6Addr::new(0xffff, 0, 0, 0, 0, 0, 0, 0)
        )]
    );
    assert_eq!(strict("sortlist 10.0.0.0\nsortlist").sortlist, vec![]);
}

#[test]
fn sortlist_keeps_what_is_good_and_reports_the_rest() {
    let (c, e) = Config::from_slice(b"sortlist 10.0.0.0 bad 0.0.0.0 11.1.0.0", Dialect::StrictGlibc);
    assert_eq!(
        c.sortlist,
        vec![
            Network::V4(Ipv4Addr::new(10, 0, 0, 0), Ipv4Addr::new(255, 0, 0, 0)),
            Network::V4(Ipv4Addr::new(11, 1, 0, 0), Ipv4Addr::new(255, 255, 0, 0)),
        ]
    );
    assert_eq!(e.len(), 2);
    assert!(matches!(e[0], ParseError::InvalidIp(0, _)));
    assert!(matches!(e[1], ParseError::InvalidIp(0, _)));
}

#[test]
fn unknown_option_is_an_error_but_where_nothing_is_strict() {
    let text = b"options ndots:1 foo:1";
    for d in [Dialect::StrictGlibc, Dialect::MacStyle] {
        let e = errors(text, d);
        assert_eq!(e.len(), 1);
        assert!(matches!(e[0], ParseError::InvalidOption(0)));
    }
    assert_eq!(relaxed("options ndots:1 foo:1"), Config::new());
    let c = relaxed("options ndots:3 foo:1 rotate bar");
    assert_eq!(c.ndots, 3);
    assert!(c.rotate);
}

#[test]
fn unknown_directive_is_an_error_but_where_nothing_is_strict() {
    for d in [Dialect::StrictGlibc, Dialect::MacStyle] {
        let e = errors(b"\ninvalid foo.com", d);
        assert_eq!(e.len(), 1);
        assert!(matches!(e[0], ParseError::InvalidDirective(1)));
    }
    assert_eq!(relaxed("invalid foo.com\nNameserver 1.1.1.1"), Config::new());
}

#[test]
fn every_option_sets_its_field() {
    let c = strict(
        "options debug ndots:2 timeout:3 attempts:4 rotate no-check-names inet6 ip6-bytestring \
         ip6-dotint edns0 single-request single-request-reopen no-tld-query use-vc no-reload \
         trust-ad no-aaaa",
    );
    assert!(c.debug && c.rotate && c.no_check_names && c.inet6 && c.ip6_bytestring);
    assert!(c.ip6_dotint && c.edns0 && c.single_request && c.single_request_reopen);
    assert!(c.no_tld_query && c.use_vc && c.no_reload && c.trust_ad && c.no_aaaa);
    assert_eq!((c.ndots, c.timeout, c.attempts), (2, 3, 4));
    assert!(!strict("options ip6-dotint no-ip6-dotint").ip6_dotint);
    assert!(strict("options no-ip6-dotint ip6-dotint").ip6_dotint);
    // what stands behind a flag is not looked at
    assert!(strict("options debug:whatever").debug);
    assert!(strict("options rotate:").rotate);
}

#[test]
fn option_numbers_are_unsigned_32_bit() {
    assert_eq!(strict("options ndots:0").ndots, 0);
    assert_eq!(strict("options ndots:4294967295").ndots, 4294967295);
    assert_eq!(strict("options timeout:+7").timeout, 7);
    assert_eq!(strict("options attempts:007").attempts, 7);
    assert_eq!(strict("options attempts:00000000000000000000000000009").attempts, 9);
    for bad in ["4294967296", "-1", "", "+", "1x", "x", "1 ", "++1", "99999999999999999999", "٣"] {
        let text = format!("options ndots:{}", bad);
        let e = errors(text.as_bytes(), Dialect::StrictGlibc);
        if bad == "1 " {
            assert!(e.is_empty());
            continue;
        }
        assert_eq!(e.len(), 1, "{:?}", bad);
        assert!(matches!(e[0], ParseError::InvalidOptionValue(0)), "{:?}", bad);
    }
}

#[test]
fn numeric_option_without_a_number_is_not_an_option() {
    let e = errors(b"options ndots", Dialect::StrictGlibc);
    assert!(matches!(e[..], [ParseError::InvalidOption(0)]));
    assert_eq!(relaxed("options ndots timeout attempts"), Config::new());
}

#[test]
fn option_with_a_second_colon_ends_the_line() {
    for d in [Dialect::StrictGlibc, Dialect::Permissive, Dialect::MacStyle] {
        let (c, e) = Config::from_slice(b"options debug ndots:1:2 timeout:9\noptions timeout:8", d);
        assert!(matches!(e[..], [ParseError::ExtraData(0)]));
        assert!(c.debug);
        assert_eq!(c.ndots, 1);
        assert_eq!(c.timeout, 8);
    }
}

#[test]
fn mac_style_knows_three_options_and_the_port() {
    let c = mac("options debug timeout:9 ndots:3\nport:5353");
    assert!(c.debug);
    assert_eq!((c.timeout, c.ndots), (9, 3));
    assert_eq!(c.port, Some(5353));
    for text in ["options rotate", "options attempts:3", "options no-aaaa", "options edns0"] {
        let e = errors(text.as_bytes(), Dialect::MacStyle);
        assert!(matches!(e[..], [ParseError::InvalidOption(0)]), "{}", text);
    }
    assert_eq!(mac("port:0").port, Some(0));
    assert_eq!(mac("port:65535").port, Some(65535));
    assert_eq!(mac("port:1\nport:2").port, Some(2));
    for text in ["port", "port:", "port:65536", "port:x", "port:-1", "port:1:2"] {
        let e = errors(text.as_bytes(), Dialect::MacStyle);
        assert!(matches!(e[..], [ParseError::InvalidValue(0)]), "{}", text);
    }
    let (c, e) = Config::from_slice(b"port:53 more", Dialect::MacStyle);
    assert_eq!(c.port, Some(53));
    assert!(matches!(e[..], [ParseError::ExtraData(0)]));
    let e = errors(b"port 53", Dialect::MacStyle);
    assert!(matches!(e[..], [ParseError::InvalidValue(0), ParseError::ExtraData(0)]));
}

#[test]
fn port_is_no_directive_of_the_other_dialects() {
    let e = errors(b"port:53", Dialect::StrictGlibc);
    assert!(matches!(e[..], [ParseError::InvalidDirective(0)]));
    assert_eq!(relaxed("port:53").port, None);
}

#[test]
fn lookup_and_family_append() {
    let c = strict("lookup file bind\nlookup yp file\nfamily inet4\nfamily inet6 inet4");
    assert_eq!(
        c.lookup,
        vec![Lookup::File, Lookup::Bind, Lookup::Extra("yp".to_string()), Lookup::File]
    );
    assert_eq!(c.family, vec![Family::Inet4, Family::Inet6, Family::Inet4]);
    let (c, e) = Config::from_slice(b"family inet4 inet5 inet6", Dialect::Permissive);
    assert_eq!(c.family, vec![Family::Inet4, Family::Inet6]);
    assert!(matches!(e[..], [ParseError::InvalidValue(0)]));
    assert_eq!(strict("lookup\nfamily"), Config::new());
}

#[test]
fn keywords_are_matched_letter_for_letter() {
    for text in ["Nameserver 1.1.1.1", "DOMAIN x", "nameserver1.1.1.1", "name server", "options:"] {
        let e = errors(text.as_bytes(), Dialect::StrictGlibc);
        assert!(matches!(e[..], [ParseError::InvalidDirective(0)]), "{}", text);
    }
    let e = errors(b"options Debug", Dialect::StrictGlibc);
    assert!(matches!(e[..], [ParseError::InvalidOption(0)]));
}

#[test]
fn missing_and_extra_arguments() {
    for text in ["nameserver", "domain", "nameserver # 1.1.1.1", "domain;x"] {
        let e = errors(text.as_bytes(), Dialect::Permissive);
        assert!(matches!(e[..], [ParseError::InvalidValue(0)]), "{}", text);
    }
    let (c, e) = Config::from_slice(b"nameserver 10.0.0.1 domain foo.com", Dialect::StrictGlibc);
    assert_eq!(c.nameservers, vec![ScopedIp::V4(Ipv4Addr::new(10, 0, 0, 1))]);
    assert!(matches!(e[..], [ParseError::ExtraData(0)]));
    let (c, e) = Config::from_slice(b"nameserver bad more", Dialect::StrictGlibc);
    assert_eq!(c.nameservers, vec![]);
    assert!(matches!(e[..], [ParseError::InvalidIp(0, _), ParseError::ExtraData(0)]));
    let (c, e) = Config::from_slice(b"domain a b", Dialect::StrictGlibc);
    assert_eq!(c.get_domain(), Some(&"a".to_string()));
    assert!(matches!(e[..], [ParseError::ExtraData(0)]));
}

#[test]
fn comment_lines_may_hold_any_bytes() {
    for d in [Dialect::StrictGlibc, Dialect::Permissive, Dialect::MacStyle] {
        for line in [&b"#\xff\xfe"[..], b";\xc3", b" \t # \x80\x80", b"\t;\xf0\x28\x8c\x28", b"#"] {
            let mut text = b"nameserver 1.1.1.1\n".to_vec();
            text.extend_from_slice(line);
            text.extend_from_slice(b"\nnameserver 2.2.2.2");
            let (c, e) = Config::from_slice(&text, d);
            assert!(e.is_empty());
            assert_eq!(
                c.nameservers,
                vec![ScopedIp::V4(Ipv4Addr::new(1, 1, 1, 1)), ScopedIp::V4(Ipv4Addr::new(2, 2, 2, 2))]
            );
        }
    }
}

#[test]
fn bytes_that_are_no_text_are_an_error_outside_comments() {
    let (c, e) = Config::from_slice(b"nameserver 1.1.1.1\ndomain \xff\nnameserver 1.1.1.1 # \xff\nsearch x", Dialect::StrictGlibc);
    assert_eq!(e.len(), 2);
    assert!(matches!(e[0], ParseError::InvalidUtf8(1, _)));
    assert!(matches!(e[1], ParseError::InvalidUtf8(2, _)));
    assert_eq!(c.nameservers.len(), 1);
    assert_eq!(c.get_search(), Some(&strings(&["x"])));
    match &e[0] {
        ParseError::InvalidUtf8(_, cause) => assert_eq!(cause.valid_up_to(), 7),
        _ => unreachable!(),
    }
    // a carriage return is white space, a vertical tab at the front is no indent of a comment
    let (c, e) = Config::from_slice(b"domain a\r\n\x0b#x\n\r#y", Dialect::Permissive);
    assert!(e.is_empty());
    assert_eq!(c.get_domain(), Some(&"a".to_string()));
    let (_, e) = Config::from_slice(b"\x0b#\xff", Dialect::Permissive);
    assert!(matches!(e[..], [ParseError::InvalidUtf8(0, _)]));
}

#[test]
fn words_are_split_at_unicode_white_space() {
    let c = strict("search a\u{a0}b\u{2003}c\u{3000}d\u{85}e\u{0b}f");
    assert_eq!(c.get_search(), Some(&strings(&["a", "b", "c", "d", "e", "f"])));
    let c = strict("search a\u{200b}b é.example ü");
    assert_eq!(c.get_search(), Some(&strings(&["a\u{200b}b", "é.example", "ü"])));
}

#[test]
fn lines_are_counted_from_zero() {
    let e = errors(b"\n\n# x\nbad\n\noptions what", Dialect::StrictGlibc);
    assert!(matches!(e[..], [ParseError::InvalidDirective(3), ParseError::InvalidOption(5)]));
}

#[test]
fn error_policies_report_the_first_or_all() {
    let text = b"nameserver bad more\ndomain\noptions x\nnameserver 1.1.1.1";
    let all = Config::parse_with(text, Dialect::StrictGlibc, ErrorPolicy::Accumulate).unwrap_err();
    assert!(matches!(
        all[..],
        [
            ParseError::InvalidIp(0, _),
            ParseError::ExtraData(0),
            ParseError::InvalidValue(1),
            ParseError::InvalidOption(2)
        ]
    ));
    let first = Config::parse_with(text, Dialect::StrictGlibc, ErrorPolicy::FailFast).unwrap_err();
    assert!(matches!(first[..], [ParseError::InvalidIp(0, _)]));
    assert!(matches!(Config::parse(text), Err(ParseError::InvalidIp(0, _))));
    let (partial, errs) = Config::from_slice(text, Dialect::StrictGlibc);
    assert_eq!(errs.len(), 4);
    assert_eq!(partial.nameservers, vec![ScopedIp::V4(Ipv4Addr::new(1, 1, 1, 1))]);
}

#[test]
fn parse_reads_as_gnu_libc_does() {
    let c = Config::parse(b"domain d\nsearch a b c d e f g\noptions rotate").unwrap();
    assert_eq!(c.get_domain(), None);
    assert_eq!(c.get_search().map(|s| s.len()), Some(6));
    assert!(c.rotate);
    assert!(Config::parse(b"port:53").is_err());
}

#[test]
fn error_messages() {
    let m = |text: &[u8], d: Dialect| errors(text, d)[0].to_string();
    assert_eq!(
        m(b"\ndomain", Dialect::StrictGlibc),
        "directive at line 1 is improperly formatted or contains invalid value"
    );
    assert_eq!(
        m(b"options ndots:x", Dialect::StrictGlibc),
        "directive options at line 0 contains invalid value of some option"
    );
    assert_eq!(m(b"options x", Dialect::StrictGlibc), "option at line 0 is not recognized");
    assert_eq!(m(b"x", Dialect::StrictGlibc), "directive at line 0 is not recognized");
    assert_eq!(
        m(b"\n\n\n\n\n\n\n\n\n\n\n\nnameserver x", Dialect::StrictGlibc),
        "directive at line 12 contains invalid IP: invalid IP address syntax"
    );
    assert_eq!(m(b"domain a b", Dialect::StrictGlibc), "extra data at the end of line 0");
    assert_eq!(
        m(b"domain \xff", Dialect::StrictGlibc),
        "bad unicode at line 0: invalid utf-8 sequence of 1 bytes from index 7"
    );
    let e = errors(b"x\ndomain \xff", Dialect::StrictGlibc);
    assert!(e[0].source().is_none());
    assert_eq!(e[0].line(), 0);
    assert_eq!(e[1].source().map(|c| c.valid_up_to()), Some(7));
    assert_eq!(e[1].line(), 1);
}

#[test]
fn the_first_line_in_error_ends_the_reading() {
    let text = b"nameserver 1.1.1.1\nbogus\ndomain \xff\noptions ndots:x";
    for d in [Dialect::StrictGlibc, Dialect::MacStyle] {
        let first = Config::parse_with(text, d, ErrorPolicy::FailFast).unwrap_err();
        assert!(matches!(first[..], [ParseError::InvalidDirective(1)]));
        let all = Config::parse_with(text, d, ErrorPolicy::Accumulate).unwrap_err();
        assert!(matches!(
            all[..],
            [
                ParseError::InvalidDirective(1),
                ParseError::InvalidUtf8(2, _),
                ParseError::InvalidOptionValue(3)
            ]
        ));
    }
    assert!(matches!(Config::parse(text), Err(ParseError::InvalidDirective(1))));
    let relaxed = Config::parse_with(text, Dialect::Permissive, ErrorPolicy::FailFast).unwrap_err();
    assert!(matches!(relaxed[..], [ParseError::InvalidUtf8(2, _)]));
}

#[test]
fn what_was_read_is_read_again_from_its_text() {
    let text = b"  # resolver\nnameserver fe80::1%eth0 extra\nnameserver ::ffff:1.2.3.4\n\
        search  a.example\tb.example ; two\nsortlist 10.0.0.0 1:2::/ffff:: bad\n\
        options ndots:3 debug timeout:09 rotate\nlookup file bind other\nfamily inet6 inet4\n\
        port:5353\ndomain example.org\nnameserver 9.9.9.9\n";
    for d in [Dialect::StrictGlibc, Dialect::Permissive, Dialect::MacStyle] {
        let (first, _) = Config::from_slice(text, d);
        let written = first.to_string();
        let (second, errors) = Config::from_slice(written.as_bytes(), d);
        assert!(errors.is_empty());
        assert_eq!(second, first);
        assert_eq!(second.to_string(), written);
    }
}
