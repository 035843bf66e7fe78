use resolv_conf::{domain_from_host, Config, Ipv4Addr, Ipv6Addr, ScopedIp};

#[test]
fn parses_domain_name() {
    assert!(domain_from_host(b"regular-hostname\0").is_none());

    assert_eq!(domain_from_host(b"with.domain-name\0"), Some("domain-name"));
    assert_eq!(
        domain_from_host(b"with.multiple.dots\0"),
        Some("multiple.dots")
    );

    assert!(domain_from_host(b"hostname.\0").is_none());
    assert_eq!(domain_from_host(b"host.a\0"), Some("a"));
    assert_eq!(domain_from_host(b"host.au\0"), Some("au"));
}

#[test]
fn test_comment() {
    Config::parse(b"#").unwrap();
    Config::parse(b";").unwrap();
    Config::parse(b"#junk").unwrap();
    Config::parse(b"# junk").unwrap();
    Config::parse(b";junk").unwrap();
    Config::parse(b"; junk").unwrap();
}

fn ip(s: &str) -> ScopedIp {
    s.parse().unwrap()
}

fn parse_str(s: &str) -> Config {
    Config::parse(s.as_bytes()).unwrap()
}

#[test]
fn test_basic_options() {
    assert_eq!(
        parse_str("nameserver 127.0.0.1").nameservers,
        vec![ip("127.0.0.1")]
    );
    assert_eq!(
        parse_str("search localnet.*").get_search(),
        Some(&vec!["localnet.*".to_string()])
    );
    assert_eq!(
        parse_str("domain example.com.").get_domain(),
        Some(&String::from("example.com."))
    );
}

#[test]
fn test_extra_whitespace() {
    assert_eq!(
        parse_str("domain       example.com.").get_domain(),
        Some(&String::from("example.com."))
    );
    assert_eq!(
        parse_str("domain   example.com.   ").get_domain(),
        Some(&String::from("example.com."))
    );
    // hard tabs
    assert_eq!(
        parse_str("	domain		example.com.		").get_domain(),
        Some(&String::from("example.com."))
    );
    // hard tabs + spaces
    assert_eq!(
        parse_str(" 	domain  		example.com.	 	").get_domain(),
        Some(&String::from("example.com."))
    );
}

#[test]
fn test_invalid_lines() {
    assert!(Config::parse(b"nameserver 10.0.0.1%1").is_err());
    assert!(Config::parse(b"nameserver 10.0.0.1.0").is_err());
    assert!(Config::parse(b"Nameserver 10.0.0.1").is_err());
    assert!(Config::parse(b"nameserver 10.0.0.1 domain foo.com").is_err());
    assert!(Config::parse(b"invalid foo.com").is_err());
    assert!(Config::parse(b"options ndots:1 foo:1").is_err());
}

#[test]
fn test_empty_line() {
    assert_eq!(parse_str(""), Config::new());
}

#[test]
fn test_multiple_options_on_one_line() {
    let config = parse_str("options ndots:8 attempts:8 rotate inet6 no-tld-query timeout:8");
    assert_eq!(config.ndots, 8);
    assert_eq!(config.timeout, 8);
    assert_eq!(config.attempts, 8);
    assert_eq!(config.rotate, true);
    assert_eq!(config.inet6, true);
    assert_eq!(config.no_tld_query, true);
}

#[test]
fn test_ip() {
    let parsed = ip("FE80::C001:1DFF:FEE0:0%eth0");
    let address = Ipv6Addr::new(0xfe80, 0, 0, 0, 0xc001, 0x1dff, 0xfee0, 0);
    let scope = "eth0".to_string();
    assert_eq!(parsed, ScopedIp::V6(address, Some(scope)));

    let parsed = ip("FE80::C001:1DFF:FEE0:0%1");
    let address = Ipv6Addr::new(0xfe80, 0, 0, 0, 0xc001, 0x1dff, 0xfee0, 0);
    let scope = "1".to_string();
    assert_eq!(parsed, ScopedIp::V6(address, Some(scope)));

    let parsed = ip("FE80::C001:1DFF:FEE0:0");
    let address = Ipv6Addr::new(0xfe80, 0, 0, 0, 0xc001, 0x1dff, 0xfee0, 0);
    assert_eq!(parsed, ScopedIp::V6(address, None));

    assert!("10.0.0.1%1".parse::<ScopedIp>().is_err());
    assert!("10.0.0.1%eth0".parse::<ScopedIp>().is_err());
    assert!("FE80::C001:1DFF:FEE0:0%".parse::<ScopedIp>().is_err());
    assert!("FE80::C001:1DFF:FEE0:0% ".parse::<ScopedIp>().is_err());

    let parsed = ip("192.168.10.1");
    let address = Ipv4Addr::new(192, 168, 10, 1);
    assert_eq!(parsed, ScopedIp::V4(address));
}

#[test]
fn test_nameserver() {
    assert_eq!(
        parse_str("nameserver 127.0.0.1").nameservers[0],
        ip("127.0.0.1")
    );
    assert_eq!(
        parse_str("nameserver 127.0.0.1#comment").nameservers[0],
        ip("127.0.0.1")
    );
    assert_eq!(
        parse_str("nameserver 127.0.0.1;comment").nameservers[0],
        ip("127.0.0.1")
    );
    assert_eq!(
        parse_str("nameserver 127.0.0.1 # another comment").nameservers[0],
        ip("127.0.0.1")
    );
    assert_eq!(
        parse_str("nameserver 127.0.0.1  ; ").nameservers[0],
        ip("127.0.0.1")
    );
    assert_eq!(parse_str("nameserver ::1").nameservers[0], ip("::1"));
    assert_eq!(
        parse_str("nameserver 2001:db8:85a3:8d3:1319:8a2e:370:7348").nameservers[0],
        ip("2001:db8:85a3:8d3:1319:8a2e:370:7348")
    );
    assert_eq!(
        parse_str("nameserver ::ffff:192.0.2.128").nameservers[0],
        ip("::ffff:192.0.2.128")
    );
}
