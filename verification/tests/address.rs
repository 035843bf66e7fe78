use resolv_conf::{AddrParseError, IpAddr, Ipv4Addr, Ipv6Addr, Network, ScopedIp};

fn v6(s: &str) -> Option<[u16; 8]> {
    Ipv6Addr::from_str(s).ok().map(|a| a.segments())
}

fn v4(s: &str) -> Option<[u8; 4]> {
    Ipv4Addr::from_str(s).ok().map(|a| a.octets())
}

#[test]
fn ipv4_reads_dotted_quads() {
    assert_eq!(v4("0.0.0.0"), Some([0, 0, 0, 0]));
    assert_eq!(v4("255.255.255.255"), Some([255, 255, 255, 255]));
    assert_eq!(v4("192.168.10.1"), Some([192, 168, 10, 1]));
    assert_eq!(v4("8.8.4.4"), Some([8, 8, 4, 4]));
}

#[test]
fn ipv4_refuses_what_is_no_dotted_quad() {
    for s in [
        "", ".", "1", "1.2.3", "1.2.3.4.5", "1.2.3.", ".1.2.3", "1..2.3", "256.1.1.1",
        "1.2.3.256", "01.2.3.4", "1.2.3.04", "00.0.0.0", "1.2.3.4 ", " 1.2.3.4", "1.2.3.a",
        "+1.2.3.4", "1.2.3.-4", "1.2.3.4/8", "1234.1.1.1", "0x1.2.3.4", "1.2.3.4%1",
        "99999999999999999999.1.1.1",
    ] {
        assert_eq!(v4(s), None, "{:?}", s);
    }
}

#[test]
fn ipv6_reads_full_and_shortened_texts() {
    assert_eq!(v6("1:2:3:4:5:6:7:8"), Some([1, 2, 3, 4, 5, 6, 7, 8]));
    assert_eq!(v6("::"), Some([0; 8]));
    assert_eq!(v6("::1"), Some([0, 0, 0, 0, 0, 0, 0, 1]));
    assert_eq!(v6("1::"), Some([1, 0, 0, 0, 0, 0, 0, 0]));
    assert_eq!(v6("1::8"), Some([1, 0, 0, 0, 0, 0, 0, 8]));
    assert_eq!(v6("1:2:3:4:5:6:7::"), Some([1, 2, 3, 4, 5, 6, 7, 0]));
    assert_eq!(v6("::2:3:4:5:6:7:8"), Some([0, 2, 3, 4, 5, 6, 7, 8]));
    assert_eq!(v6("1:2:3::6:7:8"), Some([1, 2, 3, 0, 0, 6, 7, 8]));
    assert_eq!(
        v6("2001:db8:85a3:8d3:1319:8a2e:370:7348"),
        Some([0x2001, 0xdb8, 0x85a3, 0x8d3, 0x1319, 0x8a2e, 0x370, 0x7348])
    );
    assert_eq!(
        v6("FE80::C001:1DFF:FEE0:0"),
        Some([0xfe80, 0, 0, 0, 0xc001, 0x1dff, 0xfee0, 0])
    );
    assert_eq!(v6("0000:0000::00ff"), Some([0, 0, 0, 0, 0, 0, 0, 0xff]));
    assert_eq!(v6("fFfF::AbCd"), Some([0xffff, 0, 0, 0, 0, 0, 0, 0xabcd]));
}

#[test]
fn ipv6_reads_a_dotted_quad_at_the_end() {
    assert_eq!(
        v6("::ffff:192.0.2.128"),
        Some([0, 0, 0, 0, 0, 0xffff, 0xc000, 0x0280])
    );
    assert_eq!(v6("::1.2.3.4"), Some([0, 0, 0, 0, 0, 0, 0x0102, 0x0304]));
    assert_eq!(
        v6("1:2:3:4:5:6:1.2.3.4"),
        Some([1, 2, 3, 4, 5, 6, 0x0102, 0x0304])
    );
    assert_eq!(
        v6("1:2:3:4:5::1.2.3.4"),
        Some([1, 2, 3, 4, 5, 0, 0x0102, 0x0304])
    );
    assert_eq!(v6("64:ff9b::255.255.255.255"), Some([0x64, 0xff9b, 0, 0, 0, 0, 0xffff, 0xffff]));
}

#[test]
fn ipv6_refuses_what_is_no_address() {
    for s in [
        "", ":", ":::", "1", "1:2", "1:2:3:4:5:6:7", "1:2:3:4:5:6:7:8:9", "1:2:3:4:5:6:7:8::",
        "::1:2:3:4:5:6:7:8", "1::2::3", "1:::2", ":1::2", "1::2:", "12345::", "g::", "1.2.3.4",
        "1.2.3.4::", "::1.2.3.4:5", "1:2:3:4:5:6:7:1.2.3.4", "1:2:3:4:5:6::1.2.3.4",
        "::01.2.3.4", "::1.2.3", "1:2:3:4:5:6:7:8 ", " ::1", "::1%eth0", "::ffff:1.2.3.256",
        "1:2:3:4:5:6:7:", ":1:2:3:4:5:6:7", "::1/64", "0x1::",
    ] {
        assert_eq!(v6(s), None, "{:?}", s);
    }
}

#[test]
fn ipv4_is_written_as_a_dotted_quad() {
    assert_eq!(Ipv4Addr::new(0, 0, 0, 0).to_string(), "0.0.0.0");
    assert_eq!(Ipv4Addr::new(127, 0, 0, 1).to_string(), "127.0.0.1");
    assert_eq!(Ipv4Addr::new(255, 255, 240, 0).to_string(), "255.255.240.0");
    assert_eq!(Ipv4Addr::new(10, 100, 9, 99).to_string(), "10.100.9.99");
}

#[test]
fn ipv6_is_written_with_the_longest_zero_run_shortened() {
    let w = |a: [u16; 8]| Ipv6Addr::new(a[0], a[1], a[2], a[3], a[4], a[5], a[6], a[7]).to_string();
    assert_eq!(w([0; 8]), "::");
    assert_eq!(w([0, 0, 0, 0, 0, 0, 0, 1]), "::1");
    assert_eq!(w([1, 0, 0, 0, 0, 0, 0, 0]), "1::");
    assert_eq!(w([1, 2, 3, 4, 5, 6, 7, 8]), "1:2:3:4:5:6:7:8");
    assert_eq!(w([0x2001, 0xdb8, 0, 0, 0, 0, 0, 1]), "2001:db8::1");
    // a single zero group is written out
    assert_eq!(w([1, 0, 3, 4, 5, 6, 7, 8]), "1:0:3:4:5:6:7:8");
    // of two runs the longer is shortened
    assert_eq!(w([1, 0, 0, 4, 0, 0, 0, 8]), "1:0:0:4::8");
    // of two runs of one length the first is shortened
    assert_eq!(w([1, 0, 0, 4, 5, 0, 0, 8]), "1::4:5:0:0:8");
    assert_eq!(w([0xfe80, 0, 0, 0, 0xc001, 0x1dff, 0xfee0, 0]), "fe80::c001:1dff:fee0:0");
    assert_eq!(w([0, 0, 0, 0, 0, 0xffff, 0xc000, 0x0280]), "::ffff:192.0.2.128");
    assert_eq!(w([0, 0, 0, 0, 0, 0, 0x0102, 0x0304]), "::102:304");
    assert_eq!(w([0xffff; 8]), "ffff:ffff:ffff:ffff:ffff:ffff:ffff:ffff");
    assert_eq!(w([0, 0, 1, 0, 0, 0, 0, 0]), "0:0:1::");
}

#[test]
fn scoped_ip_takes_a_scope_only_on_ipv6() {
    assert_eq!(
        ScopedIp::from_str("fe80::1%eth0"),
        Ok(ScopedIp::V6(Ipv6Addr::new(0xfe80, 0, 0, 0, 0, 0, 0, 1), Some("eth0".to_string())))
    );
    assert_eq!(
        ScopedIp::from_str("fe80::1"),
        Ok(ScopedIp::V6(Ipv6Addr::new(0xfe80, 0, 0, 0, 0, 0, 0, 1), None))
    );
    assert_eq!(ScopedIp::from_str("10.0.0.1"), Ok(ScopedIp::V4(Ipv4Addr::new(10, 0, 0, 1))));
    assert_eq!(ScopedIp::from_str("10.0.0.1%1"), Err(AddrParseError));
    assert_eq!(ScopedIp::from_str("10.0.0.1%"), Err(AddrParseError));
    assert_eq!(ScopedIp::from_str("fe80::1%"), Err(AddrParseError));
    assert_eq!(ScopedIp::from_str("fe80::1%eth-0"), Err(AddrParseError));
    assert_eq!(ScopedIp::from_str("fe80::1%eth0%1"), Err(AddrParseError));
    assert_eq!(ScopedIp::from_str("fe80::1% "), Err(AddrParseError));
    assert_eq!(ScopedIp::from_str("%eth0"), Err(AddrParseError));
    assert_eq!(ScopedIp::from_str(""), Err(AddrParseError));
}

#[test]
fn scoped_ip_scope_may_be_any_alphanumeric_text() {
    // letters and digits of any script count as alphanumeric
    assert_eq!(
        ScopedIp::from_str("::1%ётh٣"),
        Ok(ScopedIp::V6(Ipv6Addr::new(0, 0, 0, 0, 0, 0, 0, 1), Some("ётh٣".to_string())))
    );
    assert_eq!(ScopedIp::from_str("::1%a_b"), Err(AddrParseError));
}

#[test]
fn scoped_ip_is_written_with_its_scope() {
    assert_eq!(ScopedIp::V4(Ipv4Addr::new(8, 8, 8, 8)).to_string(), "8.8.8.8");
    assert_eq!(ScopedIp::V6(Ipv6Addr::new(0, 0, 0, 0, 0, 0, 0, 1), None).to_string(), "::1");
    assert_eq!(
        ScopedIp::V6(Ipv6Addr::new(0xfe80, 0, 0, 0, 0, 0, 0, 1), Some("eth0".to_string()))
            .to_string(),
        "fe80::1%eth0"
    );
}

#[test]
fn scoped_ip_converts_to_and_from_plain_addresses() {
    let a4 = Ipv4Addr::new(1, 2, 3, 4);
    let a6 = Ipv6Addr::new(1, 2, 3, 4, 5, 6, 7, 8);
    assert_eq!(ScopedIp::from(a4), ScopedIp::V4(a4));
    assert_eq!(ScopedIp::from(a6), ScopedIp::V6(a6, None));
    assert_eq!(ScopedIp::from(IpAddr::V4(a4)), ScopedIp::V4(a4));
    assert_eq!(ScopedIp::from(IpAddr::V6(a6)), ScopedIp::V6(a6, None));
    assert_eq!(IpAddr::from(ScopedIp::V4(a4)), IpAddr::V4(a4));
    assert_eq!(IpAddr::from(&ScopedIp::V6(a6, Some("x".to_string()))), IpAddr::V6(a6));
    assert_eq!(ScopedIp::V6(a6, Some("x".to_string())).clone(), ScopedIp::V6(a6, Some("x".to_string())));
}

#[test]
fn network_v4_infers_the_mask_from_trailing_zero_octets() {
    let n = |s: &str| Network::from_str(s);
    let m = |a: [u8; 4], b: [u8; 4]| {
        Ok(Network::V4(Ipv4Addr::new(a[0], a[1], a[2], a[3]), Ipv4Addr::new(b[0], b[1], b[2], b[3])))
    };
    assert_eq!(n("130.155.160.1"), m([130, 155, 160, 1], [255, 255, 255, 255]));
    assert_eq!(n("130.155.160.0"), m([130, 155, 160, 0], [255, 255, 255, 0]));
    assert_eq!(n("130.155.0.0"), m([130, 155, 0, 0], [255, 255, 0, 0]));
    assert_eq!(n("130.0.0.0"), m([130, 0, 0, 0], [255, 0, 0, 0]));
    assert_eq!(n("128.192.0.0"), m([128, 192, 0, 0], [255, 255, 0, 0]));
    assert_eq!(n("130.0.160.0"), m([130, 0, 160, 0], [255, 255, 255, 0]));
    assert_eq!(n("0.0.0.1"), m([0, 0, 0, 1], [255, 255, 255, 255]));
}

#[test]
fn network_v4_takes_a_written_mask_that_is_not_zero() {
    let n = |s: &str| Network::from_str(s);
    assert_eq!(
        n("130.155.160.0/255.255.240.0"),
        Ok(Network::V4(Ipv4Addr::new(130, 155, 160, 0), Ipv4Addr::new(255, 255, 240, 0)))
    );
    // the mask is not checked for being contiguous
    assert_eq!(
        n("10.0.0.0/255.0.255.0"),
        Ok(Network::V4(Ipv4Addr::new(10, 0, 0, 0), Ipv4Addr::new(255, 0, 255, 0)))
    );
    assert_eq!(n("10.0.0.0/0.0.0.0"), Err(AddrParseError));
    assert_eq!(n("0.0.0.0"), Err(AddrParseError));
    assert_eq!(n("0.0.0.0/255.0.0.0"), Err(AddrParseError));
    assert_eq!(n("10.0.0.0/"), Err(AddrParseError));
    assert_eq!(n("10.0.0.0/8"), Err(AddrParseError));
    assert_eq!(n("10.0.0.0/255.0.0.0/1"), Err(AddrParseError));
    assert_eq!(n("10.0.0.0/::"), Err(AddrParseError));
    assert_eq!(n(""), Err(AddrParseError));
}

#[test]
fn network_v6_takes_any_mask_and_defaults_to_all_ones() {
    let n = |s: &str| Network::from_str(s);
    let one = Ipv6Addr::new(0x2001, 0xdb8, 0, 0, 0, 0, 0, 0);
    assert_eq!(n("2001:db8::"), Ok(Network::V6(one, Ipv6Addr::new(0xffff, 0xffff, 0xffff, 0xffff, 0xffff, 0xffff, 0xffff, 0xffff))));
    assert_eq!(n("2001:db8::/ffff:ffff::"), Ok(Network::V6(one, Ipv6Addr::new(0xffff, 0xffff, 0, 0, 0, 0, 0, 0))));
    assert_eq!(n("2001:db8::/::"), Ok(Network::V6(one, Ipv6Addr::new(0, 0, 0, 0, 0, 0, 0, 0))));
    assert_eq!(n("::"), Ok(Network::V6(Ipv6Addr::new(0, 0, 0, 0, 0, 0, 0, 0), Ipv6Addr::new(0xffff, 0xffff, 0xffff, 0xffff, 0xffff, 0xffff, 0xffff, 0xffff))));
    assert_eq!(n("2001:db8::/64"), Err(AddrParseError));
    assert_eq!(n("2001:db8::/255.0.0.0"), Err(AddrParseError));
    assert_eq!("2001:db8::/ffff::".parse::<Network>(), Ok(Network::V6(one, Ipv6Addr::new(0xffff, 0, 0, 0, 0, 0, 0, 0))));
}

#[test]
fn network_is_written_as_address_and_mask() {
    assert_eq!(
        Network::V4(Ipv4Addr::new(130, 155, 0, 0), Ipv4Addr::new(255, 255, 0, 0)).to_string(),
        "130.155.0.0/255.255.0.0"
    );
    assert_eq!(
        Network::V6(Ipv6Addr::new(0x2001, 0xdb8, 0, 0, 0, 0, 0, 0), Ipv6Addr::new(0xffff, 0xffff, 0, 0, 0, 0, 0, 0)).to_string(),
        "2001:db8::/ffff:ffff::"
    );
}

#[test]
fn addresses_survive_writing_and_reading() {
    for a in [
        [0u16; 8], [0, 0, 0, 0, 0, 0, 0, 1], [1, 0, 0, 0, 0, 0, 0, 0], [1, 0, 0, 4, 0, 0, 0, 8],
        [1, 0, 0, 4, 5, 0, 0, 8], [0, 0, 0, 0, 0, 0xffff, 0x7f00, 1], [0, 0, 1, 0, 0, 0, 0, 0],
        [0xabcd, 0xef01, 0x2345, 0x6789, 0, 0x10, 0x100, 0x1000], [1, 0, 3, 0, 5, 0, 7, 0],
        [0, 0, 0, 0, 0, 0, 0x7f00, 1], [0, 0, 0, 0, 0, 0xfffe, 0x7f00, 1],
    ] {
        let addr = Ipv6Addr::new(a[0], a[1], a[2], a[3], a[4], a[5], a[6], a[7]);
        assert_eq!(Ipv6Addr::from_str(&addr.to_string()), Ok(addr), "{:?}", a);
    }
    for a in [[0u8, 0, 0, 0], [1, 2, 3, 4], [255, 255, 255, 255], [10, 0, 100, 9]] {
        let addr = Ipv4Addr::new(a[0], a[1], a[2], a[3]);
        assert_eq!(Ipv4Addr::from_str(&addr.to_string()), Ok(addr));
    }
}

#[test]
fn addr_parse_error_has_its_message() {
    assert_eq!(AddrParseError.to_string(), "invalid IP address syntax");
}
