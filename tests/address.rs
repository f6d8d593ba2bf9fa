use anondns_api::address::Ipv4Addr;

#[test]
fn renders_dotted_decimal() {
    assert_eq!(Ipv4Addr::new(127, 0, 0, 1).to_string(), "127.0.0.1");
    assert_eq!(Ipv4Addr::new(203, 0, 113, 5).to_string(), "203.0.113.5");
    assert_eq!(Ipv4Addr::new(255, 255, 255, 255).to_string(), "255.255.255.255");
    assert_eq!(Ipv4Addr::new(0, 0, 0, 0).to_string(), "0.0.0.0");
    assert_eq!(Ipv4Addr::new(10, 99, 100, 9).to_string(), "10.99.100.9");
}

#[test]
fn octets_in_order() {
    assert_eq!(Ipv4Addr::new(1, 2, 3, 4).octets(), [1, 2, 3, 4]);
}

#[test]
fn parses_addresses() {
    assert_eq!(Ipv4Addr::parse("203.0.113.5"), Some(Ipv4Addr::new(203, 0, 113, 5)));
    assert_eq!(Ipv4Addr::parse("0.0.0.0"), Some(Ipv4Addr::new(0, 0, 0, 0)));
    assert_eq!(Ipv4Addr::parse("255.255.255.255"), Some(Ipv4Addr::new(255, 255, 255, 255)));
    assert_eq!(Ipv4Addr::parse("1.22.100.9"), Some(Ipv4Addr::new(1, 22, 100, 9)));
}

#[test]
fn rejects_non_addresses() {
    for s in [
        "not-an-ip",
        "",
        "1.2.3",
        "1.2.3.4.5",
        "256.0.0.1",
        "01.2.3.4",
        "1.2.3.04",
        "1..3.4",
        "1.2.3.4 ",
        " 1.2.3.4",
        "1.2.3.",
        ".1.2.3",
        "1000.1.1.1",
        "1.2.3.4a",
        "١.2.3.4",
    ] {
        assert_eq!(Ipv4Addr::parse(s), None, "{s}");
    }
}

#[test]
fn parse_reads_back_every_rendering() {
    for a in [0u8, 1, 9, 10, 99, 100, 199, 200, 255] {
        for b in [0u8, 7, 42, 250] {
            let x = Ipv4Addr::new(a, b, 255 - a, b / 2);
            assert_eq!(Ipv4Addr::parse(&x.to_string()), Some(x));
        }
    }
}
