use ipchanger::addr::{sorted_addrs, Ipv4Addr};
use ipchanger::text::chars_of;

fn parse(s: &str) -> Option<Ipv4Addr> {
    Ipv4Addr::parse(&chars_of(s))
}

#[test]
fn addr_text_is_dotted_decimal() {
    assert_eq!(Ipv4Addr::new(10, 10, 9, 9).to_text(), "10.10.9.9");
    assert_eq!(Ipv4Addr::new(0, 0, 0, 0).to_text(), "0.0.0.0");
    assert_eq!(Ipv4Addr::new(255, 255, 255, 255).to_text(), "255.255.255.255");
    assert_eq!(Ipv4Addr::new(192, 168, 1, 100).to_text(), "192.168.1.100");
}

#[test]
fn addr_parse_reads_what_text_writes() {
    assert_eq!(parse("10.10.9.9"), Some(Ipv4Addr::new(10, 10, 9, 9)));
    assert_eq!(parse("0.0.0.0"), Some(Ipv4Addr::new(0, 0, 0, 0)));
    assert_eq!(parse("255.255.255.255"), Some(Ipv4Addr::new(255, 255, 255, 255)));
    for bits in [0u32, 1, 255, 256, 65535, 65536, 0x0a00_0001, 0xc0a8_0164, 0xffff_ff00, u32::MAX] {
        let addr = Ipv4Addr::from_bits(bits);
        assert_eq!(parse(&addr.to_text()), Some(addr));
    }
}

#[test]
fn addr_parse_refuses_other_text() {
    for bad in [
        "", ".", "...", "1.2.3", "1.2.3.", ".1.2.3", "1.2.3.4.", "1.2.3.4.5", "1..2.3", "256.1.1.1",
        "999.1.1.1", "1.2.3.256", "01.2.3.4", "1.02.3.4", "1.2.3.04", "00.0.0.0", "1.2.3.4 ",
        " 1.2.3.4", "1.2.3.a", "a.b.c.d", "1,2,3,4", "+1.2.3.4", "-1.2.3.4", "1.2.3.4/24",
        "1.2.3.0x4", "١.٢.٣.٤", "1.2.3.4\n", "4294967296.1.1.1", "1.2.3.1000",
    ] {
        assert_eq!(parse(bad), None, "{:?}", bad);
    }
}

#[test]
fn addr_bits_and_octets() {
    let addr = Ipv4Addr::new(192, 168, 1, 100);
    assert_eq!(addr.to_bits(), 0xc0a8_0164);
    assert_eq!(addr.octets(), [192, 168, 1, 100]);
    assert_eq!(Ipv4Addr::from_bits(0xc0a8_0164), addr);
    assert_eq!(Ipv4Addr::from_octets([192, 168, 1, 100]), addr);
    assert_eq!(Ipv4Addr::from_bits(0), Ipv4Addr::new(0, 0, 0, 0));
    assert_eq!(Ipv4Addr::from_bits(u32::MAX), Ipv4Addr::new(255, 255, 255, 255));
    assert_eq!(Ipv4Addr::new(1, 2, 3, 4).to_bits(), 0x0102_0304);
}

#[test]
fn addr_order_is_by_value() {
    let low = Ipv4Addr::new(9, 255, 255, 255);
    let high = Ipv4Addr::new(10, 0, 0, 0);
    assert!(low.lt(&high));
    assert!(!high.lt(&low));
    assert!(!low.lt(&low));
    assert!(low < high);
    assert!(Ipv4Addr::new(10, 0, 0, 1).lt(&Ipv4Addr::new(10, 0, 0, 2)));
    assert!(Ipv4Addr::new(10, 0, 1, 0).lt(&Ipv4Addr::new(10, 1, 0, 0)));
}

#[test]
fn sorted_addrs_orders_and_drops_repeats() {
    let input = vec![
        Ipv4Addr::new(192, 168, 1, 1),
        Ipv4Addr::new(10, 0, 0, 2),
        Ipv4Addr::new(10, 0, 0, 1),
        Ipv4Addr::new(192, 168, 1, 1),
        Ipv4Addr::new(10, 0, 0, 2),
        Ipv4Addr::new(172, 16, 0, 1),
    ];
    assert_eq!(
        sorted_addrs(&input),
        vec![
            Ipv4Addr::new(10, 0, 0, 1),
            Ipv4Addr::new(10, 0, 0, 2),
            Ipv4Addr::new(172, 16, 0, 1),
            Ipv4Addr::new(192, 168, 1, 1),
        ]
    );
    assert_eq!(sorted_addrs(&Vec::new()), Vec::<Ipv4Addr>::new());
}

#[test]
fn chars_of_keeps_every_character() {
    assert_eq!(chars_of(""), Vec::<char>::new());
    assert_eq!(chars_of("a1."), vec!['a', '1', '.']);
    assert_eq!(chars_of("é/٣"), vec!['é', '/', '٣']);
}
