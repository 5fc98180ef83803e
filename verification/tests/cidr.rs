use ipchanger::addr::Ipv4Addr;
use ipchanger::cidr::{parse_cidr, parse_index, Place};
use regex::Regex;

#[test]
fn cidr_of_address_and_prefix() {
    assert_eq!(parse_cidr("10.10.9.9/22"), Some((Ipv4Addr::new(10, 10, 9, 9), 22)));
}

#[test]
fn cidr_with_prefix_above_32_is_refused() {
    assert_eq!(parse_cidr("10.10.9.9/33"), None);
    assert_eq!(parse_cidr("10.10.9.9/99"), None);
    assert_eq!(parse_cidr("10.10.9.9/255"), None);
    assert_eq!(parse_cidr("10.10.9.9/256"), None);
}

#[test]
fn cidr_with_octet_above_255_is_refused() {
    assert_eq!(parse_cidr("999.1.1.1/24"), None);
    assert_eq!(parse_cidr("256.1.1.1/24"), None);
    assert_eq!(parse_cidr("1.1.1.256/24"), None);
}

#[test]
fn cidr_without_slash_is_refused() {
    assert_eq!(parse_cidr("10.10.9.9"), None);
}

#[test]
fn cidr_edges() {
    assert_eq!(parse_cidr("0.0.0.0/0"), Some((Ipv4Addr::new(0, 0, 0, 0), 0)));
    assert_eq!(parse_cidr("255.255.255.255/32"), Some((Ipv4Addr::new(255, 255, 255, 255), 32)));
    assert_eq!(parse_cidr("192.168.1.100/9"), Some((Ipv4Addr::new(192, 168, 1, 100), 9)));
    assert_eq!(parse_cidr("1.2.3.4/10"), Some((Ipv4Addr::new(1, 2, 3, 4), 10)));
}

#[test]
fn cidr_refuses_malformed_text() {
    for bad in [
        "", "/", "/24", "1.2.3.4/", "1.2.3.4//24", "1.2.3.4/24/", "1.2.3.4/2/4", "1.2.3/24",
        "1.2.3.4.5/24", "1.2.3.4/024", "1.2.3.4/00", "1.2.3.4/+4", "1.2.3.4/-1", "1.2.3.4/ 24",
        "1.2.3.4 /24", " 1.2.3.4/24", "1.2.3.4/24 ", "x1.2.3.4/24", "1.2.3.4/24x", "1.2.3.4\\24",
        "01.2.3.4/24", "1.2.3.04/24", "1.2.3.4/2a", "a.b.c.d/e", "1.2.3.4/٣", "1.2.3.4/24\n",
    ] {
        assert_eq!(parse_cidr(bad), None, "{:?}", bad);
    }
}

#[test]
fn cidr_reads_every_prefix_up_to_32() {
    for prefix in 0..=40u8 {
        let text = format!("10.0.0.1/{}", prefix);
        let want = if prefix <= 32 { Some((Ipv4Addr::new(10, 0, 0, 1), prefix)) } else { None };
        assert_eq!(parse_cidr(&text), want, "{:?}", text);
    }
}

#[test]
fn cidr_accepts_only_what_the_anchored_pattern_accepts() {
    let pattern = Regex::new(r"^((?:(?:25[0-5]|2[0-4][0-9]|[01]?[0-9][0-9]?)\.){3}(?:25[0-5]|2[0-4][0-9]|[01]?[0-9][0-9]?))/([0-9]|[1-2][0-9]|3[0-2])$").unwrap();
    let octets = ["0", "1", "9", "10", "99", "100", "199", "200", "249", "250", "255", "256", "300", "", "a"];
    let prefixes = ["0", "9", "10", "29", "30", "32", "33", "40", "", "x"];
    for a in octets {
        for d in octets {
            for p in prefixes {
                let text = format!("{}.7.8.{}/{}", a, d, p);
                assert_eq!(parse_cidr(&text).is_some(), pattern.is_match(&text), "{:?}", text);
            }
        }
    }
    for text in ["01.2.3.4/24", "1.2.3.004/24", "00.0.0.0/0"] {
        assert!(pattern.is_match(text));
        assert_eq!(parse_cidr(text), None);
    }
}

#[test]
fn index_of_plain_numerals() {
    assert_eq!(parse_index("0"), Some(Place::At(0)));
    assert_eq!(parse_index("1"), Some(Place::At(1)));
    assert_eq!(parse_index("42"), Some(Place::At(42)));
    assert_eq!(parse_index("255"), Some(Place::At(255)));
    assert_eq!(parse_index("256"), Some(Place::At(256)));
    assert_eq!(parse_index("1000"), Some(Place::At(1000)));
    assert_eq!(parse_index("65536"), Some(Place::At(65536)));
}

#[test]
fn index_with_sign_and_leading_zeros() {
    assert_eq!(parse_index("+1"), Some(Place::At(1)));
    assert_eq!(parse_index("007"), Some(Place::At(7)));
    assert_eq!(parse_index("+000255"), Some(Place::At(255)));
    assert_eq!(parse_index("+0300"), Some(Place::At(300)));
    assert_eq!(parse_index("0000000000000000000000000000000000000001"), Some(Place::At(1)));
}

#[test]
fn index_that_is_no_number_is_refused() {
    for bad in ["", "+", "-", "-1", "++1", "1+", "1 ", " 1", "a", "1a", "0x1", "1.0", "٣", "99999999999999999999x"] {
        assert_eq!(parse_index(bad), None, "{:?}", bad);
    }
}

#[test]
fn index_as_large_as_a_machine_number() {
    let max = usize::MAX.to_string();
    assert_eq!(parse_index(&max), Some(Place::At(usize::MAX)));
    assert_eq!(parse_index(&format!("000{}", max)), Some(Place::At(usize::MAX)));
    assert_eq!(parse_index(&(usize::MAX - 1).to_string()), Some(Place::At(usize::MAX - 1)));
    assert_eq!(parse_index(&(usize::MAX / 10).to_string()), Some(Place::At(usize::MAX / 10)));
}

#[test]
fn index_beyond_every_machine_number() {
    let max = usize::MAX as u128;
    assert_eq!(parse_index(&(max + 1).to_string()), Some(Place::Beyond));
    assert_eq!(parse_index(&(max * 10).to_string()), Some(Place::Beyond));
    assert_eq!(parse_index(&format!("+{}0", usize::MAX)), Some(Place::Beyond));
    assert_eq!(parse_index("99999999999999999999999999999999999999999999999999"), Some(Place::Beyond));
    assert_eq!(parse_index("99999999999999999999999999999999999999999999999999a"), None);
}

#[test]
fn index_agrees_with_the_standard_reading_where_it_fits() {
    for text in ["0", "1", "+1", "01", "255", "256", "+", "", "-0", "12a", "+255", "+256", "0255", "999", "18446744073709551615"] {
        match text.parse::<usize>() {
            Ok(n) => assert_eq!(parse_index(text), Some(Place::At(n)), "{:?}", text),
            Err(_) => assert!(matches!(parse_index(text), None | Some(Place::Beyond)), "{:?}", text),
        }
    }
}
