use ipchanger::mac::{format_mac, mac_eq, read_mac, strip_colons};
use ipchanger::net::{Net, NetError};

#[test]
fn mac_of_twelve_hex_digits() {
    assert_eq!(Net::parse_mac("001122aabbcc"), Ok([0x00, 0x11, 0x22, 0xaa, 0xbb, 0xcc]));
    assert_eq!(Net::parse_mac("000000000000"), Ok([0; 6]));
    assert_eq!(Net::parse_mac("ffffffffffff"), Ok([0xff; 6]));
    assert_eq!(Net::parse_mac("0123456789ab"), Ok([0x01, 0x23, 0x45, 0x67, 0x89, 0xab]));
}

#[test]
fn mac_in_upper_and_mixed_case() {
    assert_eq!(Net::parse_mac("001122AABBCC"), Ok([0x00, 0x11, 0x22, 0xaa, 0xbb, 0xcc]));
    assert_eq!(Net::parse_mac("DeadBeef0AfF"), Ok([0xde, 0xad, 0xbe, 0xef, 0x0a, 0xff]));
}

#[test]
fn mac_of_wrong_length_is_refused() {
    for bad in ["", "0", "00112233445", "0011223344556", "00112233445566", "00:11:22:aa:bb:cc"] {
        assert_eq!(Net::parse_mac(bad), Err(NetError::MacConvert), "{:?}", bad);
    }
}

#[test]
fn mac_with_a_pair_that_is_not_hex_is_refused() {
    for bad in [
        "00112233445g", "g01122334455", "0011223344 5", "00112233-455", "0011223344+5",
        "+0+1+2+3+4+5", "zzzzzzzzzzzz", "00112233445\n", "0x1122334455", "00112233445é",
        "ééééééééééé0", "００1122334455",
    ] {
        assert_eq!(Net::parse_mac(bad), Err(NetError::MacConvert), "{:?}", bad);
    }
}

#[test]
fn mac_round_trips_through_text() {
    for bytes in [
        [0u8, 0, 0, 0, 0, 0],
        [0xff, 0xff, 0xff, 0xff, 0xff, 0xff],
        [0x00, 0x11, 0x22, 0xaa, 0xbb, 0xcc],
        [0x01, 0x9a, 0xa0, 0x0f, 0xf0, 0x7e],
    ] {
        assert_eq!(Net::parse_mac(&format_mac(&bytes)), Ok(bytes));
        assert_eq!(read_mac(&format_mac(&bytes)), Some(bytes));
    }
    for text in ["001122aabbcc", "0123456789ab", "cdef00000000"] {
        assert_eq!(format_mac(&Net::parse_mac(text).unwrap()), text);
    }
}

#[test]
fn format_mac_writes_lower_case_pairs() {
    assert_eq!(format_mac(&[0x00, 0x1b, 0x2c, 0xd3, 0xe4, 0xff]), "001b2cd3e4ff");
    assert_eq!(format_mac(&[0x0a, 0x00, 0x09, 0x90, 0xa0, 0x0f]), "0a000990a00f");
}

#[test]
fn strip_colons_takes_every_colon_out() {
    assert_eq!(strip_colons("00:11:22:aa:bb:cc"), "001122aabbcc");
    assert_eq!(strip_colons("001122aabbcc"), "001122aabbcc");
    assert_eq!(strip_colons(""), "");
    assert_eq!(strip_colons(":::"), "");
    assert_eq!(strip_colons("a:-b:"), "a-b");
}

#[test]
fn mac_eq_compares_all_six_bytes() {
    assert!(mac_eq(&[1, 2, 3, 4, 5, 6], &[1, 2, 3, 4, 5, 6]));
    assert!(!mac_eq(&[1, 2, 3, 4, 5, 6], &[1, 2, 3, 4, 5, 7]));
    assert!(!mac_eq(&[0, 2, 3, 4, 5, 6], &[1, 2, 3, 4, 5, 6]));
}
