use ipchanger::addr::Ipv4Addr;
use ipchanger::mask::{prefix_mask, MAX_PREFIX};
use ipchanger::net::{Net, NetError};

fn reference_mask(prefix: u8) -> u32 {
    if prefix == 0 {
        0
    } else {
        !((1u32 << (32 - prefix as u32)) - 1)
    }
}

#[test]
fn mask_of_prefix_24() {
    assert_eq!(Net::parse_mask(24), Ok(Ipv4Addr::new(255, 255, 255, 0)));
}

#[test]
fn mask_of_prefix_0() {
    assert_eq!(Net::parse_mask(0), Ok(Ipv4Addr::new(0, 0, 0, 0)));
}

#[test]
fn mask_of_prefix_32() {
    assert_eq!(Net::parse_mask(32), Ok(Ipv4Addr::new(255, 255, 255, 255)));
}

#[test]
fn mask_of_odd_prefixes() {
    assert_eq!(Net::parse_mask(1), Ok(Ipv4Addr::new(128, 0, 0, 0)));
    assert_eq!(Net::parse_mask(8), Ok(Ipv4Addr::new(255, 0, 0, 0)));
    assert_eq!(Net::parse_mask(22), Ok(Ipv4Addr::new(255, 255, 252, 0)));
    assert_eq!(Net::parse_mask(31), Ok(Ipv4Addr::new(255, 255, 255, 254)));
}

#[test]
fn mask_matches_formula_for_every_prefix() {
    for prefix in 0..=32u8 {
        let want = reference_mask(prefix);
        assert_eq!(prefix_mask(prefix), Some(want));
        let mask = Net::parse_mask(prefix).unwrap();
        assert_eq!(mask.to_bits(), want);
        assert_eq!(mask.to_bits().leading_ones(), prefix as u32);
        assert_eq!(mask.to_bits().count_ones(), prefix as u32);
    }
}

#[test]
fn mask_of_prefix_above_32_is_refused() {
    assert_eq!(MAX_PREFIX, 32);
    assert_eq!(Net::parse_mask(33), Err(NetError::MaskConvert));
    assert_eq!(Net::parse_mask(64), Err(NetError::MaskConvert));
    assert_eq!(Net::parse_mask(255), Err(NetError::MaskConvert));
    assert_eq!(prefix_mask(33), None);
    assert_eq!(prefix_mask(255), None);
}
