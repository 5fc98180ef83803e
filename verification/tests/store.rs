use ipchanger::addr::Ipv4Addr;
use ipchanger::store::{MaskEntry, MaskStore};

#[test]
fn store_starts_empty() {
    let store = MaskStore::new();
    assert_eq!(store.len(), 0);
    assert_eq!(store.get(&Ipv4Addr::new(10, 0, 0, 1)), None);
}

#[test]
fn store_insert_then_get() {
    let mut store = MaskStore::new();
    store.insert(Ipv4Addr::new(10, 0, 0, 1), 24);
    store.insert(Ipv4Addr::new(10, 0, 0, 2), 16);
    assert_eq!(store.len(), 2);
    assert_eq!(store.get(&Ipv4Addr::new(10, 0, 0, 1)), Some(24));
    assert_eq!(store.get(&Ipv4Addr::new(10, 0, 0, 2)), Some(16));
    assert_eq!(store.get(&Ipv4Addr::new(10, 0, 0, 3)), None);
}

#[test]
fn store_insert_replaces() {
    let mut store = MaskStore::new();
    store.insert(Ipv4Addr::new(10, 0, 0, 1), 24);
    store.insert(Ipv4Addr::new(10, 0, 0, 2), 16);
    store.insert(Ipv4Addr::new(10, 0, 0, 1), 8);
    assert_eq!(store.len(), 2);
    assert_eq!(store.get(&Ipv4Addr::new(10, 0, 0, 1)), Some(8));
    assert_eq!(store.get(&Ipv4Addr::new(10, 0, 0, 2)), Some(16));
}

#[test]
fn store_remove_present_and_absent() {
    let mut store = MaskStore::new();
    store.insert(Ipv4Addr::new(10, 0, 0, 1), 24);
    store.insert(Ipv4Addr::new(10, 0, 0, 2), 16);
    store.remove(&Ipv4Addr::new(10, 0, 0, 3));
    assert_eq!(store.len(), 2);
    store.remove(&Ipv4Addr::new(10, 0, 0, 1));
    assert_eq!(store.len(), 1);
    assert_eq!(store.get(&Ipv4Addr::new(10, 0, 0, 1)), None);
    assert_eq!(store.get(&Ipv4Addr::new(10, 0, 0, 2)), Some(16));
    store.remove(&Ipv4Addr::new(10, 0, 0, 1));
    assert_eq!(store.len(), 1);
    store.remove(&Ipv4Addr::new(10, 0, 0, 2));
    assert_eq!(store.len(), 0);
}

#[test]
fn entry_from_key_and_value() {
    assert_eq!(
        MaskEntry::from_bytes(&[10, 0, 0, 1], &[24]),
        Some(MaskEntry { addr: Ipv4Addr::new(10, 0, 0, 1), prefix: 24 })
    );
    assert_eq!(
        MaskEntry::from_bytes(&[192, 168, 1, 20], &[16, 99]),
        Some(MaskEntry { addr: Ipv4Addr::new(192, 168, 1, 20), prefix: 16 })
    );
    assert_eq!(MaskEntry::from_bytes(&[10, 0, 0], &[24]), None);
    assert_eq!(MaskEntry::from_bytes(&[10, 0, 0, 1, 2], &[24]), None);
    assert_eq!(MaskEntry::from_bytes(&[], &[24]), None);
    assert_eq!(MaskEntry::from_bytes(&[10, 0, 0, 1], &[]), None);
}

#[test]
fn entry_key_and_value_read_back() {
    let entry = MaskEntry { addr: Ipv4Addr::new(172, 16, 254, 3), prefix: 12 };
    assert_eq!(entry.key(), [172, 16, 254, 3]);
    assert_eq!(entry.value(), [12]);
    assert_eq!(MaskEntry::from_bytes(&entry.key(), &entry.value()), Some(entry));
}
