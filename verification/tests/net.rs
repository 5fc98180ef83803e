use ipchanger::addr::Ipv4Addr;
use ipchanger::net::{DefaultRoute, Effect, Interface, Net, NetError, OsCommand};
use ipchanger::store::MaskStore;

fn iface(index: u32, name: &str, hw_addr: &str, ipv4: Vec<Ipv4Addr>) -> Interface {
    Interface { index, name: name.to_string(), hw_addr: hw_addr.to_string(), ipv4 }
}

fn snapshot() -> Vec<Interface> {
    vec![
        iface(1, "lo", "00:00:00:00:00:00", vec![Ipv4Addr::new(127, 0, 0, 1)]),
        iface(
            7,
            "eth0",
            "00:1B:2C:D3:E4:FF",
            vec![Ipv4Addr::new(192, 168, 1, 20), Ipv4Addr::new(10, 0, 0, 2), Ipv4Addr::new(10, 0, 0, 1)],
        ),
        iface(9, "tun0", "", vec![Ipv4Addr::new(10, 8, 0, 1)]),
        iface(12, "eth1", "00:1b:2c:d3:e4:ff", vec![]),
    ]
}

fn net_on_eth0() -> Net {
    Net::new("001b2cd3e4ff", &snapshot(), MaskStore::new()).unwrap()
}

fn strings(args: &[&str]) -> Vec<String> {
    args.iter().map(|s| s.to_string()).collect()
}

#[test]
fn list_ifaces_keeps_those_with_a_hardware_address() {
    assert_eq!(
        Net::list_ifaces(&snapshot()),
        vec![
            (1, [0, 0, 0, 0, 0, 0], "lo".to_string()),
            (7, [0x00, 0x1b, 0x2c, 0xd3, 0xe4, 0xff], "eth0".to_string()),
            (12, [0x00, 0x1b, 0x2c, 0xd3, 0xe4, 0xff], "eth1".to_string()),
        ]
    );
    assert_eq!(Net::list_ifaces(&Vec::new()), Vec::new());
}

#[test]
fn list_ifaces_drops_what_is_no_hardware_address() {
    let odd = vec![
        iface(1, "short", "00:11:22:33:44", vec![]),
        iface(2, "long", "00:11:22:33:44:55:66:77", vec![]),
        iface(3, "junk", "zz:11:22:33:44:55", vec![]),
        iface(4, "bare", "aabbccddeeff", vec![]),
    ];
    assert_eq!(
        Net::list_ifaces(&odd),
        vec![(4, [0xaa, 0xbb, 0xcc, 0xdd, 0xee, 0xff], "bare".to_string())]
    );
}

#[test]
fn new_resolves_the_first_interface_with_the_mac() {
    let net = net_on_eth0();
    assert_eq!(net.idx(), 7);
    let upper = Net::new("001B2CD3E4FF", &snapshot(), MaskStore::new()).unwrap();
    assert_eq!(upper.idx(), 7);
    let lo = Net::new("000000000000", &snapshot(), MaskStore::new()).unwrap();
    assert_eq!(lo.idx(), 1);
}

#[test]
fn new_keeps_the_mask_store() {
    let mut store = MaskStore::new();
    store.insert(Ipv4Addr::new(10, 0, 0, 1), 24);
    let net = Net::new("001b2cd3e4ff", &snapshot(), store).unwrap();
    assert_eq!(net.mask_of(&Ipv4Addr::new(10, 0, 0, 1)), Some(24));
    assert_eq!(net.mask_of(&Ipv4Addr::new(10, 0, 0, 2)), None);
}

#[test]
fn new_without_matching_interface_is_not_found() {
    let r = Net::new("aabbccddeeff", &snapshot(), MaskStore::new());
    assert_eq!(r.err(), Some(NetError::NotFound));
    let r = Net::new("001b2cd3e4ff", &Vec::new(), MaskStore::new());
    assert_eq!(r.err(), Some(NetError::NotFound));
}

#[test]
fn new_with_text_that_is_no_mac_is_refused() {
    for bad in ["", "00:1b:2c:d3:e4:ff", "001b2cd3e4f", "001b2cd3e4fg", "001b2cd3e4ff0"] {
        let r = Net::new(bad, &snapshot(), MaskStore::new());
        assert_eq!(r.err(), Some(NetError::MacConvert), "{:?}", bad);
    }
}

#[test]
fn get_addrs_lists_in_ascending_order() {
    let net = net_on_eth0();
    assert_eq!(
        net.get_addrs(&snapshot()),
        Ok(vec![
            (Ipv4Addr::new(10, 0, 0, 1), None),
            (Ipv4Addr::new(10, 0, 0, 2), None),
            (Ipv4Addr::new(192, 168, 1, 20), None),
        ])
    );
}

#[test]
fn get_addrs_lists_each_address_once() {
    let net = net_on_eth0();
    let twice = vec![iface(
        7,
        "eth0",
        "00:1b:2c:d3:e4:ff",
        vec![Ipv4Addr::new(10, 0, 0, 2), Ipv4Addr::new(10, 0, 0, 1), Ipv4Addr::new(10, 0, 0, 2)],
    )];
    assert_eq!(
        net.get_addrs(&twice),
        Ok(vec![(Ipv4Addr::new(10, 0, 0, 1), None), (Ipv4Addr::new(10, 0, 0, 2), None)])
    );
}

#[test]
fn get_addrs_when_the_interface_is_gone() {
    let net = net_on_eth0();
    let rest = vec![iface(1, "lo", "00:00:00:00:00:00", vec![Ipv4Addr::new(127, 0, 0, 1)])];
    assert_eq!(net.get_addrs(&rest), Err(NetError::NotFound));
    assert_eq!(net.get_addrs(&Vec::new()), Err(NetError::NotFound));
}

#[test]
fn get_addrs_goes_by_the_index_not_the_mac() {
    let net = net_on_eth0();
    let renamed = vec![
        iface(12, "eth1", "00:1b:2c:d3:e4:ff", vec![Ipv4Addr::new(1, 1, 1, 1)]),
        iface(7, "eth0", "aa:aa:aa:aa:aa:aa", vec![Ipv4Addr::new(2, 2, 2, 2)]),
    ];
    assert_eq!(net.get_addrs(&renamed), Ok(vec![(Ipv4Addr::new(2, 2, 2, 2), None)]));
}

#[test]
fn add_addr_gives_the_steps_in_order() {
    let net = net_on_eth0();
    let addr = Ipv4Addr::new(10, 0, 0, 5);
    assert_eq!(
        net.add_addr(&addr, 24),
        Ok(vec![
            Effect::Run(OsCommand::AddAddress { iface: 7, addr, mask: Ipv4Addr::new(255, 255, 255, 0) }),
            Effect::StoreInsert { addr, prefix: 24 },
            Effect::StoreFlush,
        ])
    );
    assert_eq!(
        net.add_addr(&addr, 0).unwrap()[0],
        Effect::Run(OsCommand::AddAddress { iface: 7, addr, mask: Ipv4Addr::new(0, 0, 0, 0) })
    );
    assert_eq!(
        net.add_addr(&addr, 32).unwrap()[0],
        Effect::Run(OsCommand::AddAddress { iface: 7, addr, mask: Ipv4Addr::new(255, 255, 255, 255) })
    );
}

#[test]
fn add_addr_with_prefix_above_32_is_refused() {
    let net = net_on_eth0();
    let addr = Ipv4Addr::new(10, 0, 0, 5);
    assert_eq!(net.add_addr(&addr, 33), Err(NetError::MaskConvert));
    assert_eq!(net.add_addr(&addr, 255), Err(NetError::MaskConvert));
}

#[test]
fn add_then_list_shows_the_prefix() {
    let mut net = net_on_eth0();
    let addr = Ipv4Addr::new(10, 0, 0, 2);
    for effect in net.add_addr(&addr, 22).unwrap() {
        net.apply(&effect);
    }
    assert_eq!(
        net.get_addrs(&snapshot()),
        Ok(vec![
            (Ipv4Addr::new(10, 0, 0, 1), None),
            (Ipv4Addr::new(10, 0, 0, 2), Some(22)),
            (Ipv4Addr::new(192, 168, 1, 20), None),
        ])
    );
    for effect in net.add_addr(&addr, 8).unwrap() {
        net.apply(&effect);
    }
    assert_eq!(net.get_addrs(&snapshot()).unwrap()[1], (addr, Some(8)));
    assert_eq!(net.idx(), 7);
}

#[test]
fn address_added_but_not_bound_is_not_listed() {
    let mut net = net_on_eth0();
    for effect in net.add_addr(&Ipv4Addr::new(10, 0, 0, 77), 24).unwrap() {
        net.apply(&effect);
    }
    assert_eq!(net.mask_of(&Ipv4Addr::new(10, 0, 0, 77)), Some(24));
    assert_eq!(net.get_addrs(&snapshot()).unwrap().len(), 3);
}

#[test]
fn del_addr_gives_the_steps_in_order() {
    let net = net_on_eth0();
    let addr = Ipv4Addr::new(10, 0, 0, 1);
    assert_eq!(
        net.del_addr(&addr),
        vec![
            Effect::Run(OsCommand::DeleteAddress { iface: 7, addr }),
            Effect::StoreRemove { addr },
            Effect::StoreFlush,
        ]
    );
}

#[test]
fn remove_without_entry_changes_nothing() {
    let mut net = net_on_eth0();
    for effect in net.add_addr(&Ipv4Addr::new(10, 0, 0, 1), 24).unwrap() {
        net.apply(&effect);
    }
    let before = net.get_addrs(&snapshot());
    let absent = Ipv4Addr::new(10, 0, 0, 2);
    assert_eq!(net.mask_of(&absent), None);
    let steps = net.del_addr(&absent);
    assert_eq!(steps.len(), 3);
    for effect in steps {
        net.apply(&effect);
    }
    assert_eq!(net.get_addrs(&snapshot()), before);
    assert_eq!(net.mask_of(&Ipv4Addr::new(10, 0, 0, 1)), Some(24));
}

#[test]
fn remove_after_add_forgets_the_prefix() {
    let mut net = net_on_eth0();
    let addr = Ipv4Addr::new(10, 0, 0, 1);
    for effect in net.add_addr(&addr, 24).unwrap() {
        net.apply(&effect);
    }
    assert_eq!(net.mask_of(&addr), Some(24));
    for effect in net.del_addr(&addr) {
        net.apply(&effect);
    }
    assert_eq!(net.mask_of(&addr), None);
    assert_eq!(net.get_addrs(&snapshot()).unwrap()[0], (addr, None));
}

#[test]
fn apply_of_other_steps_changes_nothing() {
    let mut net = net_on_eth0();
    let addr = Ipv4Addr::new(10, 0, 0, 1);
    net.apply(&Effect::Run(OsCommand::AddAddress { iface: 7, addr, mask: Ipv4Addr::new(255, 0, 0, 0) }));
    net.apply(&Effect::StoreFlush);
    assert_eq!(net.mask_of(&addr), None);
    assert_eq!(net.idx(), 7);
}

#[test]
fn gateway_of_the_default_route() {
    let gw = Ipv4Addr::new(192, 168, 1, 1);
    assert_eq!(Net::get_gateway(&DefaultRoute::V4(gw)), Ok(gw));
    assert_eq!(Net::get_gateway(&DefaultRoute::Missing), Err(NetError::GatewayUnavailable));
    assert_eq!(Net::get_gateway(&DefaultRoute::NotV4), Err(NetError::GatewayUnavailable));
}

#[test]
fn set_gateway_deletes_then_adds() {
    let net = net_on_eth0();
    let gateway = Ipv4Addr::new(192, 168, 1, 1);
    assert_eq!(
        net.set_gateway(&gateway),
        vec![
            Effect::Run(OsCommand::DeleteDefaultRoute { iface: 7 }),
            Effect::Run(OsCommand::AddDefaultRoute { iface: 7, gateway }),
        ]
    );
}

#[test]
fn failure_of_each_step() {
    let addr = Ipv4Addr::new(10, 0, 0, 1);
    assert_eq!(Effect::Run(OsCommand::DeleteAddress { iface: 7, addr }).failure(), NetError::IO);
    assert_eq!(Effect::Run(OsCommand::DeleteDefaultRoute { iface: 7 }).failure(), NetError::IO);
    assert_eq!(Effect::StoreInsert { addr, prefix: 24 }.failure(), NetError::Sled);
    assert_eq!(Effect::StoreRemove { addr }.failure(), NetError::Sled);
    assert_eq!(Effect::StoreFlush.failure(), NetError::Sled);
}

#[test]
fn arguments_of_each_request() {
    let addr = Ipv4Addr::new(10, 0, 0, 5);
    assert_eq!(OsCommand::program(), "netsh");
    assert_eq!(
        OsCommand::AddAddress { iface: 7, addr, mask: Ipv4Addr::new(255, 255, 252, 0) }.args(),
        strings(&["interface", "ipv4", "add", "address", "name=7", "address=10.0.0.5", "mask=255.255.252.0"])
    );
    assert_eq!(
        OsCommand::DeleteAddress { iface: 4294967295, addr }.args(),
        strings(&["interface", "ipv4", "delete", "address", "name=4294967295", "address=10.0.0.5"])
    );
    assert_eq!(
        OsCommand::DeleteDefaultRoute { iface: 0 }.args(),
        strings(&["interface", "ipv4", "delete", "route", "prefix=0.0.0.0/0", "interface=0"])
    );
    assert_eq!(
        OsCommand::AddDefaultRoute { iface: 12, gateway: Ipv4Addr::new(192, 168, 1, 1) }.args(),
        strings(&["interface", "ipv4", "add", "route", "prefix=0.0.0.0/0", "interface=12", "nexthop=192.168.1.1"])
    );
}

#[test]
fn messages_of_the_errors() {
    assert_eq!(NetError::NotFound.message(), "iface can't be found");
    assert_eq!(NetError::MacConvert.message(), "can't convert MAC from string");
    assert_eq!(NetError::MaskConvert.message(), "can't convert Mask from string");
    for e in [NetError::IO, NetError::NetWatcher, NetError::ParseInt, NetError::Sled, NetError::GatewayUnavailable] {
        assert!(!e.message().is_empty());
    }
}

#[test]
fn default_route_from_the_gateway_column() {
    assert_eq!(DefaultRoute::of_text(None), DefaultRoute::Missing);
    assert_eq!(DefaultRoute::of_text(Some("192.168.1.1")), DefaultRoute::V4(Ipv4Addr::new(192, 168, 1, 1)));
    assert_eq!(DefaultRoute::of_text(Some("On-link")), DefaultRoute::NotV4);
    assert_eq!(DefaultRoute::of_text(Some("fe80::1")), DefaultRoute::NotV4);
    assert_eq!(DefaultRoute::of_text(Some("")), DefaultRoute::NotV4);
}

#[test]
fn net_settle_of_each_outcome() {
    let mut net = net_on_eth0();
    let addr = Ipv4Addr::new(10, 0, 0, 1);
    let steps = net.add_addr(&addr, 24).unwrap();
    assert_eq!(net.settle(&steps[0], false), Err(NetError::IO));
    assert_eq!(net.settle(&steps[1], false), Err(NetError::Sled));
    assert_eq!(net.settle(&steps[2], false), Err(NetError::Sled));
    assert_eq!(net.mask_of(&addr), None);
    assert_eq!(net.settle(&steps[0], true), Ok(()));
    assert_eq!(net.mask_of(&addr), None);
    assert_eq!(net.settle(&steps[1], true), Ok(()));
    assert_eq!(net.mask_of(&addr), Some(24));
    assert_eq!(net.settle(&steps[2], true), Ok(()));
    assert_eq!(net.mask_of(&addr), Some(24));
    let steps = net.del_addr(&addr);
    assert_eq!(net.settle(&steps[0], false), Err(NetError::IO));
    assert_eq!(net.mask_of(&addr), Some(24));
    assert_eq!(net.settle(&steps[1], true), Ok(()));
    assert_eq!(net.mask_of(&addr), None);
    assert_eq!(net.idx(), 7);
}
