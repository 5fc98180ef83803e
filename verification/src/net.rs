//! The network component: one interface, chosen by its hardware address, the
//! IPv4 addresses bound to it and the prefix length each was given.
//!
//! The component decides and computes; it touches neither the operating
//! system nor the disk. Whoever drives it hands it a snapshot of the
//! interfaces, carries out the [`Effect`]s it answers with, in order, and
//! reports how each one went to [`Net::settle`].

use vstd::prelude::*;
use crate::addr::{ascending, sorted_addrs, Ipv4Addr};
use crate::text::{chars_of, decimal, push_chars, push_decimal};
use crate::mac::{is_mac_text, mac_bytes, mac_eq, read_mac, strip_colons, without_colons};
use crate::mask::{mask_bits, prefix_mask};
use crate::store::MaskStore;

verus! {

/// Why an operation of the network component failed.
#[derive(Clone, Copy, Debug, PartialEq, Eq, Structural)]
pub enum NetError {
    /// An external command could not be started.
    IO,
    /// The interfaces could not be enumerated.
    NetWatcher,
    /// No interface matches.
    NotFound,
    /// The text is no hardware address.
    MacConvert,
    /// The prefix length is above 32.
    MaskConvert,
    /// A number could not be read.
    ParseInt,
    /// The mask store could not be read or written.
    Sled,
    /// There is no default route, or it is not an IPv4 one.
    GatewayUnavailable,
}

impl NetError {
    /// What the error says to the operator.
    pub open spec fn message_text(self) -> Seq<char> {
        match self {
            NetError::IO => "external command could not be started"@,
            NetError::NetWatcher => "interfaces could not be enumerated"@,
            NetError::NotFound => "iface can't be found"@,
            NetError::MacConvert => "can't convert MAC from string"@,
            NetError::MaskConvert => "can't convert Mask from string"@,
            NetError::ParseInt => "invalid digit found in string"@,
            NetError::Sled => "mask store could not be read or written"@,
            NetError::GatewayUnavailable => "no IPv4 default gateway"@,
        }
    }

    /// What the error says to the operator.
    pub fn message(&self) -> (r: String)
        ensures
            r@ == self.message_text(),
    {
        match self {
            NetError::IO => String::from_str("external command could not be started"),
            NetError::NetWatcher => String::from_str("interfaces could not be enumerated"),
            NetError::NotFound => String::from_str("iface can't be found"),
            NetError::MacConvert => String::from_str("can't convert MAC from string"),
            NetError::MaskConvert => String::from_str("can't convert Mask from string"),
            NetError::ParseInt => String::from_str("invalid digit found in string"),
            NetError::Sled => String::from_str("mask store could not be read or written"),
            NetError::GatewayUnavailable => String::from_str("no IPv4 default gateway"),
        }
    }
}

/// One network interface as the enumeration reports it.
#[derive(Clone, Debug, PartialEq, Eq)]
pub struct Interface {
    /// The identifier of the interface.
    pub index: u32,
    /// The display name.
    pub name: String,
    /// The hardware address in text, as pairs of hexadecimal digits that
    /// colons may separate.
    pub hw_addr: String,
    /// The IPv4 addresses bound to the interface.
    pub ipv4: Vec<Ipv4Addr>,
}

/// The hardware address of an interface, where its text spells one.
pub open spec fn iface_mac(iface: Interface) -> Option<Seq<u8>> {
    let text = without_colons(iface.hw_addr@);
    if is_mac_text(text) {
        Some(mac_bytes(text))
    } else {
        None
    }
}

/// The interfaces of `s` that have a hardware address, in order, each as its
/// identifier, its hardware address and its name.
pub open spec fn listed(s: Seq<Interface>) -> Seq<(u32, Seq<u8>, Seq<char>)>
    decreases s.len(),
{
    if s.len() == 0 {
        Seq::empty()
    } else {
        let rest = listed(s.drop_last());
        match iface_mac(s.last()) {
            Some(mac) => rest.push((s.last().index, mac, s.last().name@)),
            None => rest,
        }
    }
}

/// The default route as the operating system reports it.
#[derive(Clone, Copy, Debug, PartialEq, Eq, Structural)]
pub enum DefaultRoute {
    /// There is no default route.
    Missing,
    /// The default route goes through this IPv4 gateway.
    V4(Ipv4Addr),
    /// The default route does not go through an IPv4 gateway.
    NotV4,
}

/// A request to the address configuration facility of the operating system.
#[derive(Clone, Copy, Debug, PartialEq, Eq, Structural)]
pub enum OsCommand {
    /// Bind `addr` with the subnet mask `mask` to the interface.
    AddAddress { iface: u32, addr: Ipv4Addr, mask: Ipv4Addr },
    /// Unbind `addr` from the interface.
    DeleteAddress { iface: u32, addr: Ipv4Addr },
    /// Delete the default route through the interface.
    DeleteDefaultRoute { iface: u32 },
    /// Add a default route through the interface and `gateway`.
    AddDefaultRoute { iface: u32, gateway: Ipv4Addr },
}

impl OsCommand {
    /// The arguments with which the facility is started.
    pub open spec fn args_text(self) -> Seq<Seq<char>> {
        match self {
            OsCommand::AddAddress { iface, addr, mask } => seq![
                "interface"@,
                "ipv4"@,
                "add"@,
                "address"@,
                "name="@ + decimal(iface as nat),
                "address="@ + addr.text(),
                "mask="@ + mask.text(),
            ],
            OsCommand::DeleteAddress { iface, addr } => seq![
                "interface"@,
                "ipv4"@,
                "delete"@,
                "address"@,
                "name="@ + decimal(iface as nat),
                "address="@ + addr.text(),
            ],
            OsCommand::DeleteDefaultRoute { iface } => seq![
                "interface"@,
                "ipv4"@,
                "delete"@,
                "route"@,
                "prefix=0.0.0.0/0"@,
                "interface="@ + decimal(iface as nat),
            ],
            OsCommand::AddDefaultRoute { iface, gateway } => seq![
                "interface"@,
                "ipv4"@,
                "add"@,
                "route"@,
                "prefix=0.0.0.0/0"@,
                "interface="@ + decimal(iface as nat),
                "nexthop="@ + gateway.text(),
            ],
        }
    }

    /// The name of the program that is the facility.
    pub fn program() -> (r: String)
        ensures
            r@ == "netsh"@,
    {
        String::from_str("netsh")
    }

    /// The arguments with which the facility is started.
    pub fn args(&self) -> (r: Vec<String>)
        ensures
            r@.len() == self.args_text().len(),
            forall|i: int| 0 <= i < r@.len() ==> (#[trigger] r@[i])@ == self.args_text()[i],
    {
        let mut r: Vec<String> = Vec::new();
        r.push(String::from_str("interface"));
        r.push(String::from_str("ipv4"));
        match *self {
            OsCommand::AddAddress { iface, addr, mask } => {
                r.push(String::from_str("add"));
                r.push(String::from_str("address"));
                r.push(keyed_number("name=", iface));
                r.push(keyed_addr("address=", &addr));
                r.push(keyed_addr("mask=", &mask));
            },
            OsCommand::DeleteAddress { iface, addr } => {
                r.push(String::from_str("delete"));
                r.push(String::from_str("address"));
                r.push(keyed_number("name=", iface));
                r.push(keyed_addr("address=", &addr));
            },
            OsCommand::DeleteDefaultRoute { iface } => {
                r.push(String::from_str("delete"));
                r.push(String::from_str("route"));
                r.push(String::from_str("prefix=0.0.0.0/0"));
                r.push(keyed_number("interface=", iface));
            },
            OsCommand::AddDefaultRoute { iface, gateway } => {
                r.push(String::from_str("add"));
                r.push(String::from_str("route"));
                r.push(String::from_str("prefix=0.0.0.0/0"));
                r.push(keyed_number("interface=", iface));
                r.push(keyed_addr("nexthop=", &gateway));
            },
        }
        r
    }
}

/// The argument `key` followed by the decimal numeral of `n`.
fn keyed_number(key: &str, n: u32) -> (r: String)
    ensures
        r@ == key@ + decimal(n as nat),
{
    let mut v: Vec<char> = Vec::new();
    push_decimal(&mut v, n as u64);
    let mut r = String::from_str(key);
    push_chars(&mut r, &v);
    r
}

/// The argument `key` followed by the dotted-decimal text of `addr`.
fn keyed_addr(key: &str, addr: &Ipv4Addr) -> (r: String)
    ensures
        r@ == key@ + addr.text(),
{
    let mut v: Vec<char> = Vec::new();
    addr.push_text(&mut v);
    let mut r = String::from_str(key);
    push_chars(&mut r, &v);
    r
}

/// One step that the driver of the component carries out for it.
#[derive(Clone, Copy, Debug, PartialEq, Eq, Structural)]
pub enum Effect {
    /// Start the facility with this request and wait until it ends. Only
    /// whether it could be started counts, not how it ended.
    Run(OsCommand),
    /// Write `prefix` for `addr` to the mask store.
    StoreInsert { addr: Ipv4Addr, prefix: u8 },
    /// Delete what the mask store holds for `addr`.
    StoreRemove { addr: Ipv4Addr },
    /// Flush the mask store to durable storage.
    StoreFlush,
}

impl Effect {
    /// The error that stands for a failure to carry this step out.
    pub open spec fn failure_of(self) -> NetError {
        match self {
            Effect::Run(_) => NetError::IO,
            _ => NetError::Sled,
        }
    }

    /// What a mask store holds once this step is carried out on `masks`.
    pub open spec fn store_after(self, masks: Map<Ipv4Addr, u8>) -> Map<Ipv4Addr, u8> {
        match self {
            Effect::StoreInsert { addr, prefix } => masks.insert(addr, prefix),
            Effect::StoreRemove { addr } => masks.remove(addr),
            _ => masks,
        }
    }

    /// The error that stands for a failure to carry this step out.
    pub fn failure(&self) -> (r: NetError)
        ensures
            r == self.failure_of(),
    {
        match self {
            Effect::Run(_) => NetError::IO,
            _ => NetError::Sled,
        }
    }
}

/// What a step leads to: carried out, it is answered with success and the
/// mask store follows it; not carried out, it is answered with the error that
/// stands for its failure and the mask store stays as it was.
pub open spec fn settled(effect: Effect, done: bool, masks: Map<Ipv4Addr, u8>) -> (
    Result<(), NetError>,
    Map<Ipv4Addr, u8>,
) {
    if done {
        (Ok(()), effect.store_after(masks))
    } else {
        (Err(effect.failure_of()), masks)
    }
}

/// What a mask store holds once the steps of `effects` are carried out on
/// `masks`, one after the other.
pub open spec fn store_after_all(effects: Seq<Effect>, masks: Map<Ipv4Addr, u8>) -> Map<
    Ipv4Addr,
    u8,
>
    decreases effects.len(),
{
    if effects.len() == 0 {
        masks
    } else {
        effects.last().store_after(store_after_all(effects.drop_last(), masks))
    }
}

/// The steps that bind `addr` with prefix length `prefix` to the interface
/// `iface`: the request to the operating system first, then the write to the
/// mask store, then its flush.
pub open spec fn add_steps(iface: u32, addr: Ipv4Addr, prefix: u8) -> Seq<Effect> {
    seq![
        Effect::Run(
            OsCommand::AddAddress { iface, addr, mask: Ipv4Addr::of_bits(mask_bits(prefix)) },
        ),
        Effect::StoreInsert { addr, prefix },
        Effect::StoreFlush,
    ]
}

/// The steps that unbind `addr` from the interface `iface`: the request to the
/// operating system first, then the removal from the mask store, then its
/// flush.
pub open spec fn del_steps(iface: u32, addr: Ipv4Addr) -> Seq<Effect> {
    seq![
        Effect::Run(OsCommand::DeleteAddress { iface, addr }),
        Effect::StoreRemove { addr },
        Effect::StoreFlush,
    ]
}

/// The steps that make `gateway` the default gateway of the interface
/// `iface`: delete the default route, then add the new one.
pub open spec fn gateway_steps(iface: u32, gateway: Ipv4Addr) -> Seq<Effect> {
    seq![
        Effect::Run(OsCommand::DeleteDefaultRoute { iface }),
        Effect::Run(OsCommand::AddDefaultRoute { iface, gateway }),
    ]
}

/// The prefix length that `masks` holds for `addr`, if any.
pub open spec fn lookup(masks: Map<Ipv4Addr, u8>, addr: Ipv4Addr) -> Option<u8> {
    if masks.contains_key(addr) {
        Some(masks[addr])
    } else {
        None
    }
}

/// The addresses of a list of addresses with their prefix lengths.
pub open spec fn listing_addrs(list: Seq<(Ipv4Addr, Option<u8>)>) -> Seq<Ipv4Addr> {
    list.map_values(|e: (Ipv4Addr, Option<u8>)| e.0)
}

/// Whether `list` is the list of the addresses `bound`, annotated from
/// `masks`: every bound address once, in ascending order, each with the prefix
/// length that `masks` holds for it, or none where it holds none.
pub open spec fn is_listing(
    list: Seq<(Ipv4Addr, Option<u8>)>,
    bound: Seq<Ipv4Addr>,
    masks: Map<Ipv4Addr, u8>,
) -> bool {
    &&& ascending(listing_addrs(list))
    &&& forall|x: Ipv4Addr| listing_addrs(list).contains(x) <==> bound.contains(x)
    &&& forall|i: int| 0 <= i < list.len() ==> (#[trigger] list[i]).1 == lookup(masks, list[i].0)
}

/// Whether `i` is the place of the first of the listed interfaces `list` with
/// the hardware address `mac`.
pub open spec fn is_first_with_mac(list: Seq<(u32, Seq<u8>, Seq<char>)>, mac: Seq<u8>, i: int) -> bool {
    &&& 0 <= i < list.len()
    &&& list[i].1 == mac
    &&& forall|j: int| 0 <= j < i ==> (#[trigger] list[j]).1 != mac
}

/// Whether `k` is the place of the first interface of `s` with identifier
/// `idx`.
pub open spec fn is_first_with_index(s: Seq<Interface>, idx: u32, k: int) -> bool {
    &&& 0 <= k < s.len()
    &&& s[k].index == idx
    &&& forall|j: int| 0 <= j < k ==> (#[trigger] s[j]).index != idx
}

impl DefaultRoute {
    /// The default route that the gateway column of the route table stands
    /// for: none where there is no default route, an IPv4 one where the
    /// column holds an address, and another one else.
    pub open spec fn of_column(column: Option<Seq<char>>) -> DefaultRoute {
        match column {
            None => DefaultRoute::Missing,
            Some(text) => if exists|addr: Ipv4Addr| text == #[trigger] addr.text() {
                DefaultRoute::V4(choose|addr: Ipv4Addr| text == #[trigger] addr.text())
            } else {
                DefaultRoute::NotV4
            },
        }
    }

    /// Reads the default route from the gateway column of the route table.
    pub fn of_text(column: Option<&str>) -> (r: DefaultRoute)
        ensures
            r == DefaultRoute::of_column(
                match column {
                    Some(text) => Some(text@),
                    None => None,
                },
            ),
    {
        match column {
            None => DefaultRoute::Missing,
            Some(text) => {
                let chars = chars_of(text);
                match Ipv4Addr::parse(&chars) {
                    Some(addr) => {
                        proof {
                            let chosen = choose|x: Ipv4Addr| text@ == #[trigger] x.text();
                            addr.lemma_text_injective(chosen);
                        }
                        DefaultRoute::V4(addr)
                    },
                    None => DefaultRoute::NotV4,
                }
            },
        }
    }
}

/// The network component.
pub struct Net {
    idx: u32,
    mask_db: MaskStore,
}

impl Net {
    /// The identifier of the interface that was resolved at construction.
    pub closed spec fn index(self) -> u32 {
        self.idx
    }

    /// The mask store as a map from address to prefix length.
    pub closed spec fn masks(self) -> Map<Ipv4Addr, u8> {
        self.mask_db@
    }

    /// Reads a hardware address: exactly twelve hexadecimal digits.
    pub fn parse_mac(mac: &str) -> (r: Result<[u8; 6], NetError>)
        ensures
            is_mac_text(mac@) ==> r is Ok && r->Ok_0@ == mac_bytes(mac@),
            !is_mac_text(mac@) ==> r == Err::<[u8; 6], NetError>(NetError::MacConvert),
    {
        match read_mac(mac) {
            Some(bytes) => Ok(bytes),
            None => Err(NetError::MacConvert),
        }
    }

    /// The subnet mask of a prefix length, as an address.
    pub fn parse_mask(mask: u8) -> (r: Result<Ipv4Addr, NetError>)
        ensures
            mask <= 32 ==> r is Ok && r->Ok_0.bits() == mask_bits(mask),
            mask > 32 ==> r == Err::<Ipv4Addr, NetError>(NetError::MaskConvert),
    {
        match prefix_mask(mask) {
            Some(bits) => Ok(Ipv4Addr::from_bits(bits)),
            None => Err(NetError::MaskConvert),
        }
    }

    /// The interfaces that have a hardware address, in the order of the
    /// enumeration: identifier, hardware address and name of each.
    pub fn list_ifaces(ifaces: &Vec<Interface>) -> (r: Vec<(u32, [u8; 6], String)>)
        ensures
            r@.len() == listed(ifaces@).len(),
            forall|i: int|
                0 <= i < r@.len() ==> {
                    &&& (#[trigger] r@[i]).0 == listed(ifaces@)[i].0
                    &&& r@[i].1@ == listed(ifaces@)[i].1
                    &&& r@[i].2@ == listed(ifaces@)[i].2
                },
    {
        let mut r: Vec<(u32, [u8; 6], String)> = Vec::new();
        let mut k: usize = 0;
        while k < ifaces.len()
            invariant
                k <= ifaces.len(),
                r@.len() == listed(ifaces@.subrange(0, k as int)).len(),
                forall|i: int|
                    0 <= i < r@.len() ==> {
                        &&& (#[trigger] r@[i]).0 == listed(ifaces@.subrange(0, k as int))[i].0
                        &&& r@[i].1@ == listed(ifaces@.subrange(0, k as int))[i].1
                        &&& r@[i].2@ == listed(ifaces@.subrange(0, k as int))[i].2
                    },
            decreases ifaces.len() - k,
        {
            let iface = &ifaces[k];
            proof {
                let next = ifaces@.subrange(0, k + 1);
                assert(next.drop_last() =~= ifaces@.subrange(0, k as int));
                assert(next.last() == ifaces@[k as int]);
            }
            let text = strip_colons(iface.hw_addr.as_str());
            match read_mac(text.as_str()) {
                Some(mac) => {
                    r.push((iface.index, mac, iface.name.clone()));
                },
                None => {},
            }
            k += 1;
        }
        assert(ifaces@.subrange(0, ifaces.len() as int) =~= ifaces@);
        r
    }

    /// Resolves the interface whose hardware address `mac` spells.
    ///
    /// The interface is the first of the enumeration with that hardware
    /// address. Nothing is kept when the text is no hardware address or no
    /// interface has it.
    pub fn new(mac: &str, ifaces: &Vec<Interface>, mask_db: MaskStore) -> (r: Result<Net, NetError>)
        ensures
            match r {
                Ok(net) => is_mac_text(mac@) && net.masks() == mask_db@ && exists|i: int|
                    #[trigger] is_first_with_mac(listed(ifaces@), mac_bytes(mac@), i) && listed(
                        ifaces@,
                    )[i].0 == net.index(),
                Err(e) => if is_mac_text(mac@) {
                    e == NetError::NotFound && forall|i: int|
                        0 <= i < listed(ifaces@).len() ==> (#[trigger] listed(ifaces@)[i]).1
                            != mac_bytes(mac@)
                } else {
                    e == NetError::MacConvert
                },
            },
    {
        let wanted = match Net::parse_mac(mac) {
            Ok(bytes) => bytes,
            Err(e) => {
                return Err(e);
            },
        };
        let list = Net::list_ifaces(ifaces);
        let mut i: usize = 0;
        while i < list.len()
            invariant
                i <= list@.len(),
                is_mac_text(mac@),
                wanted@ == mac_bytes(mac@),
                list@.len() == listed(ifaces@).len(),
                forall|j: int|
                    0 <= j < list@.len() ==> {
                        &&& (#[trigger] list@[j]).0 == listed(ifaces@)[j].0
                        &&& list@[j].1@ == listed(ifaces@)[j].1
                    },
                forall|j: int| 0 <= j < i ==> (#[trigger] listed(ifaces@)[j]).1 != wanted@,
            decreases list@.len() - i,
        {
            if mac_eq(&list[i].1, &wanted) {
                let idx = list[i].0;
                assert(is_first_with_mac(listed(ifaces@), mac_bytes(mac@), i as int));
                return Ok(Net { idx, mask_db });
            }
            i += 1;
        }
        Err(NetError::NotFound)
    }

    /// The identifier of the interface that was resolved at construction.
    pub fn idx(&self) -> (r: u32)
        ensures
            r == self.index(),
    {
        self.idx
    }

    /// The prefix length that the mask store holds for `addr`.
    pub fn mask_of(&self, addr: &Ipv4Addr) -> (r: Option<u8>)
        ensures
            r == (if self.masks().contains_key(*addr) {
                Some(self.masks()[*addr])
            } else {
                None
            }),
    {
        self.mask_db.get(addr)
    }

    /// The addresses bound to the resolved interface, in ascending order, each
    /// with the prefix length that the mask store holds for it.
    ///
    /// The interface is looked up again in `ifaces`, by the identifier that
    /// was resolved at construction; an address without an entry in the mask
    /// store is listed without a prefix length.
    pub fn get_addrs(&self, ifaces: &Vec<Interface>) -> (r: Result<
        Vec<(Ipv4Addr, Option<u8>)>,
        NetError,
    >)
        ensures
            match r {
                Ok(list) => exists|k: int|
                    #[trigger] is_first_with_index(ifaces@, self.index(), k) && is_listing(
                        list@,
                        ifaces@[k].ipv4@,
                        self.masks(),
                    ),
                Err(e) => e == NetError::NotFound && forall|j: int|
                    0 <= j < ifaces@.len() ==> (#[trigger] ifaces@[j]).index != self.index(),
            },
    {
        let mut k: usize = 0;
        while k < ifaces.len() && ifaces[k].index != self.idx
            invariant
                k <= ifaces@.len(),
                forall|j: int| 0 <= j < k ==> (#[trigger] ifaces@[j]).index != self.idx,
            decreases ifaces@.len() - k,
        {
            k += 1;
        }
        if k >= ifaces.len() {
            return Err(NetError::NotFound);
        }
        let sorted = sorted_addrs(&ifaces[k].ipv4);
        let mut list: Vec<(Ipv4Addr, Option<u8>)> = Vec::new();
        let mut i: usize = 0;
        while i < sorted.len()
            invariant
                i <= sorted@.len(),
                list@.len() == i,
                forall|j: int| 0 <= j < i ==> (#[trigger] list@[j]).0 == sorted@[j],
                forall|j: int|
                    0 <= j < i ==> (#[trigger] list@[j]).1 == lookup(self.masks(), list@[j].0),
            decreases sorted@.len() - i,
        {
            let addr = sorted[i];
            let mask = self.mask_db.get(&addr);
            list.push((addr, mask));
            i += 1;
        }
        proof {
            assert(listing_addrs(list@) =~= sorted@);
            assert(is_first_with_index(ifaces@, self.index(), k as int));
        }
        Ok(list)
    }

    /// The steps that bind `addr` with prefix length `mask` to the resolved
    /// interface, or the refusal of a prefix length above 32.
    ///
    /// Nothing is to be carried out when the prefix length is refused.
    pub fn add_addr(&self, addr: &Ipv4Addr, mask: u8) -> (r: Result<Vec<Effect>, NetError>)
        ensures
            mask <= 32 ==> r is Ok && r->Ok_0@ == add_steps(self.index(), *addr, mask),
            mask > 32 ==> r == Err::<Vec<Effect>, NetError>(NetError::MaskConvert),
    {
        let netmask = match Net::parse_mask(mask) {
            Ok(m) => m,
            Err(e) => {
                return Err(e);
            },
        };
        proof {
            Ipv4Addr::lemma_of_bits(mask_bits(mask));
            crate::addr::lemma_bits_injective(netmask, Ipv4Addr::of_bits(mask_bits(mask)));
        }
        let mut steps: Vec<Effect> = Vec::new();
        steps.push(Effect::Run(OsCommand::AddAddress { iface: self.idx, addr: *addr, mask: netmask }));
        steps.push(Effect::StoreInsert { addr: *addr, prefix: mask });
        steps.push(Effect::StoreFlush);
        Ok(steps)
    }

    /// The steps that unbind `addr` from the resolved interface, whether or
    /// not the address is bound to it or known to the mask store.
    pub fn del_addr(&self, addr: &Ipv4Addr) -> (r: Vec<Effect>)
        ensures
            r@ == del_steps(self.index(), *addr),
    {
        let mut steps: Vec<Effect> = Vec::new();
        steps.push(Effect::Run(OsCommand::DeleteAddress { iface: self.idx, addr: *addr }));
        steps.push(Effect::StoreRemove { addr: *addr });
        steps.push(Effect::StoreFlush);
        steps
    }

    /// The gateway of the default route, where it is an IPv4 one.
    pub fn get_gateway(route: &DefaultRoute) -> (r: Result<Ipv4Addr, NetError>)
        ensures
            r == (match *route {
                DefaultRoute::V4(gateway) => Ok::<Ipv4Addr, NetError>(gateway),
                _ => Err::<Ipv4Addr, NetError>(NetError::GatewayUnavailable),
            }),
    {
        match route {
            DefaultRoute::V4(gateway) => Ok(*gateway),
            _ => Err(NetError::GatewayUnavailable),
        }
    }

    /// The steps that make `addr` the default gateway of the resolved
    /// interface, whether or not it has a default route.
    pub fn set_gateway(&self, addr: &Ipv4Addr) -> (r: Vec<Effect>)
        ensures
            r@ == gateway_steps(self.index(), *addr),
    {
        let mut steps: Vec<Effect> = Vec::new();
        steps.push(Effect::Run(OsCommand::DeleteDefaultRoute { iface: self.idx }));
        steps.push(Effect::Run(OsCommand::AddDefaultRoute { iface: self.idx, gateway: *addr }));
        steps
    }

    /// Takes note of how the step `effect` went: `done` says whether it could
    /// be carried out.
    ///
    /// A step that could not be carried out ends its plan: the error is what
    /// the operation answers, and no later step of the plan is to be carried
    /// out. The resolved interface stays.
    pub fn settle(&mut self, effect: &Effect, done: bool) -> (r: Result<(), NetError>)
        ensures
            final(self).index() == old(self).index(),
            (r, final(self).masks()) == settled(*effect, done, old(self).masks()),
    {
        if done {
            self.apply(effect);
            Ok(())
        } else {
            Err(effect.failure())
        }
    }

    /// Takes note that `effect` was carried out: the image of the mask store
    /// follows what was written to it. The resolved interface stays.
    pub fn apply(&mut self, effect: &Effect)
        ensures
            final(self).index() == old(self).index(),
            final(self).masks() == effect.store_after(old(self).masks()),
    {
        match effect {
            Effect::StoreInsert { addr, prefix } => {
                self.mask_db.insert(*addr, *prefix);
            },
            Effect::StoreRemove { addr } => {
                self.mask_db.remove(addr);
            },
            _ => {},
        }
    }
}

/// Carrying out three steps is carrying out the first, then the second, then
/// the third.
proof fn lemma_three_steps(a: Effect, b: Effect, c: Effect, masks: Map<Ipv4Addr, u8>)
    ensures
        store_after_all(seq![a, b, c], masks) == c.store_after(
            b.store_after(a.store_after(masks)),
        ),
{
    let abc = seq![a, b, c];
    let ab = seq![a, b];
    let one = seq![a];
    assert(abc.drop_last() =~= ab);
    assert(ab.drop_last() =~= one);
    assert(one.drop_last() =~= Seq::<Effect>::empty());
    assert(store_after_all(Seq::<Effect>::empty(), masks) == masks);
    assert(store_after_all(one, masks) == a.store_after(masks));
    assert(store_after_all(ab, masks) == b.store_after(a.store_after(masks)));
}

/// Adding an address writes its prefix length to the mask store and leaves
/// every other entry as it was.
pub proof fn lemma_add_stores(iface: u32, addr: Ipv4Addr, prefix: u8, masks: Map<Ipv4Addr, u8>)
    ensures
        store_after_all(add_steps(iface, addr, prefix), masks) == masks.insert(addr, prefix),
{
    let steps = add_steps(iface, addr, prefix);
    lemma_three_steps(steps[0], steps[1], steps[2], masks);
    assert(steps =~= seq![steps[0], steps[1], steps[2]]);
}

/// Removing an address deletes its entry from the mask store and leaves every
/// other entry as it was.
pub proof fn lemma_del_stores(iface: u32, addr: Ipv4Addr, masks: Map<Ipv4Addr, u8>)
    ensures
        store_after_all(del_steps(iface, addr), masks) == masks.remove(addr),
{
    let steps = del_steps(iface, addr);
    lemma_three_steps(steps[0], steps[1], steps[2], masks);
    assert(steps =~= seq![steps[0], steps[1], steps[2]]);
}

/// Where the request to the operating system cannot be started, adding an
/// address ends with the error of an external command and writes nothing to
/// the mask store.
pub proof fn lemma_unstarted_add(iface: u32, addr: Ipv4Addr, prefix: u8, masks: Map<Ipv4Addr, u8>)
    ensures
        settled(add_steps(iface, addr, prefix)[0], false, masks) == (
            Err::<(), NetError>(NetError::IO),
            masks,
        ),
{
}

/// Where the request to the operating system cannot be started, removing an
/// address ends with the error of an external command and leaves the mask
/// store as it was.
pub proof fn lemma_unstarted_del(iface: u32, addr: Ipv4Addr, masks: Map<Ipv4Addr, u8>)
    ensures
        settled(del_steps(iface, addr)[0], false, masks) == (
            Err::<(), NetError>(NetError::IO),
            masks,
        ),
{
}

/// Round trip: once an address was added with a prefix length of at most 32,
/// a listing of an interface that the address is bound to shows it with
/// exactly that prefix length.
pub proof fn lemma_added_is_listed(
    iface: u32,
    addr: Ipv4Addr,
    prefix: u8,
    masks: Map<Ipv4Addr, u8>,
    bound: Seq<Ipv4Addr>,
    list: Seq<(Ipv4Addr, Option<u8>)>,
)
    requires
        prefix <= 32,
        bound.contains(addr),
        is_listing(list, bound, store_after_all(add_steps(iface, addr, prefix), masks)),
    ensures
        list.contains((addr, Some(prefix))),
{
    lemma_add_stores(iface, addr, prefix, masks);
    let addrs = listing_addrs(list);
    assert(addrs.contains(addr));
    let i = choose|i: int| 0 <= i < addrs.len() && addrs[i] == addr;
    assert(list[i].0 == addr);
    assert(list[i].1 == Some(prefix));
    assert(list[i] == (addr, Some(prefix)));
}

/// Removing an address that the mask store has no entry for leaves the mask
/// store as it was.
pub proof fn lemma_remove_absent(iface: u32, addr: Ipv4Addr, masks: Map<Ipv4Addr, u8>)
    requires
        !masks.contains_key(addr),
    ensures
        store_after_all(del_steps(iface, addr), masks) == masks,
{
    lemma_del_stores(iface, addr, masks);
    assert(masks.remove(addr) =~= masks);
}

/// An address that was added and then removed has no entry in the mask store,
/// and is listed without a prefix length.
pub proof fn lemma_removed_is_unknown(
    iface: u32,
    addr: Ipv4Addr,
    prefix: u8,
    masks: Map<Ipv4Addr, u8>,
)
    ensures
        lookup(
            store_after_all(
                del_steps(iface, addr),
                store_after_all(add_steps(iface, addr, prefix), masks),
            ),
            addr,
        ) is None,
{
    lemma_add_stores(iface, addr, prefix, masks);
    lemma_del_stores(iface, addr, masks.insert(addr, prefix));
}

/// The addresses bound to an interface and the mask store decide the listing:
/// two listings of the same are the same.
pub proof fn lemma_listing_unique(
    one: Seq<(Ipv4Addr, Option<u8>)>,
    other: Seq<(Ipv4Addr, Option<u8>)>,
    bound: Seq<Ipv4Addr>,
    masks: Map<Ipv4Addr, u8>,
)
    requires
        is_listing(one, bound, masks),
        is_listing(other, bound, masks),
    ensures
        one == other,
{
    let a = listing_addrs(one);
    let b = listing_addrs(other);
    assert forall|x: Ipv4Addr| a.contains(x) <==> b.contains(x) by {
        assert(a.contains(x) <==> bound.contains(x));
        assert(b.contains(x) <==> bound.contains(x));
    }
    crate::addr::lemma_ascending_unique(a, b);
    assert(one.len() == a.len());
    assert(other.len() == b.len());
    assert forall|i: int| 0 <= i < one.len() implies one[i] == other[i] by {
        assert(a[i] == one[i].0);
        assert(b[i] == other[i].0);
        assert(one[i].1 == lookup(masks, one[i].0));
        assert(other[i].1 == lookup(masks, other[i].0));
    }
    assert(one =~= other);
}

/// Whether every prefix length that `masks` holds is one of an IPv4 address.
pub open spec fn prefixes_valid(masks: Map<Ipv4Addr, u8>) -> bool {
    forall|addr: Ipv4Addr| masks.contains_key(addr) ==> #[trigger] masks[addr] <= 32
}

/// A mask store that holds prefix lengths of at most 32 holds such only after
/// an address is added with a prefix length that is accepted, and after an
/// address is removed.
pub proof fn lemma_steps_keep_prefixes(
    iface: u32,
    addr: Ipv4Addr,
    prefix: u8,
    masks: Map<Ipv4Addr, u8>,
)
    requires
        prefixes_valid(masks),
        prefix <= 32,
    ensures
        prefixes_valid(store_after_all(add_steps(iface, addr, prefix), masks)),
        prefixes_valid(store_after_all(del_steps(iface, addr), masks)),
{
    lemma_add_stores(iface, addr, prefix, masks);
    lemma_del_stores(iface, addr, masks);
}

} // verus!
