//! The mask store: which prefix length each configured address was given.

use vstd::prelude::*;
use crate::addr::Ipv4Addr;

verus! {

/// One entry of the mask store: an address and the prefix length it was
/// configured with.
#[derive(Clone, Copy, Debug, PartialEq, Eq, Structural)]
pub struct MaskEntry {
    pub addr: Ipv4Addr,
    pub prefix: u8,
}

impl MaskEntry {
    /// The entry that a key and a value of the durable store stand for: the
    /// key is the four octets of the address, and the first byte of the value
    /// is the prefix length. Any other key, and an empty value, stand for
    /// nothing.
    pub open spec fn of_bytes(key: Seq<u8>, value: Seq<u8>) -> Option<MaskEntry> {
        if key.len() == 4 && value.len() >= 1 {
            Some(
                MaskEntry {
                    addr: Ipv4Addr { a: key[0], b: key[1], c: key[2], d: key[3] },
                    prefix: value[0],
                },
            )
        } else {
            None
        }
    }

    /// Reads an entry from a key and a value of the durable store.
    pub fn from_bytes(key: &[u8], value: &[u8]) -> (r: Option<MaskEntry>)
        ensures
            r == MaskEntry::of_bytes(key@, value@),
    {
        if key.len() == 4 && value.len() >= 1 {
            Some(
                MaskEntry {
                    addr: Ipv4Addr::new(key[0], key[1], key[2], key[3]),
                    prefix: value[0],
                },
            )
        } else {
            None
        }
    }

    /// The key of the entry in the durable store: the four octets of the
    /// address.
    pub fn key(&self) -> (r: [u8; 4])
        ensures
            r@ == self.addr.key(),
    {
        self.addr.octets()
    }

    /// The value of the entry in the durable store: one byte, the prefix
    /// length.
    pub fn value(&self) -> (r: [u8; 1])
        ensures
            r@ == seq![self.prefix],
    {
        let r = [self.prefix];
        r
    }

    /// An entry is read back from its key and its value as it was written.
    pub proof fn lemma_bytes_round_trip(self)
        ensures
            MaskEntry::of_bytes(self.addr.key(), seq![self.prefix]) == Some(self),
    {
    }
}

/// An image of the mask store in memory: a partial map from address to prefix
/// length.
pub struct MaskStore {
    entries: Vec<MaskEntry>,
}

/// Whether no address stands twice in `s`.
pub open spec fn distinct_addrs(s: Seq<MaskEntry>) -> bool {
    forall|i: int, j: int| 0 <= i < j < s.len() ==> (#[trigger] s[i]).addr != (#[trigger] s[j]).addr
}

/// Whether an entry of `s` is for `addr`.
pub open spec fn has_addr(s: Seq<MaskEntry>, addr: Ipv4Addr) -> bool {
    exists|i: int| 0 <= i < s.len() && (#[trigger] s[i]).addr == addr
}

/// The position in `s` of an entry for `addr`.
pub open spec fn position_of(s: Seq<MaskEntry>, addr: Ipv4Addr) -> int {
    choose|i: int| 0 <= i < s.len() && (#[trigger] s[i]).addr == addr
}

/// The map that the entries `s` stand for.
pub open spec fn map_of(s: Seq<MaskEntry>) -> Map<Ipv4Addr, u8> {
    Map::new(|addr: Ipv4Addr| has_addr(s, addr), |addr: Ipv4Addr| s[position_of(s, addr)].prefix)
}

/// With distinct addresses, each entry is the one that the map holds for its
/// address.
proof fn lemma_map_of(s: Seq<MaskEntry>, i: int)
    requires
        distinct_addrs(s),
        0 <= i < s.len(),
    ensures
        map_of(s).contains_key(s[i].addr),
        map_of(s)[s[i].addr] == s[i].prefix,
        position_of(s, s[i].addr) == i,
{
    let k = position_of(s, s[i].addr);
    assert(0 <= k < s.len() && s[k].addr == s[i].addr);
}

impl View for MaskStore {
    type V = Map<Ipv4Addr, u8>;

    closed spec fn view(&self) -> Map<Ipv4Addr, u8> {
        map_of(self.entries@)
    }
}

impl MaskStore {
    #[verifier::type_invariant]
    spec fn distinct(self) -> bool {
        distinct_addrs(self.entries@)
    }

    /// A store without entries.
    pub fn new() -> (r: MaskStore)
        ensures
            r@ == Map::<Ipv4Addr, u8>::empty(),
    {
        let r = MaskStore { entries: Vec::new() };
        r
    }

    /// The number of entries.
    pub fn len(&self) -> (r: usize)
        ensures
            r == self@.len(),
            self@.dom().finite(),
    {
        proof {
            use_type_invariant(self);
            lemma_map_len(self.entries@);
        }
        self.entries.len()
    }

    /// Where the entry for `addr` stands, if there is one.
    fn find(&self, addr: &Ipv4Addr) -> (r: Option<usize>)
        ensures
            match r {
                Some(i) => i < self.entries@.len() && self.entries@[i as int].addr == *addr,
                None => !has_addr(self.entries@, *addr),
            },
    {
        let mut i: usize = 0;
        while i < self.entries.len()
            invariant
                i <= self.entries@.len(),
                forall|j: int| 0 <= j < i ==> (#[trigger] self.entries@[j]).addr != *addr,
            decreases self.entries@.len() - i,
        {
            if self.entries[i].addr == *addr {
                return Some(i);
            }
            i += 1;
        }
        None
    }

    /// The prefix length stored for `addr`, or `None` when there is none.
    pub fn get(&self, addr: &Ipv4Addr) -> (r: Option<u8>)
        ensures
            r == (if self@.contains_key(*addr) {
                Some(self@[*addr])
            } else {
                None
            }),
    {
        proof {
            use_type_invariant(self);
        }
        match self.find(addr) {
            Some(i) => {
                proof {
                    lemma_map_of(self.entries@, i as int);
                }
                Some(self.entries[i].prefix)
            },
            None => None,
        }
    }

    /// The entries for every address but `addr`.
    fn without(&self, addr: &Ipv4Addr) -> (r: Vec<MaskEntry>)
        ensures
            distinct_addrs(r@),
            map_of(r@) == self@.remove(*addr),
    {
        proof {
            use_type_invariant(self);
        }
        let ghost all = self.entries@;
        let mut r: Vec<MaskEntry> = Vec::new();
        let mut i: usize = 0;
        proof {
            assert(all.subrange(0, 0) =~= Seq::<MaskEntry>::empty());
            assert(map_of(r@) =~= map_of(all.subrange(0, 0)).remove(*addr));
        }
        while i < self.entries.len()
            invariant
                i <= all.len(),
                all == self.entries@,
                distinct_addrs(all),
                distinct_addrs(r@),
                map_of(r@) == map_of(all.subrange(0, i as int)).remove(*addr),
            decreases all.len() - i,
        {
            let entry = self.entries[i];
            proof {
                let head = all.subrange(0, i as int);
                let next = all.subrange(0, i + 1);
                assert(next =~= head.push(entry));
                lemma_distinct_prefix(all, i as int);
                lemma_distinct_prefix(all, i + 1);
                lemma_push_inserts(head, entry);
                assert(!has_addr(head, entry.addr)) by {
                    if has_addr(head, entry.addr) {
                        let j = position_of(head, entry.addr);
                        assert(all[j].addr == all[i as int].addr);
                    }
                }
                assert(!map_of(r@).contains_key(entry.addr));
            }
            if entry.addr != *addr {
                proof {
                    lemma_distinct_push(r@, entry);
                    lemma_push_inserts(r@, entry);
                    assert(map_of(r@.push(entry)) =~= map_of(all.subrange(0, i + 1)).remove(
                        *addr,
                    ));
                }
                r.push(entry);
            }
            i += 1;
        }
        assert(all.subrange(0, all.len() as int) =~= all);
        r
    }

    /// Stores `prefix` for `addr`, in place of what was stored for it.
    pub fn insert(&mut self, addr: Ipv4Addr, prefix: u8)
        ensures
            final(self)@ == old(self)@.insert(addr, prefix),
    {
        let entry = MaskEntry { addr, prefix };
        let mut next = self.without(&addr);
        proof {
            lemma_distinct_push(next@, entry);
            lemma_push_inserts(next@, entry);
            assert(map_of(next@.push(entry)) =~= old(self)@.insert(addr, prefix));
        }
        next.push(entry);
        self.entries = next;
    }

    /// Removes what is stored for `addr`; nothing changes when nothing is.
    pub fn remove(&mut self, addr: &Ipv4Addr)
        ensures
            final(self)@ == old(self)@.remove(*addr),
    {
        let next = self.without(addr);
        self.entries = next;
    }
}

/// The first entries of a list without repeated addresses repeat none.
proof fn lemma_distinct_prefix(s: Seq<MaskEntry>, k: int)
    requires
        distinct_addrs(s),
        0 <= k <= s.len(),
    ensures
        distinct_addrs(s.subrange(0, k)),
{
    let p = s.subrange(0, k);
    assert forall|x: int, y: int| 0 <= x < y < p.len() implies (#[trigger] p[x]).addr != (
    #[trigger] p[y]).addr by {
        assert(p[x] == s[x] && p[y] == s[y]);
    }
}

/// Appending an entry for an address that no entry is for repeats no address.
proof fn lemma_distinct_push(s: Seq<MaskEntry>, entry: MaskEntry)
    requires
        distinct_addrs(s),
        !map_of(s).contains_key(entry.addr),
    ensures
        distinct_addrs(s.push(entry)),
{
    let after = s.push(entry);
    assert forall|x: int, y: int| 0 <= x < y < after.len() implies (#[trigger] after[x]).addr != (
    #[trigger] after[y]).addr by {
        assert(after[x] == s[x]);
        if y < s.len() {
            assert(after[y] == s[y]);
        } else {
            assert(has_addr(s, s[x].addr));
        }
    }
}

/// Appending an entry for a new address stores its prefix for that address.
proof fn lemma_push_inserts(before: Seq<MaskEntry>, entry: MaskEntry)
    requires
        distinct_addrs(before),
        distinct_addrs(before.push(entry)),
    ensures
        map_of(before.push(entry)) == map_of(before).insert(entry.addr, entry.prefix),
{
    let after = before.push(entry);
    let want = map_of(before).insert(entry.addr, entry.prefix);
    assert forall|k: Ipv4Addr| map_of(after).contains_key(k) <==> want.contains_key(k) by {
        if has_addr(after, k) {
            let j = position_of(after, k);
            if j < before.len() {
                assert(before[j].addr == k);
            }
        }
        if has_addr(before, k) {
            let j = position_of(before, k);
            assert(after[j].addr == k);
        }
        assert(after[before.len() as int].addr == entry.addr);
    }
    assert forall|k: Ipv4Addr| map_of(after).contains_key(k) implies map_of(after)[k] == want[k] by {
        let j = position_of(after, k);
        let last = before.len() as int;
        lemma_map_of(after, j);
        if j < last {
            assert(after[j] == before[j]);
            assert(after[j].addr != after[last].addr);
            lemma_map_of(before, j);
        } else {
            assert(after[j] == entry);
        }
    }
    assert(map_of(after) =~= want);
}

/// Entries with distinct addresses stand for a finite map with as many keys.
proof fn lemma_map_len(s: Seq<MaskEntry>)
    requires
        distinct_addrs(s),
    ensures
        map_of(s).dom().finite(),
        map_of(s).len() == s.len(),
    decreases s.len(),
{
    if s.len() == 0 {
        assert(map_of(s) =~= Map::<Ipv4Addr, u8>::empty());
    } else {
        let p = s.drop_last();
        assert(p =~= s.subrange(0, s.len() - 1));
        lemma_distinct_prefix(s, s.len() - 1);
        lemma_map_len(p);
        assert(p.push(s.last()) =~= s);
        lemma_push_inserts(p, s.last());
        assert(!map_of(p).contains_key(s.last().addr)) by {
            if has_addr(p, s.last().addr) {
                let j = position_of(p, s.last().addr);
                assert(s[j].addr == s[s.len() - 1].addr);
            }
        }
    }
}

} // verus!
