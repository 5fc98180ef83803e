//! IPv4 addresses: four octets, their dotted-decimal text and their order.

use vstd::prelude::*;
use crate::text::{
    decimal, find_char, is_digit, lemma_decimal_canonical, lemma_decimal_injective,
    push_decimal, read_decimal, string_of,
};

verus! {

/// An IPv4 address, most significant octet first.
#[derive(Clone, Copy, Debug, PartialEq, Eq, PartialOrd, Ord, Hash, Structural)]
pub struct Ipv4Addr {
    pub a: u8,
    pub b: u8,
    pub c: u8,
    pub d: u8,
}

impl Ipv4Addr {
    /// The address as one number: the four octets in base 256.
    pub open spec fn bits(self) -> nat {
        (self.a as nat) * 16777216 + (self.b as nat) * 65536 + (self.c as nat) * 256
            + self.d as nat
    }

    /// The four octets in order: the key under which the address is stored.
    pub open spec fn key(self) -> Seq<u8> {
        seq![self.a, self.b, self.c, self.d]
    }

    /// The dotted-decimal text of the address.
    pub open spec fn text(self) -> Seq<char> {
        decimal(self.a as nat) + seq!['.'] + decimal(self.b as nat) + seq!['.'] + decimal(
            self.c as nat,
        ) + seq!['.'] + decimal(self.d as nat)
    }

    /// The address that the number `bits` stands for.
    pub open spec fn of_bits(bits: u32) -> Ipv4Addr {
        Ipv4Addr {
            a: (bits / 16777216) as u8,
            b: ((bits / 65536) % 256) as u8,
            c: ((bits / 256) % 256) as u8,
            d: (bits % 256) as u8,
        }
    }

    /// The address that a number stands for is that number again.
    pub proof fn lemma_of_bits(bits: u32)
        ensures
            Ipv4Addr::of_bits(bits).bits() == bits,
    {
    }

    /// The address `a.b.c.d`.
    pub fn new(a: u8, b: u8, c: u8, d: u8) -> (r: Ipv4Addr)
        ensures
            r == (Ipv4Addr { a, b, c, d }),
    {
        Ipv4Addr { a, b, c, d }
    }

    /// The four octets, most significant first.
    pub fn octets(&self) -> (r: [u8; 4])
        ensures
            r@ == self.key(),
    {
        let r = [self.a, self.b, self.c, self.d];
        r
    }

    /// The address with the given octets.
    pub fn from_octets(octets: [u8; 4]) -> (r: Ipv4Addr)
        ensures
            r.key() == octets@,
    {
        let r = Ipv4Addr { a: octets[0], b: octets[1], c: octets[2], d: octets[3] };
        assert(r.key() =~= octets@);
        r
    }

    /// The address as a 32-bit number.
    pub fn to_bits(&self) -> (r: u32)
        ensures
            r == self.bits(),
    {
        (self.a as u32) * 16777216 + (self.b as u32) * 65536 + (self.c as u32) * 256
            + self.d as u32
    }

    /// The address that a 32-bit number stands for.
    pub fn from_bits(bits: u32) -> (r: Ipv4Addr)
        ensures
            r == Ipv4Addr::of_bits(bits),
            r.bits() == bits,
    {
        Ipv4Addr {
            a: (bits / 16777216) as u8,
            b: ((bits / 65536) % 256) as u8,
            c: ((bits / 256) % 256) as u8,
            d: (bits % 256) as u8,
        }
    }

    /// Whether this address comes before `other` in ascending order.
    pub fn lt(&self, other: &Ipv4Addr) -> (r: bool)
        ensures
            r == (self.bits() < other.bits()),
    {
        self.to_bits() < other.to_bits()
    }

    /// The dotted-decimal text of the address.
    pub fn to_text(&self) -> (r: String)
        ensures
            r@ == self.text(),
    {
        let mut v: Vec<char> = Vec::new();
        self.push_text(&mut v);
        string_of(&v)
    }

    /// Appends the dotted-decimal text of the address to `out`.
    pub fn push_text(&self, out: &mut Vec<char>)
        ensures
            final(out)@ == old(out)@ + self.text(),
    {
        push_decimal(out, self.a as u64);
        out.push('.');
        push_decimal(out, self.b as u64);
        out.push('.');
        push_decimal(out, self.c as u64);
        out.push('.');
        push_decimal(out, self.d as u64);
    }

    /// Where the parts of the dotted-decimal text stand: three dots, and
    /// between them the numerals of the octets, which hold digits only.
    pub proof fn lemma_text_layout(self)
        ensures
            ({
                let t = self.text();
                let i1 = decimal(self.a as nat).len() as int;
                let i2 = i1 + 1 + decimal(self.b as nat).len();
                let i3 = i2 + 1 + decimal(self.c as nat).len();
                &&& 0 < i1 && i1 + 1 < i2 && i2 + 1 < i3 && i3 + 1 < t.len()
                &&& t.len() == i3 + 1 + decimal(self.d as nat).len()
                &&& t[i1] == '.' && t[i2] == '.' && t[i3] == '.'
                &&& t.subrange(0, i1) == decimal(self.a as nat)
                &&& t.subrange(i1 + 1, i2) == decimal(self.b as nat)
                &&& t.subrange(i2 + 1, i3) == decimal(self.c as nat)
                &&& t.subrange(i3 + 1, t.len() as int) == decimal(self.d as nat)
                &&& forall|j: int|
                    0 <= j < t.len() && j != i1 && j != i2 && j != i3 ==> is_digit(#[trigger] t[j])
            }),
    {
        let t = self.text();
        let da = decimal(self.a as nat);
        let db = decimal(self.b as nat);
        let dc = decimal(self.c as nat);
        let dd = decimal(self.d as nat);
        lemma_decimal_canonical(self.a as nat);
        lemma_decimal_canonical(self.b as nat);
        lemma_decimal_canonical(self.c as nat);
        lemma_decimal_canonical(self.d as nat);
        let i1 = da.len() as int;
        let i2 = i1 + 1 + db.len();
        let i3 = i2 + 1 + dc.len();
        assert(t.subrange(0, i1) =~= da);
        assert(t.subrange(i1 + 1, i2) =~= db);
        assert(t.subrange(i2 + 1, i3) =~= dc);
        assert(t.subrange(i3 + 1, t.len() as int) =~= dd);
        assert forall|j: int|
            0 <= j < t.len() && j != i1 && j != i2 && j != i3 implies is_digit(#[trigger] t[j]) by {
            if j < i1 {
                assert(t[j] == da[j]);
            } else if j < i2 {
                assert(t[j] == db[j - i1 - 1]);
            } else if j < i3 {
                assert(t[j] == dc[j - i2 - 1]);
            } else {
                assert(t[j] == dd[j - i3 - 1]);
            }
        }
    }

    /// Two addresses with the same dotted-decimal text are the same address.
    pub proof fn lemma_text_injective(self, other: Ipv4Addr)
        requires
            self.text() == other.text(),
        ensures
            self == other,
    {
        self.lemma_text_layout();
        other.lemma_text_layout();
        let t = self.text();
        let i1 = decimal(self.a as nat).len() as int;
        let j1 = decimal(other.a as nat).len() as int;
        let i2 = i1 + 1 + decimal(self.b as nat).len();
        let j2 = j1 + 1 + decimal(other.b as nat).len();
        let i3 = i2 + 1 + decimal(self.c as nat).len();
        let j3 = j2 + 1 + decimal(other.c as nat).len();
        assert(!is_digit('.'));
        assert(i1 == j1) by {
            if i1 < j1 {
                assert(is_digit(t[i1]));
            } else if j1 < i1 {
                assert(is_digit(t[j1]));
            }
        }
        assert(i2 == j2) by {
            if i2 < j2 {
                assert(is_digit(t[i2]));
            } else if j2 < i2 {
                assert(is_digit(t[j2]));
            }
        }
        assert(i3 == j3) by {
            if i3 < j3 {
                assert(is_digit(t[i3]));
            } else if j3 < i3 {
                assert(is_digit(t[j3]));
            }
        }
        lemma_decimal_injective(self.a as nat, other.a as nat);
        lemma_decimal_injective(self.b as nat, other.b as nat);
        lemma_decimal_injective(self.c as nat, other.c as nat);
        lemma_decimal_injective(self.d as nat, other.d as nat);
    }

    /// In the text of an address, the first dot, the first after it and the
    /// first after that one end the numerals of the first three octets.
    proof fn lemma_dots(self, i1: int, i2: int, i3: int)
        requires
            0 <= i1 < i2 < i3 < self.text().len(),
            self.text()[i1] == '.',
            self.text()[i2] == '.',
            self.text()[i3] == '.',
            forall|j: int| 0 <= j < i1 ==> self.text()[j] != '.',
            forall|j: int| i1 < j < i2 ==> self.text()[j] != '.',
            forall|j: int| i2 < j < i3 ==> self.text()[j] != '.',
        ensures
            self.text().subrange(0, i1) == decimal(self.a as nat),
            self.text().subrange(i1 + 1, i2) == decimal(self.b as nat),
            self.text().subrange(i2 + 1, i3) == decimal(self.c as nat),
            self.text().subrange(i3 + 1, self.text().len() as int) == decimal(self.d as nat),
    {
        self.lemma_text_layout();
        let t = self.text();
        let k1 = decimal(self.a as nat).len() as int;
        let k2 = k1 + 1 + decimal(self.b as nat).len();
        let k3 = k2 + 1 + decimal(self.c as nat).len();
        assert(!is_digit('.'));
        assert(i1 == k1) by {
            if i1 != k1 {
                assert(is_digit(t[i1]) || t[k1] != '.');
            }
        }
        assert(i2 == k2) by {
            if i2 != k2 {
                assert(is_digit(t[i2]) || t[k2] != '.');
            }
        }
        assert(i3 == k3) by {
            if i3 != k3 {
                assert(is_digit(t[i3]) || t[k3] != '.');
            }
        }
    }

    /// A text made of four numerals with dots between them is the text of the
    /// address with those octets.
    proof fn lemma_joined(self, s: Seq<char>, i1: int, i2: int, i3: int)
        requires
            0 <= i1 < i2 < i3 < s.len(),
            s[i1] == '.',
            s[i2] == '.',
            s[i3] == '.',
            s.subrange(0, i1) == decimal(self.a as nat),
            s.subrange(i1 + 1, i2) == decimal(self.b as nat),
            s.subrange(i2 + 1, i3) == decimal(self.c as nat),
            s.subrange(i3 + 1, s.len() as int) == decimal(self.d as nat),
        ensures
            s == self.text(),
    {
        assert(s =~= s.subrange(0, i1) + seq!['.'] + s.subrange(i1 + 1, i2) + seq!['.']
            + s.subrange(i2 + 1, i3) + seq!['.'] + s.subrange(i3 + 1, s.len() as int));
    }

    /// Reads a dotted-decimal address: four canonical numerals of at most 255
    /// with a dot between each two, and nothing else.
    ///
    /// Returns the address whose text `chars` is, or `None` when `chars` is the
    /// text of no address.
    pub fn parse(chars: &Vec<char>) -> (r: Option<Ipv4Addr>)
        ensures
            r is Some <==> exists|x: Ipv4Addr| chars@ == #[trigger] x.text(),
            r is Some ==> chars@ == r->0.text(),
    {
        proof {
            assert forall|x: Ipv4Addr| chars@ == #[trigger] x.text() implies {
                let i1 = decimal(x.a as nat).len() as int;
                let i2 = i1 + 1 + decimal(x.b as nat).len();
                let i3 = i2 + 1 + decimal(x.c as nat).len();
                &&& 0 < i1 && i1 + 1 < i2 && i2 + 1 < i3 && i3 + 1 < chars@.len()
                &&& chars@[i1] == '.' && chars@[i2] == '.' && chars@[i3] == '.'
            } by {
                x.lemma_text_layout();
            }
        }
        let n = chars.len();
        let i1 = match find_char(chars, 0, '.') {
            Some(i) => i,
            None => {
                return None;
            },
        };
        let i2 = match find_char(chars, i1 + 1, '.') {
            Some(i) => i,
            None => {
                return None;
            },
        };
        let i3 = match find_char(chars, i2 + 1, '.') {
            Some(i) => i,
            None => {
                return None;
            },
        };
        proof {
            assert forall|x: Ipv4Addr| chars@ == #[trigger] x.text() implies {
                &&& chars@.subrange(0, i1 as int) == decimal(x.a as nat)
                &&& chars@.subrange(i1 + 1, i2 as int) == decimal(x.b as nat)
                &&& chars@.subrange(i2 + 1, i3 as int) == decimal(x.c as nat)
                &&& chars@.subrange(i3 + 1, n as int) == decimal(x.d as nat)
            } by {
                x.lemma_dots(i1 as int, i2 as int, i3 as int);
            }
        }
        let a = match read_decimal(chars, 0, i1, 255) {
            Some(v) => v,
            None => {
                return None;
            },
        };
        let b = match read_decimal(chars, i1 + 1, i2, 255) {
            Some(v) => v,
            None => {
                return None;
            },
        };
        let c = match read_decimal(chars, i2 + 1, i3, 255) {
            Some(v) => v,
            None => {
                return None;
            },
        };
        let d = match read_decimal(chars, i3 + 1, n, 255) {
            Some(v) => v,
            None => {
                return None;
            },
        };
        let r = Ipv4Addr { a: a as u8, b: b as u8, c: c as u8, d: d as u8 };
        proof {
            r.lemma_joined(chars@, i1 as int, i2 as int, i3 as int);
        }
        Some(r)
    }
}

/// Whether the addresses of `s` stand in ascending order, none twice.
pub open spec fn ascending(s: Seq<Ipv4Addr>) -> bool {
    forall|i: int, j: int| 0 <= i < j < s.len() ==> (#[trigger] s[i]).bits() < (#[trigger] s[j]).bits()
}

/// Two addresses that are the same number have the same octets.
pub proof fn lemma_bits_injective(x: Ipv4Addr, y: Ipv4Addr)
    requires
        x.bits() == y.bits(),
    ensures
        x == y,
{
}

/// Puts `addr` at its place in the ascending list `v`, unless it is there.
pub(crate) fn insert_ascending(v: &mut Vec<Ipv4Addr>, addr: Ipv4Addr)
    requires
        ascending(old(v)@),
    ensures
        ascending(final(v)@),
        forall|x: Ipv4Addr| final(v)@.contains(x) <==> (old(v)@.contains(x) || x == addr),
{
    let ghost before = v@;
    let mut p: usize = 0;
    while p < v.len() && v[p].lt(&addr)
        invariant
            p <= v@.len(),
            v@ == before,
            forall|j: int| 0 <= j < p ==> (#[trigger] before[j]).bits() < addr.bits(),
        decreases v@.len() - p,
    {
        p += 1;
    }
    if p < v.len() && v[p] == addr {
        return ;
    }
    proof {
        if p < before.len() && before[p as int].bits() == addr.bits() {
            lemma_bits_injective(before[p as int], addr);
        }
    }
    v.insert(p, addr);
    proof {
        let after = v@;
        assert forall|i: int, j: int| 0 <= i < j < after.len() implies (#[trigger] after[i]).bits()
            < (#[trigger] after[j]).bits() by {
            let bi = if i < p { i } else { i - 1 };
            let bj = if j < p { j } else { j - 1 };
            if i != p {
                assert(after[i] == before[bi]);
            }
            if j != p {
                assert(after[j] == before[bj]);
            }
            if i != p && j != p {
                assert(before[bi].bits() < before[bj].bits());
            } else if i == p {
                assert(before[p as int].bits() <= before[bj].bits());
            }
        }
        assert forall|x: Ipv4Addr| after.contains(x) <==> (before.contains(x) || x == addr) by {
            if after.contains(x) {
                let i = choose|i: int| 0 <= i < after.len() && after[i] == x;
                if i < p {
                    assert(before[i] == x);
                } else if i > p {
                    assert(before[i - 1] == x);
                }
            }
            if before.contains(x) {
                let i = choose|i: int| 0 <= i < before.len() && before[i] == x;
                if i < p {
                    assert(after[i] == x);
                } else {
                    assert(after[i + 1] == x);
                }
            }
            assert(after[p as int] == addr);
        }
    }
}

/// The addresses of `addrs` in ascending order, each once.
pub fn sorted_addrs(addrs: &Vec<Ipv4Addr>) -> (r: Vec<Ipv4Addr>)
    ensures
        ascending(r@),
        forall|x: Ipv4Addr| r@.contains(x) <==> addrs@.contains(x),
{
    let mut r: Vec<Ipv4Addr> = Vec::new();
    let mut k: usize = 0;
    while k < addrs.len()
        invariant
            k <= addrs@.len(),
            ascending(r@),
            forall|x: Ipv4Addr| r@.contains(x) <==> addrs@.subrange(0, k as int).contains(x),
        decreases addrs@.len() - k,
    {
        let ghost head = addrs@.subrange(0, k as int);
        let ghost next = addrs@.subrange(0, k + 1);
        insert_ascending(&mut r, addrs[k]);
        proof {
            assert forall|x: Ipv4Addr| r@.contains(x) <==> next.contains(x) by {
                if next.contains(x) {
                    let i = choose|i: int| 0 <= i < next.len() && next[i] == x;
                    if i < k {
                        assert(head[i] == x);
                    }
                }
                if head.contains(x) {
                    let i = choose|i: int| 0 <= i < head.len() && head[i] == x;
                    assert(next[i] == x);
                }
                assert(next[k as int] == addrs@[k as int]);
            }
        }
        k += 1;
    }
    assert(addrs@.subrange(0, addrs@.len() as int) =~= addrs@);
    r
}

/// Two ascending lists that hold the same addresses are the same list.
pub proof fn lemma_ascending_unique(s: Seq<Ipv4Addr>, t: Seq<Ipv4Addr>)
    requires
        ascending(s),
        ascending(t),
        forall|x: Ipv4Addr| s.contains(x) <==> t.contains(x),
    ensures
        s == t,
    decreases s.len(),
{
    if s.len() == 0 {
        if t.len() > 0 {
            assert(t.contains(t[0]));
        }
        assert(s =~= t);
    } else {
        let m = s.last();
        assert(s.contains(m));
        assert(t.len() > 0) by {
            assert(t.contains(m));
        }
        let n = t.last();
        assert(t.contains(n));
        // The greatest address of either list is the last of both.
        let i = choose|i: int| 0 <= i < t.len() && t[i] == m;
        let j = choose|j: int| 0 <= j < s.len() && s[j] == n;
        assert(m.bits() <= n.bits()) by {
            if i < t.len() - 1 {
                assert(t[i].bits() < t[t.len() - 1].bits());
            }
        }
        assert(n.bits() <= m.bits()) by {
            if j < s.len() - 1 {
                assert(s[j].bits() < s[s.len() - 1].bits());
            }
        }
        lemma_bits_injective(m, n);
        let sp = s.drop_last();
        let tp = t.drop_last();
        assert(ascending(sp)) by {
            assert forall|a: int, b: int| 0 <= a < b < sp.len() implies (#[trigger] sp[a]).bits() < (
            #[trigger] sp[b]).bits() by {
                assert(sp[a] == s[a] && sp[b] == s[b]);
            }
        }
        assert(ascending(tp)) by {
            assert forall|a: int, b: int| 0 <= a < b < tp.len() implies (#[trigger] tp[a]).bits() < (
            #[trigger] tp[b]).bits() by {
                assert(tp[a] == t[a] && tp[b] == t[b]);
            }
        }
        assert forall|x: Ipv4Addr| sp.contains(x) <==> tp.contains(x) by {
            if sp.contains(x) {
                let a = choose|a: int| 0 <= a < sp.len() && sp[a] == x;
                assert(s[a] == x);
                assert(s[a].bits() < s[s.len() - 1].bits());
                assert(s.contains(x));
                let b = choose|b: int| 0 <= b < t.len() && t[b] == x;
                assert(b < t.len() - 1);
                assert(tp[b] == x);
            }
            if tp.contains(x) {
                let b = choose|b: int| 0 <= b < tp.len() && tp[b] == x;
                assert(t[b] == x);
                assert(t[b].bits() < t[t.len() - 1].bits());
                assert(t.contains(x));
                let a = choose|a: int| 0 <= a < s.len() && s[a] == x;
                assert(a < s.len() - 1);
                assert(sp[a] == x);
            }
        }
        lemma_ascending_unique(sp, tp);
        assert(s =~= sp.push(m));
        assert(t =~= tp.push(n));
    }
}

} // verus!
