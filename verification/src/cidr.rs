//! What an operator types: an address with its prefix length, and the place
//! of an address in a list.

use vstd::prelude::*;
use crate::addr::Ipv4Addr;
use crate::text::{
    all_digits, char_is_digit, chars_of, decimal, digits_value, find_char, is_digit,
    lemma_decimal_injective, read_decimal, slice_of,
};

verus! {

/// An address with its prefix length in text: the dotted-decimal address, a
/// slash and the decimal prefix length.
pub open spec fn cidr_text(addr: Ipv4Addr, prefix: u8) -> Seq<char> {
    addr.text() + seq!['/'] + decimal(prefix as nat)
}

/// Whether `s` is the text of an address with a prefix length of at most 32.
pub open spec fn is_cidr_text(s: Seq<char>) -> bool {
    exists|addr: Ipv4Addr, prefix: u8| prefix <= 32 && s == #[trigger] cidr_text(addr, prefix)
}

/// The text of an address has no slash.
proof fn lemma_addr_text_has_no_slash(addr: Ipv4Addr)
    ensures
        forall|j: int| 0 <= j < addr.text().len() ==> addr.text()[j] != '/',
{
    addr.lemma_text_layout();
    assert(!is_digit('/'));
}

/// In the text of an address with its prefix length, the first slash parts
/// the two.
proof fn lemma_cidr_parts(addr: Ipv4Addr, prefix: u8, slash: int)
    requires
        0 <= slash < cidr_text(addr, prefix).len(),
        cidr_text(addr, prefix)[slash] == '/',
        forall|j: int| 0 <= j < slash ==> cidr_text(addr, prefix)[j] != '/',
    ensures
        cidr_text(addr, prefix).subrange(0, slash) == addr.text(),
        cidr_text(addr, prefix).subrange(slash + 1, cidr_text(addr, prefix).len() as int)
            == decimal(prefix as nat),
{
    let t = cidr_text(addr, prefix);
    let n = addr.text().len() as int;
    lemma_addr_text_has_no_slash(addr);
    assert(t[n] == '/');
    assert(slash == n) by {
        if slash < n {
            assert(t[slash] == addr.text()[slash]);
        }
    }
    assert(t.subrange(0, slash) =~= addr.text());
    assert(t.subrange(slash + 1, t.len() as int) =~= decimal(prefix as nat));
}

/// Two addresses with prefix lengths that have the same text are the same
/// address with the same prefix length.
pub proof fn lemma_cidr_injective(a: Ipv4Addr, p: u8, b: Ipv4Addr, q: u8)
    requires
        cidr_text(a, p) == cidr_text(b, q),
    ensures
        a == b,
        p == q,
{
    let t = cidr_text(a, p);
    let n = a.text().len() as int;
    lemma_addr_text_has_no_slash(a);
    assert(t[n] == '/');
    assert forall|j: int| 0 <= j < n implies t[j] != '/' by {
        assert(t[j] == a.text()[j]);
    }
    lemma_cidr_parts(a, p, n);
    lemma_cidr_parts(b, q, n);
    a.lemma_text_injective(b);
    lemma_decimal_injective(p as nat, q as nat);
}

/// Reads an address with its prefix length, written as `A.B.C.D/P`: four
/// canonical numerals of at most 255, and one of at most 32.
///
/// Returns `None` for any other text; nothing of it is then taken.
pub fn parse_cidr(s: &str) -> (r: Option<(Ipv4Addr, u8)>)
    ensures
        r is Some <==> is_cidr_text(s@),
        r matches Some((addr, prefix)) ==> prefix <= 32 && s@ == cidr_text(addr, prefix),
{
    let chars = chars_of(s);
    let n = chars.len();
    let slash = match find_char(&chars, 0, '/') {
        Some(i) => i,
        None => {
            proof {
                assert forall|addr: Ipv4Addr, prefix: u8| s@ != #[trigger] cidr_text(
                    addr,
                    prefix,
                ) by {
                    let t = cidr_text(addr, prefix);
                    assert(t[addr.text().len() as int] == '/');
                }
            }
            return None;
        },
    };
    proof {
        assert forall|addr: Ipv4Addr, prefix: u8| s@ == #[trigger] cidr_text(addr, prefix) implies {
            &&& chars@.subrange(0, slash as int) == addr.text()
            &&& chars@.subrange(slash + 1, n as int) == decimal(prefix as nat)
        } by {
            lemma_cidr_parts(addr, prefix, slash as int);
        }
    }
    let head = slice_of(&chars, 0, slash);
    let addr = match Ipv4Addr::parse(&head) {
        Some(a) => a,
        None => {
            return None;
        },
    };
    let prefix = match read_decimal(&chars, slash + 1, n, 32) {
        Some(p) => p,
        None => {
            return None;
        },
    };
    proof {
        assert(s@ =~= chars@.subrange(0, slash as int) + seq!['/'] + chars@.subrange(
            slash + 1,
            n as int,
        ));
        assert(s@ == cidr_text(addr, prefix as u8));
    }
    Some((addr, prefix as u8))
}

/// The digits of a place in text: the text without the plus sign that may
/// stand before it.
pub open spec fn index_digits(s: Seq<char>) -> Seq<char> {
    if s.len() > 0 && s[0] == '+' {
        s.subrange(1, s.len() as int)
    } else {
        s
    }
}

/// The place that `s` spells: a number written with at least one digit,
/// before which a plus sign may stand. Leading zeros count for nothing, and
/// the number may be as large as its digits say.
pub open spec fn index_of_text(s: Seq<char>) -> Option<nat> {
    let digits = index_digits(s);
    if digits.len() >= 1 && all_digits(digits) {
        Some(digits_value(digits))
    } else {
        None
    }
}

/// A place in a list as a machine holds it.
#[derive(Clone, Copy, Debug, PartialEq, Eq, Structural)]
pub enum Place {
    /// This place.
    At(usize),
    /// A place beyond the end of every list that a machine can hold.
    Beyond,
}

/// The place `n` as a machine holds it.
pub open spec fn place_of(n: nat) -> Place {
    if n <= usize::MAX {
        Place::At(n as usize)
    } else {
        Place::Beyond
    }
}

/// Reads a place in a list.
///
/// Returns `None` when the text spells no number. A number of any size is
/// read: one that no machine number holds is a place beyond every list.
pub fn parse_index(s: &str) -> (r: Option<Place>)
    ensures
        r == (match index_of_text(s@) {
            Some(n) => Some(place_of(n)),
            None => None,
        }),
{
    let chars = chars_of(s);
    let n = chars.len();
    let from: usize = if n > 0 && chars[0] == '+' {
        1
    } else {
        0
    };
    if from == n {
        return None;
    }
    let ghost digits = chars@.subrange(from as int, n as int);
    assert(digits =~= index_digits(s@));
    let mut value: usize = 0;
    let mut beyond = false;
    let mut i: usize = from;
    assert(chars@.subrange(from as int, from as int) =~= Seq::<char>::empty());
    while i < n
        invariant
            from <= i <= n == chars.len(),
            digits == chars@.subrange(from as int, n as int),
            digits == index_digits(s@),
            all_digits(chars@.subrange(from as int, i as int)),
            !beyond ==> value == digits_value(chars@.subrange(from as int, i as int)),
            beyond ==> digits_value(chars@.subrange(from as int, i as int)) > usize::MAX,
        decreases n - i,
    {
        let c = chars[i];
        let ghost head = chars@.subrange(from as int, i as int);
        let ghost next = chars@.subrange(from as int, i + 1);
        proof {
            assert(next.drop_last() =~= head);
            assert(next.last() == c);
            assert(digits[i - from] == c);
        }
        if !char_is_digit(c) {
            assert(!is_digit(digits[i - from]));
            return None;
        }
        let d: usize = (c as u32 - '0' as u32) as usize;
        if !beyond {
            if value > (usize::MAX - d) / 10 {
                beyond = true;
            } else {
                value = value * 10 + d;
            }
        }
        proof {
            assert forall|k: int| 0 <= k < next.len() implies is_digit(#[trigger] next[k]) by {
                if k < next.len() - 1 {
                    assert(next[k] == head[k]);
                }
            }
        }
        i += 1;
    }
    if beyond {
        Some(Place::Beyond)
    } else {
        Some(Place::At(value))
    }
}

} // verus!
