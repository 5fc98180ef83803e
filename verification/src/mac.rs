//! Hardware addresses: six bytes, written as twelve hexadecimal digits.

use vstd::prelude::*;
use crate::text::{chars_of, string_of};

verus! {

/// Whether `c` is a hexadecimal digit, in either case.
pub open spec fn is_hex(c: char) -> bool {
    ('0' <= c && c <= '9') || ('a' <= c && c <= 'f') || ('A' <= c && c <= 'F')
}

/// The value of the hexadecimal digit `c`.
pub open spec fn hex_value(c: char) -> nat
    recommends
        is_hex(c),
{
    if '0' <= c && c <= '9' {
        (c as u32 - '0' as u32) as nat
    } else if 'a' <= c && c <= 'f' {
        (c as u32 - 'a' as u32 + 10) as nat
    } else {
        (c as u32 - 'A' as u32 + 10) as nat
    }
}

/// The lower-case hexadecimal digit that stands for `v`.
pub open spec fn hex_char(v: nat) -> char
    recommends
        v < 16,
{
    if v < 10 {
        (('0' as u32 + v) as u32) as char
    } else {
        (('a' as u32 + v - 10) as u32) as char
    }
}

/// Whether `s` is a hardware address in text: exactly twelve hexadecimal
/// digits and no separators.
pub open spec fn is_mac_text(s: Seq<char>) -> bool {
    &&& s.len() == 12
    &&& forall|i: int| 0 <= i < 12 ==> is_hex(#[trigger] s[i])
}

/// The byte that the `i`-th pair of digits of `s` spells.
pub open spec fn pair_value(s: Seq<char>, i: int) -> nat
    recommends
        0 <= i && 2 * i + 1 < s.len(),
{
    hex_value(s[2 * i]) * 16 + hex_value(s[2 * i + 1])
}

/// The six bytes that the twelve digits of `s` spell, pair by pair.
pub open spec fn mac_bytes(s: Seq<char>) -> Seq<u8>
    recommends
        is_mac_text(s),
{
    Seq::new(6, |i: int| pair_value(s, i) as u8)
}

/// The twelve lower-case hexadecimal digits of six bytes.
pub open spec fn mac_text(bytes: Seq<u8>) -> Seq<char>
    recommends
        bytes.len() == 6,
{
    Seq::new(
        12,
        |i: int|
            if i % 2 == 0 {
                hex_char((bytes[i / 2] / 16) as nat)
            } else {
                hex_char((bytes[i / 2] % 16) as nat)
            },
    )
}

/// `s` without its colons.
pub open spec fn without_colons(s: Seq<char>) -> Seq<char> {
    s.filter(|c: char| c != ':')
}

/// The text of six bytes is a hardware address in text, and spells those
/// bytes again.
pub proof fn lemma_mac_round_trip(bytes: Seq<u8>)
    requires
        bytes.len() == 6,
    ensures
        is_mac_text(mac_text(bytes)),
        mac_bytes(mac_text(bytes)) == bytes,
{
    let t = mac_text(bytes);
    assert forall|i: int| 0 <= i < 12 implies is_hex(#[trigger] t[i]) by {
        lemma_hex_char(((bytes[i / 2] / 16) as nat));
        lemma_hex_char(((bytes[i / 2] % 16) as nat));
    }
    assert forall|k: int| 0 <= k < 6 implies #[trigger] mac_bytes(t)[k] == bytes[k] by {
        let b = bytes[k];
        lemma_hex_char((b / 16) as nat);
        lemma_hex_char((b % 16) as nat);
        assert(t[2 * k] == hex_char((bytes[(2 * k) / 2] / 16) as nat));
        assert(t[2 * k + 1] == hex_char((bytes[(2 * k + 1) / 2] % 16) as nat));
    }
    assert(mac_bytes(t) =~= bytes);
}

/// A written hexadecimal digit is one, and has the value it was written for.
proof fn lemma_hex_char(v: nat)
    requires
        v < 16,
    ensures
        is_hex(hex_char(v)),
        hex_value(hex_char(v)) == v,
{
}

/// The value of the hexadecimal digit `c`, or `None` when `c` is none.
pub fn hex_digit(c: char) -> (r: Option<u8>)
    ensures
        r is Some <==> is_hex(c),
        r is Some ==> r->0 == hex_value(c) && r->0 < 16,
{
    if c >= '0' && c <= '9' {
        Some((c as u32 - '0' as u32) as u8)
    } else if c >= 'a' && c <= 'f' {
        Some((c as u32 - 'a' as u32 + 10) as u8)
    } else if c >= 'A' && c <= 'F' {
        Some((c as u32 - 'A' as u32 + 10) as u8)
    } else {
        None
    }
}

/// The lower-case hexadecimal digit of `v`.
pub(crate) fn hex_digit_char(v: u8) -> (c: char)
    requires
        v < 16,
    ensures
        c == hex_char(v as nat),
{
    if v < 10 {
        (48u8 + v) as char
    } else {
        (87u8 + v) as char
    }
}

/// Reads twelve hexadecimal digits as six bytes.
///
/// Returns `None` when `s` does not hold exactly twelve characters or one of
/// them is no hexadecimal digit.
pub fn read_mac(s: &str) -> (r: Option<[u8; 6]>)
    ensures
        r is Some <==> is_mac_text(s@),
        r is Some ==> r->0@ == mac_bytes(s@),
{
    let chars = chars_of(s);
    if chars.len() != 12 {
        return None;
    }
    let mut bytes: [u8; 6] = [0u8; 6];
    let mut i: usize = 0;
    while i < 6
        invariant
            i <= 6,
            chars@ == s@,
            chars.len() == 12,
            forall|j: int| 0 <= j < 2 * i ==> is_hex(#[trigger] chars@[j]),
            forall|k: int| 0 <= k < i ==> #[trigger] bytes@[k] == pair_value(chars@, k) as u8,
        decreases 6 - i,
    {
        let hi = match hex_digit(chars[2 * i]) {
            Some(v) => v,
            None => {
                return None;
            },
        };
        let lo = match hex_digit(chars[2 * i + 1]) {
            Some(v) => v,
            None => {
                return None;
            },
        };
        bytes[i] = hi * 16 + lo;
        i += 1;
    }
    Some(bytes)
}

/// Writes six bytes as twelve lower-case hexadecimal digits.
pub fn format_mac(bytes: &[u8; 6]) -> (r: String)
    ensures
        r@ == mac_text(bytes@),
{
    let mut v: Vec<char> = Vec::new();
    let mut i: usize = 0;
    while i < 6
        invariant
            i <= 6,
            v@.len() == 2 * i,
            forall|j: int| 0 <= j < 2 * i ==> #[trigger] v@[j] == mac_text(bytes@)[j],
        decreases 6 - i,
    {
        let b = bytes[i];
        v.push(hex_digit_char(b / 16));
        v.push(hex_digit_char(b % 16));
        i += 1;
    }
    string_of(&v)
}

/// Whether two hardware addresses are the same six bytes.
pub fn mac_eq(x: &[u8; 6], y: &[u8; 6]) -> (r: bool)
    ensures
        r == (x@ == y@),
{
    let mut i: usize = 0;
    while i < 6
        invariant
            i <= 6,
            forall|j: int| 0 <= j < i ==> x@[j] == y@[j],
        decreases 6 - i,
    {
        if x[i] != y[i] {
            return false;
        }
        i += 1;
    }
    assert(x@ =~= y@);
    true
}

/// Copies `s` without its colons.
pub fn strip_colons(s: &str) -> (r: String)
    ensures
        r@ == without_colons(s@),
{
    let chars = chars_of(s);
    let ghost keep = |c: char| c != ':';
    let mut v: Vec<char> = Vec::new();
    let mut i: usize = 0;
    while i < chars.len()
        invariant
            i <= chars.len(),
            chars@ == s@,
            keep == (|c: char| c != ':'),
            v@ == chars@.subrange(0, i as int).filter(keep),
        decreases chars.len() - i,
    {
        let c = chars[i];
        proof {
            let next = chars@.subrange(0, i + 1);
            assert(next.drop_last() =~= chars@.subrange(0, i as int));
            assert(next.last() == c);
            reveal_with_fuel(Seq::filter, 2);
        }
        if c != ':' {
            v.push(c);
        }
        i += 1;
    }
    assert(chars@.subrange(0, chars.len() as int) =~= chars@);
    string_of(&v)
}

} // verus!
