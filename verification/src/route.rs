//! The route table as the operating system prints it: lines of fields that
//! blanks part. The line of the default route starts with the destination
//! `0.0.0.0` and the mask `0.0.0.0`; its third field is the gateway.

use vstd::prelude::*;
use crate::text::{chars_of, slice_of, string_of};

verus! {

/// Whether `c` parts fields: a space, a tab, a line feed, a vertical tab, a
/// form feed or a carriage return.
pub open spec fn is_blank(c: char) -> bool {
    c == ' ' || c == '\t' || c == '\n' || c == '\u{b}' || c == '\u{c}' || c == '\r'
}

/// How many blanks stand in `s[from..to]` from `from` on without a break.
pub open spec fn blank_len(s: Seq<char>, from: int, to: int) -> nat
    decreases to - from,
{
    if 0 <= from < to <= s.len() && is_blank(s[from]) {
        1 + blank_len(s, from + 1, to)
    } else {
        0
    }
}

/// How many characters that are no blanks stand in `s[from..to]` from `from`
/// on without a break.
pub open spec fn word_len(s: Seq<char>, from: int, to: int) -> nat
    decreases to - from,
{
    if 0 <= from < to <= s.len() && !is_blank(s[from]) {
        1 + word_len(s, from + 1, to)
    } else {
        0
    }
}

/// How many characters stand in `s` from `from` on before the line ends: at
/// a line feed or at the end of `s`.
pub open spec fn line_len(s: Seq<char>, from: int) -> nat
    decreases s.len() - from,
{
    if 0 <= from < s.len() && s[from] != '\n' {
        1 + line_len(s, from + 1)
    } else {
        0
    }
}

/// Where field `k` of `s[from..to]` starts and ends, counted from zero, if
/// there are that many fields. A field is a longest run of characters that
/// are no blanks.
pub open spec fn field(s: Seq<char>, from: int, to: int, k: nat) -> Option<(int, int)>
    decreases k,
{
    let start = from + blank_len(s, from, to);
    let end = start + word_len(s, start, to);
    if start == end {
        None
    } else if k == 0 {
        Some((start, end))
    } else {
        field(s, end, to, (k - 1) as nat)
    }
}

/// The text of field `k` of `s[from..to]`.
pub open spec fn field_text(s: Seq<char>, from: int, to: int, k: nat) -> Option<Seq<char>> {
    match field(s, from, to, k) {
        Some((start, end)) => Some(s.subrange(start, end)),
        None => None,
    }
}

/// The gateway that the line `s[from..to]` names for the default route: its
/// third field, where its first two are `0.0.0.0` each.
pub open spec fn gateway_in_line(s: Seq<char>, from: int, to: int) -> Option<Seq<char>> {
    if field_text(s, from, to, 0) == Some("0.0.0.0"@) && field_text(s, from, to, 1) == Some(
        "0.0.0.0"@,
    ) {
        field_text(s, from, to, 2)
    } else {
        None
    }
}

/// The gateway of the first line of `s`, from `from` on, that names one for
/// the default route.
pub open spec fn gateway_from(s: Seq<char>, from: int) -> Option<Seq<char>>
    decreases s.len() - from,
{
    if 0 <= from < s.len() {
        let end = from + line_len(s, from);
        match gateway_in_line(s, from, end) {
            Some(gateway) => Some(gateway),
            None => if end < s.len() {
                gateway_from(s, end + 1)
            } else {
                None
            },
        }
    } else {
        None
    }
}

/// Tells whether `c` parts fields.
fn char_is_blank(c: char) -> (r: bool)
    ensures
        r == is_blank(c),
{
    c == ' ' || c == '\t' || c == '\n' || c == '\u{b}' || c == '\u{c}' || c == '\r'
}

/// Where the blanks that start at `from` end.
fn skip_blanks(chars: &Vec<char>, from: usize, to: usize) -> (r: usize)
    requires
        from <= to <= chars.len(),
    ensures
        r == from + blank_len(chars@, from as int, to as int),
        from <= r <= to,
{
    let mut i: usize = from;
    while i < to && char_is_blank(chars[i])
        invariant
            from <= i <= to <= chars.len(),
            from + blank_len(chars@, from as int, to as int) == i + blank_len(
                chars@,
                i as int,
                to as int,
            ),
        decreases to - i,
    {
        i += 1;
    }
    i
}

/// Where the field that starts at `from` ends.
fn skip_word(chars: &Vec<char>, from: usize, to: usize) -> (r: usize)
    requires
        from <= to <= chars.len(),
    ensures
        r == from + word_len(chars@, from as int, to as int),
        from <= r <= to,
{
    let mut i: usize = from;
    while i < to && !char_is_blank(chars[i])
        invariant
            from <= i <= to <= chars.len(),
            from + word_len(chars@, from as int, to as int) == i + word_len(
                chars@,
                i as int,
                to as int,
            ),
        decreases to - i,
    {
        i += 1;
    }
    i
}

/// Where the line that starts at `from` ends.
fn skip_line(chars: &Vec<char>, from: usize) -> (r: usize)
    requires
        from <= chars.len(),
    ensures
        r == from + line_len(chars@, from as int),
        from <= r <= chars.len(),
{
    let mut i: usize = from;
    while i < chars.len() && chars[i] != '\n'
        invariant
            from <= i <= chars.len(),
            from + line_len(chars@, from as int) == i + line_len(chars@, i as int),
        decreases chars.len() - i,
    {
        i += 1;
    }
    i
}

/// Where field `k` of `chars[from..to]` starts and ends.
fn find_field(chars: &Vec<char>, from: usize, to: usize, k: usize) -> (r: Option<(usize, usize)>)
    requires
        from <= to <= chars.len(),
    ensures
        match r {
            Some((start, end)) => from <= start < end <= to && field(
                chars@,
                from as int,
                to as int,
                k as nat,
            ) == Some((start as int, end as int)),
            None => field(chars@, from as int, to as int, k as nat) is None,
        },
{
    let mut at: usize = from;
    let mut left: usize = k;
    loop
        invariant
            from <= at <= to <= chars.len(),
            left <= k,
            field(chars@, from as int, to as int, k as nat) == field(
                chars@,
                at as int,
                to as int,
                left as nat,
            ),
        decreases left,
    {
        let start = skip_blanks(chars, at, to);
        let end = skip_word(chars, start, to);
        if start == end {
            return None;
        }
        if left == 0 {
            return Some((start, end));
        }
        at = end;
        left -= 1;
    }
}

/// Whether `chars[from..to]` is the text `word`.
fn range_is(chars: &Vec<char>, from: usize, to: usize, word: &str) -> (r: bool)
    requires
        from <= to <= chars.len(),
    ensures
        r == (chars@.subrange(from as int, to as int) == word@),
{
    let want = chars_of(word);
    if want.len() != to - from {
        return false;
    }
    let mut i: usize = 0;
    while i < want.len()
        invariant
            i <= want@.len(),
            want@ == word@,
            from <= to <= chars.len(),
            want@.len() == to - from,
            forall|j: int| 0 <= j < i ==> chars@[from + j] == want@[j],
        decreases want@.len() - i,
    {
        if chars[from + i] != want[i] {
            assert(chars@.subrange(from as int, to as int)[i as int] != word@[i as int]);
            return false;
        }
        i += 1;
    }
    assert(chars@.subrange(from as int, to as int) =~= word@);
    true
}

/// The gateway that the line `chars[from..to]` names for the default route.
fn line_gateway(chars: &Vec<char>, from: usize, to: usize) -> (r: Option<String>)
    requires
        from <= to <= chars.len(),
    ensures
        match r {
            Some(gateway) => gateway_in_line(chars@, from as int, to as int) == Some(gateway@),
            None => gateway_in_line(chars@, from as int, to as int) is None,
        },
{
    let (a0, b0) = match find_field(chars, from, to, 0) {
        Some(bounds) => bounds,
        None => {
            return None;
        },
    };
    if !range_is(chars, a0, b0, "0.0.0.0") {
        return None;
    }
    let (a1, b1) = match find_field(chars, from, to, 1) {
        Some(bounds) => bounds,
        None => {
            return None;
        },
    };
    if !range_is(chars, a1, b1, "0.0.0.0") {
        return None;
    }
    match find_field(chars, from, to, 2) {
        Some((a2, b2)) => {
            let gateway = slice_of(chars, a2, b2);
            Some(string_of(&gateway))
        },
        None => None,
    }
}

/// Finds the gateway of the default route in the route table `table`: the
/// third field of the first line whose first two fields are `0.0.0.0` each
/// and that has a third. Returns `None` when no line is such a line.
pub fn gateway_column(table: &str) -> (r: Option<String>)
    ensures
        match r {
            Some(gateway) => gateway_from(table@, 0) == Some(gateway@),
            None => gateway_from(table@, 0) is None,
        },
{
    let chars = chars_of(table);
    let mut from: usize = 0;
    while from < chars.len()
        invariant
            chars@ == table@,
            from <= chars.len(),
            gateway_from(table@, 0) == gateway_from(table@, from as int),
        decreases chars.len() - from,
    {
        let end = skip_line(&chars, from);
        match line_gateway(&chars, from, end) {
            Some(gateway) => {
                return Some(gateway);
            },
            None => {},
        }
        if end == chars.len() {
            return None;
        }
        from = end + 1;
    }
    None
}

} // verus!
