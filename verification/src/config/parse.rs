//! Parsers for the values of settings: numbers, booleans and addresses.
//!
//! Each parser is a function on the bytes of the text, with a contract that
//! says exactly which texts it takes and what it makes of them.

use vstd::prelude::*;

verus! {

/// Is the byte a decimal digit?
pub open spec fn is_digit(b: u8) -> bool {
    0x30 <= b <= 0x39
}

/// Are all bytes decimal digits?
pub open spec fn all_digits(s: Seq<u8>) -> bool {
    forall|i: int| 0 <= i < s.len() ==> is_digit(#[trigger] s[i])
}

/// The number that a string of digits stands for.
pub open spec fn digits_value(s: Seq<u8>) -> nat
    decreases s.len(),
{
    if s.len() == 0 {
        0
    } else {
        digits_value(s.drop_last()) * 10 + (s.last() - 0x30) as nat
    }
}

/// The digits of a number, without the sign that may stand before them.
pub open spec fn unsigned_body(s: Seq<u8>) -> Seq<u8> {
    if s.len() > 0 && s[0] == 0x2b {
        s.skip(1)
    } else {
        s
    }
}

/// The number that `s` stands for, if it is one of at most `max`: one or more
/// decimal digits, with or without a `+` before them.
pub open spec fn spec_decimal(s: Seq<u8>, max: nat) -> Option<nat> {
    let body = unsigned_body(s);
    if body.len() > 0 && all_digits(body) && digits_value(body) <= max {
        Some(digits_value(body))
    } else {
        None
    }
}

/// A string of digits stands for at least as much as each of its beginnings.
pub proof fn lemma_digits_grow(s: Seq<u8>, n: int)
    requires
        0 <= n <= s.len(),
    ensures
        digits_value(s.subrange(0, n)) <= digits_value(s),
    decreases s.len() - n,
{
    if n < s.len() {
        lemma_digits_grow(s, n + 1);
        assert(s.subrange(0, n + 1).drop_last() == s.subrange(0, n));
    } else {
        assert(s.subrange(0, n) == s);
    }
}

/// Parses the digits `s[from..]` as a number of at most `max`.
pub fn parse_digits(s: &[u8], from: usize, max: u64) -> (r: Option<u64>)
    requires
        from <= s@.len(),
    ensures
        r == (if from < s@.len() && all_digits(s@.skip(from as int)) && digits_value(
            s@.skip(from as int),
        ) <= max {
            Some(digits_value(s@.skip(from as int)) as u64)
        } else {
            None
        }),
{
    if from >= s.len() {
        return None;
    }
    let ghost body = s@.skip(from as int);
    let mut acc: u64 = 0;
    let mut i: usize = from;
    while i < s.len()
        invariant
            from <= i <= s@.len(),
            body == s@.skip(from as int),
            all_digits(body.subrange(0, i - from)),
            acc == digits_value(body.subrange(0, i - from)),
            acc <= max,
        decreases s@.len() - i,
    {
        let b = s[i];
        proof {
            assert(body[i - from] == b);
            assert(body.subrange(0, i - from + 1).drop_last() == body.subrange(0, i - from));
            lemma_digits_grow(body, i - from + 1);
        }
        if b < 0x30 || b > 0x39 {
            return None;
        }
        let d = (b - 0x30) as u64;
        if d > max || acc > (max - d) / 10 {
            return None;
        }
        acc = acc * 10 + d;
        i = i + 1;
        proof {
            assert forall|j: int| 0 <= j < i - from implies is_digit(
                #[trigger] body.subrange(0, i - from)[j],
            ) by {
                if j < i - from - 1 {
                    assert(body.subrange(0, i - from - 1)[j] == body[j]);
                }
            }
        }
    }
    proof {
        assert(body.subrange(0, i - from) == body);
    }
    Some(acc)
}

/// Parses `s` as a number of at most `max`.
pub fn parse_decimal(s: &[u8], max: u64) -> (r: Option<u64>)
    ensures
        r == (match spec_decimal(s@, max as nat) {
            Some(n) => Some(n as u64),
            None => None,
        }),
{
    if s.len() > 0 && s[0] == 0x2b {
        parse_digits(s, 1, max)
    } else {
        proof {
            assert(s@.skip(0) == s@);
        }
        parse_digits(s, 0, max)
    }
}

/// The text `true`.
pub open spec fn true_text() -> Seq<u8> {
    seq![0x74u8, 0x72u8, 0x75u8, 0x65u8]
}

/// The text `false`.
pub open spec fn false_text() -> Seq<u8> {
    seq![0x66u8, 0x61u8, 0x6cu8, 0x73u8, 0x65u8]
}

/// The truth value that `s` stands for: `true` or `false`, written so.
pub open spec fn spec_bool(s: Seq<u8>) -> Option<bool> {
    if s == true_text() {
        Some(true)
    } else if s == false_text() {
        Some(false)
    } else {
        None
    }
}

/// Parses `s` as a truth value.
pub fn parse_bool(s: &[u8]) -> (r: Option<bool>)
    ensures
        r == spec_bool(s@),
{
    if s.len() == 4 && s[0] == 0x74 && s[1] == 0x72 && s[2] == 0x75 && s[3] == 0x65 {
        assert(s@ =~= true_text());
        Some(true)
    } else if s.len() == 5 && s[0] == 0x66 && s[1] == 0x61 && s[2] == 0x6c && s[3] == 0x73 && s[4]
        == 0x65 {
        assert(s@ =~= false_text());
        Some(false)
    } else {
        proof {
            if s@ == true_text() {
                assert(s@.len() == 4 && s@[0] == 0x74 && s@[1] == 0x72 && s@[2] == 0x75 && s@[3]
                    == 0x65);
            }
            if s@ == false_text() {
                assert(s@.len() == 5 && s@[0] == 0x66 && s@[1] == 0x61 && s@[2] == 0x6c && s@[3]
                    == 0x73 && s@[4] == 0x65);
            }
        }
        None
    }
}

/// The end of the field that starts at `from`: the place of the next dot, or
/// the end of the text.
pub open spec fn field_end(s: Seq<u8>, from: int) -> int
    decreases s.len() - from,
{
    if from >= s.len() || s[from] == 0x2e {
        if from >= s.len() {
            s.len() as int
        } else {
            from
        }
    } else {
        field_end(s, from + 1)
    }
}

/// The octet that `s` stands for: one to three digits that make a number of
/// at most 255, without a zero before other digits.
pub open spec fn spec_octet(s: Seq<u8>) -> Option<u8> {
    if 1 <= s.len() <= 3 && all_digits(s) && (s.len() == 1 || s[0] != 0x30) && digits_value(s)
        <= 255 {
        Some(digits_value(s) as u8)
    } else {
        None
    }
}

/// The octet in the field of `s` that starts at `from`.
pub open spec fn octet_at(s: Seq<u8>, from: int) -> Option<u8> {
    spec_octet(s.subrange(from, field_end(s, from)))
}

/// The address that `s` stands for: four octets with dots between them.
pub open spec fn spec_ipv4(s: Seq<u8>) -> Option<[u8; 4]> {
    let e0 = field_end(s, 0);
    let e1 = field_end(s, e0 + 1);
    let e2 = field_end(s, e1 + 1);
    let e3 = field_end(s, e2 + 1);
    if e0 < s.len() && e1 < s.len() && e2 < s.len() && e3 == s.len() && octet_at(s, 0) is Some
        && octet_at(s, e0 + 1) is Some && octet_at(s, e1 + 1) is Some && octet_at(s, e2 + 1)
        is Some {
        Some(
            [
                octet_at(s, 0).unwrap(),
                octet_at(s, e0 + 1).unwrap(),
                octet_at(s, e1 + 1).unwrap(),
                octet_at(s, e2 + 1).unwrap(),
            ],
        )
    } else {
        None
    }
}

/// A field ends between its start and the end of the text.
pub proof fn lemma_field_end(s: Seq<u8>, from: int)
    requires
        0 <= from <= s.len(),
    ensures
        from <= field_end(s, from) <= s.len(),
        forall|i: int| from <= i < field_end(s, from) ==> s[i] != 0x2e,
        field_end(s, from) < s.len() ==> s[field_end(s, from)] == 0x2e,
    decreases s.len() - from,
{
    if from < s.len() && s[from] != 0x2e {
        lemma_field_end(s, from + 1);
    }
}

/// Parses the field of `s` that starts at `from` as an octet, and returns
/// it with the end of the field.
fn parse_octet(s: &[u8], from: usize) -> (r: (Option<u8>, usize))
    requires
        from <= s@.len(),
    ensures
        r.1 == field_end(s@, from as int),
        from <= r.1 <= s@.len(),
        r.0 == octet_at(s@, from as int),
{
    proof {
        lemma_field_end(s@, from as int);
    }
    let mut end: usize = from;
    while end < s.len() && s[end] != 0x2e
        invariant
            from <= end <= s@.len(),
            field_end(s@, end as int) == field_end(s@, from as int),
        decreases s@.len() - end,
    {
        end = end + 1;
    }
    let ghost field = s@.subrange(from as int, end as int);
    assert(end == field_end(s@, from as int));
    let len = end - from;
    if len < 1 || len > 3 {
        return (None, end);
    }
    if len > 1 && s[from] == 0x30 {
        proof {
            assert(field[0] == s@[from as int]);
        }
        return (None, end);
    }
    let mut acc: u64 = 0;
    let mut i: usize = from;
    while i < end
        invariant
            from <= i <= end <= s@.len(),
            end - from <= 3,
            end == field_end(s@, from as int),
            end - from == 1 || s@[from as int] != 0x30,
            field == s@.subrange(from as int, end as int),
            all_digits(field.subrange(0, i - from)),
            acc == digits_value(field.subrange(0, i - from)),
            acc <= 999,
            i - from == 0 ==> acc == 0,
            i - from == 1 ==> acc <= 9,
            i - from == 2 ==> acc <= 99,
        decreases end - i,
    {
        let b = s[i];
        proof {
            assert(field[i - from] == b);
            assert(field.subrange(0, i - from + 1).drop_last() == field.subrange(0, i - from));
        }
        if b < 0x30 || b > 0x39 {
            return (None, end);
        }
        acc = acc * 10 + (b - 0x30) as u64;
        i = i + 1;
        proof {
            assert forall|j: int| 0 <= j < i - from implies is_digit(
                #[trigger] field.subrange(0, i - from)[j],
            ) by {
                if j < i - from - 1 {
                    assert(field.subrange(0, i - from - 1)[j] == field[j]);
                }
            }
        }
    }
    proof {
        assert(field.subrange(0, i - from) == field);
        assert(field[0] == s@[from as int]);
    }
    if acc > 255 {
        (None, end)
    } else {
        (Some(acc as u8), end)
    }
}

/// Parses `s` as an address.
pub fn parse_ipv4(s: &[u8]) -> (r: Option<[u8; 4]>)
    ensures
        r == spec_ipv4(s@),
{
    let (a, e0) = parse_octet(s, 0);
    if e0 >= s.len() {
        return None;
    }
    let (b, e1) = parse_octet(s, e0 + 1);
    if e1 >= s.len() {
        return None;
    }
    let (c, e2) = parse_octet(s, e1 + 1);
    if e2 >= s.len() {
        return None;
    }
    let (d, e3) = parse_octet(s, e2 + 1);
    if e3 != s.len() {
        return None;
    }
    match (a, b, c, d) {
        (Some(a), Some(b), Some(c), Some(d)) => Some([a, b, c, d]),
        _ => None,
    }
}

} // verus!
