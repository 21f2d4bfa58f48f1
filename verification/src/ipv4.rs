//! IPv4 addresses in dotted form.

use crate::text::{
    chars_of, decimal_is_read_back, decimal_text, digit_value, digits_value, is_space,
    join_then_split, joined, lemma_decimal_digits, lemma_digits_monotone, parse_number,
    parsed_number, split, split_parts, split_then_join, trimmed, views,
};
use vstd::prelude::*;

verus! {

/// Whether a text is a decimal octet: one to three digits without a leading zero, at most 255.
pub open spec fn is_octet(t: Seq<char>) -> bool {
    &&& 1 <= t.len() <= 3
    &&& t[0] != '+'
    &&& (t.len() > 1 ==> t[0] != '0')
    &&& parsed_number(t, 10, 255) is Some
}

/// The four octets of an address.
pub open spec fn ipv4_of(t: Seq<char>) -> Option<(u8, u8, u8, u8)> {
    let parts = split_parts(t, '.');
    if parts.len() == 4 && is_octet(parts[0]) && is_octet(parts[1]) && is_octet(parts[2])
        && is_octet(parts[3]) {
        Some(
            (
                parsed_number(parts[0], 10, 255)->0 as u8,
                parsed_number(parts[1], 10, 255)->0 as u8,
                parsed_number(parts[2], 10, 255)->0 as u8,
                parsed_number(parts[3], 10, 255)->0 as u8,
            ),
        )
    } else {
        None
    }
}

/// Reads a decimal octet.
fn parse_octet(t: &str) -> (r: Option<u8>)
    ensures
        r is Some == is_octet(t@),
        r is Some ==> r->0 == parsed_number(t@, 10, 255)->0 as u8,
{
    let chars = chars_of(t);
    let n: usize = chars.len();
    if n < 1 || n > 3 || chars[0] == '+' || (n > 1 && chars[0] == '0') {
        return None;
    }
    match parse_number(t, 10, 255) {
        Some(v) => Some(v as u8),
        None => None,
    }
}

/// Reads an address in dotted form.
pub fn parse_ipv4(t: &str) -> (r: Option<(u8, u8, u8, u8)>)
    ensures
        r == ipv4_of(t@),
{
    let parts = split(t, '.');
    let ghost ps = views(parts@);
    if parts.len() != 4 {
        return None;
    }
    proof {
        assert(ps[0] == parts@[0]@ && ps[1] == parts@[1]@ && ps[2] == parts@[2]@ && ps[3]
            == parts@[3]@);
    }
    match (
        parse_octet(parts[0].as_str()),
        parse_octet(parts[1].as_str()),
        parse_octet(parts[2].as_str()),
        parse_octet(parts[3].as_str()),
    ) {
        (Some(a), Some(b), Some(c), Some(d)) => Some((a, b, c, d)),
        _ => None,
    }
}

/// Whether an address is private: 10/8, 172.16/12 or 192.168/16.
pub open spec fn private(ip: (u8, u8, u8, u8)) -> bool {
    ip.0 == 10 || (ip.0 == 172 && 16 <= ip.1 <= 31) || (ip.0 == 192 && ip.1 == 168)
}

/// Whether an address is private.
pub fn is_private_ipv4(ip: (u8, u8, u8, u8)) -> (r: bool)
    ensures
        r == private(ip),
{
    ip.0 == 10 || (ip.0 == 172 && 16 <= ip.1 && ip.1 <= 31) || (ip.0 == 192 && ip.1 == 168)
}

/// An octet starts and ends with a digit.
proof fn lemma_octet_digits(t: Seq<char>)
    requires
        is_octet(t),
    ensures
        !is_space(t[0]),
        !is_space(t.last()),
{
    lemma_digits_monotone(t, 1, 10);
    let first = t.take(1);
    assert(first.last() == t[0]);
    assert(digits_value(first, 10) is Some);
    assert(digit_value(t[0], 10) is Some);
    assert(digit_value(t.last(), 10) is Some);
}

/// An address is not blank and has no white space at its ends.
pub proof fn addresses_are_trimmed(t: Seq<char>)
    requires
        ipv4_of(t) is Some,
    ensures
        t.len() > 0,
        trimmed(t) == t,
{
    let parts = split_parts(t, '.');
    let dot = seq!['.'];
    split_then_join(t, '.');
    lemma_octet_digits(parts[0]);
    lemma_octet_digits(parts[3]);
    let three = parts.drop_last();
    let two = three.drop_last();
    let one = two.drop_last();
    assert(joined(one, dot) == parts[0]);
    assert(joined(two, dot) == joined(one, dot) + dot + two.last());
    assert(joined(three, dot) == joined(two, dot) + dot + three.last());
    assert(t == joined(three, dot) + dot + parts[3]);
    assert(t[0] == parts[0][0]);
    assert(t.last() == parts[3].last());
}

/// A number that an octet holds, written in decimal, is an octet.
proof fn lemma_octet(n: u8)
    ensures
        is_octet(decimal_text(n as nat)),
        parsed_number(decimal_text(n as nat), 10, 255) == Some(n as int),
        !decimal_text(n as nat).contains('.'),
{
    let t = decimal_text(n as nat);
    decimal_is_read_back(n as nat, 255);
    lemma_decimal_digits(n as nat);
    let tens = (n as nat) / 10;
    let hundreds = tens / 10;
    assert(n < 10 ==> t.len() == 1);
    if n >= 10 {
        assert(t.len() == decimal_text(tens).len() + 1);
        assert(t[0] == decimal_text(tens)[0]);
        if tens >= 10 {
            assert(hundreds < 10);
            assert(decimal_text(tens).len() == decimal_text(hundreds).len() + 1);
            assert(decimal_text(hundreds).len() == 1);
            assert(decimal_text(tens)[0] == decimal_text(hundreds)[0]);
            assert(decimal_text(hundreds)[0] != '0');
        } else {
            assert(decimal_text(tens).len() == 1);
            assert(decimal_text(tens)[0] != '0');
        }
    }
    assert('0' <= t[0] <= '9');
}

/// Four numbers that are written in decimal with dots between them are read back.
pub proof fn written_addresses_are_read_back(a: u8, b: u8, c: u8, d: u8)
    ensures
        ipv4_of(
            joined(
                seq![
                    decimal_text(a as nat),
                    decimal_text(b as nat),
                    decimal_text(c as nat),
                    decimal_text(d as nat),
                ],
                seq!['.'],
            ),
        ) == Some((a, b, c, d)),
{
    lemma_octet(a);
    lemma_octet(b);
    lemma_octet(c);
    lemma_octet(d);
    let parts = seq![
        decimal_text(a as nat),
        decimal_text(b as nat),
        decimal_text(c as nat),
        decimal_text(d as nat),
    ];
    assert forall|i: int| 0 <= i < parts.len() implies !(#[trigger] parts[i]).contains('.') by {
        if i == 0 {
            assert(parts[i] == decimal_text(a as nat));
        } else if i == 1 {
            assert(parts[i] == decimal_text(b as nat));
        } else if i == 2 {
            assert(parts[i] == decimal_text(c as nat));
        } else {
            assert(parts[i] == decimal_text(d as nat));
        }
    }
    join_then_split(parts, '.');
}

} // verus!
