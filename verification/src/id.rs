//! Reading the id of a record from the text of its field.

use crate::text::chars_of;
use vstd::prelude::*;

verus! {

/// The value of one digit, decimal or hexadecimal.
pub open spec fn digit_value(c: char, hex: bool) -> Option<nat> {
    if '0' <= c <= '9' {
        Some((c as u32 - '0' as u32) as nat)
    } else if hex && 'a' <= c <= 'f' {
        Some((c as u32 - 'a' as u32 + 10) as nat)
    } else if hex && 'A' <= c <= 'F' {
        Some((c as u32 - 'A' as u32 + 10) as nat)
    } else {
        None
    }
}

/// The base of a number's digits.
pub open spec fn base(hex: bool) -> nat {
    if hex {
        16
    } else {
        10
    }
}

/// The number that the digits spell, if each of them is a digit. No digits
/// spell zero.
pub open spec fn digits_value(digits: Seq<char>, hex: bool) -> Option<nat>
    decreases digits.len(),
{
    if digits.len() == 0 {
        Some(0)
    } else {
        match (digits_value(digits.drop_last(), hex), digit_value(digits.last(), hex)) {
            (Some(high), Some(low)) => Some(high * base(hex) + low),
            _ => None,
        }
    }
}

/// The number that a text spells: an optional `+`, then at least one
/// digit, and nothing else.
pub open spec fn unsigned_value(text: Seq<char>, hex: bool) -> Option<nat> {
    let digits = if text.len() > 0 && text[0] == '+' {
        text.drop_first()
    } else {
        text
    };
    if digits.len() == 0 {
        None
    } else {
        digits_value(digits, hex)
    }
}

/// Whether a field gives its number in hexadecimal digits: it then starts
/// with `0x`.
pub open spec fn is_hex(field: Seq<char>) -> bool {
    field.len() >= 2 && field[0] == '0' && field[1] == 'x'
}

/// The number as an id, if there is one and it fits in 32 bits.
pub open spec fn as_id(number: Option<nat>) -> Option<u32> {
    match number {
        Some(value) => if value <= u32::MAX {
            Some(value as u32)
        } else {
            None
        },
        None => None,
    }
}

/// The id that a field spells, if it spells one: a decimal number, or a
/// hexadecimal number after `0x`, that fits in 32 bits.
pub open spec fn id_value(field: Seq<char>) -> Option<u32> {
    if is_hex(field) {
        as_id(unsigned_value(field.skip(2), true))
    } else {
        as_id(unsigned_value(field, false))
    }
}

/// A number never gets smaller, and never becomes a number again after a
/// character that is no digit, when more characters follow.
proof fn lemma_value_grows(digits: Seq<char>, hex: bool, k: int)
    requires
        0 <= k <= digits.len(),
    ensures
        match digits_value(digits, hex) {
            Some(value) => digits_value(digits.take(k), hex) matches Some(part) && part <= value,
            None => true,
        },
    decreases digits.len() - k,
{
    if k == digits.len() {
        assert(digits.take(k) =~= digits);
    } else {
        lemma_value_grows(digits.drop_last(), hex, k);
        assert(digits.drop_last().take(k) =~= digits.take(k));
        if digits_value(digits, hex) is Some {
            let high = digits_value(digits.drop_last(), hex)->0;
            assert(high * base(hex) >= high) by (nonlinear_arith)
                requires
                    base(hex) >= 1,
            ;
        }
    }
}

/// The value of one digit, decimal or hexadecimal.
fn digit_of(c: char, hex: bool) -> (digit: Option<u64>)
    ensures
        match digit {
            Some(d) => digit_value(c, hex) == Some(d as nat) && d < 16,
            None => digit_value(c, hex) is None,
        },
{
    if '0' <= c && c <= '9' {
        Some((c as u32 - '0' as u32) as u64)
    } else if hex && 'a' <= c && c <= 'f' {
        Some((c as u32 - 'a' as u32 + 10) as u64)
    } else if hex && 'A' <= c && c <= 'F' {
        Some((c as u32 - 'A' as u32 + 10) as u64)
    } else {
        None
    }
}

/// Reads an id: a decimal number, or a hexadecimal number after `0x`. A
/// `+` may stand before the digits. Anything else, and a number above
/// 4294967295, is no id.
pub fn parse_id(field: &str) -> (id: Option<u32>)
    ensures
        id == id_value(field@),
{
    let chars = chars_of(field);
    let hex = chars.len() >= 2 && chars[0] == '0' && chars[1] == 'x';
    let mut start: usize = if hex {
        2
    } else {
        0
    };
    if start < chars.len() && chars[start] == '+' {
        start += 1;
    }
    let ghost body = if hex {
        field@.skip(2)
    } else {
        field@
    };
    let ghost digits = chars@.skip(start as int);
    proof {
        if body.len() > 0 && body[0] == '+' {
            assert(digits =~= body.drop_first());
        } else {
            assert(digits =~= body);
        }
    }
    if start == chars.len() {
        return None;
    }
    let radix: u64 = if hex {
        16
    } else {
        10
    };
    let mut value: u64 = 0;
    let mut i: usize = start;
    assert(digits.take(0) =~= Seq::empty());
    assert(id_value(field@) == as_id(digits_value(digits, hex)));
    while i < chars.len()
        invariant
            start <= i <= chars.len(),
            digits == chars@.skip(start as int),
            id_value(field@) == as_id(digits_value(digits, hex)),
            radix == base(hex),
            value <= u32::MAX,
            digits_value(digits.take(i - start), hex) == Some(value as nat),
        decreases chars.len() - i,
    {
        let ghost next = digits.take(i - start + 1);
        proof {
            assert(next.drop_last() =~= digits.take(i - start));
            assert(next.last() == chars@[i as int]);
            lemma_value_grows(digits, hex, i - start + 1);
        }
        match digit_of(chars[i], hex) {
            Some(digit) => {
                assert(value * radix + digit <= 0xffff_ffff * 16 + 15) by (nonlinear_arith)
                    requires
                        value <= 0xffff_ffff,
                        radix <= 16,
                        digit <= 15,
                ;
                value = value * radix + digit;
                if value > 0xffff_ffff {
                    return None;
                }
            },
            None => {
                return None;
            },
        }
        i += 1;
    }
    assert(digits.take(i - start) =~= digits);
    Some(value as u32)
}

} // verus!
