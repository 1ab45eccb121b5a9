//! Reading the accumulated text: integer literals, escape digits, and the
//! characters that stand for bytes.

use vstd::prelude::*;
use crate::assumed::is_scalar;

verus! {

/// A decimal digit.
pub open spec fn is_digit(c: char) -> bool {
    '0' <= c && c <= '9'
}

/// Decimal digits only.
pub open spec fn all_digits(s: Seq<char>) -> bool {
    forall|i: int| 0 <= i < s.len() ==> is_digit(#[trigger] s[i])
}

/// The number that a run of decimal digits writes.
pub open spec fn digits_value(s: Seq<char>) -> int
    decreases s.len(),
{
    if s.len() == 0 {
        0
    } else {
        digits_value(s.drop_last()) * 10 + (s.last() as int - '0' as int)
    }
}

/// The number that an integer literal writes: an optional `-`, then one or
/// more decimal digits. `None` for any other text.
pub open spec fn int_literal(s: Seq<char>) -> Option<int> {
    if s.len() >= 1 && s[0] == '-' {
        if s.len() >= 2 && all_digits(s.skip(1)) {
            Some(-digits_value(s.skip(1)))
        } else {
            None
        }
    } else if s.len() >= 1 && all_digits(s) {
        Some(digits_value(s))
    } else {
        None
    }
}

/// The integer literal's number where a 64-bit signed integer holds it.
pub open spec fn i64_literal(s: Seq<char>) -> Option<i64> {
    match int_literal(s) {
        Some(v) => if i64::MIN <= v <= i64::MAX {
            Some(v as i64)
        } else {
            None
        },
        None => None,
    }
}

/// The number that one hexadecimal digit writes.
pub open spec fn hex_digit(c: char) -> Option<int> {
    if '0' <= c && c <= '9' {
        Some(c as int - '0' as int)
    } else if 'a' <= c && c <= 'f' {
        Some(c as int - 'a' as int + 10)
    } else if 'A' <= c && c <= 'F' {
        Some(c as int - 'A' as int + 10)
    } else {
        None
    }
}

/// The 16-bit code that exactly four hexadecimal digits write.
pub open spec fn hex4(s: Seq<char>) -> Option<int> {
    if s.len() == 4 && hex_digit(s[0]) is Some && hex_digit(s[1]) is Some && hex_digit(
        s[2],
    ) is Some && hex_digit(s[3]) is Some {
        Some(
            ((hex_digit(s[0])->0 * 16 + hex_digit(s[1])->0) * 16 + hex_digit(s[2])->0) * 16
                + hex_digit(s[3])->0,
        )
    } else {
        None
    }
}

/// The character that four escape digits denote: `None` where they are not
/// four hexadecimal digits, or where their code is a surrogate.
pub open spec fn unicode_escape(s: Seq<char>) -> Option<char> {
    match hex4(s) {
        Some(code) => if is_scalar(code as u32) {
            Some(code as char)
        } else {
            None
        },
        None => None,
    }
}

/// The control character that a one-letter escape denotes.
pub open spec fn short_escape(byte: u8) -> Option<char> {
    if byte == 'b' as u8 {
        Some(0x08 as char)
    } else if byte == 't' as u8 {
        Some(0x09 as char)
    } else if byte == 'n' as u8 {
        Some(0x0A as char)
    } else if byte == 'f' as u8 {
        Some(0x0C as char)
    } else if byte == 'r' as u8 {
        Some(0x0D as char)
    } else {
        None
    }
}

/// A longer run of digits writes no smaller a number than any of its
/// beginnings.
pub proof fn lemma_digits_value_grows(s: Seq<char>, k: int)
    requires
        all_digits(s),
        0 <= k <= s.len(),
    ensures
        0 <= digits_value(s.take(k)) <= digits_value(s),
    decreases s.len() - k,
{
    if k == s.len() {
        assert(s.take(k) =~= s);
        lemma_digits_value_nonnegative(s);
    } else {
        lemma_digits_value_grows(s, k + 1);
        let longer = s.take(k + 1);
        assert(longer.drop_last() =~= s.take(k));
        assert(is_digit(s[k]));
        assert(longer.last() == s[k]);
        lemma_digits_value_nonnegative(s.take(k));
    }
}

/// A run of digits writes no negative number.
pub proof fn lemma_digits_value_nonnegative(s: Seq<char>)
    requires
        all_digits(s),
    ensures
        0 <= digits_value(s),
    decreases s.len(),
{
    if s.len() > 0 {
        assert(is_digit(s[s.len() - 1]));
        assert forall|i: int| 0 <= i < s.drop_last().len() implies is_digit(
            #[trigger] s.drop_last()[i],
        ) by {
            assert(is_digit(s[i]));
        }
        lemma_digits_value_nonnegative(s.drop_last());
    }
}

/// The number of a decimal digit.
pub fn digit_of(c: char) -> (d: Option<u8>)
    ensures
        d == (if is_digit(c) {
            Some((c as int - '0' as int) as u8)
        } else {
            None
        }),
{
    if '0' <= c && c <= '9' {
        Some((c as u32 - '0' as u32) as u8)
    } else {
        None
    }
}

/// Reads an integer literal into a 64-bit signed integer.
pub fn parse_int(text: &Vec<char>) -> (r: Option<i64>)
    ensures
        r == i64_literal(text@),
{
    let n: usize = text.len();
    if n == 0 {
        return None;
    }
    let negative: bool = text[0] == '-';
    let start: usize = if negative {
        1
    } else {
        0
    };
    if start == n {
        return None;
    }
    let ghost digits: Seq<char> = text@.skip(start as int);
    // The magnitude read so far; at most 2^63.
    let mut magnitude: u64 = 0;
    let mut i: usize = start;
    while i < n
        invariant
            start <= i <= n,
            n == text@.len(),
            start < n,
            negative == (text@[0] == '-'),
            start == (if negative {
                1usize
            } else {
                0usize
            }),
            digits == text@.skip(start as int),
            all_digits(digits.take(i - start)),
            magnitude == digits_value(digits.take(i - start)),
            magnitude <= 0x8000_0000_0000_0000,
        decreases n - i,
    {
        let d: u8 = match digit_of(text[i]) {
            Some(d) => d,
            None => {
                proof {
                    assert(digits[i - start] == text@[i as int]);
                    assert(!all_digits(digits));
                    if negative {
                    } else {
                        assert(digits =~= text@);
                    }
                }
                return None;
            },
        };
        proof {
            let next = digits.take(i - start + 1);
            assert(next.drop_last() =~= digits.take(i - start));
            assert(next.last() == text@[i as int]);
            assert forall|j: int| 0 <= j < next.len() implies is_digit(#[trigger] next[j]) by {
                if j < i - start {
                    assert(next[j] == digits.take(i - start)[j]);
                }
            }
        }
        if magnitude > 922337203685477580 || magnitude * 10 + (d as u64)
            > 0x8000_0000_0000_0000 {
            proof {
                // The digits that follow can only make the number larger.
                let next = digits.take(i - start + 1);
                assert(digits_value(next) > 0x8000_0000_0000_0000);
                if all_digits(digits) {
                    lemma_digits_value_grows(digits, i - start + 1);
                }
                if !negative {
                    assert(digits =~= text@);
                }
            }
            return None;
        }
        magnitude = magnitude * 10 + (d as u64);
        i = i + 1;
    }
    proof {
        assert(digits.take(n - start) =~= digits);
        if !negative {
            assert(digits =~= text@);
        }
    }
    if negative {
        if magnitude == 0x8000_0000_0000_0000 {
            Some(i64::MIN)
        } else {
            Some(-(magnitude as i64))
        }
    } else if magnitude == 0x8000_0000_0000_0000 {
        None
    } else {
        Some(magnitude as i64)
    }
}

/// The number of a hexadecimal digit.
pub fn hex_digit_of(c: char) -> (d: Option<u16>)
    ensures
        match d {
            Some(v) => hex_digit(c) == Some(v as int) && v < 16,
            None => hex_digit(c) is None,
        },
{
    if '0' <= c && c <= '9' {
        Some((c as u32 - '0' as u32) as u16)
    } else if 'a' <= c && c <= 'f' {
        Some((c as u32 - 'a' as u32 + 10) as u16)
    } else if 'A' <= c && c <= 'F' {
        Some((c as u32 - 'A' as u32 + 10) as u16)
    } else {
        None
    }
}

/// Reads exactly four hexadecimal digits into a 16-bit code.
pub fn parse_hex4(digits: &Vec<char>) -> (r: Option<u16>)
    ensures
        match r {
            Some(code) => hex4(digits@) == Some(code as int),
            None => hex4(digits@) is None,
        },
{
    if digits.len() != 4 {
        return None;
    }
    let mut code: u16 = 0;
    let mut i: usize = 0;
    while i < 4
        invariant
            0 <= i <= 4,
            digits@.len() == 4,
            forall|j: int| 0 <= j < i ==> hex_digit(#[trigger] digits@[j]) is Some,
            i == 0 ==> code == 0,
            i == 1 ==> code == hex_digit(digits@[0])->0,
            i == 2 ==> code == hex_digit(digits@[0])->0 * 16 + hex_digit(digits@[1])->0,
            i == 3 ==> code == (hex_digit(digits@[0])->0 * 16 + hex_digit(digits@[1])->0) * 16
                + hex_digit(digits@[2])->0,
            i == 4 ==> Some(code as int) == hex4(digits@),
            i < 4 ==> code < 0x1000,
        decreases 4 - i,
    {
        match hex_digit_of(digits[i]) {
            Some(d) => {
                code = code * 16 + d;
            },
            None => {
                return None;
            },
        }
        i = i + 1;
    }
    Some(code)
}

/// Resolves a one-letter escape.
pub fn resolve_short(byte: u8) -> (c: Option<char>)
    ensures
        c == short_escape(byte),
{
    if byte == 0x62 {
        Some(0x08u8 as char)
    } else if byte == 0x74 {
        Some(0x09u8 as char)
    } else if byte == 0x6E {
        Some(0x0Au8 as char)
    } else if byte == 0x66 {
        Some(0x0Cu8 as char)
    } else if byte == 0x72 {
        Some(0x0Du8 as char)
    } else {
        None
    }
}

/// Resolves the digits of a `\u` escape.
pub fn resolve_unicode(digits: &Vec<char>) -> (c: Option<char>)
    ensures
        c == unicode_escape(digits@),
{
    match parse_hex4(digits) {
        Some(code) => char::from_u32(code as u32),
        None => None,
    }
}

/// The text that holds `first`, then `second`, then the given characters.
pub fn text_after(first: char, second: char, chars: &Vec<char>) -> (s: String)
    ensures
        s@ == seq![first, second] + chars@,
{
    let mut s = String::new();
    s.push(first);
    s.push(second);
    let mut i: usize = 0;
    while i < chars.len()
        invariant
            0 <= i <= chars@.len(),
            s@ == seq![first, second] + chars@.take(i as int),
        decreases chars@.len() - i,
    {
        s.push(chars[i]);
        proof {
            assert(chars@.take(i + 1) =~= chars@.take(i as int).push(chars@[i as int]));
            assert(seq![first, second] + chars@.take(i + 1) =~= (seq![first, second] + chars@.take(
                i as int,
            )).push(chars@[i as int]));
        }
        i = i + 1;
    }
    proof {
        assert(chars@.take(chars@.len() as int) =~= chars@);
    }
    s
}

/// The text that holds the given characters.
pub fn text_of(chars: &Vec<char>) -> (s: String)
    ensures
        s@ == chars@,
{
    let mut s = String::new();
    let mut i: usize = 0;
    while i < chars.len()
        invariant
            0 <= i <= chars@.len(),
            s@ == chars@.take(i as int),
        decreases chars@.len() - i,
    {
        s.push(chars[i]);
        proof {
            assert(chars@.take(i + 1) =~= chars@.take(i as int).push(chars@[i as int]));
        }
        i = i + 1;
    }
    proof {
        assert(chars@.take(chars@.len() as int) =~= chars@);
    }
    s
}

} // verus!
