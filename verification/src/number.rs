//! Numbers written in digits.

use crate::text::characters;
use vstd::prelude::*;

verus! {

/// The value of the digit `c` in the base `radix`.
pub open spec fn digit(c: char, radix: nat) -> Option<nat> {
    let value: int = if '0' <= c <= '9' {
        c as int - '0' as int
    } else if 'a' <= c <= 'z' {
        c as int - 'a' as int + 10
    } else if 'A' <= c <= 'Z' {
        c as int - 'A' as int + 10
    } else {
        radix as int
    };
    if value < radix {
        Some(value as nat)
    } else {
        None
    }
}

/// The value of a sequence of digits, the most significant first.
pub open spec fn value(digits: Seq<char>, radix: nat) -> nat
    decreases digits.len(),
{
    if digits.len() == 0 {
        0
    } else {
        value(digits.drop_last(), radix) * radix + digit(digits.last(), radix).unwrap_or(0)
    }
}

/// The number that one or more digits write.
pub open spec fn magnitude(digits: Seq<char>, radix: nat) -> Option<nat> {
    if digits.len() > 0 && forall|i: int| 0 <= i < digits.len() ==> digit(digits[i], radix) is Some {
        Some(value(digits, radix))
    } else {
        None
    }
}

/// The number of at most `max` that `text` writes: digits, after a plus sign if there is one.
pub open spec fn unsigned(text: Seq<char>, radix: nat, max: nat) -> Option<nat> {
    let digits = if text.len() > 0 && text[0] == '+' {
        text.skip(1)
    } else {
        text
    };
    match magnitude(digits, radix) {
        Some(n) => if n <= max {
            Some(n)
        } else {
            None
        },
        None => None,
    }
}

/// The number in the range of `i32` that `text` writes: decimal digits, after a sign if there
/// is one.
pub open spec fn signed(text: Seq<char>) -> Option<i32> {
    if text.len() > 0 && text[0] == '-' {
        match magnitude(text.skip(1), 10) {
            Some(n) => if n <= 0x8000_0000 {
                Some((-n) as i32)
            } else {
                None
            },
            None => None,
        }
    } else {
        match unsigned(text, 10, 0x7fff_ffff) {
            Some(n) => Some(n as i32),
            None => None,
        }
    }
}

proof fn lemma_value_grows(digits: Seq<char>, radix: nat, count: int)
    requires
        0 <= count <= digits.len(),
        radix >= 1,
    ensures
        value(digits.take(count), radix) <= value(digits, radix),
    decreases digits.len() - count,
{
    if count < digits.len() {
        let longer = digits.take(count + 1);
        assert(longer.drop_last() == digits.take(count));
        let v = value(digits.take(count), radix);
        assert(v <= v * radix) by (nonlinear_arith)
            requires
                radix >= 1,
        ;
        lemma_value_grows(digits, radix, count + 1);
    } else {
        assert(digits.take(count) == digits);
    }
}

fn digit_value(c: char, radix: u64) -> (d: Option<u64>)
    requires
        radix == 10 || radix == 16,
    ensures
        d is Some <==> digit(c, radix as nat) is Some,
        d matches Some(n) ==> digit(c, radix as nat) == Some(n as nat) && n < radix,
{
    let code: u32 = c as u32;
    let d: u64 = if '0' <= c && c <= '9' {
        (code - 0x30) as u64
    } else if 'a' <= c && c <= 'z' {
        (code - 0x61) as u64 + 10
    } else if 'A' <= c && c <= 'Z' {
        (code - 0x41) as u64 + 10
    } else {
        radix
    };
    if d < radix {
        Some(d)
    } else {
        None
    }
}

/// The number that the digits of `chars` from `from` on write, if it is one of 64 bits.
fn parse_digits(chars: &Vec<char>, from: usize, radix: u64) -> (n: Option<u64>)
    requires
        from <= chars@.len(),
        radix == 10 || radix == 16,
    ensures
        match magnitude(chars@.skip(from as int), radix as nat) {
            Some(v) => if v <= u64::MAX {
                n is Some && n->0 == v
            } else {
                n is None
            },
            None => n is None,
        },
{
    let ghost digits = chars@.skip(from as int);
    if from == chars.len() {
        return None;
    }
    let mut total: u64 = 0;
    let mut at: usize = from;
    assert(digits.take(0) =~= Seq::<char>::empty());
    while at < chars.len()
        invariant
            digits == chars@.skip(from as int),
            from <= at <= chars@.len(),
            radix == 10 || radix == 16,
            total == value(digits.take(at - from), radix as nat),
            forall|i: int| 0 <= i < at - from ==> digit(digits[i], radix as nat) is Some,
        decreases chars@.len() - at,
    {
        let ghost next = digits.take(at - from + 1);
        assert(next.drop_last() == digits.take(at - from));
        assert(next.last() == chars@[at as int]);
        assert(digits[at - from] == chars@[at as int]);
        let d: u64 = match digit_value(chars[at], radix) {
            Some(d) => d,
            None => {
                return None;
            },
        };
        assert(total * radix + d <= u128::MAX) by (nonlinear_arith)
            requires
                total <= u64::MAX,
                radix <= 16,
                d <= 16,
        ;
        let wide: u128 = total as u128 * radix as u128 + d as u128;
        if wide > u64::MAX as u128 {
            proof {
                lemma_value_grows(digits, radix as nat, at - from + 1);
            }
            return None;
        }
        total = wide as u64;
        at = at + 1;
    }
    assert(digits.take(digits.len() as int) == digits);
    Some(total)
}

fn parse_unsigned(chars: &Vec<char>, radix: u64) -> (n: Option<u64>)
    requires
        radix == 10 || radix == 16,
    ensures
        match unsigned(chars@, radix as nat, u64::MAX as nat) {
            Some(v) => n is Some && n->0 == v,
            None => n is None,
        },
{
    if chars.len() > 0 && chars[0] == '+' {
        parse_digits(chars, 1, radix)
    } else {
        assert(chars@.skip(0) == chars@);
        parse_digits(chars, 0, radix)
    }
}

/// The decimal number of 64 bits that `text` writes.
pub fn parse_u64(text: &str) -> (n: Option<u64>)
    ensures
        match unsigned(text@, 10, u64::MAX as nat) {
            Some(v) => n is Some && n->0 == v,
            None => n is None,
        },
{
    parse_unsigned(&characters(text), 10)
}

/// The number that `text` writes in the base `radix`, if a `usize` holds it.
pub fn parse_usize(text: &str, radix: u64) -> (n: Option<usize>)
    requires
        radix == 10 || radix == 16,
    ensures
        match unsigned(text@, radix as nat, usize::MAX as nat) {
            Some(v) => n is Some && n->0 == v,
            None => n is None,
        },
{
    match parse_unsigned(&characters(text), radix) {
        Some(n) => if n <= usize::MAX as u64 {
            Some(n as usize)
        } else {
            None
        },
        None => None,
    }
}

/// The decimal number that `text` writes, if an `i32` holds it.
pub fn parse_i32(text: &str) -> (n: Option<i32>)
    ensures
        n == signed(text@),
{
    let chars = characters(text);
    if chars.len() > 0 && chars[0] == '-' {
        match parse_digits(&chars, 1, 10) {
            Some(n) => if n <= 0x8000_0000 {
                Some((-(n as i64)) as i32)
            } else {
                None
            },
            None => None,
        }
    } else {
        match parse_unsigned(&chars, 10) {
            Some(n) => if n <= 0x7fff_ffff {
                Some(n as i32)
            } else {
                None
            },
            None => None,
        }
    }
}

/// How a number is written in decimal digits.
pub open spec fn decimal(n: nat) -> Seq<char>
    decreases n,
{
    let last = "0123456789"@[(n % 10) as int];
    if n < 10 {
        seq![last]
    } else {
        decimal(n / 10).push(last)
    }
}

/// How a number is written in hexadecimal digits.
pub open spec fn hexadecimal(n: nat) -> Seq<char>
    decreases n,
{
    let last = "0123456789abcdef"@[(n % 16) as int];
    if n < 16 {
        seq![last]
    } else {
        hexadecimal(n / 16).push(last)
    }
}

/// The decimal digits are these characters, and the place of each is its value.
pub proof fn law_decimal_digits(c: char)
    ensures
        forall|v: nat| digit(c, 10) == Some(v) <==> v < 10 && #[trigger] "0123456789"@[v as int] == c,
        digit(c, 10) is Some <==> "0123456789"@.contains(c),
{
    reveal_strlit("0123456789");
    if let Some(v) = digit(c, 10) {
        assert("0123456789"@[v as int] == c);
    }
}

/// The hexadecimal digits are these characters, of upper or lower case, and the place of each is
/// its value.
pub proof fn law_hexadecimal_digits(c: char)
    ensures
        forall|v: nat|
            #![trigger "0123456789abcdef"@[v as int]]
            #![trigger "0123456789ABCDEF"@[v as int]]
            digit(c, 16) == Some(v) <==> v < 16 && ("0123456789abcdef"@[v as int] == c
                || "0123456789ABCDEF"@[v as int] == c),
        digit(c, 16) is Some <==> "0123456789abcdef"@.contains(c)
            || "0123456789ABCDEF"@.contains(c),
{
    reveal_strlit("0123456789abcdef");
    reveal_strlit("0123456789ABCDEF");
    if let Some(v) = digit(c, 16) {
        assert("0123456789abcdef"@[v as int] == c || "0123456789ABCDEF"@[v as int] == c);
    }
}

proof fn lemma_digits_append(digits: Seq<char>, c: char, radix: nat)
    requires
        magnitude(digits, radix) is Some,
        digit(c, radix) is Some,
    ensures
        magnitude(digits.push(c), radix) == Some(
            magnitude(digits, radix)->0 * radix + digit(c, radix)->0,
        ),
{
    let longer = digits.push(c);
    assert(longer.drop_last() == digits);
    assert forall|i: int| 0 <= i < longer.len() implies digit(longer[i], radix) is Some by {
        if i < digits.len() {
            assert(longer[i] == digits[i]);
        }
    }
}

proof fn lemma_decimal(n: nat)
    ensures
        magnitude(decimal(n), 10) == Some(n),
        decimal(n).len() > 0,
        forall|i: int| 0 <= i < decimal(n).len() ==> '0' <= #[trigger] decimal(n)[i] <= '9',
    decreases n,
{
    reveal_strlit("0123456789");
    let last = "0123456789"@[(n % 10) as int];
    law_decimal_digits(last);
    assert(digit(last, 10) == Some(n % 10));
    if n < 10 {
        lemma_one_digit(last, 10);
    } else {
        lemma_decimal(n / 10);
        lemma_digits_append(decimal(n / 10), last, 10);
    }
}

proof fn lemma_hexadecimal(n: nat)
    ensures
        magnitude(hexadecimal(n), 16) == Some(n),
        hexadecimal(n).len() > 0,
        forall|i: int|
            0 <= i < hexadecimal(n).len() ==> '0' <= #[trigger] hexadecimal(n)[i] <= '9' || 'a'
                <= hexadecimal(n)[i] <= 'f',
    decreases n,
{
    reveal_strlit("0123456789abcdef");
    reveal_strlit("0123456789ABCDEF");
    let last = "0123456789abcdef"@[(n % 16) as int];
    law_hexadecimal_digits(last);
    assert(digit(last, 16) == Some(n % 16));
    if n < 16 {
        lemma_one_digit(last, 16);
    } else {
        lemma_hexadecimal(n / 16);
        lemma_digits_append(hexadecimal(n / 16), last, 16);
    }
}

proof fn lemma_one_digit(c: char, radix: nat)
    requires
        digit(c, radix) is Some,
    ensures
        magnitude(seq![c], radix) == digit(c, radix),
{
    let one = seq![c];
    assert(one.drop_last() == Seq::<char>::empty());
    assert(value(one.drop_last(), radix) == 0);
    assert(0 * radix == 0) by (nonlinear_arith);
}

/// A number that is written in decimal digits is read back, unless it is too large. It may have a
/// plus sign before it.
pub proof fn law_decimal_is_read_back(n: nat, max: nat)
    ensures
        unsigned(decimal(n), 10, max) == if n <= max {
            Some(n)
        } else {
            None
        },
        unsigned(seq!['+'] + decimal(n), 10, max) == unsigned(decimal(n), 10, max),
{
    lemma_decimal(n);
    assert(decimal(n)[0] != '+');
    assert((seq!['+'] + decimal(n)).skip(1) == decimal(n));
}

/// A number that is written in hexadecimal digits is read back, unless it is too large. It may
/// have a plus sign before it.
pub proof fn law_hexadecimal_is_read_back(n: nat, max: nat)
    ensures
        unsigned(hexadecimal(n), 16, max) == if n <= max {
            Some(n)
        } else {
            None
        },
        unsigned(seq!['+'] + hexadecimal(n), 16, max) == unsigned(hexadecimal(n), 16, max),
{
    lemma_hexadecimal(n);
    assert(hexadecimal(n)[0] != '+');
    assert((seq!['+'] + hexadecimal(n)).skip(1) == hexadecimal(n));
}

/// Decimal and hexadecimal digits are no other characters, line ends least of all.
pub proof fn lemma_digits_are_plain(n: nat)
    ensures
        !decimal(n).contains('\n'),
        !hexadecimal(n).contains('\n'),
        !decimal(n).contains(' '),
        forall|i: int| 0 <= i < decimal(n).len() ==> '0' <= #[trigger] decimal(n)[i] <= '9',
{
    lemma_decimal(n);
    lemma_hexadecimal(n);
}

/// One more digit behind a number makes it `radix` times as large and adds the value of the digit.
/// So a number may have zeros before it, and its digits may be of upper or lower case.
pub proof fn law_digit_is_appended(text: Seq<char>, c: char, radix: nat, max: nat, n: nat, v: nat)
    requires
        radix == 10 || radix == 16,
        unsigned(text, radix, max) == Some(n),
        v < radix,
        c == "0123456789abcdef"@[v as int] || c == "0123456789ABCDEF"@[v as int],
    ensures
        unsigned(text.push(c), radix, max) == if n * radix + v <= max {
            Some(n * radix + v)
        } else {
            None
        },
{
    reveal_strlit("0123456789abcdef");
    reveal_strlit("0123456789ABCDEF");
    assert(digit(c, radix) == Some(v));
    let longer = text.push(c);
    if text[0] == '+' {
        assert(longer.skip(1) == text.skip(1).push(c));
        lemma_digits_append(text.skip(1), c, radix);
    } else {
        lemma_digits_append(text, c, radix);
    }
}

/// A text without the plus sign before it.
pub open spec fn without_plus(text: Seq<char>) -> Seq<char> {
    if text.len() > 0 && text[0] == '+' {
        text.skip(1)
    } else {
        text
    }
}

/// Only digits write a number, one or more of them, but for a plus sign before them.
pub proof fn law_only_digits_write_numbers(text: Seq<char>, radix: nat, max: nat)
    requires
        radix == 10 || radix == 16,
        unsigned(text, radix, max) is Some,
    ensures
        without_plus(text).len() > 0,
        forall|i: int|
            0 <= i < without_plus(text).len() ==> {
                let c = #[trigger] without_plus(text)[i];
                if radix == 10 {
                    "0123456789"@.contains(c)
                } else {
                    "0123456789abcdef"@.contains(c) || "0123456789ABCDEF"@.contains(c)
                }
            },
        unsigned(text, radix, max)->0 <= max,
{
    let digits = without_plus(text);
    assert forall|i: int| 0 <= i < digits.len() implies {
        let c = #[trigger] digits[i];
        if radix == 10 {
            "0123456789"@.contains(c)
        } else {
            "0123456789abcdef"@.contains(c) || "0123456789ABCDEF"@.contains(c)
        }
    } by {
        law_decimal_digits(digits[i]);
        law_hexadecimal_digits(digits[i]);
    }
}

/// Every number of the type `i32` is read back from its decimal digits, with a minus sign before
/// those of a negative number.
pub proof fn law_signed_is_read_back(n: i32)
    ensures
        n >= 0 ==> signed(decimal(n as nat)) == Some(n),
        n >= 0 ==> signed(seq!['+'] + decimal(n as nat)) == Some(n),
        n <= 0 ==> signed(seq!['-'] + decimal((-n) as nat)) == Some(n),
{
    if n >= 0 {
        lemma_decimal(n as nat);
        law_decimal_is_read_back(n as nat, 0x7fff_ffff);
        assert(decimal(n as nat)[0] != '-');
    }
    if n <= 0 {
        let m = (-n) as nat;
        lemma_decimal(m);
        assert((seq!['-'] + decimal(m)).skip(1) == decimal(m));
    }
}

/// A text without a minus sign is read as a number of either kind, and to the same number, if it
/// is not larger than the largest `i32`. One with a minus sign before decimal digits is the
/// negative of what they write.
pub proof fn law_signed_is_unsigned(text: Seq<char>)
    ensures
        text.len() == 0 || text[0] != '-' ==> match unsigned(text, 10, i32::MAX as nat) {
            Some(n) => signed(text) == Some(n as i32),
            None => signed(text) is None,
        },
        text.len() > 0 && text[0] != '+' ==> match unsigned(text, 10, 0x8000_0000) {
            Some(n) => signed(seq!['-'] + text) == Some((-n) as i32),
            None => signed(seq!['-'] + text) is None,
        },
        text.len() == 0 || text[0] == '+' ==> signed(seq!['-'] + text) is None,
{
    assert((seq!['-'] + text).skip(1) == text);
    if text.len() > 0 && text[0] == '+' {
        assert(digit(text[0], 10) is None);
    }
}

} // verus!
