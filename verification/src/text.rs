//! Numbers as decimal text, and decimal text as numbers.

use vstd::prelude::*;
use vstd::string::*;

verus! {

/// The character of the decimal digit `d`.
pub open spec fn digit_char(d: int) -> char {
    if d == 0 {
        '0'
    } else if d == 1 {
        '1'
    } else if d == 2 {
        '2'
    } else if d == 3 {
        '3'
    } else if d == 4 {
        '4'
    } else if d == 5 {
        '5'
    } else if d == 6 {
        '6'
    } else if d == 7 {
        '7'
    } else if d == 8 {
        '8'
    } else {
        '9'
    }
}

/// The decimal digits of `n`, without leading zeros.
pub open spec fn decimal(n: nat) -> Seq<char>
    decreases n,
{
    if n < 10 {
        seq![digit_char(n as int)]
    } else {
        decimal(n / 10).push(digit_char((n % 10) as int))
    }
}

/// The decimal text of `i`, with a minus sign where it is negative.
pub open spec fn signed_decimal(i: int) -> Seq<char> {
    if i < 0 {
        seq!['-'] + decimal((-i) as nat)
    } else {
        decimal(i as nat)
    }
}

/// Whether `c` is one of the ten decimal digits.
pub open spec fn is_digit(c: char) -> bool {
    48 <= c as u32 <= 57
}

/// Whether every character of `s` is a decimal digit.
pub open spec fn all_digits(s: Seq<char>) -> bool {
    forall|i: int| 0 <= i < s.len() ==> is_digit(#[trigger] s[i])
}

/// The number that the decimal digits `s` spell.
pub open spec fn digits_value(s: Seq<char>) -> nat
    decreases s.len(),
{
    if s.len() == 0 {
        0
    } else {
        digits_value(s.drop_last()) * 10 + (s.last() as u32 - 48) as nat
    }
}

/// The integer that `s` spells: an optional sign, then one or more decimal
/// digits and nothing else. A minus sign is read only where `signed` holds.
pub open spec fn integer_value(s: Seq<char>, signed: bool) -> Option<int> {
    let has_sign = s.len() > 0 && (s[0] == '+' || (signed && s[0] == '-'));
    let digits = if has_sign {
        s.skip(1)
    } else {
        s
    };
    if digits.len() == 0 || !all_digits(digits) {
        None
    } else if has_sign && s[0] == '-' {
        Some(-(digits_value(digits) as int))
    } else {
        Some(digits_value(digits) as int)
    }
}

/// Whether `c` is white space: the characters with the Unicode property
/// `White_Space`.
pub open spec fn is_space(c: char) -> bool {
    let code = c as u32;
    ||| 0x09 <= code <= 0x0d
    ||| code == 0x20
    ||| code == 0x85
    ||| code == 0xa0
    ||| code == 0x1680
    ||| 0x2000 <= code <= 0x200a
    ||| code == 0x2028
    ||| code == 0x2029
    ||| code == 0x202f
    ||| code == 0x205f
    ||| code == 0x3000
}

/// How many characters of white space `s` starts with.
pub open spec fn leading_spaces(s: Seq<char>) -> int
    decreases s.len(),
{
    if s.len() > 0 && is_space(s[0]) {
        1 + leading_spaces(s.skip(1))
    } else {
        0
    }
}

/// How many characters of white space `s` ends with.
pub open spec fn trailing_spaces(s: Seq<char>) -> int
    decreases s.len(),
{
    if s.len() > 0 && is_space(s.last()) {
        1 + trailing_spaces(s.drop_last())
    } else {
        0
    }
}

/// `s` without the white space at its two ends.
pub open spec fn trimmed(s: Seq<char>) -> Seq<char> {
    let from = leading_spaces(s);
    let rest = s.skip(from);
    rest.take(rest.len() - trailing_spaces(rest))
}

/// The characters of `s`.
pub fn chars_of(s: &str) -> (chars: Vec<char>)
    ensures
        chars@ == s@,
{
    let len: usize = s.unicode_len();
    let mut chars: Vec<char> = Vec::new();
    let mut i: usize = 0;
    while i < len
        invariant
            i <= len,
            len == s@.len(),
            chars@ == s@.take(i as int),
        decreases len - i,
    {
        let c: char = s.get_char(i);
        chars.push(c);
        assert(s@.take(i + 1) =~= s@.take(i as int).push(c));
        i = i + 1;
    }
    assert(s@.take(len as int) =~= s@);
    chars
}

fn push_digit(text: &mut String, d: u64)
    requires
        d < 10,
    ensures
        final(text)@ == old(text)@.push(digit_char(d as int)),
{
    proof {
        reveal_strlit("0");
        reveal_strlit("1");
        reveal_strlit("2");
        reveal_strlit("3");
        reveal_strlit("4");
        reveal_strlit("5");
        reveal_strlit("6");
        reveal_strlit("7");
        reveal_strlit("8");
        reveal_strlit("9");
    }
    let ghost before = text@;
    let digit: &str = if d == 0 {
        "0"
    } else if d == 1 {
        "1"
    } else if d == 2 {
        "2"
    } else if d == 3 {
        "3"
    } else if d == 4 {
        "4"
    } else if d == 5 {
        "5"
    } else if d == 6 {
        "6"
    } else if d == 7 {
        "7"
    } else if d == 8 {
        "8"
    } else {
        "9"
    };
    assert(digit@ =~= seq![digit_char(d as int)]);
    text.append(digit);
    assert(before + seq![digit_char(d as int)] =~= before.push(digit_char(d as int)));
}

/// Appends the decimal digits of `n` to `text`.
pub fn push_decimal(text: &mut String, n: u64)
    ensures
        final(text)@ == old(text)@ + decimal(n as nat),
    decreases n,
{
    let ghost before = text@;
    if n >= 10 {
        push_decimal(text, n / 10);
        push_digit(text, n % 10);
        assert(before + decimal(n as nat) =~= (before + decimal((n / 10) as nat)).push(digit_char((n % 10) as int)));
    } else {
        push_digit(text, n);
        assert(before + decimal(n as nat) =~= before.push(digit_char(n as int)));
    }
}

/// The decimal text of `n`.
pub fn decimal_string(n: u64) -> (text: String)
    ensures
        text@ == decimal(n as nat),
{
    let mut text = String::new();
    push_decimal(&mut text, n);
    assert(Seq::<char>::empty() + decimal(n as nat) =~= decimal(n as nat));
    text
}

/// The decimal text of `i`.
pub fn signed_decimal_string(i: i64) -> (text: String)
    ensures
        text@ == signed_decimal(i as int),
{
    let mut text = String::new();
    if i < 0 {
        proof {
            reveal_strlit("-");
        }
        text.append("-");
        let magnitude: u64 = if i == i64::MIN {
            0x8000_0000_0000_0000u64
        } else {
            (-i) as u64
        };
        push_decimal(&mut text, magnitude);
        assert(Seq::<char>::empty() + "-"@ =~= seq!['-']);
    } else {
        push_decimal(&mut text, i as u64);
        assert(Seq::<char>::empty() + decimal(i as nat) =~= decimal(i as nat));
    }
    text
}

/// Whether `c` is white space.
pub fn is_whitespace(c: char) -> (space: bool)
    ensures
        space == is_space(c),
{
    let code: u32 = c as u32;
    (0x09 <= code && code <= 0x0d) || code == 0x20 || code == 0x85 || code == 0xa0 || code == 0x1680 || (0x2000
        <= code && code <= 0x200a) || code == 0x2028 || code == 0x2029 || code == 0x202f || code == 0x205f || code
        == 0x3000
}

/// The bounds of `chars` without the white space at its two ends.
pub fn trim_bounds(chars: &Vec<char>) -> (bounds: (usize, usize))
    ensures
        bounds.0 <= bounds.1 <= chars@.len(),
        chars@.subrange(bounds.0 as int, bounds.1 as int) == trimmed(chars@),
{
    let mut from: usize = 0;
    proof {
        assert(chars@.skip(0) =~= chars@);
    }
    while from < chars.len() && is_whitespace(chars[from])
        invariant
            from <= chars@.len(),
            leading_spaces(chars@) == from + leading_spaces(chars@.skip(from as int)),
        decreases chars@.len() - from,
    {
        assert(chars@.skip(from as int).skip(1) =~= chars@.skip(from + 1));
        from = from + 1;
    }
    let ghost rest = chars@.skip(from as int);
    let mut to: usize = chars.len();
    proof {
        assert(rest.take(rest.len() as int) =~= rest);
    }
    while to > from && is_whitespace(chars[to - 1])
        invariant
            from <= to <= chars@.len(),
            rest == chars@.skip(from as int),
            trailing_spaces(rest) == (chars@.len() - to) + trailing_spaces(rest.take(to - from)),
        decreases to,
    {
        assert(rest.take(to - from).drop_last() =~= rest.take(to - from - 1));
        to = to - 1;
    }
    proof {
        assert(rest.take(to - from) =~= chars@.subrange(from as int, to as int));
    }
    (from, to)
}

/// Digits only get heavier: a prefix spells no more than the whole.
pub proof fn lemma_digits_prefix(s: Seq<char>, n: int)
    requires
        0 <= n <= s.len(),
    ensures
        digits_value(s.take(n)) <= digits_value(s),
    decreases s.len(),
{
    if n == s.len() {
        assert(s.take(n) =~= s);
    } else {
        lemma_digits_prefix(s.drop_last(), n);
        assert(s.drop_last().take(n) =~= s.take(n));
    }
}

/// The number that the digits between `from` and `to` spell, where there is
/// at least one, all are digits, and the number fits.
pub fn parse_digits(chars: &Vec<char>, from: usize, to: usize) -> (r: Option<u64>)
    requires
        from <= to <= chars@.len(),
    ensures
        r == {
            let digits = chars@.subrange(from as int, to as int);
            if digits.len() > 0 && all_digits(digits) && digits_value(digits) <= u64::MAX {
                Some(digits_value(digits) as u64)
            } else {
                None
            }
        },
{
    if from == to {
        return None;
    }
    let ghost digits = chars@.subrange(from as int, to as int);
    let mut value: u64 = 0;
    let mut i: usize = from;
    proof {
        assert(digits.take(0) =~= Seq::<char>::empty());
    }
    while i < to
        invariant
            from <= i <= to <= chars@.len(),
            digits == chars@.subrange(from as int, to as int),
            all_digits(digits.take(i - from)),
            value == digits_value(digits.take(i - from)),
        decreases to - i,
    {
        let code: u32 = chars[i] as u32;
        proof {
            assert(digits.take(i - from + 1).drop_last() =~= digits.take(i - from));
            assert(digits.take(i - from + 1).last() == digits[i - from]);
            assert(digits[i - from] == chars@[i as int]);
            lemma_digits_prefix(digits, i - from + 1);
        }
        if code < 48 || code > 57 {
            assert(!is_digit(digits[i - from]));
            return None;
        }
        let digit: u64 = (code - 48) as u64;
        if value > (u64::MAX - digit) / 10 {
            return None;
        }
        value = value * 10 + digit;
        proof {
            assert forall|j: int| 0 <= j < digits.take(i - from + 1).len() implies is_digit(
                #[trigger] digits.take(i - from + 1)[j],
            ) by {
                if j < i - from {
                    assert(digits.take(i - from)[j] == digits.take(i - from + 1)[j]);
                }
            }
        }
        i = i + 1;
    }
    proof {
        assert(digits.take(to - from) =~= digits);
    }
    Some(value)
}

/// The integer that the characters between `from` and `to` spell, where they
/// spell one that is no larger in magnitude than a `u64` holds.
pub fn parse_integer(chars: &Vec<char>, from: usize, to: usize, signed: bool) -> (r: Option<i128>)
    requires
        from <= to <= chars@.len(),
    ensures
        r == match integer_value(chars@.subrange(from as int, to as int), signed) {
            Some(value) => if -(u64::MAX as int) <= value <= u64::MAX as int {
                Some(value as i128)
            } else {
                None
            },
            None => None,
        },
{
    let ghost s = chars@.subrange(from as int, to as int);
    if from == to {
        return None;
    }
    let first: char = chars[from];
    assert(s[0] == first);
    let negative: bool = signed && first == '-';
    let start: usize = if first == '+' || negative {
        from + 1
    } else {
        from
    };
    proof {
        if start == from {
            assert(chars@.subrange(start as int, to as int) =~= s);
        } else {
            assert(chars@.subrange(start as int, to as int) =~= s.skip(1));
        }
    }
    match parse_digits(chars, start, to) {
        Some(magnitude) => {
            if negative {
                Some(-(magnitude as i128))
            } else {
                Some(magnitude as i128)
            }
        },
        None => None,
    }
}

/// A number under one hundred has one or two decimal digits, and they spell
/// the number.
pub proof fn lemma_decimal_digits(n: nat)
    requires
        n < 100,
    ensures
        n < 10 ==> decimal(n) == seq![digit_char(n as int)],
        n >= 10 ==> decimal(n) == seq![digit_char((n / 10) as int), digit_char((n % 10) as int)],
        all_digits(decimal(n)),
        digits_value(decimal(n)) == n,
{
    reveal_with_fuel(decimal, 3);
    reveal_with_fuel(digits_value, 3);
    if n < 10 {
        let s = decimal(n);
        assert(s =~= seq![digit_char(n as int)]);
        assert(s.drop_last() =~= Seq::<char>::empty());
    } else {
        let s = decimal(n);
        assert(s =~= seq![digit_char((n / 10) as int), digit_char((n % 10) as int)]);
        assert(s.drop_last() =~= seq![digit_char((n / 10) as int)]);
        assert(s.drop_last().drop_last() =~= Seq::<char>::empty());
        assert(s.last() == digit_char((n % 10) as int));
        assert(s.drop_last().last() == digit_char((n / 10) as int));
    }
}

/// The character of the hexadecimal digit `d`, in upper case.
pub open spec fn hex_char(d: int) -> char {
    if d < 10 {
        digit_char(d)
    } else if d == 10 {
        'A'
    } else if d == 11 {
        'B'
    } else if d == 12 {
        'C'
    } else if d == 13 {
        'D'
    } else if d == 14 {
        'E'
    } else {
        'F'
    }
}

/// The hexadecimal digits of `n` in upper case, with zeros in front up to
/// `width` digits.
pub open spec fn hexadecimal(n: nat, width: nat) -> Seq<char>
    decreases n, width,
{
    if n < 16 && width <= 1 {
        seq![hex_char(n as int)]
    } else {
        hexadecimal(n / 16, if width == 0 {
            0
        } else {
            (width - 1) as nat
        }).push(hex_char((n % 16) as int))
    }
}

fn push_hex_digit(text: &mut String, d: u64)
    requires
        d < 16,
    ensures
        final(text)@ == old(text)@.push(hex_char(d as int)),
{
    if d < 10 {
        push_digit(text, d);
    } else {
        proof {
            reveal_strlit("A");
            reveal_strlit("B");
            reveal_strlit("C");
            reveal_strlit("D");
            reveal_strlit("E");
            reveal_strlit("F");
        }
        let ghost before = text@;
        let digit: &str = if d == 10 {
            "A"
        } else if d == 11 {
            "B"
        } else if d == 12 {
            "C"
        } else if d == 13 {
            "D"
        } else if d == 14 {
            "E"
        } else {
            "F"
        };
        assert(digit@ =~= seq![hex_char(d as int)]);
        text.append(digit);
        assert(before + seq![hex_char(d as int)] =~= before.push(hex_char(d as int)));
    }
}

/// Appends the hexadecimal digits of `n` to `text`, in upper case and with
/// zeros in front up to `width` digits.
pub fn push_hexadecimal(text: &mut String, n: u64, width: usize)
    ensures
        final(text)@ == old(text)@ + hexadecimal(n as nat, width as nat),
    decreases n, width,
{
    let ghost before = text@;
    if n < 16 && width <= 1 {
        push_hex_digit(text, n);
        assert(before + hexadecimal(n as nat, width as nat) =~= before.push(hex_char(n as int)));
    } else {
        let rest: usize = if width == 0 {
            0
        } else {
            width - 1
        };
        push_hexadecimal(text, n / 16, rest);
        push_hex_digit(text, n % 16);
        assert(before + hexadecimal(n as nat, width as nat) =~= (before + hexadecimal((n / 16) as nat, rest as nat)).push(
            hex_char((n % 16) as int),
        ));
    }
}

} // verus!
