//! Type descriptors: the text form of a field type.
//!
//! A descriptor is a kind (`int`, `uint`, `float`, `double`), the width in
//! bits for an integer, an underscore, the byte order (`be`, `le`) and, where
//! wanted, a colon and the width of the container: `uint3_be:8`, `float_le`.
//! Letters are read in either case.

use vstd::prelude::*;
use vstd::string::*;
use crate::text::{chars_of, decimal, digits_value, is_digit, lemma_decimal_digits, parse_digits, push_decimal};
use crate::types::{BitSize, Endianness, Field, FieldType, NumBits, Value};

verus! {

/// The descriptor is no type descriptor.
#[derive(Debug, Clone, PartialEq, Eq)]
pub struct FieldParseError;

/// Whether `c` is the lower-case letter `letter` in either case, or the
/// character `letter` itself where that is no letter.
pub open spec fn same_letter(c: char, letter: char) -> bool {
    c == letter || (97 <= letter as u32 <= 122 && c as u32 + 32 == letter as u32)
}

/// Whether `word` stands in `s` at position `at`, in either case.
pub open spec fn word_at(s: Seq<char>, at: int, word: Seq<char>) -> bool {
    &&& 0 <= at
    &&& at + word.len() <= s.len()
    &&& forall|i: int| 0 <= i < word.len() ==> same_letter(#[trigger] s[at + i], word[i])
}

/// The length of the kind that `s` starts with, or 0 where it starts with
/// none.
pub open spec fn kind_len(s: Seq<char>) -> int {
    if word_at(s, 0, "float"@) {
        5
    } else if word_at(s, 0, "double"@) {
        6
    } else if word_at(s, 0, "uint"@) {
        4
    } else if word_at(s, 0, "int"@) {
        3
    } else {
        0
    }
}

/// How many digits stand in `s` at position `at`, up to two.
pub open spec fn digit_run(s: Seq<char>, at: int) -> int {
    if 0 <= at < s.len() && is_digit(s[at]) {
        if at + 1 < s.len() && is_digit(s[at + 1]) {
            2
        } else {
            1
        }
    } else {
        0
    }
}

/// The byte order whose word stands in `s` at position `at`.
pub open spec fn endianness_at(s: Seq<char>, at: int) -> Option<Endianness> {
    if word_at(s, at, "be"@) {
        Some(Endianness::Big)
    } else if word_at(s, at, "le"@) {
        Some(Endianness::Little)
    } else {
        None
    }
}

/// The container that the end of a descriptor names: none where nothing
/// follows the byte order, one of the four where its suffix follows, and
/// `None` for anything else.
pub open spec fn container_suffix(s: Seq<char>) -> Option<Option<BitSize>> {
    if s.len() == 0 {
        Some(None)
    } else if s == ":8"@ {
        Some(Some(BitSize::Bits8))
    } else if s == ":16"@ {
        Some(Some(BitSize::Bits16))
    } else if s == ":32"@ {
        Some(Some(BitSize::Bits32))
    } else if s == ":64"@ {
        Some(Some(BitSize::Bits64))
    } else {
        None
    }
}

/// The field type that the descriptor `s` names. An integer needs its width,
/// between 1 and 64, in one or two digits; a float or double takes none. The
/// container is the one that the suffix names, else the smallest that holds
/// the width.
pub open spec fn parse_descriptor(s: Seq<char>) -> Option<FieldType> {
    let kind = kind_len(s);
    let digits = digit_run(s, kind);
    let bits = digits_value(s.subrange(kind, kind + digits));
    let mark = kind + digits;
    if kind == 0 || !word_at(s, mark, "_"@) {
        None
    } else {
        match (endianness_at(s, mark + 1), container_suffix(s.skip(mark + 3))) {
            (Some(endianness), Some(container)) => {
                if kind == 5 || kind == 6 {
                    if digits != 0 {
                        None
                    } else if kind == 5 {
                        Some(FieldType::Float(endianness))
                    } else {
                        Some(FieldType::Double(endianness))
                    }
                } else if digits == 0 || bits < 1 || bits > 64 {
                    None
                } else {
                    let bit_size = match container {
                        Some(bit_size) => bit_size,
                        None => BitSize::spec_fits_within(bits as usize),
                    };
                    if kind == 4 {
                        Some(FieldType::Uint(bits as usize, endianness, bit_size))
                    } else {
                        Some(FieldType::Int(bits as usize, endianness, bit_size))
                    }
                }
            },
            _ => None,
        }
    }
}

/// The word of a byte order.
pub open spec fn endianness_word(endianness: Endianness) -> Seq<char> {
    match endianness {
        Endianness::Little => "le"@,
        Endianness::Big => "be"@,
    }
}

/// The width, the byte order and, where the container is not as wide as the
/// field, the container.
pub open spec fn integer_tail(num_bits: NumBits, endianness: Endianness, bit_size: BitSize) -> Seq<char> {
    let tail = decimal(num_bits as nat) + "_"@ + endianness_word(endianness);
    if num_bits != bit_size.spec_num_bits() {
        tail + ":"@ + decimal(bit_size.spec_num_bits() as nat)
    } else {
        tail
    }
}

/// The underscore and the byte order.
pub open spec fn float_tail(endianness: Endianness) -> Seq<char> {
    "_"@ + endianness_word(endianness)
}

/// The descriptor of a field type.
pub open spec fn descriptor(typ: FieldType) -> Seq<char> {
    match typ {
        FieldType::Int(num_bits, endianness, bit_size) => "int"@ + integer_tail(num_bits, endianness, bit_size),
        FieldType::Uint(num_bits, endianness, bit_size) => "uint"@ + integer_tail(num_bits, endianness, bit_size),
        FieldType::Float(endianness) => "float"@ + float_tail(endianness),
        FieldType::Double(endianness) => "double"@ + float_tail(endianness),
    }
}

/// The decimal text of an integer value; a float or double has none here.
pub open spec fn value_text(value: Value) -> Option<Seq<char>> {
    match value {
        Value::Uint8(val) => Some(crate::text::signed_decimal(val as int)),
        Value::Int8(val) => Some(crate::text::signed_decimal(val as int)),
        Value::Uint16(val) => Some(crate::text::signed_decimal(val as int)),
        Value::Int16(val) => Some(crate::text::signed_decimal(val as int)),
        Value::Uint32(val) => Some(crate::text::signed_decimal(val as int)),
        Value::Int32(val) => Some(crate::text::signed_decimal(val as int)),
        Value::Uint64(val) => Some(crate::text::signed_decimal(val as int)),
        Value::Int64(val) => Some(crate::text::signed_decimal(val as int)),
        Value::Float(_) => None,
        Value::Double(_) => None,
    }
}

/// One row of a record: type, description and value, with commas between.
pub open spec fn record_row(typ: FieldType, description: Seq<char>, value: Seq<char>) -> Seq<char> {
    descriptor(typ) + ","@ + description + ","@ + value
}

fn has_word(chars: &Vec<char>, at: usize, word: &str) -> (found: bool)
    ensures
        found == word_at(chars@, at as int, word@),
{
    let len: usize = word.unicode_len();
    if at > chars.len() || len > chars.len() - at {
        return false;
    }
    let mut i: usize = 0;
    while i < len
        invariant
            i <= len,
            len == word@.len(),
            at + len <= chars.len(),
            forall|j: int| 0 <= j < i ==> same_letter(#[trigger] chars@[at + j], word@[j]),
        decreases len - i,
    {
        let c: char = chars[at + i];
        let letter: char = word.get_char(i);
        let code: u32 = letter as u32;
        if !(c == letter || (97 <= code && code <= 122 && c as u32 == code - 32)) {
            assert(!same_letter(chars@[at + i], word@[i as int]));
            return false;
        }
        i = i + 1;
    }
    true
}

fn is_digit_at(chars: &Vec<char>, at: usize) -> (digit: bool)
    ensures
        digit == (at < chars@.len() && is_digit(chars@[at as int])),
{
    if at < chars.len() {
        let code: u32 = chars[at] as u32;
        48 <= code && code <= 57
    } else {
        false
    }
}

fn suffix_container(chars: &Vec<char>, from: usize) -> (r: Option<Option<BitSize>>)
    requires
        from <= chars@.len(),
    ensures
        r == container_suffix(chars@.skip(from as int)),
{
    let ghost s = chars@.skip(from as int);
    let len: usize = chars.len() - from;
    proof {
        reveal_strlit(":8");
        reveal_strlit(":16");
        reveal_strlit(":32");
        reveal_strlit(":64");
    }
    if len == 0 {
        Some(None)
    } else if len == 2 {
        assert(s[0] == chars@[from as int] && s[1] == chars@[from + 1]);
        if chars[from] == ':' && chars[from + 1] == '8' {
            assert(s =~= ":8"@);
            Some(Some(BitSize::Bits8))
        } else {
            None
        }
    } else if len == 3 {
        assert(s[0] == chars@[from as int] && s[1] == chars@[from + 1] && s[2] == chars@[from + 2]);
        if chars[from] != ':' {
            None
        } else if chars[from + 1] == '1' && chars[from + 2] == '6' {
            assert(s =~= ":16"@);
            Some(Some(BitSize::Bits16))
        } else if chars[from + 1] == '3' && chars[from + 2] == '2' {
            assert(s =~= ":32"@);
            Some(Some(BitSize::Bits32))
        } else if chars[from + 1] == '6' && chars[from + 2] == '4' {
            assert(s =~= ":64"@);
            Some(Some(BitSize::Bits64))
        } else {
            None
        }
    } else {
        None
    }
}

/// Reads a type descriptor. Fails where `type_str` as a whole is none: on
/// another kind or byte order, on an integer without a width or with one
/// outside of 1 to 64, on a float or double with a width, and on anything
/// before or after the descriptor.
pub fn parse_type(type_str: &str) -> (r: Result<FieldType, FieldParseError>)
    ensures
        match parse_descriptor(type_str@) {
            Some(typ) => r == Ok::<FieldType, FieldParseError>(typ),
            None => r is Err,
        },
{
    let chars: Vec<char> = chars_of(type_str);
    let kind: usize = if has_word(&chars, 0, "float") {
        5
    } else if has_word(&chars, 0, "double") {
        6
    } else if has_word(&chars, 0, "uint") {
        4
    } else if has_word(&chars, 0, "int") {
        3
    } else {
        return Err(FieldParseError);
    };
    proof {
        reveal_strlit("float");
        reveal_strlit("double");
        reveal_strlit("uint");
        reveal_strlit("int");
        reveal_strlit("_");
        reveal_strlit("be");
        reveal_strlit("le");
    }
    let digits: usize = if is_digit_at(&chars, kind) {
        if is_digit_at(&chars, kind + 1) {
            2
        } else {
            1
        }
    } else {
        0
    };
    let mark: usize = kind + digits;
    if !has_word(&chars, mark, "_") {
        return Err(FieldParseError);
    }
    let endianness: Endianness = if has_word(&chars, mark + 1, "be") {
        Endianness::Big
    } else if has_word(&chars, mark + 1, "le") {
        Endianness::Little
    } else {
        return Err(FieldParseError);
    };
    let container: Option<BitSize> = match suffix_container(&chars, mark + 3) {
        Some(container) => container,
        None => {
            return Err(FieldParseError);
        },
    };
    if kind == 5 || kind == 6 {
        if digits != 0 {
            Err(FieldParseError)
        } else if kind == 5 {
            Ok(FieldType::Float(endianness))
        } else {
            Ok(FieldType::Double(endianness))
        }
    } else {
        let bits: u64 = match parse_digits(&chars, kind, mark) {
            Some(bits) => bits,
            None => {
                proof {
                    lemma_two_digits(chars@.subrange(kind as int, mark as int));
                }
                return Err(FieldParseError);
            },
        };
        if bits < 1 || bits > 64 {
            return Err(FieldParseError);
        }
        let num_bits: NumBits = bits as usize;
        let bit_size: BitSize = match container {
            Some(bit_size) => bit_size,
            None => BitSize::fits_within(num_bits),
        };
        if kind == 4 {
            Ok(FieldType::Uint(num_bits, endianness, bit_size))
        } else {
            Ok(FieldType::Int(num_bits, endianness, bit_size))
        }
    }
}

/// Up to two digits spell a number under one hundred.
pub proof fn lemma_two_digits(s: Seq<char>)
    requires
        s.len() <= 2,
        crate::text::all_digits(s),
    ensures
        digits_value(s) < 100,
{
    reveal_with_fuel(digits_value, 3);
    if s.len() == 2 {
        assert(s.drop_last().len() == 1);
        assert(s.drop_last().drop_last().len() == 0);
        assert(is_digit(s[0]) && is_digit(s[1]));
        assert(s.drop_last().last() == s[0]);
        assert(digits_value(s.drop_last().drop_last()) == 0);
    } else if s.len() == 1 {
        assert(s.drop_last().len() == 0);
        assert(is_digit(s[0]));
    }
}

impl std::str::FromStr for FieldType {
    type Err = FieldParseError;

    /// Reads a type descriptor, as `parse_type` does.
    fn from_str(type_str: &str) -> (r: Result<FieldType, FieldParseError>)
        ensures
            match parse_descriptor(type_str@) {
                Some(typ) => r == Ok::<FieldType, FieldParseError>(typ),
                None => r is Err,
            },
    {
        parse_type(type_str)
    }
}

impl Endianness {
    /// The word of the byte order: `le` or `be`.
    pub fn to_string(&self) -> (word: String)
        ensures
            word@ == endianness_word(*self),
    {
        match self {
            Endianness::Little => String::from_str("le"),
            Endianness::Big => String::from_str("be"),
        }
    }
}

impl BitSize {
    /// The container that `chars` names by its width in bits. There are four:
    /// 8, 16, 32 and 64.
    pub fn from_str_bits(chars: &str) -> (bit_size: Self)
        requires
            chars@ == "8"@ || chars@ == "16"@ || chars@ == "32"@ || chars@ == "64"@,
        ensures
            chars@ == "8"@ ==> bit_size == BitSize::Bits8,
            chars@ == "16"@ ==> bit_size == BitSize::Bits16,
            chars@ == "32"@ ==> bit_size == BitSize::Bits32,
            chars@ == "64"@ ==> bit_size == BitSize::Bits64,
    {
        proof {
            reveal_strlit("8");
            reveal_strlit("16");
            reveal_strlit("32");
            reveal_strlit("64");
        }
        let first: char = chars.get_char(0);
        if first == '8' {
            BitSize::Bits8
        } else if first == '1' {
            BitSize::Bits16
        } else if first == '3' {
            BitSize::Bits32
        } else {
            BitSize::Bits64
        }
    }
}

fn push_integer_tail(text: &mut String, num_bits: NumBits, endianness: Endianness, bit_size: BitSize)
    ensures
        final(text)@ == old(text)@ + integer_tail(num_bits, endianness, bit_size),
{
    let ghost before = text@;
    push_decimal(text, num_bits as u64);
    text.append("_");
    text.append(endianness.to_string().as_str());
    let ghost tail = decimal(num_bits as nat) + "_"@ + endianness_word(endianness);
    assert(text@ =~= before + tail);
    if num_bits != bit_size.num_bytes() * 8 {
        text.append(":");
        push_decimal(text, (bit_size.num_bytes() * 8) as u64);
        assert(text@ =~= before + (tail + ":"@ + decimal(bit_size.spec_num_bits() as nat)));
    }
}

impl FieldType {
    /// The descriptor of the type.
    pub fn to_string(&self) -> (text: String)
        ensures
            text@ == descriptor(*self),
    {
        match self {
            FieldType::Int(num_bits, endianness, bit_size) => {
                let mut text = String::from_str("int");
                push_integer_tail(&mut text, *num_bits, *endianness, *bit_size);
                text
            },
            FieldType::Uint(num_bits, endianness, bit_size) => {
                let mut text = String::from_str("uint");
                push_integer_tail(&mut text, *num_bits, *endianness, *bit_size);
                text
            },
            FieldType::Float(endianness) => {
                let mut text = String::from_str("float");
                text.append("_");
                text.append(endianness.to_string().as_str());
                assert(text@ =~= "float"@ + float_tail(*endianness));
                text
            },
            FieldType::Double(endianness) => {
                let mut text = String::from_str("double");
                text.append("_");
                text.append(endianness.to_string().as_str());
                assert(text@ =~= "double"@ + float_tail(*endianness));
                text
            },
        }
    }
}

impl Value {
    /// The decimal text of an integer value. The text of a float or double is
    /// for the caller to write from the pattern: the result is `None`.
    pub fn to_string(&self) -> (text: Option<String>)
        ensures
            match value_text(*self) {
                Some(digits) => text matches Some(t) && t@ == digits,
                None => text is None,
            },
    {
        match self {
            Value::Uint8(val) => Some(crate::text::decimal_string(*val as u64)),
            Value::Int8(val) => Some(crate::text::signed_decimal_string(*val as i64)),
            Value::Uint16(val) => Some(crate::text::decimal_string(*val as u64)),
            Value::Int16(val) => Some(crate::text::signed_decimal_string(*val as i64)),
            Value::Uint32(val) => Some(crate::text::decimal_string(*val as u64)),
            Value::Int32(val) => Some(crate::text::signed_decimal_string(*val as i64)),
            Value::Uint64(val) => Some(crate::text::decimal_string(*val)),
            Value::Int64(val) => Some(crate::text::signed_decimal_string(*val)),
            Value::Float(_) => None,
            Value::Double(_) => None,
        }
    }
}

impl Field {
    /// The row of the field with `value` as the text of its value.
    pub fn record_with(&self, value: &str) -> (row: String)
        ensures
            row@ == record_row(self.typ, self.description@, value@),
    {
        let mut row = self.typ.to_string();
        row.append(",");
        row.append(self.description.as_str());
        row.append(",");
        row.append(value);
        assert(row@ =~= record_row(self.typ, self.description@, value@));
        row
    }

    /// The row of a field with an integer value: type, description and value.
    /// The value of a float or double has no text here: the result is `None`.
    pub fn to_record(&self) -> (row: Option<String>)
        ensures
            match value_text(self.value) {
                Some(digits) => row matches Some(r) && r@ == record_row(self.typ, self.description@, digits),
                None => row is None,
            },
    {
        match self.value.to_string() {
            Some(value) => Some(self.record_with(value.as_str())),
            None => None,
        }
    }
}

/// What follows the kind in the descriptor of an integer is read back as the
/// width, the byte order and the container.
proof fn lemma_integer_tail(s: Seq<char>, kind: int, num_bits: usize, endianness: Endianness, bit_size: BitSize)
    requires
        1 <= num_bits <= 64,
        0 <= kind <= s.len(),
        s.skip(kind) == integer_tail(num_bits, endianness, bit_size),
    ensures
        digit_run(s, kind) >= 1,
        digits_value(s.subrange(kind, kind + digit_run(s, kind))) == num_bits,
        word_at(s, kind + digit_run(s, kind), "_"@),
        endianness_at(s, kind + digit_run(s, kind) + 1) == Some(endianness),
        container_suffix(s.skip(kind + digit_run(s, kind) + 3)) == (if num_bits == bit_size.spec_num_bits() {
            Some(None::<BitSize>)
        } else {
            Some(Some(bit_size))
        }),
{
    reveal_strlit("_");
    reveal_strlit("be");
    reveal_strlit("le");
    reveal_strlit(":");
    reveal_strlit(":8");
    reveal_strlit(":16");
    reveal_strlit(":32");
    reveal_strlit(":64");
    lemma_decimal_digits(num_bits as nat);
    lemma_decimal_digits(bit_size.spec_num_bits() as nat);
    let tail = s.skip(kind);
    let digits = decimal(num_bits as nat);
    let d = digits.len() as int;
    let word = endianness_word(endianness);
    let head = digits + "_"@ + word;
    assert(head.len() == d + 3);
    let suffix = if num_bits == bit_size.spec_num_bits() {
        Seq::<char>::empty()
    } else {
        ":"@ + decimal(bit_size.spec_num_bits() as nat)
    };
    assert(tail =~= head + suffix);
    assert(tail.len() >= d + 3);
    assert(s.len() >= kind + d + 3);
    assert forall|i: int| 0 <= i < tail.len() implies s[kind + i] == #[trigger] tail[i] by {}
    assert forall|i: int| 0 <= i < d + 3 implies tail[i] == head[i] by {}
    assert(tail[0] == digits[0]);
    assert(s[kind] == digits[0]);
    assert(is_digit(digits[0]));
    if d == 2 {
        assert(tail[1] == digits[1]);
        assert(s[kind + 1] == digits[1]);
        assert(is_digit(digits[1]));
    } else {
        assert(tail[1] == '_');
        assert(s[kind + 1] == '_');
    }
    assert(digit_run(s, kind) == d);
    assert(s.subrange(kind, kind + d) =~= digits);
    assert(tail[d] == '_');
    assert(s[kind + d] == '_');
    assert(word_at(s, kind + d, "_"@)) by {
        assert forall|i: int| 0 <= i < "_"@.len() implies same_letter(#[trigger] s[kind + d + i], "_"@[i]) by {
            assert(i == 0);
        }
    }
    assert(tail[d + 1] == word[0]);
    assert(tail[d + 2] == word[1]);
    assert(s[kind + d + 1] == word[0]);
    assert(s[kind + d + 1 + 1] == word[1]);
    assert(word_at(s, kind + d + 1, word)) by {
        assert forall|i: int| 0 <= i < word.len() implies same_letter(#[trigger] s[kind + d + 1 + i], word[i]) by {
            assert(i == 0 || i == 1);
        }
    }
    if endianness == Endianness::Little {
        assert(!word_at(s, kind + d + 1, "be"@)) by {
            assert(!same_letter(s[kind + d + 1 + 0], "be"@[0]));
        }
    }
    assert(s.skip(kind + d + 3) =~= tail.skip(d + 3));
    assert(tail.skip(d + 3) =~= suffix);
    if num_bits != bit_size.spec_num_bits() {
        match bit_size {
            BitSize::Bits8 => {
                assert(suffix =~= ":8"@);
            },
            BitSize::Bits16 => {
                assert(suffix =~= ":16"@);
                assert(suffix.len() != ":8"@.len());
            },
            BitSize::Bits32 => {
                assert(suffix =~= ":32"@);
                assert(suffix.len() != ":8"@.len());
                assert(suffix[1] != ":16"@[1]);
            },
            BitSize::Bits64 => {
                assert(suffix =~= ":64"@);
                assert(suffix.len() != ":8"@.len());
                assert(suffix[1] != ":16"@[1]);
                assert(suffix[1] != ":32"@[1]);
            },
        }
    }
}

/// The kind that a descriptor starts with is read back by its length.
proof fn lemma_kind(kind: Seq<char>, tail: Seq<char>)
    requires
        kind == "int"@ || kind == "uint"@ || kind == "float"@ || kind == "double"@,
    ensures
        kind_len(kind + tail) == kind.len(),
        (kind + tail).skip(kind.len() as int) == tail,
        3 <= kind.len() <= 6,
{
    reveal_strlit("int");
    reveal_strlit("uint");
    reveal_strlit("float");
    reveal_strlit("double");
    let s = kind + tail;
    assert(s.skip(kind.len() as int) =~= tail);
    assert(s[0] == kind[0]);
    assert(word_at(s, 0, kind)) by {
        assert forall|i: int| 0 <= i < kind.len() implies same_letter(#[trigger] s[0 + i], kind[i]) by {
            assert(s[i] == kind[i]);
        }
    }
    if kind != "float"@ {
        assert(!word_at(s, 0, "float"@)) by {
            assert(!same_letter(s[0int + 0int], "float"@[0]));
        }
    }
    if kind != "float"@ && kind != "double"@ {
        assert(!word_at(s, 0, "double"@)) by {
            assert(!same_letter(s[0int + 0int], "double"@[0]));
        }
    }
    if kind == "int"@ {
        assert(!word_at(s, 0, "uint"@)) by {
            assert(!same_letter(s[0int + 0int], "uint"@[0]));
        }
    }
}

/// What follows the kind in the descriptor of a float or double is read back
/// as the byte order.
proof fn lemma_float_tail(s: Seq<char>, kind: int, endianness: Endianness)
    requires
        0 <= kind <= s.len(),
        s.skip(kind) == float_tail(endianness),
    ensures
        digit_run(s, kind) == 0,
        word_at(s, kind, "_"@),
        endianness_at(s, kind + 1) == Some(endianness),
        container_suffix(s.skip(kind + 3)) == Some(None::<BitSize>),
{
    reveal_strlit("_");
    reveal_strlit("be");
    reveal_strlit("le");
    let tail = s.skip(kind);
    let word = endianness_word(endianness);
    assert(tail.len() == 3);
    assert forall|i: int| 0 <= i < tail.len() implies s[kind + i] == #[trigger] tail[i] by {}
    assert(tail[0] == '_');
    assert(s[kind] == '_');
    assert(word_at(s, kind, "_"@)) by {
        assert forall|i: int| 0 <= i < "_"@.len() implies same_letter(#[trigger] s[kind + i], "_"@[i]) by {
            assert(i == 0);
        }
    }
    assert(tail[1] == word[0]);
    assert(tail[2] == word[1]);
    assert(s[kind + 1] == word[0]);
    assert(s[kind + 1 + 1] == word[1]);
    assert(word_at(s, kind + 1, word)) by {
        assert forall|i: int| 0 <= i < word.len() implies same_letter(#[trigger] s[kind + 1 + i], word[i]) by {
            assert(i == 0 || i == 1);
        }
    }
    if endianness == Endianness::Little {
        assert(!word_at(s, kind + 1, "be"@)) by {
            assert(!same_letter(s[kind + 1 + 0], "be"@[0]));
        }
    }
    assert(s.skip(kind + 3) =~= Seq::<char>::empty());
}

/// The descriptor of an integer type reads back as the type.
proof fn lemma_integer_reads_back(kind: Seq<char>, num_bits: usize, endianness: Endianness, bit_size: BitSize)
    requires
        1 <= num_bits <= 64,
        kind == "int"@ || kind == "uint"@,
    ensures
        parse_descriptor(kind + integer_tail(num_bits, endianness, bit_size)) == Some(
            if kind == "uint"@ {
                FieldType::Uint(num_bits, endianness, bit_size)
            } else {
                FieldType::Int(num_bits, endianness, bit_size)
            },
        ),
{
    let tail = integer_tail(num_bits, endianness, bit_size);
    lemma_kind(kind, tail);
    lemma_integer_tail(kind + tail, kind.len() as int, num_bits, endianness, bit_size);
    reveal_strlit("int");
    reveal_strlit("uint");
}

/// The descriptor of a float or double reads back as the type.
proof fn lemma_float_reads_back(kind: Seq<char>, endianness: Endianness)
    requires
        kind == "float"@ || kind == "double"@,
    ensures
        parse_descriptor(kind + float_tail(endianness)) == Some(
            if kind == "float"@ {
                FieldType::Float(endianness)
            } else {
                FieldType::Double(endianness)
            },
        ),
{
    let tail = float_tail(endianness);
    lemma_kind(kind, tail);
    lemma_float_tail(kind + tail, kind.len() as int, endianness);
    reveal_strlit("float");
    reveal_strlit("double");
}

/// Reading undoes writing: the descriptor of a field type reads back as the
/// type, for a float, a double, and an integer of one to 64 bits in any
/// container.
pub proof fn lemma_descriptor_reads_back(typ: FieldType)
    requires
        typ is Int || typ is Uint ==> 1 <= typ.spec_num_bits() <= 64,
    ensures
        parse_descriptor(descriptor(typ)) == Some(typ),
{
    match typ {
        FieldType::Int(num_bits, endianness, bit_size) => {
            lemma_integer_reads_back("int"@, num_bits, endianness, bit_size);
            assert("int"@ != "uint"@) by {
                reveal_strlit("int");
                reveal_strlit("uint");
            }
        },
        FieldType::Uint(num_bits, endianness, bit_size) => {
            lemma_integer_reads_back("uint"@, num_bits, endianness, bit_size);
        },
        FieldType::Float(endianness) => {
            lemma_float_reads_back("float"@, endianness);
        },
        FieldType::Double(endianness) => {
            lemma_float_reads_back("double"@, endianness);
            assert("double"@ != "float"@) by {
                reveal_strlit("float");
                reveal_strlit("double");
            }
        },
    }
}

} // verus!
