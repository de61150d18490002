use std::str::FromStr;

use inlay::bit_buffer::{mask_of, BitBuffer};
use inlay::descriptor::{parse_type, FieldParseError};
use inlay::text::{chars_of, decimal_string, is_whitespace, parse_digits, parse_integer, signed_decimal_string, trim_bounds};
use inlay::types::{BitSize, Endianness, Field, FieldType, HasNumBits, Signedness, Value};

#[test]
fn builders_give_full_width_types() {
    let e = Endianness::Big;
    assert_eq!(FieldType::u8(e), FieldType::Uint(8, e, BitSize::Bits8));
    assert_eq!(FieldType::u16(e), FieldType::Uint(16, e, BitSize::Bits16));
    assert_eq!(FieldType::u32(e), FieldType::Uint(32, e, BitSize::Bits32));
    assert_eq!(FieldType::u64(e), FieldType::Uint(64, e, BitSize::Bits64));
    assert_eq!(FieldType::i8(e), FieldType::Int(8, e, BitSize::Bits8));
    assert_eq!(FieldType::i16(e), FieldType::Int(16, e, BitSize::Bits16));
    assert_eq!(FieldType::i32(e), FieldType::Int(32, e, BitSize::Bits32));
    assert_eq!(FieldType::i64(e), FieldType::Int(64, e, BitSize::Bits64));
    assert_eq!(FieldType::float(e), FieldType::Float(e));
    assert_eq!(FieldType::double(e), FieldType::Double(e));
}

#[test]
fn field_builders_pair_value_and_type() {
    let e = Endianness::Little;
    let d = "x".to_string();
    assert_eq!(Field::u8(1, e, d.clone()), Field { value: Value::Uint8(1), typ: FieldType::u8(e), description: d.clone() });
    assert_eq!(Field::u16(2, e, d.clone()), Field { value: Value::Uint16(2), typ: FieldType::u16(e), description: d.clone() });
    assert_eq!(Field::u32(3, e, d.clone()), Field { value: Value::Uint32(3), typ: FieldType::u32(e), description: d.clone() });
    assert_eq!(Field::u64(4, e, d.clone()), Field { value: Value::Uint64(4), typ: FieldType::u64(e), description: d.clone() });
    assert_eq!(Field::i8(-1, e, d.clone()), Field { value: Value::Int8(-1), typ: FieldType::i8(e), description: d.clone() });
    assert_eq!(Field::i16(-2, e, d.clone()), Field { value: Value::Int16(-2), typ: FieldType::i16(e), description: d.clone() });
    assert_eq!(Field::i32(-3, e, d.clone()), Field { value: Value::Int32(-3), typ: FieldType::i32(e), description: d.clone() });
    assert_eq!(Field::i64(-4, e, d.clone()), Field { value: Value::Int64(-4), typ: FieldType::i64(e), description: d.clone() });
    assert_eq!(Field::float(5, e, d.clone()), Field { value: Value::Float(5), typ: FieldType::float(e), description: d.clone() });
    assert_eq!(Field::double(6, e, d.clone()), Field { value: Value::Double(6), typ: FieldType::double(e), description: d.clone() });
}

#[test]
fn getters_project_the_parts_of_a_type() {
    let typ = FieldType::Int(5, Endianness::Little, BitSize::Bits16);
    assert_eq!(typ.endianness(), Endianness::Little);
    assert_eq!(typ.num_bits(), 5);
    assert_eq!(typ.bit_size(), BitSize::Bits16);
    let typ = FieldType::Uint(33, Endianness::Big, BitSize::Bits64);
    assert_eq!(typ.endianness(), Endianness::Big);
    assert_eq!(typ.num_bits(), 33);
    assert_eq!(typ.bit_size(), BitSize::Bits64);
    assert_eq!(FieldType::Float(Endianness::Big).num_bits(), 32);
    assert_eq!(FieldType::Float(Endianness::Big).bit_size(), BitSize::Bits32);
    assert_eq!(FieldType::Float(Endianness::Big).endianness(), Endianness::Big);
    assert_eq!(FieldType::Double(Endianness::Little).num_bits(), 64);
    assert_eq!(FieldType::Double(Endianness::Little).bit_size(), BitSize::Bits64);
    assert_eq!(FieldType::Double(Endianness::Little).endianness(), Endianness::Little);
}

#[test]
fn containers_have_their_sizes() {
    assert_eq!(BitSize::Bits8.num_bytes(), 1);
    assert_eq!(BitSize::Bits16.num_bytes(), 2);
    assert_eq!(BitSize::Bits32.num_bytes(), 4);
    assert_eq!(BitSize::Bits64.num_bytes(), 8);
    assert_eq!(HasNumBits::num_bits(&BitSize::Bits8), 8);
    assert_eq!(HasNumBits::num_bits(&BitSize::Bits16), 16);
    assert_eq!(HasNumBits::num_bits(&BitSize::Bits32), 32);
    assert_eq!(HasNumBits::num_bits(&BitSize::Bits64), 64);
    assert_eq!(BitSize::from_str_bits("8"), BitSize::Bits8);
    assert_eq!(BitSize::from_str_bits("16"), BitSize::Bits16);
    assert_eq!(BitSize::from_str_bits("32"), BitSize::Bits32);
    assert_eq!(BitSize::from_str_bits("64"), BitSize::Bits64);
}

#[test]
fn fits_within_is_the_smallest_container() {
    for num_bits in 0..=64usize {
        let expected = if num_bits <= 8 {
            BitSize::Bits8
        } else if num_bits <= 16 {
            BitSize::Bits16
        } else if num_bits <= 32 {
            BitSize::Bits32
        } else {
            BitSize::Bits64
        };
        assert_eq!(BitSize::fits_within(num_bits), expected);
    }
}

#[test]
fn widths_add_up() {
    let types = vec![FieldType::u8(Endianness::Big), FieldType::Uint(3, Endianness::Big, BitSize::Bits8), FieldType::Double(Endianness::Big)];
    assert_eq!(types.num_bits(), 75);
    assert_eq!(Vec::<FieldType>::new().num_bits(), 0);
    assert_eq!(HasNumBits::num_bits(&FieldType::Float(Endianness::Big)), 32);
    assert_eq!(HasNumBits::num_bits(&Value::Uint8(0)), 8);
    assert_eq!(HasNumBits::num_bits(&Value::Int8(0)), 8);
    assert_eq!(HasNumBits::num_bits(&Value::Uint16(0)), 16);
    assert_eq!(HasNumBits::num_bits(&Value::Int16(0)), 16);
    assert_eq!(HasNumBits::num_bits(&Value::Uint32(0)), 32);
    assert_eq!(HasNumBits::num_bits(&Value::Int32(0)), 32);
    assert_eq!(HasNumBits::num_bits(&Value::Uint64(0)), 64);
    assert_eq!(HasNumBits::num_bits(&Value::Int64(0)), 64);
    assert_eq!(HasNumBits::num_bits(&Value::Float(0)), 32);
    assert_eq!(HasNumBits::num_bits(&Value::Double(0)), 64);
    assert_eq!(HasNumBits::num_bits(&Field::u16(1, Endianness::Big, String::new())), 16);
}

#[test]
fn endianness_defaults_to_little() {
    assert_eq!(Endianness::default(), Endianness::Little);
    assert_eq!(Endianness::Little.to_string(), "le");
    assert_eq!(Endianness::Big.to_string(), "be");
    assert!(Signedness::Signed != Signedness::Unsigned);
}

#[test]
fn raw_bits_extend_signed_values() {
    assert_eq!(Value::Uint8(0xff).raw_bits(), 0xff);
    assert_eq!(Value::Int8(-1).raw_bits(), u64::MAX);
    assert_eq!(Value::Int16(-2).raw_bits(), u64::MAX - 1);
    assert_eq!(Value::Int32(i32::MIN).raw_bits(), 0xffff_ffff_8000_0000);
    assert_eq!(Value::Int64(i64::MIN).raw_bits(), 0x8000_0000_0000_0000);
    assert_eq!(Value::Uint16(0x1234).raw_bits(), 0x1234);
    assert_eq!(Value::Uint32(0x1234_5678).raw_bits(), 0x1234_5678);
    assert_eq!(Value::Uint64(u64::MAX).raw_bits(), u64::MAX);
    assert_eq!(Value::Float(0x40490fdb).raw_bits(), 0x40490fdb);
    assert_eq!(Value::Double(0x400921fb54442d18).raw_bits(), 0x400921fb54442d18);
}

#[test]
fn descriptors_are_read() {
    let big = Endianness::Big;
    let little = Endianness::Little;
    assert_eq!(parse_type("uint8_be"), Ok(FieldType::Uint(8, big, BitSize::Bits8)));
    assert_eq!(parse_type("int8_le"), Ok(FieldType::Int(8, little, BitSize::Bits8)));
    assert_eq!(parse_type("uint3_be"), Ok(FieldType::Uint(3, big, BitSize::Bits8)));
    assert_eq!(parse_type("uint9_be"), Ok(FieldType::Uint(9, big, BitSize::Bits16)));
    assert_eq!(parse_type("int17_le"), Ok(FieldType::Int(17, little, BitSize::Bits32)));
    assert_eq!(parse_type("int33_le"), Ok(FieldType::Int(33, little, BitSize::Bits64)));
    assert_eq!(parse_type("uint64_be"), Ok(FieldType::Uint(64, big, BitSize::Bits64)));
    assert_eq!(parse_type("uint1_be:8"), Ok(FieldType::Uint(1, big, BitSize::Bits8)));
    assert_eq!(parse_type("uint3_be:16"), Ok(FieldType::Uint(3, big, BitSize::Bits16)));
    assert_eq!(parse_type("int3_le:32"), Ok(FieldType::Int(3, little, BitSize::Bits32)));
    assert_eq!(parse_type("int3_le:64"), Ok(FieldType::Int(3, little, BitSize::Bits64)));
    assert_eq!(parse_type("uint16_be:8"), Ok(FieldType::Uint(16, big, BitSize::Bits8)));
    assert_eq!(parse_type("uint08_be"), Ok(FieldType::Uint(8, big, BitSize::Bits8)));
    assert_eq!(parse_type("float_be"), Ok(FieldType::Float(big)));
    assert_eq!(parse_type("float_le"), Ok(FieldType::Float(little)));
    assert_eq!(parse_type("double_be"), Ok(FieldType::Double(big)));
    assert_eq!(parse_type("double_le"), Ok(FieldType::Double(little)));
    assert_eq!(parse_type("float_be:32"), Ok(FieldType::Float(big)));
    assert_eq!(parse_type("UINT8_BE"), Ok(FieldType::Uint(8, big, BitSize::Bits8)));
    assert_eq!(parse_type("Double_Le"), Ok(FieldType::Double(little)));
    assert_eq!(FieldType::from_str("uint12_le:16"), Ok(FieldType::Uint(12, little, BitSize::Bits16)));
    assert_eq!("int7_be".parse::<FieldType>(), Ok(FieldType::Int(7, big, BitSize::Bits8)));
}

#[test]
fn what_is_no_descriptor_is_refused() {
    for text in ["", "uint", "uint8", "uint8_", "uint8_b", "uint8_me", "uint_be", "int_le", "uint0_be", "uint65_be",
        "uint99_be", "uint100_be", "uint064_be", "float32_be", "double64_le", "float8_be", "uint8_be:", "uint8_be:7",
        "uint8_be:128", "uint8_be:08", "uint8_be:16 ", " uint8_be", "xuint8_be", "uint8_bex", "uint8-be", "u?nt8_be",
        "uint8?be", "uint-8_be", "uint+8_be", "bool_be", "uint8_be:8:8", "uint٣_be"]
    {
        assert_eq!(parse_type(text), Err(FieldParseError), "{:?}", text);
        assert!(FieldType::from_str(text).is_err());
    }
}

#[test]
fn descriptors_are_written() {
    let big = Endianness::Big;
    let little = Endianness::Little;
    assert_eq!(FieldType::Uint(8, big, BitSize::Bits8).to_string(), "uint8_be");
    assert_eq!(FieldType::Int(16, little, BitSize::Bits16).to_string(), "int16_le");
    assert_eq!(FieldType::Uint(3, big, BitSize::Bits8).to_string(), "uint3_be:8");
    assert_eq!(FieldType::Int(12, little, BitSize::Bits16).to_string(), "int12_le:16");
    assert_eq!(FieldType::Int(8, little, BitSize::Bits32).to_string(), "int8_le:32");
    assert_eq!(FieldType::Uint(64, big, BitSize::Bits64).to_string(), "uint64_be");
    assert_eq!(FieldType::Float(big).to_string(), "float_be");
    assert_eq!(FieldType::Double(little).to_string(), "double_le");
}

#[test]
fn reading_undoes_writing_of_descriptors() {
    for endianness in [Endianness::Big, Endianness::Little] {
        for bit_size in [BitSize::Bits8, BitSize::Bits16, BitSize::Bits32, BitSize::Bits64] {
            for num_bits in 1..=64usize {
                let typ = FieldType::Uint(num_bits, endianness, bit_size);
                assert_eq!(parse_type(&typ.to_string()), Ok(typ));
                let typ = FieldType::Int(num_bits, endianness, bit_size);
                assert_eq!(parse_type(&typ.to_string()), Ok(typ));
            }
        }
        assert_eq!(parse_type(&FieldType::Float(endianness).to_string()), Ok(FieldType::Float(endianness)));
        assert_eq!(parse_type(&FieldType::Double(endianness).to_string()), Ok(FieldType::Double(endianness)));
    }
}

#[test]
fn integer_values_are_written_in_decimal() {
    assert_eq!(Value::Uint8(0).to_string(), Some("0".to_string()));
    assert_eq!(Value::Uint8(255).to_string(), Some("255".to_string()));
    assert_eq!(Value::Int8(-128).to_string(), Some("-128".to_string()));
    assert_eq!(Value::Uint16(65535).to_string(), Some("65535".to_string()));
    assert_eq!(Value::Int16(-1).to_string(), Some("-1".to_string()));
    assert_eq!(Value::Uint32(4000000000).to_string(), Some("4000000000".to_string()));
    assert_eq!(Value::Int32(i32::MIN).to_string(), Some("-2147483648".to_string()));
    assert_eq!(Value::Uint64(u64::MAX).to_string(), Some("18446744073709551615".to_string()));
    assert_eq!(Value::Int64(i64::MIN).to_string(), Some("-9223372036854775808".to_string()));
    assert_eq!(Value::Int64(i64::MAX).to_string(), Some("9223372036854775807".to_string()));
    assert_eq!(Value::Float(0x3f80_0000).to_string(), None);
    assert_eq!(Value::Double(0).to_string(), None);
}

#[test]
fn decimal_text_is_what_std_writes() {
    for n in [0u64, 1, 9, 10, 11, 99, 100, 101, 12345, 1 << 32, u64::MAX - 1, u64::MAX] {
        assert_eq!(decimal_string(n), format!("{}", n));
    }
    for i in [0i64, 1, -1, 9, -9, 10, -10, 1234567, -1234567, i64::MAX, i64::MIN, i64::MIN + 1] {
        assert_eq!(signed_decimal_string(i), format!("{}", i));
    }
}

#[test]
fn white_space_is_what_std_calls_white_space() {
    for code in 0..=0x10ffffu32 {
        if let Some(c) = char::from_u32(code) {
            assert_eq!(is_whitespace(c), c.is_whitespace(), "{:x}", code);
        }
    }
}

#[test]
fn trim_bounds_are_those_of_std() {
    for text in ["", " ", "a", " a", "a ", "  a b  ", "\t\n x \r\n", "\u{3000}x\u{2028}", "   "] {
        let chars = chars_of(text);
        assert_eq!(chars, text.chars().collect::<Vec<char>>());
        let (from, to) = trim_bounds(&chars);
        let trimmed: String = chars[from..to].iter().collect();
        assert_eq!(trimmed, text.trim());
    }
}

#[test]
fn digits_are_read_within_bounds() {
    let chars = chars_of("ab0123x");
    assert_eq!(parse_digits(&chars, 2, 6), Some(123));
    assert_eq!(parse_digits(&chars, 2, 7), None);
    assert_eq!(parse_digits(&chars, 3, 3), None);
    assert_eq!(parse_digits(&chars, 5, 6), Some(3));
    let chars = chars_of("-18446744073709551615");
    assert_eq!(parse_integer(&chars, 0, chars.len(), true), Some(-18446744073709551615i128));
    assert_eq!(parse_integer(&chars, 0, chars.len(), false), None);
    assert_eq!(parse_integer(&chars, 1, chars.len(), false), Some(18446744073709551615i128));
    let chars = chars_of("18446744073709551616");
    assert_eq!(parse_integer(&chars, 0, chars.len(), true), None);
}

#[test]
fn rows_hold_type_description_and_value() {
    let field = Field { value: Value::Uint8(5), typ: FieldType::Uint(3, Endianness::Big, BitSize::Bits8), description: "flags".to_string() };
    assert_eq!(field.to_record(), Some("uint3_be:8,flags,5".to_string()));
    assert_eq!(field.record_with("five"), "uint3_be:8,flags,five");
    let field = Field::float(0x3fc0_0000, Endianness::Little, "ratio".to_string());
    assert_eq!(field.to_record(), None);
    assert_eq!(field.record_with("1.5"), "float_le,ratio,1.5");
}

#[test]
fn masks_are_powers_of_two_less_one() {
    assert_eq!(mask_of(0), 0);
    assert_eq!(mask_of(1), 1);
    assert_eq!(mask_of(3), 7);
    assert_eq!(mask_of(8), 0xff);
    assert_eq!(mask_of(63), 0x7fff_ffff_ffff_ffff);
    assert_eq!(mask_of(64), u64::MAX);
    for n in 0..64u32 {
        assert_eq!(mask_of(n as u64), 2u64.pow(n) - 1);
        assert_eq!(BitBuffer { bits: 0, bits_avail: n as u8 }.mask(), 2u64.pow(n) - 1);
    }
    assert_eq!(BitBuffer { bits: 0, bits_avail: 64 }.mask(), u64::MAX);
}
