use inlay::decode::{decode, decode_record};
use inlay::encode::{encode_fields, encode_records};
use inlay::template::Template;
use inlay::types::{BitSize, Endianness, Field, FieldType, HasNumBits, Value};

struct Numbers(u64);

impl Numbers {
    fn next(&mut self) -> u64 {
        self.0 ^= self.0 << 13;
        self.0 ^= self.0 >> 7;
        self.0 ^= self.0 << 17;
        self.0
    }

    fn below(&mut self, bound: u64) -> u64 {
        self.next() % bound
    }
}

fn container(numbers: &mut Numbers) -> BitSize {
    match numbers.below(4) {
        0 => BitSize::Bits8,
        1 => BitSize::Bits16,
        2 => BitSize::Bits32,
        _ => BitSize::Bits64,
    }
}

fn mask(num_bits: usize) -> u64 {
    if num_bits >= 64 {
        u64::MAX
    } else {
        (1u64 << num_bits) - 1
    }
}

fn value(signed: bool, num_bits: usize, bits: u64) -> Value {
    let bits = bits & mask(num_bits);
    match (signed, num_bits) {
        (false, 0..=8) => Value::Uint8(bits as u8),
        (false, 9..=16) => Value::Uint16(bits as u16),
        (false, 17..=32) => Value::Uint32(bits as u32),
        (false, _) => Value::Uint64(bits),
        (true, 0..=8) => Value::Int8(bits as i8),
        (true, 9..=16) => Value::Int16(bits as i16),
        (true, 17..=32) => Value::Int32(bits as i32),
        (true, _) => Value::Int64(bits as i64),
    }
}

fn integer(numbers: &mut Numbers, num_bits: usize, endianness: Endianness, bit_size: BitSize) -> Field {
    let signed = numbers.below(2) == 0;
    let typ = if signed {
        FieldType::Int(num_bits, endianness, bit_size)
    } else {
        FieldType::Uint(num_bits, endianness, bit_size)
    };
    Field { value: value(signed, num_bits, numbers.next()), typ: typ, description: format!("{}", num_bits) }
}

fn whole(numbers: &mut Numbers, endianness: Endianness) -> Field {
    match numbers.below(6) {
        0 => Field::float(numbers.next() as u32, endianness, "float".to_string()),
        1 => Field::double(numbers.next(), endianness, "double".to_string()),
        _ => {
            let bit_size = container(numbers);
            integer(numbers, bit_size.num_bytes() * 8, endianness, bit_size)
        }
    }
}

fn group(numbers: &mut Numbers, fields: &mut Vec<Field>) {
    let bit_size = container(numbers);
    let mut room = bit_size.num_bytes() * 8;
    while room > 0 {
        let num_bits = 1 + numbers.below(room as u64) as usize;
        fields.push(integer(numbers, num_bits, Endianness::Big, bit_size));
        room -= num_bits;
    }
}

fn open_group(numbers: &mut Numbers, fields: &mut Vec<Field>) {
    let bit_size = container(numbers);
    let mut room = bit_size.num_bytes() * 8;
    while room >= 8 {
        let num_bits = 1 + numbers.below(room as u64) as usize;
        fields.push(integer(numbers, num_bits, Endianness::Big, bit_size));
        room -= num_bits;
    }
}

fn record(numbers: &mut Numbers) -> Vec<Field> {
    let mut fields = Vec::new();
    for _ in 0..numbers.below(4) {
        fields.push(whole(numbers, Endianness::Little));
    }
    for _ in 0..numbers.below(5) {
        if numbers.below(3) == 0 {
            fields.push(whole(numbers, Endianness::Big));
        } else {
            group(numbers, &mut fields);
        }
    }
    if numbers.below(2) == 0 {
        open_group(numbers, &mut fields);
    }
    fields
}

fn bits_of(fields: &Vec<Field>) -> Vec<bool> {
    let mut bits = Vec::new();
    for field in fields {
        let num_bits = field.typ.num_bits();
        for k in (0..num_bits).rev() {
            bits.push((field.value.raw_bits() >> k) & 1 == 1);
        }
    }
    bits
}

#[test]
fn decoding_undoes_encoding_of_records_that_fill_their_containers() {
    let mut open = 0;
    let mut numbers = Numbers(0x2545_f491_4f6c_dd1d);
    for _ in 0..2000 {
        let fields = record(&mut numbers);
        let templates: Vec<Template> =
            fields.iter().map(|field| Template::new(field.typ, field.description.clone())).collect();
        let bytes = encode_fields(&fields).unwrap();
        assert_eq!(bytes.len(), (fields.num_bits() + 7) / 8);
        if fields.num_bits() % 8 != 0 {
            open += 1;
        }
        assert_eq!(decode_record(&bytes, &templates), Some(fields));
    }
    assert!(open > 100);
}

#[test]
fn a_record_of_big_endian_fields_holds_their_bits_in_order() {
    let mut numbers = Numbers(0x9e37_79b9_7f4a_7c15);
    for _ in 0..2000 {
        let mut fields = Vec::new();
        let mut staged = 0;
        for _ in 0..numbers.below(12) {
            if staged == 64 {
                break;
            }
            let num_bits = 1 + numbers.below(64 - staged as u64) as usize;
            fields.push(integer(&mut numbers, num_bits, Endianness::Big, BitSize::Bits64));
            staged = if (staged + num_bits) % 8 == 0 { 0 } else { staged + num_bits };
        }
        let bytes = encode_fields(&fields).unwrap();
        let mut expected = bits_of(&fields);
        assert_eq!(bytes.len(), (expected.len() + 7) / 8);
        while expected.len() % 8 != 0 {
            expected.push(false);
        }
        let written: Vec<bool> =
            bytes.iter().flat_map(|byte| (0..8).rev().map(move |k| (byte >> k) & 1 == 1)).collect();
        assert_eq!(written, expected);
    }
}

#[test]
fn a_record_takes_its_width_in_bytes_rounded_up() {
    let mut numbers = Numbers(0xdead_beef_cafe_f00d);
    let mut encoded = 0;
    for _ in 0..4000 {
        let mut fields = Vec::new();
        for _ in 0..numbers.below(8) {
            let endianness = if numbers.below(2) == 0 { Endianness::Big } else { Endianness::Little };
            let bit_size = container(&mut numbers);
            let num_bits = 1 + numbers.below(24) as usize;
            fields.push(integer(&mut numbers, num_bits, endianness, bit_size));
        }
        if let Some(bytes) = encode_fields(&fields) {
            assert_eq!(bytes.len(), (fields.num_bits() + 7) / 8);
            encoded += 1;
        }
    }
    assert!(encoded > 1000);
}

#[test]
fn decoding_undoes_encoding_of_streams_of_records() {
    let mut numbers = Numbers(0x0123_4567_89ab_cdef);
    for _ in 0..300 {
        let layout = loop {
            let layout = record(&mut numbers);
            if !layout.is_empty() {
                break layout;
            }
        };
        let templates: Vec<Template> =
            layout.iter().map(|field| Template::new(field.typ, field.description.clone())).collect();
        let records: Vec<Vec<Field>> = (0..numbers.below(6))
            .map(|_| {
                layout
                    .iter()
                    .map(|field| {
                        let signed = matches!(field.typ, FieldType::Int(_, _, _));
                        let bits = numbers.next();
                        let value = match field.typ {
                            FieldType::Float(_) => Value::Float(bits as u32),
                            FieldType::Double(_) => Value::Double(bits),
                            _ => value(signed, field.typ.num_bits(), bits),
                        };
                        Field { value: value, typ: field.typ, description: field.description.clone() }
                    })
                    .collect()
            })
            .collect();
        let bytes = encode_records(&records).unwrap();
        assert_eq!(bytes.len(), records.len() * ((layout.num_bits() + 7) / 8));
        assert_eq!(decode(&bytes, &templates), Some(records));
    }
}
