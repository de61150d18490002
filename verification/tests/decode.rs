use inlay::bit_buffer::BitBuffer;
use inlay::decode::{decode, decode_record, read_field, record_bytes, ByteReader};
use inlay::template::Template;
use inlay::types::{BitSize, Endianness, Field, FieldType, Value};

#[test]
fn test_read_field_be() {
    let buffer: Vec<u8> = vec![1, 0, 2, 0, 0, 0, 3, 0, 0, 0, 0, 0, 0, 0, 4];

    let descr = "Field".to_string();
    let endianness = Endianness::Big;

    let byte = Template::new(FieldType::u8(endianness), descr.clone());
    let word = Template::new(FieldType::u16(endianness), descr.clone());
    let doubleword = Template::new(FieldType::u32(endianness), descr.clone());
    let quadword = Template::new(FieldType::u64(endianness), descr.clone());

    let field1 = Field::u8(1, endianness, descr.clone());
    let field2 = Field::u16(2, endianness, descr.clone());
    let field3 = Field::u32(3, endianness, descr.clone());
    let field4 = Field::u64(4, endianness, descr.clone());

    let mut cursor = ByteReader::new(buffer.as_slice());

    let mut bit_buffer = Default::default();

    assert_eq!(read_field(&mut cursor, &mut bit_buffer, &byte), Some(field1));
    assert_eq!(read_field(&mut cursor, &mut bit_buffer, &word), Some(field2));
    assert_eq!(read_field(&mut cursor, &mut bit_buffer, &doubleword), Some(field3));
    assert_eq!(read_field(&mut cursor, &mut bit_buffer, &quadword), Some(field4));
}

#[test]
fn test_read_field_floating_be() {
    let buffer: Vec<u8> = vec![0x40, 0x49, 0x0f, 0xdb];

    let descr = "Field".to_string();
    let endianness = Endianness::Big;

    let float = Template::new(FieldType::float(endianness), descr.clone());

    let _field = Field::float(3.14159f32.to_bits(), endianness, descr.clone());

    let mut cursor = ByteReader::new(buffer.as_slice());

    let mut bit_buffer = Default::default();

    let field_result = read_field(&mut cursor, &mut bit_buffer, &float);

    let float = match field_result.unwrap().value {
        Value::Float(val) => f32::from_bits(val),
        _ => panic!("Decoding did not result in a float!"),
    };

    assert!((float - 3.1415927).abs() < 1.0e-6);
}

#[test]
fn test_read_field_floating_le() {
    let buffer: Vec<u8> = vec![0xdb, 0x0f, 0x49, 0x40];

    let descr = "Field".to_string();
    let endianness = Endianness::Little;

    let float = Template::new(FieldType::float(endianness), descr.clone());

    let _field = Field::float(3.14159f32.to_bits(), endianness, descr.clone());

    let mut cursor = ByteReader::new(buffer.as_slice());

    let mut bit_buffer = Default::default();

    let field_result = read_field(&mut cursor, &mut bit_buffer, &float);

    let float = match field_result.unwrap().value {
        Value::Float(val) => f32::from_bits(val),
        _ => panic!("Decoding did not result in a float!"),
    };

    assert!((float - 3.1415927).abs() < 1.0e-6);
}

#[test]
fn test_read_field_double_be() {
    let buffer: Vec<u8> = vec![0x40, 0x09, 0x21, 0xfb, 0x54, 0x44, 0x2e, 0xea];
    let descr = "Field".to_string();
    let endianness = Endianness::Big;

    let double = Template::new(FieldType::double(endianness), descr.clone());

    let _field = Field::double(3.141592541f64.to_bits(), endianness, descr.clone());

    let mut cursor = ByteReader::new(buffer.as_slice());

    let mut bit_buffer = Default::default();

    let field_result = read_field(&mut cursor, &mut bit_buffer, &double);

    let double = match field_result.unwrap().value {
        Value::Double(val) => f64::from_bits(val),
        _ => panic!("Decoding did not result in a double!"),
    };

    assert!((double - 3.141592541).abs() < 1.0e-6);
}

#[test]
fn test_read_field_double_le() {
    let buffer: Vec<u8> = vec![0xea, 0x2e, 0x43, 0x54, 0xfb, 0x21, 0x09, 0x40];

    let descr = "Field".to_string();
    let endianness = Endianness::Little;

    let double = Template::new(FieldType::double(endianness), descr.clone());

    let _field = Field::double(3.1415926535f64.to_bits(), endianness, descr.clone());

    let mut cursor = ByteReader::new(buffer.as_slice());

    let mut bit_buffer = Default::default();

    let field_result = read_field(&mut cursor, &mut bit_buffer, &double);

    let double = match field_result.unwrap().value {
        Value::Double(val) => f64::from_bits(val),
        _ => panic!("Decoding did not result in a double!"),
    };

    assert!((double - 3.141592541).abs() < 1.0e-6);
}

#[test]
fn test_read_field_le_byte() {
    let buffer: Vec<u8> = vec![1, 2, 0, 3, 0, 0, 0, 4, 0, 0, 0, 0, 0, 0, 0];

    let descr = "Field".to_string();
    let endianness = Endianness::Little;
    let byte = Template::new(FieldType::u8(endianness), descr.clone());
    let word = Template::new(FieldType::u16(endianness), descr.clone());
    let doubleword = Template::new(FieldType::u32(endianness), descr.clone());
    let quadword = Template::new(FieldType::u64(endianness), descr.clone());

    let field1 = Field::u8(1, endianness, descr.clone());
    let field2 = Field::u16(2, endianness, descr.clone());
    let field3 = Field::u32(3, endianness, descr.clone());
    let field4 = Field::u64(4, endianness, descr.clone());

    let mut cursor = ByteReader::new(buffer.as_slice());

    let mut bit_buffer = Default::default();

    assert_eq!(read_field(&mut cursor, &mut bit_buffer, &byte), Some(field1));
    assert_eq!(read_field(&mut cursor, &mut bit_buffer, &word), Some(field2));
    assert_eq!(read_field(&mut cursor, &mut bit_buffer, &doubleword), Some(field3));
    assert_eq!(read_field(&mut cursor, &mut bit_buffer, &quadword), Some(field4));
}

#[test]
fn test_read_field_le_bitfields_byte() {
    let byte = 0xA5;

    let buffer: Vec<u8> = vec![byte];

    let descr = "Field".to_string();
    let endianness = Endianness::Little;

    let mut cursor = ByteReader::new(buffer.as_slice());

    let typ = FieldType::Uint(1, endianness, BitSize::Bits8);

    let mut bit_buffer = Default::default();

    for index in 0..8 {
        let field = read_field(&mut cursor, &mut bit_buffer, &Template::new(typ, descr.clone()));
        assert_eq!(
            field,
            Some(Field { value: Value::Uint8((byte >> index) & 1), typ: typ, description: descr.clone() })
        );
    }
}

#[test]
fn test_read_field_be_bitfields_word() {
    let buffer: Vec<u8> = vec![0x12, 0x34, 0x56, 0x78];

    let descr = "Field".to_string();
    let endianness = Endianness::Big;

    let mut cursor = ByteReader::new(buffer.as_slice());

    let mut bit_buffer = Default::default();

    let field = read_field(
        &mut cursor,
        &mut bit_buffer,
        &Template::new(FieldType::Uint(4, endianness, BitSize::Bits16), descr.clone()),
    );
    assert_eq!(
        field,
        Some(Field {
            value: Value::Uint8(1),
            typ: FieldType::Uint(4, endianness, BitSize::Bits16),
            description: descr.clone()
        })
    );

    let field = read_field(
        &mut cursor,
        &mut bit_buffer,
        &Template::new(FieldType::Uint(8, endianness, BitSize::Bits16), descr.clone()),
    );
    assert_eq!(
        field,
        Some(Field {
            value: Value::Uint8(0x23),
            typ: FieldType::Uint(8, endianness, BitSize::Bits16),
            description: descr.clone()
        })
    );

    let field = read_field(
        &mut cursor,
        &mut bit_buffer,
        &Template::new(FieldType::Uint(2, endianness, BitSize::Bits16), descr.clone()),
    );
    assert_eq!(
        field,
        Some(Field {
            value: Value::Uint8(0x01),
            typ: FieldType::Uint(2, endianness, BitSize::Bits16),
            description: descr.clone()
        })
    );

    let field = read_field(
        &mut cursor,
        &mut bit_buffer,
        &Template::new(FieldType::Uint(2, endianness, BitSize::Bits16), descr.clone()),
    );
    assert_eq!(
        field,
        Some(Field {
            value: Value::Uint8(0x00),
            typ: FieldType::Uint(2, endianness, BitSize::Bits16),
            description: descr.clone()
        })
    );
}

#[test]
fn test_read_field_le_bitfields_word() {
    let buffer: Vec<u8> = vec![0x35, 0x12, 0x56, 0x78];

    let descr = "Field".to_string();
    let endianness = Endianness::Little;

    let mut cursor = ByteReader::new(buffer.as_slice());

    let mut bit_buffer = Default::default();

    let field = read_field(
        &mut cursor,
        &mut bit_buffer,
        &Template::new(FieldType::Uint(4, endianness, BitSize::Bits16), descr.clone()),
    );
    assert_eq!(
        field,
        Some(Field {
            value: Value::Uint8(5),
            typ: FieldType::Uint(4, endianness, BitSize::Bits16),
            description: descr.clone()
        })
    );

    let field = read_field(
        &mut cursor,
        &mut bit_buffer,
        &Template::new(FieldType::Uint(8, endianness, BitSize::Bits16), descr.clone()),
    );
    assert_eq!(
        field,
        Some(Field {
            value: Value::Uint8(0x23),
            typ: FieldType::Uint(8, endianness, BitSize::Bits16),
            description: descr.clone()
        })
    );

    let field = read_field(
        &mut cursor,
        &mut bit_buffer,
        &Template::new(FieldType::Uint(2, endianness, BitSize::Bits16), descr.clone()),
    );
    assert_eq!(
        field,
        Some(Field {
            value: Value::Uint8(0x01),
            typ: FieldType::Uint(2, endianness, BitSize::Bits16),
            description: descr.clone()
        })
    );

    let field = read_field(
        &mut cursor,
        &mut bit_buffer,
        &Template::new(FieldType::Uint(2, endianness, BitSize::Bits16), descr.clone()),
    );
    assert_eq!(
        field,
        Some(Field {
            value: Value::Uint8(0x00),
            typ: FieldType::Uint(2, endianness, BitSize::Bits16),
            description: descr.clone()
        })
    );
}

#[test]
fn read_field_fails_at_end_of_input() {
    let buffer: Vec<u8> = vec![0x12];
    let mut cursor = ByteReader::new(buffer.as_slice());
    let mut bit_buffer = BitBuffer::default();
    let word = Template::new(FieldType::u16(Endianness::Big), "word".to_string());

    assert_eq!(read_field(&mut cursor, &mut bit_buffer, &word), None);
    assert_eq!(cursor.remaining(), 0);
    assert_eq!(bit_buffer, BitBuffer { bits: 0x12, bits_avail: 8 });
}

#[test]
fn read_field_fails_where_the_container_is_narrower_than_the_field() {
    let buffer: Vec<u8> = vec![0x12, 0x34];
    let mut cursor = ByteReader::new(buffer.as_slice());
    let mut bit_buffer = BitBuffer::default();
    let narrow = Template::new(FieldType::Uint(16, Endianness::Big, BitSize::Bits8), "narrow".to_string());

    assert_eq!(read_field(&mut cursor, &mut bit_buffer, &narrow), None);
    assert_eq!(cursor.remaining(), 1);
    assert_eq!(bit_buffer, BitBuffer { bits: 0x12, bits_avail: 8 });
}

#[test]
fn read_field_takes_no_bytes_while_bits_are_staged() {
    let buffer: Vec<u8> = vec![0xab, 0xcd];
    let mut cursor = ByteReader::new(buffer.as_slice());
    let mut bit_buffer = BitBuffer::default();
    let nibble = Template::new(FieldType::Uint(4, Endianness::Big, BitSize::Bits8), "nibble".to_string());

    assert_eq!(read_field(&mut cursor, &mut bit_buffer, &nibble).unwrap().value, Value::Uint8(0xa));
    assert_eq!(cursor.remaining(), 1);
    assert_eq!(read_field(&mut cursor, &mut bit_buffer, &nibble).unwrap().value, Value::Uint8(0xb));
    assert_eq!(cursor.remaining(), 1);
    assert_eq!(read_field(&mut cursor, &mut bit_buffer, &nibble).unwrap().value, Value::Uint8(0xc));
    assert_eq!(cursor.remaining(), 0);
}

#[test]
fn byte_reader_reads_in_order() {
    let buffer: Vec<u8> = vec![7, 8];
    let mut reader = ByteReader::new(buffer.as_slice());
    assert_eq!(reader.remaining(), 2);
    assert_eq!(reader.read_u8(), Some(7));
    assert_eq!(reader.read_u8(), Some(8));
    assert_eq!(reader.read_u8(), None);
    assert_eq!(reader.remaining(), 0);
}

#[test]
fn decode_record_reads_every_entry() {
    let templates = vec![
        Template::new(FieldType::Uint(4, Endianness::Big, BitSize::Bits16), "a".to_string()),
        Template::new(FieldType::Int(12, Endianness::Big, BitSize::Bits16), "b".to_string()),
        Template::new(FieldType::u8(Endianness::Big), "c".to_string()),
    ];
    let fields = decode_record(&[0x1f, 0xff, 0x80], &templates).unwrap();
    assert_eq!(fields.len(), 3);
    assert_eq!(fields[0], Field { value: Value::Uint8(1), typ: templates[0].typ, description: "a".to_string() });
    assert_eq!(fields[1], Field { value: Value::Int16(0x0fff), typ: templates[1].typ, description: "b".to_string() });
    assert_eq!(fields[2], Field { value: Value::Uint8(0x80), typ: templates[2].typ, description: "c".to_string() });
    assert_eq!(decode_record(&[0x1f, 0xff], &templates), None);
}

#[test]
fn signed_fields_of_full_width_keep_their_sign() {
    let templates = vec![
        Template::new(FieldType::i8(Endianness::Big), "a".to_string()),
        Template::new(FieldType::i16(Endianness::Big), "b".to_string()),
    ];
    let fields = decode_record(&[0xff, 0xff, 0xfe], &templates).unwrap();
    assert_eq!(fields[0].value, Value::Int8(-1));
    assert_eq!(fields[1].value, Value::Int16(-2));
    let little = vec![Template::new(FieldType::i16(Endianness::Little), "b".to_string())];
    assert_eq!(decode_record(&[0xfe, 0xff], &little).unwrap()[0].value, Value::Int16(-2));
}

#[test]
fn a_signed_field_of_less_than_its_tag_is_not_sign_extended() {
    let templates = vec![
        Template::new(FieldType::Int(4, Endianness::Big, BitSize::Bits8), "a".to_string()),
        Template::new(FieldType::Int(4, Endianness::Big, BitSize::Bits8), "b".to_string()),
    ];
    let fields = decode_record(&[0xf7], &templates).unwrap();
    assert_eq!(fields[0].value, Value::Int8(15));
    assert_eq!(fields[1].value, Value::Int8(7));
}

#[test]
fn a_little_endian_load_keeps_what_a_big_endian_pull_left_in_the_register() {
    let templates = vec![
        Template::new(FieldType::u8(Endianness::Big), "a".to_string()),
        Template::new(FieldType::u8(Endianness::Little), "b".to_string()),
    ];
    let fields = decode_record(&[0x0f, 0x30], &templates).unwrap();
    assert_eq!(fields[0].value, Value::Uint8(0x0f));
    assert_eq!(fields[1].value, Value::Uint8(0x3f));
}

#[test]
fn record_bytes_counts_a_partly_used_byte() {
    let templates = vec![
        Template::new(FieldType::Uint(4, Endianness::Big, BitSize::Bits16), "a".to_string()),
        Template::new(FieldType::Uint(12, Endianness::Big, BitSize::Bits16), "b".to_string()),
        Template::new(FieldType::Uint(3, Endianness::Big, BitSize::Bits8), "c".to_string()),
    ];
    assert_eq!(record_bytes(&templates), Some(3));
    assert_eq!(record_bytes(&templates[..2].to_vec()), Some(2));
    assert_eq!(record_bytes(&Vec::new()), Some(0));
    let wide = vec![
        Template::new(FieldType::Uint(usize::MAX, Endianness::Big, BitSize::Bits8), "a".to_string()),
        Template::new(FieldType::u8(Endianness::Big), "b".to_string()),
    ];
    assert_eq!(record_bytes(&wide), None);
}

#[test]
fn decode_reads_whole_records_and_leaves_the_rest() {
    let templates = vec![
        Template::new(FieldType::u8(Endianness::Little), "a".to_string()),
        Template::new(FieldType::u16(Endianness::Little), "b".to_string()),
    ];
    let records = decode(&[1, 2, 3, 4, 5, 6, 7], &templates).unwrap();
    assert_eq!(records.len(), 2);
    assert_eq!(records[0][0].value, Value::Uint8(1));
    assert_eq!(records[0][1].value, Value::Uint16(0x0302));
    assert_eq!(records[1][0].value, Value::Uint8(4));
    assert_eq!(records[1][1].value, Value::Uint16(0x0605));
    assert_eq!(decode(&[], &templates), Some(Vec::new()));
}

#[test]
fn decode_fails_on_a_record_without_bytes() {
    assert_eq!(decode(&[1, 2, 3], &Vec::new()), None);
    assert_eq!(decode(&[], &Vec::new()), None);
}

#[test]
fn decode_reads_records_that_end_within_a_byte() {
    let templates = vec![
        Template::new(FieldType::Uint(4, Endianness::Big, BitSize::Bits16), "a".to_string()),
        Template::new(FieldType::Uint(8, Endianness::Big, BitSize::Bits16), "b".to_string()),
    ];
    let records = decode(&[0x12, 0x30, 0x45, 0x60, 0x78], &templates).unwrap();
    assert_eq!(records.len(), 2);
    assert_eq!(records[0][0].value, Value::Uint8(1));
    assert_eq!(records[0][1].value, Value::Uint8(0x23));
    assert_eq!(records[1][0].value, Value::Uint8(4));
    assert_eq!(records[1][1].value, Value::Uint8(0x56));
}

#[test]
fn decode_fails_on_a_record_that_is_shorter_than_its_containers() {
    let templates = vec![Template::new(FieldType::Uint(8, Endianness::Big, BitSize::Bits16), "a".to_string())];
    assert_eq!(decode(&[1, 2, 3], &templates), None);
}
