//! From fields to bytes, one field at a time.

use vstd::prelude::*;
use byteorder::{BigEndian, ByteOrder, LittleEndian};
use crate::bit_buffer::{low_mask, mask_of, BitBuffer};
use crate::descriptor::{parse_descriptor, parse_type};
use crate::template::Template;
use crate::text::{chars_of, integer_value, parse_integer, trim_bounds, trimmed};
use crate::types::{Endianness, Field, FieldType, Value};

verus! {

/// Whether a field of this type takes the whole of its container.
pub open spec fn fills_container(typ: FieldType) -> bool {
    typ.spec_num_bits() == typ.spec_bit_size().spec_num_bits()
}

/// The low `num_bytes` bytes of `raw` in the byte order `endianness`: the
/// most significant first for big-endian, the least significant first for
/// little-endian.
pub open spec fn value_bytes(raw: u64, num_bytes: int, endianness: Endianness) -> Seq<u8> {
    Seq::new(
        num_bytes as nat,
        |i: int|
            match endianness {
                Endianness::Big => (raw >> ((8 * (num_bytes - 1 - i)) as u64)) as u8,
                Endianness::Little => (raw >> ((8 * i) as u64)) as u8,
            },
    )
}

/// `byteorder::BigEndian::write_uint` into a fresh buffer of `num_bytes`
/// bytes: the low `num_bytes` bytes of `n`, the most significant first. It
/// panics where `n` takes more than `num_bytes` bytes, and on no bytes or more
/// than eight.
#[verifier::external_body]
fn write_uint_be(n: u64, num_bytes: usize) -> (bytes: Vec<u8>)
    requires
        1 <= num_bytes <= 8,
        num_bytes == 8 || n >> ((8 * num_bytes) as u64) == 0,
    ensures
        bytes@ == value_bytes(n, num_bytes as int, Endianness::Big),
{
    let mut bytes = vec![0u8; num_bytes];
    BigEndian::write_uint(&mut bytes, n, num_bytes);
    bytes
}

/// `byteorder::LittleEndian::write_uint` into a fresh buffer of `num_bytes`
/// bytes: the low `num_bytes` bytes of `n`, the least significant first. It
/// panics where `n` takes more than `num_bytes` bytes, and on no bytes or more
/// than eight.
#[verifier::external_body]
fn write_uint_le(n: u64, num_bytes: usize) -> (bytes: Vec<u8>)
    requires
        1 <= num_bytes <= 8,
        num_bytes == 8 || n >> ((8 * num_bytes) as u64) == 0,
    ensures
        bytes@ == value_bytes(n, num_bytes as int, Endianness::Little),
{
    let mut bytes = vec![0u8; num_bytes];
    LittleEndian::write_uint(&mut bytes, n, num_bytes);
    bytes
}

proof fn lemma_masked_fits(raw: u64, num_bytes: u64)
    by (bit_vector)
    requires
        1 <= num_bytes < 8,
    ensures
        (raw & low_mask((8 * num_bytes) as u64)) >> ((8 * num_bytes) as u64) == 0,
{
}

/// One field written through `buffer`: the bytes that come out and the buffer
/// after it; `None` where the field does not fit into the buffer. A field that
/// takes the whole of its container and meets an empty buffer is written
/// directly, in its byte order, and the buffer stays as it is. Any other field
/// is pushed, and the whole bytes that are staged then are pulled.
pub open spec fn write_step(buffer: BitBuffer, value: Value, typ: FieldType) -> Option<(Seq<u8>, BitBuffer)> {
    if buffer.spec_is_empty() && fills_container(typ) {
        Some(
            (
                value_bytes(
                    value.spec_raw_bits() & low_mask(typ.spec_num_bits() as u64),
                    typ.spec_bit_size().spec_num_bytes() as int,
                    typ.spec_endianness(),
                ),
                buffer,
            ),
        )
    } else if buffer.can_push(typ.spec_num_bits() as int) {
        let staged = buffer.pushed(value.spec_raw_bits(), typ.spec_num_bits() as u64, typ.spec_endianness());
        Some((staged.drained_bytes(), staged.drained()))
    } else {
        None
    }
}

/// The fields of `fields` written in order through `buffer`: all the bytes
/// that come out, and the buffer at the end; `None` where one of them does
/// not fit.
pub open spec fn encoded(buffer: BitBuffer, fields: Seq<Field>) -> Option<(Seq<u8>, BitBuffer)>
    decreases fields.len(),
{
    if fields.len() == 0 {
        Some((Seq::empty(), buffer))
    } else {
        match write_step(buffer, fields[0].value, fields[0].typ) {
            None => None,
            Some((bytes, after)) => match encoded(after, fields.skip(1)) {
                None => None,
                Some((more, end)) => Some((bytes + more, end)),
            },
        }
    }
}

/// Writes one field. A field that takes the whole of its container and meets
/// an empty buffer is written directly in its byte order. Any other field is
/// pushed in its declared width and byte order, and every whole byte that is
/// staged then is pulled; a remainder of less than a byte waits for the next
/// field. Fails, and changes nothing, where the field does not fit.
pub fn write_out(field: &Field, bit_buffer: &mut BitBuffer) -> (r: Option<Vec<u8>>)
    ensures
        match write_step(*old(bit_buffer), field.value, field.typ) {
            Some((bytes, after)) => r matches Some(out) && out@ == bytes && *final(bit_buffer) == after,
            None => r is None && *final(bit_buffer) == *old(bit_buffer),
        },
{
    let num_bits: usize = field.typ.num_bits();
    let num_bytes: usize = field.typ.bit_size().num_bytes();
    if bit_buffer.is_empty() && num_bits == num_bytes * 8 {
        let masked: u64 = field.value.raw_bits() & mask_of(num_bits as u64);
        proof {
            if num_bytes < 8 {
                lemma_masked_fits(field.value.spec_raw_bits(), num_bytes as u64);
            }
        }
        match field.typ.endianness() {
            Endianness::Big => Some(write_uint_be(masked, num_bytes)),
            Endianness::Little => Some(write_uint_le(masked, num_bytes)),
        }
    } else {
        match bit_buffer.push_value(field.value, num_bits, field.typ.endianness()) {
            Some(_) => Some(bit_buffer.drain()),
            None => None,
        }
    }
}

/// The byte order of the last field, or big-endian where there is none.
pub open spec fn last_endianness(fields: Seq<Field>) -> Endianness {
    if fields.len() == 0 {
        Endianness::Big
    } else {
        fields.last().typ.spec_endianness()
    }
}

/// The end of a record: the bytes that come out once zero bits have filled
/// the staged bits up to whole bytes, and the buffer after it.
pub open spec fn finished(buffer: BitBuffer, endianness: Endianness) -> (Seq<u8>, BitBuffer) {
    (buffer.padded(endianness).drained_bytes(), buffer.padded(endianness).drained())
}

/// One record written through `buffer`: the bytes of its fields and of its
/// end, and the buffer after it; `None` where a field does not fit.
pub open spec fn encoded_record(buffer: BitBuffer, fields: Seq<Field>) -> Option<(Seq<u8>, BitBuffer)> {
    match encoded(buffer, fields) {
        None => None,
        Some((bytes, end)) => Some(
            (bytes + finished(end, last_endianness(fields)).0, finished(end, last_endianness(fields)).1),
        ),
    }
}

/// Ends a record: fills the staged bits up to whole bytes with zero bits, in
/// the byte order `endianness`, and pulls them.
pub fn finish(bit_buffer: &mut BitBuffer, endianness: Endianness) -> (bytes: Vec<u8>)
    ensures
        bytes@ == finished(*old(bit_buffer), endianness).0,
        *final(bit_buffer) == finished(*old(bit_buffer), endianness).1,
{
    bit_buffer.pad(endianness);
    bit_buffer.drain()
}

/// Encodes one record through `bit_buffer`: its fields in order, then zero
/// bits up to a whole byte, in the byte order of the last field. Fails, and
/// changes nothing, where a field does not fit into the buffer.
pub fn encode_record(fields: &Vec<Field>, bit_buffer: &mut BitBuffer) -> (r: Option<Vec<u8>>)
    ensures
        match encoded_record(*old(bit_buffer), fields@) {
            Some((bytes, after)) => r matches Some(out) && out@ == bytes && *final(bit_buffer) == after,
            None => r is None && *final(bit_buffer) == *old(bit_buffer),
        },
{
    let mut staged: BitBuffer = *bit_buffer;
    let mut out: Vec<u8> = Vec::new();
    let ghost start = *bit_buffer;
    let ghost whole = encoded(start, fields@);
    let mut index: usize = 0;
    proof {
        assert(fields@.skip(0) =~= fields@);
    }
    while index < fields.len()
        invariant
            index <= fields.len(),
            start == *bit_buffer,
            start == *old(bit_buffer),
            whole == encoded(start, fields@),
            whole == match encoded(staged, fields@.skip(index as int)) {
                Some((more, end)) => Some((out@ + more, end)),
                None => None,
            },
        decreases fields.len() - index,
    {
        let ghost before_buffer = staged;
        let ghost before = out@;
        proof {
            assert(fields@.skip(index as int)[0] == fields@[index as int]);
            assert(fields@.skip(index as int).skip(1) =~= fields@.skip(index + 1));
        }
        match write_out(&fields[index], &mut staged) {
            Some(mut bytes) => {
                proof {
                    match encoded(staged, fields@.skip(index + 1)) {
                        Some((more, end)) => {
                            assert(before + (bytes@ + more) =~= (before + bytes@) + more);
                        },
                        None => {},
                    }
                }
                out.append(&mut bytes);
            },
            None => {
                assert(encoded(before_buffer, fields@.skip(index as int)) is None);
                return None;
            },
        }
        index = index + 1;
    }
    proof {
        assert(out@ + Seq::<u8>::empty() =~= out@);
    }
    let endianness: Endianness = if fields.len() == 0 {
        Endianness::Big
    } else {
        fields[fields.len() - 1].typ.endianness()
    };
    let mut tail: Vec<u8> = finish(&mut staged, endianness);
    out.append(&mut tail);
    *bit_buffer = staged;
    Some(out)
}

/// Encodes the fields as one record through a buffer that starts empty.
/// Fails where a field does not fit into the buffer.
pub fn encode_fields(fields: &Vec<Field>) -> (r: Option<Vec<u8>>)
    ensures
        match encoded_record(BitBuffer { bits: 0, bits_avail: 0 }, fields@) {
            Some((bytes, _)) => r matches Some(out) && out@ == bytes,
            None => r is None,
        },
{
    let mut bit_buffer = BitBuffer::default();
    encode_record(fields, &mut bit_buffer)
}

/// The text of one value as a record holds it. Decimal text is read here; the
/// text of a float or double is read by the caller, who hands over the
/// IEEE-754 pattern of the number that the text spells in each precision, or
/// `None` where it spells none.
#[derive(PartialEq, Eq, Debug, Clone)]
pub struct ValueText {
    pub text: String,
    pub float: Option<u32>,
    pub double: Option<u64>,
}

/// The integer between `low` and `high` that `text` spells between white
/// space.
pub open spec fn integer_in(text: Seq<char>, signed: bool, low: int, high: int) -> Option<int> {
    match integer_value(trimmed(text), signed) {
        Some(value) => if low <= value <= high {
            Some(value)
        } else {
            None
        },
        None => None,
    }
}

/// The value of type `typ` that `value` spells. An integer goes into the
/// smallest tag that holds the declared width and has to lie in the range of
/// that tag; a float or double is the pattern that came with the text.
pub open spec fn spec_to_value(typ: FieldType, value: ValueText) -> Option<Value> {
    match typ {
        FieldType::Int(num_bits, _, _) => {
            if num_bits <= 8 {
                match integer_in(value.text@, true, -0x80, 0x7f) {
                    Some(v) => Some(Value::Int8(v as i8)),
                    None => None,
                }
            } else if num_bits <= 16 {
                match integer_in(value.text@, true, -0x8000, 0x7fff) {
                    Some(v) => Some(Value::Int16(v as i16)),
                    None => None,
                }
            } else if num_bits <= 32 {
                match integer_in(value.text@, true, -0x8000_0000, 0x7fff_ffff) {
                    Some(v) => Some(Value::Int32(v as i32)),
                    None => None,
                }
            } else if num_bits <= 64 {
                match integer_in(value.text@, true, -0x8000_0000_0000_0000, 0x7fff_ffff_ffff_ffff) {
                    Some(v) => Some(Value::Int64(v as i64)),
                    None => None,
                }
            } else {
                None
            }
        },
        FieldType::Uint(num_bits, _, _) => {
            if num_bits <= 8 {
                match integer_in(value.text@, false, 0, 0xff) {
                    Some(v) => Some(Value::Uint8(v as u8)),
                    None => None,
                }
            } else if num_bits <= 16 {
                match integer_in(value.text@, false, 0, 0xffff) {
                    Some(v) => Some(Value::Uint16(v as u16)),
                    None => None,
                }
            } else if num_bits <= 32 {
                match integer_in(value.text@, false, 0, 0xffff_ffff) {
                    Some(v) => Some(Value::Uint32(v as u32)),
                    None => None,
                }
            } else if num_bits <= 64 {
                match integer_in(value.text@, false, 0, 0xffff_ffff_ffff_ffff) {
                    Some(v) => Some(Value::Uint64(v as u64)),
                    None => None,
                }
            } else {
                None
            }
        },
        FieldType::Float(_) => match value.float {
            Some(pattern) => Some(Value::Float(pattern)),
            None => None,
        },
        FieldType::Double(_) => match value.double {
            Some(pattern) => Some(Value::Double(pattern)),
            None => None,
        },
    }
}

/// The field that a row of type, description and value spells.
pub open spec fn spec_row_field(record: Seq<ValueText>) -> Option<Field> {
    if record.len() < 3 {
        None
    } else {
        match parse_descriptor(record[0].text@) {
            None => None,
            Some(typ) => match spec_to_value(typ, record[2]) {
                None => None,
                Some(value) => Some(Field { value: value, typ: typ, description: record[1].text }),
            },
        }
    }
}

/// The fields that the rows spell, one field per row.
pub open spec fn spec_row_fields(records: Seq<Vec<ValueText>>) -> Option<Seq<Field>>
    decreases records.len(),
{
    if records.len() == 0 {
        Some(Seq::empty())
    } else {
        match (spec_row_field(records[0]@), spec_row_fields(records.skip(1))) {
            (Some(field), Some(fields)) => Some(seq![field] + fields),
            _ => None,
        }
    }
}

/// The fields that a record of values spells under the entries of
/// `templates`: one per pair of value and entry, as far as both reach.
pub open spec fn spec_column_fields(record: Seq<ValueText>, templates: Seq<Template>) -> Option<Seq<Field>>
    decreases record.len(),
{
    if record.len() == 0 || templates.len() == 0 {
        Some(Seq::empty())
    } else {
        match (spec_to_value(templates[0].typ, record[0]), spec_column_fields(record.skip(1), templates.skip(1))) {
            (Some(value), Some(fields)) => Some(
                seq![Field { value: value, typ: templates[0].typ, description: templates[0].description }] + fields,
            ),
            _ => None,
        }
    }
}

/// The fields of the records, each a record of values under the entries of
/// `templates`; `None` where a value cannot be read.
pub open spec fn spec_columns_fields(records: Seq<Vec<ValueText>>, templates: Seq<Template>) -> Option<
    Seq<Seq<Field>>,
>
    decreases records.len(),
{
    if records.len() == 0 {
        Some(Seq::empty())
    } else {
        match (spec_column_fields(records[0]@, templates), spec_columns_fields(records.skip(1), templates)) {
            (Some(fields), Some(more)) => Some(seq![fields] + more),
            _ => None,
        }
    }
}

/// The bytes of the records written one after the other through `buffer`;
/// `None` where a field does not fit.
pub open spec fn encoded_records(buffer: BitBuffer, records: Seq<Seq<Field>>) -> Option<Seq<u8>>
    decreases records.len(),
{
    if records.len() == 0 {
        Some(Seq::empty())
    } else {
        match encoded_record(buffer, records[0]) {
            None => None,
            Some((bytes, after)) => match encoded_records(after, records.skip(1)) {
                None => None,
                Some(more) => Some(bytes + more),
            },
        }
    }
}

/// The fields of each record.
pub open spec fn records_of(records: Seq<Vec<Field>>) -> Seq<Seq<Field>> {
    records.map_values(|record: Vec<Field>| record@)
}

/// The bytes of the records. Where `rows` holds, each row is a field and all
/// rows make one record; where it does not, each record is a record of
/// values under the entries of `templates`.
pub open spec fn spec_encode(records: Seq<Vec<ValueText>>, templates: Seq<Template>, rows: bool) -> Option<Seq<u8>> {
    if rows {
        match spec_row_fields(records) {
            None => None,
            Some(fields) => match encoded_record(BitBuffer { bits: 0, bits_avail: 0 }, fields) {
                None => None,
                Some((bytes, _)) => Some(bytes),
            },
        }
    } else {
        match spec_columns_fields(records, templates) {
            None => None,
            Some(fields) => encoded_records(BitBuffer { bits: 0, bits_avail: 0 }, fields),
        }
    }
}

fn parse_ranged(text: &str, signed: bool, low: i128, high: i128) -> (r: Option<i128>)
    requires
        -(u64::MAX as int) <= low,
        high <= u64::MAX as int,
    ensures
        match integer_in(text@, signed, low as int, high as int) {
            Some(value) => r == Some(value as i128),
            None => r is None,
        },
{
    let chars: Vec<char> = chars_of(text);
    let bounds: (usize, usize) = trim_bounds(&chars);
    match parse_integer(&chars, bounds.0, bounds.1, signed) {
        Some(value) => {
            if low <= value && value <= high {
                Some(value)
            } else {
                None
            }
        },
        None => None,
    }
}

/// Reads the text of a value as a value of type `typ`. Fails where the text
/// spells no integer in the range of the tag, where no pattern came with the
/// text of a float or double, or where the type is wider than 64 bits.
pub fn to_value(typ: FieldType, value: &ValueText) -> (r: Option<Value>)
    ensures
        r == spec_to_value(typ, *value),
{
    let text: &str = value.text.as_str();
    match typ {
        FieldType::Int(num_bits, _, _) => {
            if num_bits <= 8 {
                match parse_ranged(text, true, -0x80, 0x7f) {
                    Some(v) => Some(Value::Int8(v as i8)),
                    None => None,
                }
            } else if num_bits <= 16 {
                match parse_ranged(text, true, -0x8000, 0x7fff) {
                    Some(v) => Some(Value::Int16(v as i16)),
                    None => None,
                }
            } else if num_bits <= 32 {
                match parse_ranged(text, true, -0x8000_0000, 0x7fff_ffff) {
                    Some(v) => Some(Value::Int32(v as i32)),
                    None => None,
                }
            } else if num_bits <= 64 {
                match parse_ranged(text, true, -0x8000_0000_0000_0000, 0x7fff_ffff_ffff_ffff) {
                    Some(v) => Some(Value::Int64(v as i64)),
                    None => None,
                }
            } else {
                None
            }
        },
        FieldType::Uint(num_bits, _, _) => {
            if num_bits <= 8 {
                match parse_ranged(text, false, 0, 0xff) {
                    Some(v) => Some(Value::Uint8(v as u8)),
                    None => None,
                }
            } else if num_bits <= 16 {
                match parse_ranged(text, false, 0, 0xffff) {
                    Some(v) => Some(Value::Uint16(v as u16)),
                    None => None,
                }
            } else if num_bits <= 32 {
                match parse_ranged(text, false, 0, 0xffff_ffff) {
                    Some(v) => Some(Value::Uint32(v as u32)),
                    None => None,
                }
            } else if num_bits <= 64 {
                match parse_ranged(text, false, 0, 0xffff_ffff_ffff_ffff) {
                    Some(v) => Some(Value::Uint64(v as u64)),
                    None => None,
                }
            } else {
                None
            }
        },
        FieldType::Float(_) => match value.float {
            Some(pattern) => Some(Value::Float(pattern)),
            None => None,
        },
        FieldType::Double(_) => match value.double {
            Some(pattern) => Some(Value::Double(pattern)),
            None => None,
        },
    }
}

/// The field of type `typ` with the value that `value` spells.
pub fn to_field(typ: FieldType, value: &ValueText, description: String) -> (r: Option<Field>)
    ensures
        r == match spec_to_value(typ, *value) {
            Some(v) => Some(Field { value: v, typ: typ, description: description }),
            None => None,
        },
{
    match to_value(typ, value) {
        Some(v) => Some(Field { value: v, typ: typ, description: description }),
        None => None,
    }
}

/// The field that a row spells: its type in the first place, its description
/// in the second, its value in the third. Fails on a shorter row, on a type
/// that is no descriptor, and on a value that the type does not take.
pub fn row_field(record: &Vec<ValueText>) -> (r: Option<Field>)
    ensures
        r == spec_row_field(record@),
{
    if record.len() < 3 {
        return None;
    }
    match parse_type(record[0].text.as_str()) {
        Ok(typ) => to_field(typ, &record[2], record[1].text.clone()),
        Err(_) => None,
    }
}

/// The fields that a record of values spells under the entries of
/// `templates`, as far as both reach. Fails on a value that its type does
/// not take.
pub fn column_fields(record: &Vec<ValueText>, templates: &Vec<Template>) -> (r: Option<Vec<Field>>)
    ensures
        match spec_column_fields(record@, templates@) {
            Some(fields) => r matches Some(out) && out@ == fields,
            None => r is None,
        },
{
    let mut out: Vec<Field> = Vec::new();
    let ghost whole = spec_column_fields(record@, templates@);
    let mut index: usize = 0;
    proof {
        assert(record@.skip(0) =~= record@);
        assert(templates@.skip(0) =~= templates@);
    }
    while index < record.len() && index < templates.len()
        invariant
            index <= record.len(),
            index <= templates.len(),
            whole == spec_column_fields(record@, templates@),
            whole == match spec_column_fields(record@.skip(index as int), templates@.skip(index as int)) {
                Some(fields) => Some(out@ + fields),
                None => None,
            },
        decreases record.len() - index,
    {
        let ghost before = out@;
        proof {
            assert(record@.skip(index as int).skip(1) =~= record@.skip(index + 1));
            assert(templates@.skip(index as int).skip(1) =~= templates@.skip(index + 1));
            assert(record@.skip(index as int)[0] == record@[index as int]);
            assert(templates@.skip(index as int)[0] == templates@[index as int]);
        }
        match to_field(templates[index].typ, &record[index], templates[index].description.clone()) {
            Some(field) => {
                proof {
                    match spec_column_fields(record@.skip(index + 1), templates@.skip(index + 1)) {
                        Some(fields) => {
                            assert(before + (seq![field] + fields) =~= before.push(field) + fields);
                        },
                        None => {},
                    }
                }
                out.push(field);
            },
            None => {
                return None;
            },
        }
        index = index + 1;
    }
    proof {
        assert(out@ + Seq::<Field>::empty() =~= out@);
    }
    Some(out)
}

/// The fields that the rows spell, one field per row. Fails where one row
/// does.
pub fn row_fields(records: &Vec<Vec<ValueText>>) -> (r: Option<Vec<Field>>)
    ensures
        match spec_row_fields(records@) {
            Some(fields) => r matches Some(out) && out@ == fields,
            None => r is None,
        },
{
    let mut out: Vec<Field> = Vec::new();
    let ghost whole = spec_row_fields(records@);
    let mut index: usize = 0;
    proof {
        assert(records@.skip(0) =~= records@);
    }
    while index < records.len()
        invariant
            index <= records.len(),
            whole == spec_row_fields(records@),
            whole == match spec_row_fields(records@.skip(index as int)) {
                Some(fields) => Some(out@ + fields),
                None => None,
            },
        decreases records.len() - index,
    {
        let ghost before = out@;
        proof {
            assert(records@.skip(index as int).skip(1) =~= records@.skip(index + 1));
            assert(records@.skip(index as int)[0] == records@[index as int]);
        }
        match row_field(&records[index]) {
            Some(field) => {
                proof {
                    match spec_row_fields(records@.skip(index + 1)) {
                        Some(fields) => {
                            assert(before + (seq![field] + fields) =~= before.push(field) + fields);
                        },
                        None => {},
                    }
                }
                out.push(field);
            },
            None => {
                return None;
            },
        }
        index = index + 1;
    }
    proof {
        assert(out@ + Seq::<Field>::empty() =~= out@);
    }
    Some(out)
}

/// The fields of the records, each a record of values under the entries of
/// `templates`. Fails where a value cannot be read.
pub fn columns_fields(records: &Vec<Vec<ValueText>>, templates: &Vec<Template>) -> (r: Option<Vec<Vec<Field>>>)
    ensures
        match spec_columns_fields(records@, templates@) {
            Some(fields) => r matches Some(out) && records_of(out@) == fields,
            None => r is None,
        },
{
    let mut out: Vec<Vec<Field>> = Vec::new();
    let ghost whole = spec_columns_fields(records@, templates@);
    let mut index: usize = 0;
    proof {
        assert(records@.skip(0) =~= records@);
        assert(records_of(out@) =~= Seq::<Seq<Field>>::empty());
    }
    while index < records.len()
        invariant
            index <= records.len(),
            whole == spec_columns_fields(records@, templates@),
            whole == match spec_columns_fields(records@.skip(index as int), templates@) {
                Some(more) => Some(records_of(out@) + more),
                None => None,
            },
        decreases records.len() - index,
    {
        let ghost before = records_of(out@);
        proof {
            assert(records@.skip(index as int).skip(1) =~= records@.skip(index + 1));
            assert(records@.skip(index as int)[0] == records@[index as int]);
        }
        match column_fields(&records[index], templates) {
            Some(fields) => {
                proof {
                    match spec_columns_fields(records@.skip(index + 1), templates@) {
                        Some(more) => {
                            assert(before + (seq![fields@] + more) =~= before.push(fields@) + more);
                        },
                        None => {},
                    }
                    assert(records_of(out@.push(fields)) =~= before.push(fields@));
                }
                out.push(fields);
            },
            None => {
                return None;
            },
        }
        index = index + 1;
    }
    proof {
        assert(records_of(out@) + Seq::<Seq<Field>>::empty() =~= records_of(out@));
    }
    Some(out)
}

/// Encodes the records one after the other through one buffer that starts
/// empty. Each record ends on a whole byte, its last byte filled up with zero
/// bits. Fails where a field does not fit into the buffer.
pub fn encode_records(records: &Vec<Vec<Field>>) -> (r: Option<Vec<u8>>)
    ensures
        match encoded_records(BitBuffer { bits: 0, bits_avail: 0 }, records_of(records@)) {
            Some(bytes) => r matches Some(out) && out@ == bytes,
            None => r is None,
        },
{
    let mut bit_buffer = BitBuffer::default();
    let mut out: Vec<u8> = Vec::new();
    let ghost all = records_of(records@);
    let ghost whole = encoded_records(bit_buffer, all);
    let mut index: usize = 0;
    proof {
        assert(all.skip(0) =~= all);
    }
    while index < records.len()
        invariant
            index <= records.len(),
            all == records_of(records@),
            whole == encoded_records(BitBuffer { bits: 0, bits_avail: 0 }, all),
            whole == match encoded_records(bit_buffer, all.skip(index as int)) {
                Some(more) => Some(out@ + more),
                None => None,
            },
        decreases records.len() - index,
    {
        let ghost before = out@;
        let ghost staged = bit_buffer;
        proof {
            assert(all.skip(index as int).skip(1) =~= all.skip(index + 1));
            assert(all.skip(index as int)[0] == records@[index as int]@);
        }
        match encode_record(&records[index], &mut bit_buffer) {
            Some(mut bytes) => {
                proof {
                    match encoded_records(bit_buffer, all.skip(index + 1)) {
                        Some(more) => {
                            assert(before + (bytes@ + more) =~= (before + bytes@) + more);
                        },
                        None => {},
                    }
                }
                out.append(&mut bytes);
            },
            None => {
                assert(encoded_records(staged, all.skip(index as int)) is None);
                return None;
            },
        }
        index = index + 1;
    }
    proof {
        assert(out@ + Seq::<u8>::empty() =~= out@);
    }
    Some(out)
}

/// Encodes the records. Where `rows` holds, each row is a field and all rows
/// make one record; where it does not, each record is a record of values
/// under the entries of `templates`. A record ends on a whole byte, its last
/// byte filled up with zero bits. Fails where a record cannot be read or a
/// field does not fit into the buffer.
pub fn encode(records: &Vec<Vec<ValueText>>, templates: &Vec<Template>, rows: bool) -> (r: Option<Vec<u8>>)
    ensures
        match spec_encode(records@, templates@, rows) {
            Some(bytes) => r matches Some(out) && out@ == bytes,
            None => r is None,
        },
{
    if rows {
        match row_fields(records) {
            Some(fields) => encode_fields(&fields),
            None => None,
        }
    } else {
        match columns_fields(records, templates) {
            Some(fields) => encode_records(&fields),
            None => None,
        }
    }
}

} // verus!
