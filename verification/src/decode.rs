//! From bytes to fields, one template entry at a time.

use vstd::prelude::*;
use vstd::slice::slice_subrange;
use crate::bit_buffer::{boxed, BitBuffer};
use crate::template::Template;
use crate::types::{lemma_total_bits_prefix, total_bits, Endianness, Field, FieldType, NumBytes, Value};

verus! {

/// A sequential source of bytes over a slice. Its view is what is left to
/// read.
pub struct ByteReader<'a> {
    bytes: &'a [u8],
    pos: usize,
}

impl<'a> View for ByteReader<'a> {
    type V = Seq<u8>;

    closed spec fn view(&self) -> Seq<u8> {
        if self.pos <= self.bytes@.len() {
            self.bytes@.skip(self.pos as int)
        } else {
            Seq::empty()
        }
    }
}

impl<'a> ByteReader<'a> {
    /// A reader at the start of `bytes`.
    pub fn new(bytes: &'a [u8]) -> (reader: ByteReader<'a>)
        ensures
            reader@ == bytes@,
    {
        let reader = ByteReader { bytes: bytes, pos: 0 };
        assert(bytes@.skip(0) =~= bytes@);
        reader
    }

    /// How many bytes are left.
    pub fn remaining(&self) -> (n: usize)
        ensures
            n == self@.len(),
    {
        if self.pos <= self.bytes.len() {
            self.bytes.len() - self.pos
        } else {
            0
        }
    }

    /// The next byte, or `None` at the end.
    pub fn read_u8(&mut self) -> (r: Option<u8>)
        ensures
            old(self)@.len() > 0 ==> r == Some(old(self)@[0]) && final(self)@ == old(self)@.skip(1),
            old(self)@.len() == 0 ==> r is None && final(self)@ == old(self)@,
    {
        if self.pos < self.bytes.len() {
            let byte: u8 = self.bytes[self.pos];
            assert(self.bytes@.skip(self.pos as int).skip(1) =~= self.bytes@.skip(self.pos + 1));
            self.pos = self.pos + 1;
            Some(byte)
        } else {
            None
        }
    }
}

/// The buffer after the bytes of `bytes` went in, one after the other, in
/// the byte order `endianness`.
pub open spec fn loaded(buffer: BitBuffer, bytes: Seq<u8>, endianness: Endianness) -> BitBuffer
    decreases bytes.len(),
{
    if bytes.len() == 0 {
        buffer
    } else {
        loaded(buffer, bytes.drop_last(), endianness).pushed(bytes.last() as u64, 8, endianness)
    }
}

/// How many bytes a field of type `typ` takes from the input: its whole
/// container where the buffer is empty, none where bits are still staged.
pub open spec fn bytes_needed(buffer: BitBuffer, typ: FieldType) -> int {
    if buffer.spec_is_empty() {
        typ.spec_bit_size().spec_num_bytes() as int
    } else {
        0
    }
}

/// One field read from `input` through `buffer`: the value, or `None` where
/// the input ends too early or the staged bits do not hold the field; what is
/// left of the input; the buffer after it.
pub open spec fn read_step(input: Seq<u8>, buffer: BitBuffer, typ: FieldType) -> (Option<Value>, Seq<u8>, BitBuffer) {
    let need = bytes_needed(buffer, typ);
    if input.len() < need {
        (None, Seq::empty(), loaded(buffer, input, typ.spec_endianness()))
    } else {
        let staged = loaded(buffer, input.take(need), typ.spec_endianness());
        if staged.can_pull_value(typ) {
            (
                Some(boxed(typ, staged.extracted(typ.spec_num_bits() as u64, typ.spec_endianness()))),
                input.skip(need),
                staged.pulled(typ.spec_num_bits() as u64, typ.spec_endianness()),
            )
        } else {
            (None, input.skip(need), staged)
        }
    }
}

/// The values of the fields of types `types`, read in order from `input`
/// through `buffer`; `None` where one of them cannot be read.
pub open spec fn decoded(input: Seq<u8>, buffer: BitBuffer, types: Seq<FieldType>) -> Option<Seq<Value>>
    decreases types.len(),
{
    if types.len() == 0 {
        Some(Seq::empty())
    } else {
        let (value, rest, after) = read_step(input, buffer, types[0]);
        match value {
            None => None,
            Some(v) => match decoded(rest, after, types.skip(1)) {
                None => None,
                Some(values) => Some(seq![v] + values),
            },
        }
    }
}

/// The types of the entries of `templates`.
pub open spec fn types_of(templates: Seq<Template>) -> Seq<FieldType> {
    templates.map_values(|t: Template| t.typ)
}

/// Whether `fields` are the entries of `templates` with the values `values`.
pub open spec fn fields_match(fields: Seq<Field>, templates: Seq<Template>, values: Seq<Value>) -> bool {
    &&& fields.len() == templates.len()
    &&& fields.len() == values.len()
    &&& forall|i: int|
        0 <= i < fields.len() ==> #[trigger] fields[i] == (Field {
            value: values[i],
            typ: templates[i].typ,
            description: templates[i].description,
        })
}

/// Reads one field. Where the buffer is empty, the field's whole container is
/// first taken from `reader` and staged in the field's byte order; then the
/// field is pulled. Fails where the reader ends before the container is
/// complete, or where the staged bits do not hold the field.
pub fn read_field(reader: &mut ByteReader, bit_buffer: &mut BitBuffer, template: &Template) -> (r: Option<Field>)
    ensures
        final(reader)@ == read_step(old(reader)@, *old(bit_buffer), template.typ).1,
        *final(bit_buffer) == read_step(old(reader)@, *old(bit_buffer), template.typ).2,
        r == match read_step(old(reader)@, *old(bit_buffer), template.typ).0 {
            Some(value) => Some(Field { value: value, typ: template.typ, description: template.description }),
            None => None,
        },
{
    let ghost input = reader@;
    let ghost start = *bit_buffer;
    let endianness: Endianness = template.typ.endianness();
    if bit_buffer.is_empty() {
        let need: NumBytes = template.typ.bit_size().num_bytes();
        let mut count: usize = 0;
        while count < need
            invariant
                count <= need <= 8,
                count <= input.len(),
                reader@ == input.skip(count as int),
                *bit_buffer == loaded(start, input.take(count as int), endianness),
                bit_buffer.bits_avail == 8 * count,
                start.bits_avail == 0,
                input == old(reader)@,
                start == *old(bit_buffer),
                need == bytes_needed(start, template.typ),
                endianness == template.typ.spec_endianness(),
            decreases need - count,
        {
            let byte: u8 = match reader.read_u8() {
                Some(byte) => byte,
                None => {
                    proof {
                        assert(input.take(count as int) =~= input);
                        assert(reader@ =~= Seq::<u8>::empty());
                    }
                    return None;
                },
            };
            proof {
                assert(input.take(count + 1).drop_last() =~= input.take(count as int));
                assert(input.skip(count as int).skip(1) =~= input.skip(count + 1));
            }
            match endianness {
                Endianness::Little => {
                    bit_buffer.push_byte_le(byte);
                },
                Endianness::Big => {
                    bit_buffer.push_byte_be(byte);
                },
            }
            count = count + 1;
        }
    } else {
        proof {
            assert(input.take(0) =~= Seq::<u8>::empty());
            assert(input.skip(0) =~= input);
        }
    }
    match bit_buffer.pull_value(&template.typ) {
        Some(value) => Some(Field { value: value, typ: template.typ, description: template.description.clone() }),
        None => None,
    }
}

/// Decodes one record. The entries of `templates` are read in order from
/// `record` through an empty buffer. Fails where one of them cannot be read.
pub fn decode_record(record: &[u8], templates: &Vec<Template>) -> (r: Option<Vec<Field>>)
    ensures
        match decoded(record@, BitBuffer { bits: 0, bits_avail: 0 }, types_of(templates@)) {
            Some(values) => r matches Some(fields) && fields_match(fields@, templates@, values),
            None => r is None,
        },
{
    let mut reader = ByteReader::new(record);
    let mut bit_buffer = BitBuffer::default();
    let mut fields: Vec<Field> = Vec::new();
    let ghost types = types_of(templates@);
    let ghost mut values: Seq<Value> = Seq::empty();
    let ghost whole = decoded(record@, bit_buffer, types);
    let mut index: usize = 0;
    proof {
        assert(types.skip(0) =~= types);
    }
    while index < templates.len()
        invariant
            index <= templates.len(),
            types == types_of(templates@),
            whole == decoded(record@, BitBuffer { bits: 0, bits_avail: 0 }, types),
            whole == match decoded(reader@, bit_buffer, types.skip(index as int)) {
                Some(rest) => Some(values + rest),
                None => None,
            },
            fields_match(fields@, templates@.take(index as int), values),
        decreases templates.len() - index,
    {
        let ghost before = reader@;
        let ghost staged = bit_buffer;
        proof {
            assert(types.skip(index as int)[0] == templates[index as int].typ);
            assert(types.skip(index as int).skip(1) =~= types.skip(index + 1));
        }
        match read_field(&mut reader, &mut bit_buffer, &templates[index]) {
            Some(field) => {
                proof {
                    let step = read_step(before, staged, templates[index as int].typ);
                    let v = step.0->Some_0;
                    match decoded(step.1, step.2, types.skip(index + 1)) {
                        Some(rest) => {
                            assert(values + (seq![v] + rest) =~= values.push(v) + rest);
                        },
                        None => {},
                    }
                    values = values.push(v);
                }
                fields.push(field);
            },
            None => {
                assert(decoded(before, staged, types.skip(index as int)) is None);
                return None;
            },
        }
        index = index + 1;
    }
    proof {
        assert(templates@.take(index as int) =~= templates@);
        assert(values + Seq::<Value>::empty() =~= values);
    }
    Some(fields)
}

/// The size of a record in bytes: the widths of the types added up, in whole
/// bytes, a last byte that is only partly used counted in. `None` where the
/// sum is more than a `usize` holds.
pub open spec fn spec_record_bytes(types: Seq<FieldType>) -> Option<int> {
    if total_bits(types) <= usize::MAX {
        Some((total_bits(types) + 7) as int / 8)
    } else {
        None
    }
}

/// The values of the records of `size` bytes that `input` holds, each record
/// decoded through an empty buffer. Bytes at the end that do not make a
/// record are left. `None` where a record has no bytes or cannot be decoded.
pub open spec fn decoded_records(input: Seq<u8>, types: Seq<FieldType>, size: int) -> Option<Seq<Seq<Value>>>
    decreases input.len(),
{
    if size <= 0 {
        None
    } else if input.len() < size {
        Some(Seq::empty())
    } else {
        match (
            decoded(input.take(size), BitBuffer { bits: 0, bits_avail: 0 }, types),
            decoded_records(input.skip(size), types, size),
        ) {
            (Some(values), Some(rest)) => Some(seq![values] + rest),
            _ => None,
        }
    }
}

/// The values of all the records that `input` holds under `templates`.
pub open spec fn spec_decode(input: Seq<u8>, templates: Seq<Template>) -> Option<Seq<Seq<Value>>> {
    match spec_record_bytes(types_of(templates)) {
        Some(size) => decoded_records(input, types_of(templates), size),
        None => None,
    }
}

/// The size of a record in bytes.
pub fn record_bytes(templates: &Vec<Template>) -> (r: Option<usize>)
    ensures
        match spec_record_bytes(types_of(templates@)) {
            Some(size) => r == Some(size as usize),
            None => r is None,
        },
{
    let mut sum: usize = 0;
    let mut index: usize = 0;
    let ghost types = types_of(templates@);
    while index < templates.len()
        invariant
            index <= templates.len(),
            types == types_of(templates@),
            sum == total_bits(types.take(index as int)),
        decreases templates.len() - index,
    {
        proof {
            lemma_total_bits_prefix(types, index + 1);
            assert(types.take(index + 1).drop_last() =~= types.take(index as int));
            assert(types.take(index + 1).last() == templates@[index as int].typ);
        }
        match sum.checked_add(templates[index].typ.num_bits()) {
            Some(next) => {
                sum = next;
            },
            None => {
                return None;
            },
        }
        index = index + 1;
    }
    proof {
        assert(types.take(index as int) =~= types);
    }
    if sum % 8 == 0 {
        Some(sum / 8)
    } else {
        Some(sum / 8 + 1)
    }
}

/// Decodes every record of `input`. A record is as many bytes as the entries
/// of `templates` take; each is decoded through an empty buffer, and bytes at
/// the end that do not make a record are left. Fails where a record has no
/// bytes or cannot be decoded.
pub fn decode(input: &[u8], templates: &Vec<Template>) -> (r: Option<Vec<Vec<Field>>>)
    ensures
        match spec_decode(input@, templates@) {
            Some(values) => r matches Some(records) && records@.len() == values.len() && forall|i: int|
                0 <= i < values.len() ==> fields_match(#[trigger] records@[i]@, templates@, values[i]),
            None => r is None,
        },
{
    let size: usize = match record_bytes(templates) {
        Some(size) => size,
        None => {
            return None;
        },
    };
    if size == 0 {
        return None;
    }
    let ghost types = types_of(templates@);
    let ghost whole = decoded_records(input@, types, size as int);
    let ghost mut values: Seq<Seq<Value>> = Seq::empty();
    let mut records: Vec<Vec<Field>> = Vec::new();
    let mut pos: usize = 0;
    proof {
        assert(input@.skip(0) =~= input@);
    }
    while input.len() - pos >= size
        invariant
            pos <= input.len(),
            size > 0,
            types == types_of(templates@),
            spec_record_bytes(types_of(templates@)) == Some(size as int),
            whole == decoded_records(input@, types, size as int),
            whole == match decoded_records(input@.skip(pos as int), types, size as int) {
                Some(rest) => Some(values + rest),
                None => None,
            },
            records@.len() == values.len(),
            forall|i: int| 0 <= i < values.len() ==> fields_match(#[trigger] records@[i]@, templates@, values[i]),
        decreases input.len() - pos,
    {
        let record: &[u8] = slice_subrange(input, pos, pos + size);
        proof {
            assert(record@ =~= input@.skip(pos as int).take(size as int));
            assert(input@.skip(pos as int).skip(size as int) =~= input@.skip(pos + size));
        }
        match decode_record(record, templates) {
            Some(fields) => {
                proof {
                    let decoded_values = decoded(record@, BitBuffer { bits: 0, bits_avail: 0 }, types)->Some_0;
                    match decoded_records(input@.skip(pos + size), types, size as int) {
                        Some(rest) => {
                            assert(values + (seq![decoded_values] + rest) =~= values.push(decoded_values) + rest);
                        },
                        None => {},
                    }
                    values = values.push(decoded_values);
                }
                records.push(fields);
            },
            None => {
                assert(decoded_records(input@.skip(pos as int), types, size as int) is None);
                return None;
            },
        }
        pos = pos + size;
    }
    proof {
        assert(values + Seq::<Seq<Value>>::empty() =~= values);
    }
    Some(records)
}

} // verus!
