//! What the encoder writes, and that decoding undoes encoding.
//!
//! The encoder and the decoder each move a string of bits through their
//! buffer. A big-endian push appends bits at the end of the buffer's content, a
//! big-endian pull takes bits from its front, a drained byte is the front
//! eight bits. What the encoder writes is therefore the fields' bits in
//! order, and the decoder reads them back in the same order.

use vstd::prelude::*;
use crate::bit_buffer::{boxed, low_mask, BitBuffer};
use crate::decode::{bytes_needed, decoded, decoded_records, loaded, read_step};
use crate::encode::{
    encoded, encoded_record, encoded_records, fills_container, finished, last_endianness, value_bytes, write_step,
};
use crate::types::{total_bits, Endianness, Field, FieldType, Value};

verus! {

/// Bit `k` of `v`, counted from the least significant.
pub open spec fn bit_at(v: u64, k: u64) -> bool {
    (v >> k) & 1 == 1
}

/// The low `n` bits of `v`, the most significant first.
pub open spec fn bits_of(v: u64, n: int) -> Seq<bool> {
    Seq::new(n as nat, |i: int| bit_at(v, (n - 1 - i) as u64))
}

/// `n` zero bits.
pub open spec fn zero_bits(n: int) -> Seq<bool> {
    Seq::new(n as nat, |i: int| false)
}

/// The valid bits of a buffer, the most significant first.
pub open spec fn content(buffer: BitBuffer) -> Seq<bool> {
    bits_of(buffer.bits, buffer.bits_avail as int)
}

/// The bits of a sequence of bytes, each byte's most significant bit first.
pub open spec fn bytes_bits(bytes: Seq<u8>) -> Seq<bool>
    decreases bytes.len(),
{
    if bytes.len() == 0 {
        Seq::empty()
    } else {
        bytes_bits(bytes.drop_last()) + bits_of(bytes.last() as u64, 8)
    }
}

/// The bits that a field puts on the wire: the low bits of its value in the
/// declared width.
pub open spec fn field_bits(field: Field) -> Seq<bool> {
    bits_of(field.value.spec_raw_bits(), field.typ.spec_num_bits() as int)
}

/// The bits of the fields, one field after the other.
pub open spec fn stream(fields: Seq<Field>) -> Seq<bool>
    decreases fields.len(),
{
    if fields.len() == 0 {
        Seq::empty()
    } else {
        field_bits(fields[0]) + stream(fields.skip(1))
    }
}

/// The value is one that a pull under the field's type can give: what comes
/// back from the bits that the field puts on the wire is the value itself.
pub open spec fn value_fits(field: Field) -> bool {
    boxed(field.typ, field.value.spec_raw_bits() & low_mask(field.typ.spec_num_bits() as u64)) == field.value
}

/// The fields fill their containers. Where `room` bits of a container are
/// still open, the next field takes its bits from them; where none are, it
/// opens its own container. A float or double starts on a byte boundary. At
/// the end less than a byte of the last container is left open.
pub open spec fn fills_containers(types: Seq<FieldType>, room: int) -> bool
    decreases types.len(),
{
    if types.len() == 0 {
        0 <= room < 8
    } else {
        let open = if room == 0 {
            types[0].spec_bit_size().spec_num_bits() as int
        } else {
            room
        };
        &&& types[0].spec_num_bits() <= open
        &&& (types[0] is Float || types[0] is Double) ==> open % 8 == 0
        &&& fills_containers(types.skip(1), open - types[0].spec_num_bits())
    }
}

/// The room that is left in the last container after the fields, where
/// `room` bits of a container are open before them.
pub open spec fn end_room(types: Seq<FieldType>, room: int) -> int
    decreases types.len(),
{
    if types.len() == 0 {
        room
    } else {
        end_room(
            types.skip(1),
            (if room == 0 {
                types[0].spec_bit_size().spec_num_bits() as int
            } else {
                room
            }) - types[0].spec_num_bits(),
        )
    }
}

/// The types of the fields.
pub open spec fn field_types(fields: Seq<Field>) -> Seq<FieldType> {
    fields.map_values(|f: Field| f.typ)
}

/// The values of the fields.
pub open spec fn field_values(fields: Seq<Field>) -> Seq<Value> {
    fields.map_values(|f: Field| f.value)
}

/// Every field is big-endian.
pub open spec fn all_big_endian(fields: Seq<Field>) -> bool {
    forall|i: int| 0 <= i < fields.len() ==> (#[trigger] fields[i]).typ.spec_endianness() == Endianness::Big
}

/// Every field is between one and 64 bits wide and no wider than its
/// container, and holds a value of its type.
pub open spec fn all_valid(fields: Seq<Field>) -> bool {
    forall|i: int| 0 <= i < fields.len() ==> (#[trigger] fields[i]).typ.wf() && value_fits(fields[i])
}

/// The encoder's staged bits and the room in the open container go together:
/// they add up to whole bytes and to no more than the buffer holds, and with
/// no container open nothing is staged.
pub open spec fn in_step(buffer: BitBuffer, room: int) -> bool {
    &&& 0 <= room
    &&& buffer.bits_avail + room <= 64
    &&& (buffer.bits_avail + room) % 8 == 0
    &&& room == 0 ==> buffer.bits_avail == 0
}

proof fn lemma_bit_pushed(bits: u64, raw: u64, n: u64, k: u64)
    by (bit_vector)
    requires
        n <= 64,
        k < 64,
    ensures
        bit_at((bits << n) | (raw & low_mask(n)), k) == (if k < n {
            bit_at(raw, k)
        } else {
            bit_at(bits, (k - n) as u64)
        }),
{
}

proof fn lemma_bit_extracted(bits: u64, shift: u64, n: u64, k: u64)
    by (bit_vector)
    requires
        k < n,
        shift + n <= 64,
    ensures
        bit_at((bits >> shift) & low_mask(n), k) == bit_at(bits, (k + shift) as u64),
        ((bits >> shift) & low_mask(n)) & low_mask(n) == (bits >> shift) & low_mask(n),
{
}

proof fn lemma_bit_of_byte(bits: u64, shift: u64, k: u64)
    by (bit_vector)
    requires
        k < 8,
        shift + 8 <= 64,
    ensures
        bit_at(((bits >> shift) as u8) as u64, k) == bit_at(bits, (k + shift) as u64),
{
}

proof fn lemma_bit_padded(bits: u64, pad: u64, k: u64)
    by (bit_vector)
    requires
        pad < 64,
        k < 64,
    ensures
        bit_at(bits << pad, k) == (k >= pad && bit_at(bits, (k - pad) as u64)),
{
}

proof fn lemma_bit_masked(raw: u64, n: u64, k: u64)
    by (bit_vector)
    requires
        k < n,
    ensures
        bit_at(raw & low_mask(n), k) == bit_at(raw, k),
{
}

proof fn lemma_byte_joins(m: u64, shift: u64)
    by (bit_vector)
    requires
        shift <= 56,
    ensures
        (m & low_mask(shift)) | (((((m >> shift) as u8) as u64) & low_mask(8)) << shift) == m & low_mask(
            (shift + 8) as u64,
        ),
{
}

proof fn lemma_masked_out(raw: u64, n: u64)
    by (bit_vector)
    requires
        n <= 64,
    ensures
        (raw & low_mask(n)) & low_mask(n) == raw & low_mask(n),
        (raw & low_mask(n)) >> n == 0,
        raw & low_mask(0) == 0,
{
}

proof fn lemma_mask_grows(x: u64, y: u64, n: u64)
    by (bit_vector)
    requires
        n < 64,
        x & low_mask(n) == y & low_mask(n),
        bit_at(x, n) == bit_at(y, n),
    ensures
        x & low_mask((n + 1) as u64) == y & low_mask((n + 1) as u64),
{
}

proof fn lemma_mask_none(x: u64, y: u64)
    by (bit_vector)
    ensures
        x & low_mask(0) == y & low_mask(0),
{
}

/// Two numbers with the same low `n` bits are equal under the mask of `m`
/// bits, for every `m` up to `n`.
pub proof fn lemma_same_bits(x: u64, y: u64, n: int, m: int)
    requires
        0 <= m <= n <= 64,
        bits_of(x, n) == bits_of(y, n),
    ensures
        x & low_mask(m as u64) == y & low_mask(m as u64),
    decreases m,
{
    if m == 0 {
        lemma_mask_none(x, y);
    } else {
        lemma_same_bits(x, y, n, m - 1);
        assert(bits_of(x, n)[n - m] == bit_at(x, (m - 1) as u64));
        assert(bits_of(y, n)[n - m] == bit_at(y, (m - 1) as u64));
        lemma_mask_grows(x, y, (m - 1) as u64);
    }
}

/// A big-endian push appends the pushed bits to the content.
pub proof fn lemma_content_pushed(buffer: BitBuffer, raw: u64, n: int)
    requires
        0 <= n,
        buffer.bits_avail + n <= 64,
    ensures
        content(buffer.pushed(raw, n as u64, Endianness::Big)) == content(buffer) + bits_of(raw, n),
        buffer.pushed(raw, n as u64, Endianness::Big).bits_avail == buffer.bits_avail + n,
{
    let after = buffer.pushed(raw, n as u64, Endianness::Big);
    let avail = buffer.bits_avail as int;
    assert forall|i: int| 0 <= i < avail + n implies content(after)[i] == (content(buffer) + bits_of(raw, n))[i] by {
        lemma_bit_pushed(buffer.bits, raw, n as u64, (avail + n - 1 - i) as u64);
    }
    assert(content(after) =~= content(buffer) + bits_of(raw, n));
}

/// A big-endian pull takes its bits from the front of the content.
pub proof fn lemma_content_pulled(buffer: BitBuffer, n: int)
    requires
        1 <= n <= buffer.bits_avail <= 64,
    ensures
        bits_of(buffer.extracted(n as u64, Endianness::Big), n) == content(buffer).take(n),
        content(buffer.pulled(n as u64, Endianness::Big)) == content(buffer).skip(n),
        buffer.extracted(n as u64, Endianness::Big) & low_mask(n as u64) == buffer.extracted(
            n as u64,
            Endianness::Big,
        ),
{
    let avail = buffer.bits_avail as int;
    let value = buffer.extracted(n as u64, Endianness::Big);
    assert forall|i: int| 0 <= i < n implies bits_of(value, n)[i] == content(buffer).take(n)[i] by {
        lemma_bit_extracted(buffer.bits, (avail - n) as u64, n as u64, (n - 1 - i) as u64);
    }
    assert(bits_of(value, n) =~= content(buffer).take(n));
    assert(content(buffer.pulled(n as u64, Endianness::Big)) =~= content(buffer).skip(n));
    lemma_bit_extracted(buffer.bits, (avail - n) as u64, n as u64, 0);
}

/// Big-endian padding appends zero bits to the content.
pub proof fn lemma_content_padded(buffer: BitBuffer)
    requires
        buffer.bits_avail <= 64,
    ensures
        content(buffer.padded(Endianness::Big)) == content(buffer) + zero_bits(buffer.pad_bits()),
        buffer.padded(Endianness::Big).bits_avail == buffer.bits_avail + buffer.pad_bits(),
{
    let after = buffer.padded(Endianness::Big);
    let avail = buffer.bits_avail as int;
    let pad = buffer.pad_bits();
    if pad > 0 {
        assert forall|i: int| 0 <= i < avail + pad implies content(after)[i] == (content(buffer) + zero_bits(pad))[i] by {
            lemma_bit_padded(buffer.bits, pad as u64, (avail + pad - 1 - i) as u64);
        }
    }
    assert(content(after) =~= content(buffer) + zero_bits(pad));
}

/// The bits of two byte sequences in a row are the bits of the one, then the
/// bits of the other.
pub proof fn lemma_bytes_bits_concat(a: Seq<u8>, b: Seq<u8>)
    ensures
        bytes_bits(a + b) == bytes_bits(a) + bytes_bits(b),
    decreases b.len(),
{
    if b.len() == 0 {
        assert(a + b =~= a);
        assert(bytes_bits(a) + bytes_bits(b) =~= bytes_bits(a));
    } else {
        lemma_bytes_bits_concat(a, b.drop_last());
        assert((a + b).drop_last() =~= a + b.drop_last());
        assert(bytes_bits(a + b) =~= bytes_bits(a) + bytes_bits(b));
    }
}

/// Bit `j` of a byte sequence is bit `7 - j % 8` of byte `j / 8`.
pub proof fn lemma_bytes_bits_index(bytes: Seq<u8>)
    ensures
        bytes_bits(bytes).len() == 8 * bytes.len(),
        forall|j: int|
            0 <= j < 8 * bytes.len() ==> #[trigger] bytes_bits(bytes)[j] == bit_at(bytes[j / 8] as u64, (7 - j % 8) as u64),
    decreases bytes.len(),
{
    if bytes.len() > 0 {
        lemma_bytes_bits_index(bytes.drop_last());
        assert forall|j: int| 0 <= j < 8 * bytes.len() implies #[trigger] bytes_bits(bytes)[j] == bit_at(
            bytes[j / 8] as u64,
            (7 - j % 8) as u64,
        ) by {
            if j < 8 * (bytes.len() - 1) {
                assert(bytes_bits(bytes)[j] == bytes_bits(bytes.drop_last())[j]);
                assert(bytes.drop_last()[j / 8] == bytes[j / 8]);
            } else {
                assert(bytes_bits(bytes)[j] == bits_of(bytes.last() as u64, 8)[j - 8 * (bytes.len() - 1)]);
            }
        }
    }
}

/// The bytes that a buffer gives up are its content, where it holds whole
/// bytes, and none, where it does not.
pub proof fn lemma_content_drained(buffer: BitBuffer)
    requires
        buffer.bits_avail <= 64,
    ensures
        bytes_bits(buffer.drained_bytes()) + content(buffer.drained()) == content(buffer),
        buffer.drained().bits_avail == (if buffer.bits_avail % 8 == 0 {
            0
        } else {
            buffer.bits_avail as int
        }),
        8 * buffer.drained_bytes().len() + buffer.drained().bits_avail == buffer.bits_avail,
{
    let bytes = buffer.drained_bytes();
    let avail = buffer.bits_avail as int;
    if buffer.can_pull_byte() {
        lemma_bytes_bits_index(bytes);
        assert forall|j: int| 0 <= j < avail implies bytes_bits(bytes)[j] == content(buffer)[j] by {
            lemma_bit_of_byte(buffer.bits, (avail - 8 * (j / 8 + 1)) as u64, (7 - j % 8) as u64);
        }
    }
    assert(bytes_bits(bytes) + content(buffer.drained()) =~= content(buffer));
}

/// Bytes that are staged in big-endian order follow the content.
pub proof fn lemma_content_loaded(buffer: BitBuffer, bytes: Seq<u8>)
    requires
        buffer.bits_avail + 8 * bytes.len() <= 64,
    ensures
        loaded(buffer, bytes, Endianness::Big).bits_avail == buffer.bits_avail + 8 * bytes.len(),
        content(loaded(buffer, bytes, Endianness::Big)) == content(buffer) + bytes_bits(bytes),
    decreases bytes.len(),
{
    if bytes.len() == 0 {
        assert(content(buffer) + bytes_bits(bytes) =~= content(buffer));
    } else {
        lemma_content_loaded(buffer, bytes.drop_last());
        let before = loaded(buffer, bytes.drop_last(), Endianness::Big);
        lemma_content_pushed(before, bytes.last() as u64, 8);
        assert(content(before) + bits_of(bytes.last() as u64, 8) =~= content(buffer) + bytes_bits(bytes));
    }
}

/// The first field of a non-empty list stands before the rest.
proof fn lemma_first_field(fields: Seq<Field>)
    requires
        fields.len() > 0,
    ensures
        stream(fields) == field_bits(fields[0]) + stream(fields.skip(1)),
        stream(fields).len() == fields[0].typ.spec_num_bits() + stream(fields.skip(1)).len(),
        total_bits(fields) == fields[0].typ.spec_num_bits() + total_bits(fields.skip(1)),
        field_types(fields.skip(1)) == field_types(fields).skip(1),
        field_values(fields.skip(1)) == field_values(fields).skip(1),
        field_types(fields)[0] == fields[0].typ,
        all_big_endian(fields) ==> all_big_endian(fields.skip(1)) && fields[0].typ.spec_endianness()
            == Endianness::Big,
        all_valid(fields) ==> all_valid(fields.skip(1)) && fields[0].typ.wf() && value_fits(fields[0]),
        fields.len() > 1 ==> last_endianness(fields.skip(1)) == last_endianness(fields),
    decreases fields.len(),
{
    assert(field_types(fields.skip(1)) =~= field_types(fields).skip(1));
    assert(field_values(fields.skip(1)) =~= field_values(fields).skip(1));
    assert forall|i: int| 0 <= i < fields.skip(1).len() implies #[trigger] fields.skip(1)[i] == fields[i + 1] by {}
    if all_big_endian(fields) {
        assert forall|i: int| 0 <= i < fields.skip(1).len() implies (#[trigger] fields.skip(
            1,
        )[i]).typ.spec_endianness() == Endianness::Big by {
            assert(fields.skip(1)[i] == fields[i + 1]);
        }
    }
    if all_valid(fields) {
        assert forall|i: int| 0 <= i < fields.skip(1).len() implies (#[trigger] fields.skip(1)[i]).typ.wf()
            && value_fits(fields.skip(1)[i]) by {
            assert(fields.skip(1)[i] == fields[i + 1]);
        }
    }
    if fields.len() == 1 {
        assert(fields.drop_last() =~= fields.skip(1));
    } else {
        lemma_first_field(fields.drop_last());
        assert(fields.drop_last().skip(1) =~= fields.skip(1).drop_last());
        assert(fields.drop_last()[0] == fields[0]);
        assert(fields.skip(1).last() == fields.last());
    }
}

/// The bits of the fields and the room that they leave at the end are at
/// least the room of the open container, and at least the container of the
/// first field where none is open.
pub proof fn lemma_stream_fills(fields: Seq<Field>, room: int)
    requires
        0 <= room,
        fills_containers(field_types(fields), room),
    ensures
        0 <= end_room(field_types(fields), room) < 8,
        stream(fields).len() + end_room(field_types(fields), room) >= room,
        fields.len() > 0 && room == 0 ==> stream(fields).len() + end_room(field_types(fields), room)
            >= fields[0].typ.spec_bit_size().spec_num_bits(),
    decreases fields.len(),
{
    if fields.len() > 0 {
        let open = if room == 0 {
            fields[0].typ.spec_bit_size().spec_num_bits() as int
        } else {
            room
        };
        lemma_first_field(fields);
        lemma_stream_fills(fields.skip(1), open - fields[0].typ.spec_num_bits());
    }
}

/// The bits of a value's bytes in big-endian order are the low bits of the
/// value, the most significant first.
pub proof fn lemma_value_bytes_bits(raw: u64, num_bytes: int)
    requires
        1 <= num_bytes <= 8,
    ensures
        bytes_bits(value_bytes(raw & low_mask((8 * num_bytes) as u64), num_bytes, Endianness::Big)) == bits_of(
            raw,
            8 * num_bytes,
        ),
{
    let masked = raw & low_mask((8 * num_bytes) as u64);
    let bytes = value_bytes(masked, num_bytes, Endianness::Big);
    lemma_bytes_bits_index(bytes);
    assert forall|j: int| 0 <= j < 8 * num_bytes implies bytes_bits(bytes)[j] == bits_of(raw, 8 * num_bytes)[j] by {
        lemma_bit_of_byte(masked, (8 * (num_bytes - 1 - j / 8)) as u64, (7 - j % 8) as u64);
        lemma_bit_masked(raw, (8 * num_bytes) as u64, (8 * num_bytes - 1 - j) as u64);
    }
    assert(bytes_bits(bytes) =~= bits_of(raw, 8 * num_bytes));
}

/// One step of the encoder writes every bit that it takes, and only those.
proof fn lemma_write_step_length(buffer: BitBuffer, field: Field)
    requires
        buffer.bits_avail <= 64,
        write_step(buffer, field.value, field.typ) is Some,
    ensures
        write_step(buffer, field.value, field.typ) matches Some((bytes, after)) && after.bits_avail <= 64 && 8
            * bytes.len() + after.bits_avail == buffer.bits_avail + field.typ.spec_num_bits() && (after.bits_avail
            % 8 == 0 ==> after.bits_avail == 0),
{
    if !(buffer.spec_is_empty() && fills_container(field.typ)) {
        let staged = buffer.pushed(
            field.value.spec_raw_bits(),
            field.typ.spec_num_bits() as u64,
            field.typ.spec_endianness(),
        );
        lemma_content_drained(staged);
    }
}

/// The encoder writes every bit that it takes, and only those. Whatever the
/// byte order of the fields, the bits of the bytes that it has written and of
/// those that it keeps staged are as many as it had staged and the fields are
/// wide.
pub proof fn lemma_encoded_length(buffer: BitBuffer, fields: Seq<Field>)
    requires
        buffer.bits_avail <= 64,
        encoded(buffer, fields) is Some,
    ensures
        encoded(buffer, fields) matches Some((bytes, end)) && end.bits_avail <= 64 && 8 * bytes.len() + end.bits_avail
            == buffer.bits_avail + total_bits(fields),
    decreases fields.len(),
{
    if fields.len() > 0 {
        lemma_first_field(fields);
        lemma_write_step_length(buffer, fields[0]);
        let (bytes, after) = write_step(buffer, fields[0].value, fields[0].typ)->Some_0;
        lemma_encoded_length(after, fields.skip(1));
    }
}

/// A record takes as many bytes as its fields are wide in bits, divided by
/// eight and rounded up, whatever the byte order of the fields; and it leaves
/// nothing staged.
pub proof fn lemma_record_length(buffer: BitBuffer, fields: Seq<Field>)
    requires
        buffer.bits_avail == 0,
        encoded_record(buffer, fields) is Some,
    ensures
        encoded_record(buffer, fields) matches Some((bytes, after)) && after.bits_avail == 0 && bytes.len() == (
        total_bits(fields) + 7) / 8,
{
    lemma_encoded_length(buffer, fields);
    let (body, end) = encoded(buffer, fields)->Some_0;
    let padded = end.padded(last_endianness(fields));
    lemma_content_drained(padded);
}

/// What one step of the encoder writes of a big-endian field, followed by
/// what it keeps staged, is what it had staged, followed by the bits of the
/// field.
proof fn lemma_write_step_layout(buffer: BitBuffer, field: Field)
    requires
        field.typ.spec_endianness() == Endianness::Big,
        buffer.bits_avail <= 64,
        write_step(buffer, field.value, field.typ) is Some,
    ensures
        write_step(buffer, field.value, field.typ) matches Some((bytes, after)) && after.bits_avail <= 64
            && bytes_bits(bytes) + content(after) == content(buffer) + field_bits(field),
{
    let n = field.typ.spec_num_bits() as int;
    let (bytes, after) = write_step(buffer, field.value, field.typ)->Some_0;
    if buffer.spec_is_empty() && fills_container(field.typ) {
        lemma_value_bytes_bits(field.value.spec_raw_bits(), field.typ.spec_bit_size().spec_num_bytes() as int);
        assert(bytes_bits(bytes) + content(after) =~= content(buffer) + field_bits(field));
    } else {
        let staged = buffer.pushed(field.value.spec_raw_bits(), n as u64, Endianness::Big);
        lemma_content_pushed(buffer, field.value.spec_raw_bits(), n);
        lemma_content_drained(staged);
    }
}

/// What the encoder writes of big-endian fields, followed by what it keeps
/// staged, is what it had staged, followed by the bits of the fields in
/// their order.
pub proof fn lemma_encoded_layout(buffer: BitBuffer, fields: Seq<Field>)
    requires
        all_big_endian(fields),
        buffer.bits_avail <= 64,
        encoded(buffer, fields) is Some,
    ensures
        encoded(buffer, fields) matches Some((bytes, end)) && end.bits_avail <= 64 && bytes_bits(bytes) + content(end)
            == content(buffer) + stream(fields),
    decreases fields.len(),
{
    if fields.len() == 0 {
        assert(bytes_bits(Seq::<u8>::empty()) + content(buffer) =~= content(buffer) + stream(fields));
    } else {
        let field = fields[0];
        lemma_first_field(fields);
        lemma_write_step_layout(buffer, field);
        let (bytes, after) = write_step(buffer, field.value, field.typ)->Some_0;
        lemma_encoded_layout(after, fields.skip(1));
        let (more, end) = encoded(after, fields.skip(1))->Some_0;
        lemma_bytes_bits_concat(bytes, more);
        let rest = stream(fields.skip(1));
        assert((bytes_bits(bytes) + bytes_bits(more)) + content(end) =~= bytes_bits(bytes) + (bytes_bits(more)
            + content(end)));
        assert(bytes_bits(bytes) + (content(after) + rest) =~= (bytes_bits(bytes) + content(after)) + rest);
        assert((content(buffer) + field_bits(field)) + rest =~= content(buffer) + (field_bits(field) + rest));
    }
}

/// The layout of a record. The bytes of a record of big-endian fields hold
/// the fields' bits one after the other in the order of the fields, each
/// field's most significant bit first, and after them zero bits up to the end
/// of the last byte.
pub proof fn lemma_record_layout(buffer: BitBuffer, fields: Seq<Field>)
    requires
        all_big_endian(fields),
        buffer.bits_avail == 0,
        encoded_record(buffer, fields) is Some,
    ensures
        encoded_record(buffer, fields) matches Some((bytes, after)) && bytes_bits(bytes) == stream(fields) + zero_bits(
            8 * bytes.len() - stream(fields).len(),
        ) && 0 <= 8 * bytes.len() - stream(fields).len() < 8,
{
    lemma_encoded_layout(buffer, fields);
    let (body, end) = encoded(buffer, fields)->Some_0;
    if fields.len() > 0 {
        assert(fields.last().typ.spec_endianness() == Endianness::Big);
    }
    let padded = end.padded(Endianness::Big);
    lemma_content_padded(end);
    lemma_content_drained(padded);
    let tail = finished(end, Endianness::Big).0;
    lemma_bytes_bits_concat(body, tail);
    lemma_bytes_bits_index(body + tail);
    assert(content(buffer) =~= Seq::<bool>::empty());
    assert(content(padded.drained()) =~= Seq::<bool>::empty());
    assert(bytes_bits(body + tail) =~= stream(fields) + zero_bits(end.pad_bits())) by {
        assert(bytes_bits(tail) =~= content(end) + zero_bits(end.pad_bits()));
        assert(bytes_bits(body) + (content(end) + zero_bits(end.pad_bits())) =~= (bytes_bits(body) + content(end))
            + zero_bits(end.pad_bits()));
        assert(content(buffer) + stream(fields) =~= stream(fields));
    }
}

/// Fields that fill their containers fit into the encoder's buffer, whatever
/// their byte order, and at the end the encoder has staged what the last
/// container holds beyond whole bytes.
pub proof fn lemma_encoded_fits(buffer: BitBuffer, fields: Seq<Field>, room: int)
    requires
        forall|i: int| 0 <= i < fields.len() ==> (#[trigger] fields[i]).typ.wf(),
        fills_containers(field_types(fields), room),
        in_step(buffer, room),
    ensures
        encoded(buffer, fields) matches Some((bytes, end)) && in_step(end, end_room(field_types(fields), room))
            && end.pad_bits() == end_room(field_types(fields), room),
    decreases fields.len(),
{
    if fields.len() > 0 {
        let field = fields[0];
        let n = field.typ.spec_num_bits() as int;
        let open = if room == 0 {
            field.typ.spec_bit_size().spec_num_bits() as int
        } else {
            room
        };
        lemma_first_field(fields);
        assert(fields[0].typ.wf());
        assert forall|i: int| 0 <= i < fields.skip(1).len() implies (#[trigger] fields.skip(1)[i]).typ.wf() by {
            assert(fields.skip(1)[i] == fields[i + 1]);
        }
        lemma_write_step_length(buffer, field);
        let (bytes, after) = write_step(buffer, field.value, field.typ)->Some_0;
        lemma_encoded_fits(after, fields.skip(1), open - n);
    }
}

/// The room that the first field finds: what is left of the open container
/// or, where none is open, the whole of its own.
pub open spec fn open_room(buffer: BitBuffer, typ: FieldType) -> int {
    if buffer.bits_avail == 0 {
        typ.spec_bit_size().spec_num_bits() as int
    } else {
        buffer.bits_avail as int
    }
}

/// Where the bits staged in the decoder, followed by the bits of its input,
/// are the bits of the fields and of what is left of the last container, the
/// input holds the container of the first field, and with the container
/// staged the same is true of the rest of the input.
proof fn lemma_staged_stream(input: Seq<u8>, buffer: BitBuffer, fields: Seq<Field>, left: Seq<bool>)
    requires
        fields.len() > 0,
        fills_containers(field_types(fields), buffer.bits_avail as int),
        buffer.bits_avail <= 64,
        left.len() == end_room(field_types(fields), buffer.bits_avail as int),
        content(buffer) + bytes_bits(input) == stream(fields) + left,
    ensures
        input.len() >= bytes_needed(buffer, fields[0].typ),
        loaded(buffer, input.take(bytes_needed(buffer, fields[0].typ)), Endianness::Big).bits_avail == open_room(
            buffer,
            fields[0].typ,
        ),
        content(loaded(buffer, input.take(bytes_needed(buffer, fields[0].typ)), Endianness::Big)) + bytes_bits(
            input.skip(bytes_needed(buffer, fields[0].typ)),
        ) == stream(fields) + left,
{
    let typ = fields[0].typ;
    let need = bytes_needed(buffer, typ);
    lemma_bytes_bits_index(input);
    lemma_stream_fills(fields, buffer.bits_avail as int);
    assert((content(buffer) + bytes_bits(input)).len() == (stream(fields) + left).len());
    assert(input.len() >= need);
    let head = input.take(need);
    let tail = input.skip(need);
    assert(head + tail =~= input);
    lemma_bytes_bits_concat(head, tail);
    lemma_content_loaded(buffer, head);
    assert((content(buffer) + bytes_bits(head)) + bytes_bits(tail) =~= content(buffer) + (bytes_bits(head)
        + bytes_bits(tail)));
}

/// Where the bits staged in the decoder, followed by the bits of its input,
/// are the bits of the fields and of what is left of the last container, the
/// decoder reads the value of the first field and is left with the bits of
/// the others.
proof fn lemma_read_step_stream(input: Seq<u8>, buffer: BitBuffer, fields: Seq<Field>, left: Seq<bool>)
    requires
        fields.len() > 0,
        fields[0].typ.spec_endianness() == Endianness::Big,
        fields[0].typ.wf(),
        value_fits(fields[0]),
        fills_containers(field_types(fields), buffer.bits_avail as int),
        buffer.bits_avail <= 64,
        left.len() == end_room(field_types(fields), buffer.bits_avail as int),
        content(buffer) + bytes_bits(input) == stream(fields) + left,
    ensures
        read_step(input, buffer, fields[0].typ).0 == Some(fields[0].value),
        read_step(input, buffer, fields[0].typ).2.bits_avail <= 64,
        fills_containers(
            field_types(fields.skip(1)),
            read_step(input, buffer, fields[0].typ).2.bits_avail as int,
        ),
        left.len() == end_room(field_types(fields.skip(1)), read_step(input, buffer, fields[0].typ).2.bits_avail as int),
        content(read_step(input, buffer, fields[0].typ).2) + bytes_bits(read_step(input, buffer, fields[0].typ).1)
            == stream(fields.skip(1)) + left,
{
    let field = fields[0];
    let typ = field.typ;
    let n = typ.spec_num_bits() as int;
    let need = bytes_needed(buffer, typ);
    lemma_first_field(fields);
    lemma_staged_stream(input, buffer, fields, left);
    let tail = input.skip(need);
    let staged = loaded(buffer, input.take(need), Endianness::Big);
    lemma_content_pulled(staged, n);
    let value = staged.extracted(n as u64, Endianness::Big);
    let rest = stream(fields.skip(1)) + left;
    assert(stream(fields) + left =~= field_bits(field) + rest);
    assert(bits_of(value, n) =~= field_bits(field)) by {
        assert(content(staged).take(n) =~= (field_bits(field) + rest).take(n));
        assert((field_bits(field) + rest).take(n) =~= field_bits(field));
    }
    lemma_same_bits(value, field.value.spec_raw_bits(), n, n);
    let after = staged.pulled(n as u64, Endianness::Big);
    assert(content(after) + bytes_bits(tail) =~= rest) by {
        assert(content(staged).skip(n) + bytes_bits(tail) =~= (content(staged) + bytes_bits(tail)).skip(n));
        assert((field_bits(field) + rest).skip(n) =~= rest);
    }
    assert(read_step(input, buffer, typ) == (Some(boxed(typ, value)), tail, after));
}

/// Where the bits staged in the decoder, followed by the bits of its input,
/// are the bits of the fields and of what is left of the last container, the
/// decoder reads the fields' values.
pub proof fn lemma_decoded_stream(input: Seq<u8>, buffer: BitBuffer, fields: Seq<Field>, left: Seq<bool>)
    requires
        all_big_endian(fields),
        all_valid(fields),
        fills_containers(field_types(fields), buffer.bits_avail as int),
        buffer.bits_avail <= 64,
        left.len() == end_room(field_types(fields), buffer.bits_avail as int),
        content(buffer) + bytes_bits(input) == stream(fields) + left,
    ensures
        decoded(input, buffer, field_types(fields)) == Some(field_values(fields)),
    decreases fields.len(),
{
    if fields.len() == 0 {
        assert(field_values(fields) =~= Seq::<Value>::empty());
    } else {
        lemma_first_field(fields);
        lemma_read_step_stream(input, buffer, fields, left);
        let (value, tail, after) = read_step(input, buffer, fields[0].typ);
        lemma_decoded_stream(tail, after, fields.skip(1), left);
        assert(seq![fields[0].value] + field_values(fields.skip(1)) =~= field_values(fields));
    }
}

/// Little-endian fields come first, each taking the whole of its container,
/// and no little-endian field follows a big-endian one.
pub open spec fn little_first(fields: Seq<Field>) -> bool
    decreases fields.len(),
{
    if fields.len() == 0 {
        true
    } else if fields[0].typ.spec_endianness() == Endianness::Little {
        fills_container(fields[0].typ) && little_first(fields.skip(1))
    } else {
        all_big_endian(fields)
    }
}

/// The low bytes of a value, staged in little-endian order in a buffer that
/// holds nothing, are the low bits of the value.
pub proof fn lemma_loaded_little(buffer: BitBuffer, raw: u64, num_bytes: int, count: int)
    requires
        buffer.bits == 0,
        buffer.bits_avail == 0,
        0 <= count <= num_bytes <= 8,
    ensures
        loaded(buffer, value_bytes(raw, num_bytes, Endianness::Little).take(count), Endianness::Little) == (BitBuffer {
            bits: raw & low_mask((8 * count) as u64),
            bits_avail: (8 * count) as u8,
        }),
    decreases count,
{
    let bytes = value_bytes(raw, num_bytes, Endianness::Little);
    if count == 0 {
        lemma_masked_out(raw, 0);
    } else {
        lemma_loaded_little(buffer, raw, num_bytes, count - 1);
        assert(bytes.take(count).drop_last() =~= bytes.take(count - 1));
        assert(bytes.take(count).last() == bytes[count - 1]);
        lemma_byte_joins(raw, (8 * (count - 1)) as u64);
    }
}

/// A little-endian field that takes the whole of its container is written
/// directly and read back from its bytes, and leaves both buffers as they
/// were.
proof fn lemma_little_step(field: Field, more: Seq<u8>, encoder: BitBuffer, decoder: BitBuffer)
    requires
        field.typ.wf(),
        value_fits(field),
        field.typ.spec_endianness() == Endianness::Little,
        fills_container(field.typ),
        encoder.bits_avail == 0,
        decoder.bits_avail == 0,
        decoder.bits == 0,
    ensures
        write_step(encoder, field.value, field.typ) matches Some((head, after)) && after == encoder && read_step(
            head + more,
            decoder,
            field.typ,
        ) == (Some(field.value), more, decoder),
{
    let typ = field.typ;
    let n = typ.spec_num_bits() as int;
    let num_bytes = typ.spec_bit_size().spec_num_bytes() as int;
    let masked = field.value.spec_raw_bits() & low_mask(n as u64);
    let head = value_bytes(masked, num_bytes, Endianness::Little);
    let input = head + more;
    assert(input.take(num_bytes) =~= head);
    assert(input.skip(num_bytes) =~= more);
    lemma_loaded_little(decoder, masked, num_bytes, num_bytes);
    assert(head.take(num_bytes) =~= head);
    lemma_masked_out(field.value.spec_raw_bits(), n as u64);
    let staged = loaded(decoder, head, Endianness::Little);
    assert(staged == BitBuffer { bits: masked, bits_avail: n as u8 });
    assert(staged.extracted(n as u64, Endianness::Little) == masked);
    assert(staged.pulled(n as u64, Endianness::Little) == decoder);
}

/// The record of a field that is written directly and of other fields is the
/// field's bytes and then the record of the others.
proof fn lemma_record_after_direct(fields: Seq<Field>, encoder: BitBuffer)
    requires
        fields.len() > 0,
        encoder.bits_avail == 0,
        fills_container(fields[0].typ),
        encoded_record(encoder, fields.skip(1)) is Some,
    ensures
        write_step(encoder, fields[0].value, fields[0].typ) matches Some((head, after)) && after == encoder
            && encoded_record(encoder, fields) == Some(
            (head + encoded_record(encoder, fields.skip(1))->Some_0.0, encoded_record(encoder, fields.skip(1))->Some_0.1),
        ),
{
    lemma_first_field(fields);
    let head = write_step(encoder, fields[0].value, fields[0].typ)->Some_0.0;
    let (body, end) = encoded(encoder, fields.skip(1))->Some_0;
    if fields.len() == 1 {
        assert(fields.skip(1).len() == 0);
        assert(end == encoder);
        assert(finished(end, last_endianness(fields)) == finished(end, last_endianness(fields.skip(1))));
    }
    let tail = finished(end, last_endianness(fields)).0;
    assert((head + body) + tail =~= head + (body + tail));
}

/// Decoding undoes encoding of big-endian fields that hold values of their
/// types and fill their containers.
proof fn lemma_decode_encode_big(fields: Seq<Field>, encoder: BitBuffer, decoder: BitBuffer)
    requires
        all_valid(fields),
        all_big_endian(fields),
        fills_containers(field_types(fields), 0),
        encoder.bits_avail == 0,
        decoder.bits_avail == 0,
    ensures
        encoded_record(encoder, fields) matches Some((bytes, after)) && decoded(bytes, decoder, field_types(fields))
            == Some(field_values(fields)),
{
    lemma_encoded_fits(encoder, fields, 0);
    lemma_record_layout(encoder, fields);
    let bytes = encoded_record(encoder, fields)->Some_0.0;
    let left = zero_bits(8 * bytes.len() - stream(fields).len());
    lemma_stream_length(fields);
    lemma_encoded_length(encoder, fields);
    let (body, end) = encoded(encoder, fields)->Some_0;
    let padded = end.padded(last_endianness(fields));
    lemma_content_drained(padded);
    assert(bytes.len() == body.len() + padded.drained_bytes().len());
    assert(8 * bytes.len() == stream(fields).len() + end.pad_bits());
    assert(content(decoder) =~= Seq::<bool>::empty());
    assert(content(decoder) + bytes_bits(bytes) =~= stream(fields) + left);
    lemma_decoded_stream(bytes, decoder, fields, left);
}

/// Decoding undoes encoding. For fields that hold values of their types and
/// fill their containers, the little-endian ones first and each of them as
/// wide as its container, the encoder, started on an empty buffer, writes a
/// record from which the decoder, started on a buffer that holds nothing,
/// reads the same values back in the same order. The record is as many bytes
/// as the fields are wide in bits, divided by eight and rounded up, and the
/// encoder leaves nothing staged.
pub proof fn lemma_decode_encode(fields: Seq<Field>, encoder: BitBuffer, decoder: BitBuffer)
    requires
        all_valid(fields),
        little_first(fields),
        fills_containers(field_types(fields), 0),
        encoder.bits_avail == 0,
        decoder.bits_avail == 0,
        decoder.bits == 0,
    ensures
        encoded_record(encoder, fields) matches Some((bytes, after)) && after.bits_avail == 0 && bytes.len() == (
        total_bits(fields) + 7) / 8 && decoded(bytes, decoder, field_types(fields)) == Some(field_values(fields)),
    decreases fields.len(),
{
    if fields.len() == 0 {
        assert(field_values(fields) =~= Seq::<Value>::empty());
    } else if fields[0].typ.spec_endianness() == Endianness::Little {
        lemma_first_field(fields);
        lemma_decode_encode(fields.skip(1), encoder, decoder);
        let more = encoded_record(encoder, fields.skip(1))->Some_0.0;
        lemma_record_after_direct(fields, encoder);
        lemma_little_step(fields[0], more, encoder, decoder);
        assert(seq![fields[0].value] + field_values(fields.skip(1)) =~= field_values(fields));
    } else {
        lemma_decode_encode_big(fields, encoder, decoder);
    }
    lemma_record_length(encoder, fields);
}

/// The fields put as many bits on the wire as they are wide.
pub proof fn lemma_stream_length(fields: Seq<Field>)
    ensures
        stream(fields).len() == total_bits(fields),
    decreases fields.len(),
{
    if fields.len() > 0 {
        lemma_first_field(fields);
        lemma_stream_length(fields.skip(1));
    } else {
        assert(total_bits(fields) == 0);
    }
}

/// The values of each record.
pub open spec fn records_values(records: Seq<Seq<Field>>) -> Seq<Seq<Value>> {
    records.map_values(|record: Seq<Field>| field_values(record))
}

/// Every record has fields of the types `types` that hold values of their
/// types, the little-endian ones first and each of them as wide as its
/// container.
pub open spec fn records_valid(records: Seq<Seq<Field>>, types: Seq<FieldType>) -> bool {
    forall|i: int|
        0 <= i < records.len() ==> {
            &&& field_types(#[trigger] records[i]) == types
            &&& all_valid(records[i])
            &&& little_first(records[i])
        }
}

/// The fields are as wide as their types.
pub proof fn lemma_total_bits_of_types(fields: Seq<Field>)
    ensures
        total_bits(field_types(fields)) == total_bits(fields),
    decreases fields.len(),
{
    if fields.len() > 0 {
        lemma_total_bits_of_types(fields.drop_last());
        assert(field_types(fields).drop_last() =~= field_types(fields.drop_last()));
        assert(field_types(fields).last() == fields.last().typ);
    }
}

/// Decoding undoes encoding of a stream of records. For records of one
/// layout, whose fields hold values of their types and fill their containers,
/// the little-endian ones first and each of them as wide as its container,
/// the encoder, started on an empty buffer, writes bytes from which the
/// decoder reads the values of every record back, record by record.
pub proof fn lemma_decode_encode_records(records: Seq<Seq<Field>>, types: Seq<FieldType>, encoder: BitBuffer)
    requires
        types.len() > 0,
        forall|i: int| 0 <= i < types.len() ==> (#[trigger] types[i]).wf(),
        records_valid(records, types),
        fills_containers(types, 0),
        encoder.bits_avail == 0,
    ensures
        encoded_records(encoder, records) matches Some(bytes) && decoded_records(
            bytes,
            types,
            (total_bits(types) + 7) as int / 8,
        ) == Some(records_values(records)),
    decreases records.len(),
{
    let size = (total_bits(types) + 7) as int / 8;
    assert(size > 0) by {
        assert(types.last().wf());
    }
    if records.len() == 0 {
        assert(records_values(records) =~= Seq::<Seq<Value>>::empty());
    } else {
        let first = records[0];
        let decoder = BitBuffer { bits: 0, bits_avail: 0 };
        assert(field_types(first) == types);
        lemma_decode_encode(first, encoder, decoder);
        lemma_total_bits_of_types(first);
        let (head, after) = encoded_record(encoder, first)->Some_0;
        assert forall|i: int| 0 <= i < records.skip(1).len() implies {
            &&& field_types(#[trigger] records.skip(1)[i]) == types
            &&& all_valid(records.skip(1)[i])
            &&& little_first(records.skip(1)[i])
        } by {
            assert(records.skip(1)[i] == records[i + 1]);
        }
        lemma_decode_encode_records(records.skip(1), types, after);
        let more = encoded_records(after, records.skip(1))->Some_0;
        let bytes = head + more;
        assert(bytes.take(size) =~= head);
        assert(bytes.skip(size) =~= more);
        assert(seq![field_values(first)] + records_values(records.skip(1)) =~= records_values(records));
    }
}

} // verus!
