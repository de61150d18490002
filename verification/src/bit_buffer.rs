//! A 64-bit accumulator that packs and unpacks fields of one to 64 bits.
//!
//! Big-endian fields enter at the low end and push the earlier content up, so
//! the field that was pushed first is the most significant. Little-endian fields
//! enter above the occupied bits, so the field that was pushed first is the
//! least significant. Only the low `bits_avail` bits of the register count; what
//! lies above them is left over from earlier operations.

use vstd::prelude::*;
use vstd::string::*;
use byteorder::{BigEndian, ByteOrder, LittleEndian};
use crate::text::{decimal, hexadecimal, push_decimal, push_hexadecimal};
use crate::types::{Endianness, FieldType, NumBits, Value};

verus! {

/// The number of bits that the accumulator holds.
pub const BITS_IN_BUFFER: u8 = 64;

/// The mask of the low `num_bits` bits: two to the power `num_bits`, less one.
pub open spec fn low_mask(num_bits: u64) -> u64 {
    if num_bits >= 64 {
        0xffff_ffff_ffff_ffffu64
    } else {
        ((1u64 << num_bits) - 1) as u64
    }
}

/// Four bytes read as one number, the first byte most significant.
pub open spec fn be_u32(b: Seq<u8>) -> u32 {
    ((b[0] as u32) << 24) | ((b[1] as u32) << 16) | ((b[2] as u32) << 8) | (b[3] as u32)
}

/// Four bytes read as one number, the first byte least significant.
pub open spec fn le_u32(b: Seq<u8>) -> u32 {
    ((b[3] as u32) << 24) | ((b[2] as u32) << 16) | ((b[1] as u32) << 8) | (b[0] as u32)
}

/// Eight bytes read as one number, the first byte most significant.
pub open spec fn be_u64(b: Seq<u8>) -> u64 {
    ((b[0] as u64) << 56) | ((b[1] as u64) << 48) | ((b[2] as u64) << 40) | ((b[3] as u64) << 32)
        | ((b[4] as u64) << 24) | ((b[5] as u64) << 16) | ((b[6] as u64) << 8) | (b[7] as u64)
}

/// Eight bytes read as one number, the first byte least significant.
pub open spec fn le_u64(b: Seq<u8>) -> u64 {
    ((b[7] as u64) << 56) | ((b[6] as u64) << 48) | ((b[5] as u64) << 40) | ((b[4] as u64) << 32)
        | ((b[3] as u64) << 24) | ((b[2] as u64) << 16) | ((b[1] as u64) << 8) | (b[0] as u64)
}

/// `byteorder::BigEndian::read_u32`: the number that the first four bytes of
/// `buf` spell in big-endian order. It panics on a shorter slice.
#[verifier::external_body]
fn read_u32_be(buf: &[u8]) -> (pattern: u32)
    requires
        buf@.len() >= 4,
    ensures
        pattern == be_u32(buf@),
{
    BigEndian::read_u32(buf)
}

/// `byteorder::LittleEndian::read_u32`: the number that the first four bytes of
/// `buf` spell in little-endian order. It panics on a shorter slice.
#[verifier::external_body]
fn read_u32_le(buf: &[u8]) -> (pattern: u32)
    requires
        buf@.len() >= 4,
    ensures
        pattern == le_u32(buf@),
{
    LittleEndian::read_u32(buf)
}

/// `byteorder::BigEndian::read_u64`: the number that the first eight bytes of
/// `buf` spell in big-endian order. It panics on a shorter slice.
#[verifier::external_body]
fn read_u64_be(buf: &[u8]) -> (pattern: u64)
    requires
        buf@.len() >= 8,
    ensures
        pattern == be_u64(buf@),
{
    BigEndian::read_u64(buf)
}

/// `byteorder::LittleEndian::read_u64`: the number that the first eight bytes
/// of `buf` spell in little-endian order. It panics on a shorter slice.
#[verifier::external_body]
fn read_u64_le(buf: &[u8]) -> (pattern: u64)
    requires
        buf@.len() >= 8,
    ensures
        pattern == le_u64(buf@),
{
    LittleEndian::read_u64(buf)
}

/// The value that a pull of `extracted` yields under `typ`: an integer in the
/// smallest tag that holds the declared width, a float or double as the
/// extracted pattern.
pub open spec fn boxed(typ: FieldType, extracted: u64) -> Value {
    match typ {
        FieldType::Int(num_bits, _, _) => {
            if num_bits <= 8 {
                Value::Int8(extracted as i8)
            } else if num_bits <= 16 {
                Value::Int16(extracted as i16)
            } else if num_bits <= 32 {
                Value::Int32(extracted as i32)
            } else {
                Value::Int64(extracted as i64)
            }
        },
        FieldType::Uint(num_bits, _, _) => {
            if num_bits <= 8 {
                Value::Uint8(extracted as u8)
            } else if num_bits <= 16 {
                Value::Uint16(extracted as u16)
            } else if num_bits <= 32 {
                Value::Uint32(extracted as u32)
            } else {
                Value::Uint64(extracted)
            }
        },
        FieldType::Float(_) => Value::Float(extracted as u32),
        FieldType::Double(_) => Value::Double(extracted),
    }
}

/// The accumulator and the count of its valid bits.
#[derive(Eq, PartialEq, Debug, Copy, Clone)]
pub struct BitBuffer {
    pub bits: u64,
    pub bits_avail: u8,
}

impl Default for BitBuffer {
    fn default() -> (buffer: Self)
        ensures
            buffer.bits == 0,
            buffer.bits_avail == 0,
            buffer.wf(),
    {
        BitBuffer { bits: 0, bits_avail: 0 }
    }
}

impl BitBuffer {
    /// No more bits are valid than the register holds.
    pub open spec fn wf(&self) -> bool {
        self.bits_avail <= 64
    }

    /// No bit is valid.
    pub open spec fn spec_is_empty(&self) -> bool {
        self.bits_avail == 0
    }

    /// The valid bits are a whole number of bytes, and at least one.
    pub open spec fn spec_byte_aligned(&self) -> bool {
        self.bits_avail > 0 && self.bits_avail % 8 == 0
    }

    /// The mask of the valid bits.
    pub open spec fn spec_mask(&self) -> u64 {
        low_mask(self.bits_avail as u64)
    }

    /// Whether `num_bits` more bits fit.
    pub open spec fn can_push(&self, num_bits: int) -> bool {
        self.bits_avail <= 64 && 0 <= num_bits <= 64 - self.bits_avail
    }

    /// The buffer after the low `num_bits` bits of `raw` went in.
    pub open spec fn pushed(&self, raw: u64, num_bits: u64, endianness: Endianness) -> BitBuffer {
        let masked = raw & low_mask(num_bits);
        BitBuffer {
            bits: match endianness {
                Endianness::Big => (self.bits << num_bits) | masked,
                Endianness::Little => self.bits | (masked << (self.bits_avail as u64)),
            },
            bits_avail: (self.bits_avail + num_bits) as u8,
        }
    }

    /// Whether `num_bits` bits can come out.
    pub open spec fn can_pull(&self, num_bits: int) -> bool {
        self.bits_avail <= 64 && 0 <= num_bits <= self.bits_avail
    }

    /// The next `num_bits` bits: the top of the occupied region for a
    /// big-endian field, the bottom for a little-endian one.
    pub open spec fn extracted(&self, num_bits: u64, endianness: Endianness) -> u64 {
        match endianness {
            Endianness::Big => (self.bits >> ((self.bits_avail - num_bits) as u64)) & low_mask(num_bits),
            Endianness::Little => self.bits & low_mask(num_bits),
        }
    }

    /// The buffer after `num_bits` bits came out. A big-endian pull leaves the
    /// register as it is, a little-endian pull shifts it down.
    pub open spec fn pulled(&self, num_bits: u64, endianness: Endianness) -> BitBuffer {
        BitBuffer {
            bits: match endianness {
                Endianness::Big => self.bits,
                Endianness::Little => self.bits >> num_bits,
            },
            bits_avail: (self.bits_avail - num_bits) as u8,
        }
    }

    /// Whether a value of type `typ` can be pulled: the bits are there, and a
    /// float or double starts on a byte boundary.
    pub open spec fn can_pull_value(&self, typ: FieldType) -> bool {
        &&& self.can_pull(typ.spec_num_bits() as int)
        &&& (typ is Float || typ is Double) ==> self.bits_avail % 8 == 0
    }

    /// Whether a whole byte can be pulled.
    pub open spec fn can_pull_byte(&self) -> bool {
        self.bits_avail <= 64 && self.spec_byte_aligned()
    }

    /// The bytes that come out while whole bytes are staged, the top byte
    /// first.
    pub open spec fn drained_bytes(&self) -> Seq<u8> {
        if self.can_pull_byte() {
            Seq::new(
                (self.bits_avail / 8) as nat,
                |i: int| (self.bits >> ((self.bits_avail - 8 * (i + 1)) as u64)) as u8,
            )
        } else {
            Seq::empty()
        }
    }

    /// The buffer after those bytes came out.
    pub open spec fn drained(&self) -> BitBuffer {
        if self.can_pull_byte() {
            BitBuffer { bits: self.bits, bits_avail: 0 }
        } else {
            *self
        }
    }

    /// How many bits are missing for the staged bits to be whole bytes.
    pub open spec fn pad_bits(&self) -> int {
        if self.bits_avail <= 64 && self.bits_avail % 8 != 0 {
            8 - self.bits_avail % 8
        } else {
            0
        }
    }

    /// The buffer after zero bits filled the staged bits up to whole bytes:
    /// below the content in big-endian order, above it in little-endian
    /// order.
    pub open spec fn padded(&self, endianness: Endianness) -> BitBuffer {
        if self.pad_bits() == 0 {
            *self
        } else {
            BitBuffer {
                bits: match endianness {
                    Endianness::Big => self.bits << (self.pad_bits() as u64),
                    Endianness::Little => self.bits & low_mask(self.bits_avail as u64),
                },
                bits_avail: (self.bits_avail + self.pad_bits()) as u8,
            }
        }
    }

    /// The buffer as text.
    pub open spec fn spec_text(&self) -> Seq<char> {
        "bit_buffer("@ + hexadecimal((self.bits & self.spec_mask()) as nat, 8) + ", "@ + decimal(
            self.bits_avail as nat,
        ) + ")"@
    }

    #[verifier::when_used_as_spec(spec_is_empty)]
    pub fn is_empty(&self) -> (empty: bool)
        ensures
            empty == self.spec_is_empty(),
    {
        self.bits_avail == 0
    }

    #[verifier::when_used_as_spec(spec_byte_aligned)]
    pub fn byte_aligned(&self) -> (aligned: bool)
        ensures
            aligned == self.spec_byte_aligned(),
    {
        (self.bits_avail > 0) && (self.bits_avail % 8 == 0)
    }

    /// The mask of the valid bits.
    #[verifier::when_used_as_spec(spec_mask)]
    pub fn mask(&self) -> (mask: u64)
        ensures
            mask == self.spec_mask(),
    {
        mask_of(self.bits_avail as u64)
    }

    /// Appends one byte below the content. Fails, and changes nothing, where
    /// eight more bits do not fit.
    pub fn push_byte_be(&mut self, byte: u8) -> (r: Option<()>)
        ensures
            old(self).can_push(8) ==> r is Some && *final(self) == old(self).pushed(byte as u64, 8, Endianness::Big),
            !old(self).can_push(8) ==> r is None && *final(self) == *old(self),
            old(self).wf() ==> final(self).wf(),
            r is Some ==> final(self).bits == (old(self).bits << 8) | (byte as u64),
            r is Some ==> final(self).bits_avail == old(self).bits_avail + 8,
    {
        if self.bits_avail <= BITS_IN_BUFFER - 8 {
            proof {
                lemma_byte_is_masked(byte);
            }
            self.bits = (self.bits << 8) | (byte as u64);
            self.bits_avail += 8;
            Some(())
        } else {
            None
        }
    }

    /// Appends one byte above the content. Fails, and changes nothing, where
    /// eight more bits do not fit.
    pub fn push_byte_le(&mut self, byte: u8) -> (r: Option<()>)
        ensures
            old(self).can_push(8) ==> r is Some && *final(self) == old(self).pushed(byte as u64, 8, Endianness::Little),
            !old(self).can_push(8) ==> r is None && *final(self) == *old(self),
            old(self).wf() ==> final(self).wf(),
            r is Some ==> final(self).bits == old(self).bits | ((byte as u64) << (old(self).bits_avail as u64)),
            r is Some ==> final(self).bits_avail == old(self).bits_avail + 8,
    {
        if self.bits_avail <= BITS_IN_BUFFER - 8 {
            proof {
                lemma_byte_is_masked(byte);
            }
            self.bits = self.bits | ((byte as u64) << (self.bits_avail as u64));
            self.bits_avail += 8;
            Some(())
        } else {
            None
        }
    }

    /// Inserts the low `num_bits` bits of `value`. Fails, and changes nothing,
    /// where `num_bits` is more than the free bits.
    pub fn push_value(&mut self, value: Value, num_bits: NumBits, endianness: Endianness) -> (r: Option<()>)
        ensures
            old(self).can_push(num_bits as int) ==> r is Some && *final(self) == old(self).pushed(
                value.spec_raw_bits(),
                num_bits as u64,
                endianness,
            ),
            !old(self).can_push(num_bits as int) ==> r is None && *final(self) == *old(self),
            old(self).wf() ==> final(self).wf(),
    {
        if self.bits_avail > BITS_IN_BUFFER || ((BITS_IN_BUFFER - self.bits_avail) as usize) < num_bits {
            None
        } else {
            let width: u64 = num_bits as u64;
            let masked: u64 = value.raw_bits() & mask_of(width);
            let bits: u64 = self.bits;
            match endianness {
                Endianness::Big => {
                    if width < 64 {
                        self.bits = (bits << width) | masked;
                    } else {
                        proof {
                            lemma_shift_out(bits, masked);
                        }
                        self.bits = masked;
                    }
                },
                Endianness::Little => {
                    if self.bits_avail < 64 {
                        self.bits = bits | (masked << (self.bits_avail as u64));
                    } else {
                        proof {
                            lemma_nothing_in(bits, value.spec_raw_bits());
                        }
                    }
                },
            }
            self.bits_avail = self.bits_avail + (num_bits as u8);
            Some(())
        }
    }

    /// Removes the next field and gives its value under `typ`. Fails, and
    /// changes nothing, where the field is wider than the valid bits, or where
    /// a float or double does not start on a byte boundary.
    pub fn pull_value(&mut self, typ: &FieldType) -> (r: Option<Value>)
        ensures
            old(self).can_pull_value(*typ) ==> r == Some(
                boxed(*typ, old(self).extracted(typ.spec_num_bits() as u64, typ.spec_endianness())),
            ) && *final(self) == old(self).pulled(typ.spec_num_bits() as u64, typ.spec_endianness()),
            !old(self).can_pull_value(*typ) ==> r is None && *final(self) == *old(self),
            old(self).wf() ==> final(self).wf(),
    {
        let num_bits: NumBits = typ.num_bits();
        if self.bits_avail > BITS_IN_BUFFER || num_bits > self.bits_avail as usize {
            return None;
        }
        let endianness: Endianness = typ.endianness();
        match typ {
            FieldType::Float(_) | FieldType::Double(_) => {
                if self.bits_avail % 8 != 0 {
                    return None;
                }
            },
            _ => {},
        }
        let width: u64 = num_bits as u64;
        let mask: u64 = mask_of(width);
        let bits: u64 = self.bits;
        let remaining: u8 = self.bits_avail - (num_bits as u8);
        let value: u64;
        match endianness {
            Endianness::Little => {
                value = bits & mask;
                if width < 64 {
                    self.bits = bits >> width;
                } else {
                    proof {
                        lemma_all_out(bits);
                    }
                    self.bits = 0;
                }
            },
            Endianness::Big => {
                if remaining < 64 {
                    value = (bits >> (remaining as u64)) & mask;
                } else {
                    proof {
                        lemma_nothing_out(bits);
                    }
                    value = 0;
                }
            },
        }
        self.bits_avail = remaining;
        match typ {
            FieldType::Int(_, _, _) => {
                if num_bits <= 8 {
                    Some(Value::Int8(value as i8))
                } else if num_bits <= 16 {
                    Some(Value::Int16(value as i16))
                } else if num_bits <= 32 {
                    Some(Value::Int32(value as i32))
                } else {
                    Some(Value::Int64(value as i64))
                }
            },
            FieldType::Uint(_, _, _) => {
                if num_bits <= 8 {
                    Some(Value::Uint8(value as u8))
                } else if num_bits <= 16 {
                    Some(Value::Uint16(value as u16))
                } else if num_bits <= 32 {
                    Some(Value::Uint32(value as u32))
                } else {
                    Some(Value::Uint64(value))
                }
            },
            FieldType::Float(_) => Some(Value::Float(pattern32(value, endianness))),
            FieldType::Double(_) => Some(Value::Double(pattern64(value, endianness))),
        }
    }

    /// Removes the top byte of the occupied region. Fails, and changes
    /// nothing, unless the valid bits are a whole number of bytes, and at
    /// least one.
    pub fn pull_byte(&mut self) -> (r: Option<u8>)
        ensures
            old(self).can_pull_byte() ==> r == Some(old(self).extracted(8, Endianness::Big) as u8) && *final(self)
                == old(self).pulled(8, Endianness::Big),
            !old(self).can_pull_byte() ==> r is None && *final(self) == *old(self),
            old(self).wf() ==> final(self).wf(),
            r matches Some(byte) ==> byte == (old(self).bits >> ((old(self).bits_avail - 8) as u64)) as u8,
    {
        if self.bits_avail <= BITS_IN_BUFFER && self.byte_aligned() {
            self.bits_avail -= 8;
            let top: u64 = self.bits >> (self.bits_avail as u64);
            proof {
                lemma_low_byte(top);
            }
            Some(top as u8)
        } else {
            None
        }
    }

    /// The next byte of the buffer, while it holds whole bytes: `pull_byte`
    /// under the name that a loop over the buffer asks for.
    pub fn next(&mut self) -> (r: Option<u8>)
        ensures
            old(self).can_pull_byte() ==> r == Some(old(self).extracted(8, Endianness::Big) as u8) && *final(self)
                == old(self).pulled(8, Endianness::Big),
            !old(self).can_pull_byte() ==> r is None && *final(self) == *old(self),
            old(self).wf() ==> final(self).wf(),
    {
        if self.byte_aligned() {
            self.pull_byte()
        } else {
            None
        }
    }

    /// The buffer as text: its valid bits in at least eight hexadecimal
    /// digits, and their count.
    pub fn to_string(&self) -> (text: String)
        ensures
            text@ == self.spec_text(),
    {
        let mut text = String::from_str("bit_buffer(");
        push_hexadecimal(&mut text, self.bits & self.mask(), 8);
        text.append(", ");
        push_decimal(&mut text, self.bits_avail as u64);
        text.append(")");
        assert(text@ =~= self.spec_text());
        text
    }

    /// Fills the staged bits up to whole bytes with zero bits. A buffer of
    /// whole bytes stays as it is.
    pub fn pad(&mut self, endianness: Endianness)
        ensures
            *final(self) == old(self).padded(endianness),
            old(self).wf() ==> final(self).wf(),
    {
        if self.bits_avail <= BITS_IN_BUFFER && self.bits_avail % 8 != 0 {
            let pad: u8 = 8 - self.bits_avail % 8;
            match endianness {
                Endianness::Big => {
                    self.bits = self.bits << (pad as u64);
                },
                Endianness::Little => {
                    self.bits = self.bits & mask_of(self.bits_avail as u64);
                },
            }
            self.bits_avail = self.bits_avail + pad;
        }
    }

    /// Pulls bytes while whole bytes are staged. A remainder of less than a
    /// byte stays in the buffer.
    pub fn drain(&mut self) -> (bytes: Vec<u8>)
        ensures
            bytes@ == old(self).drained_bytes(),
            *final(self) == old(self).drained(),
            old(self).wf() ==> final(self).wf(),
    {
        let mut bytes: Vec<u8> = Vec::new();
        if !(self.bits_avail <= BITS_IN_BUFFER && self.byte_aligned()) {
            return bytes;
        }
        let ghost start = *self;
        while self.bits_avail > 0
            invariant
                start.bits_avail <= 64,
                start.bits_avail % 8 == 0,
                self.bits == start.bits,
                self.bits_avail <= start.bits_avail,
                self.bits_avail % 8 == 0,
                start.bits_avail - self.bits_avail == 8 * bytes@.len(),
                forall|i: int|
                    0 <= i < bytes@.len() ==> bytes@[i] == (start.bits >> ((start.bits_avail - 8 * (i + 1)) as u64)) as u8,
            decreases self.bits_avail,
        {
            match self.pull_byte() {
                Some(byte) => {
                    bytes.push(byte);
                },
                None => {},
            }
        }
        assert(bytes@ =~= start.drained_bytes());
        bytes
    }
}

/// The mask of the low `num_bits` bits.
pub fn mask_of(num_bits: u64) -> (mask: u64)
    ensures
        mask == low_mask(num_bits),
{
    if num_bits >= 64 {
        0xffff_ffff_ffff_ffffu64
    } else {
        let bit: u64 = 1u64 << num_bits;
        proof {
            lemma_one_bit(num_bits);
        }
        bit - 1
    }
}

/// The extracted 32 bits read as an IEEE-754 pattern in the field's byte
/// order: the pattern is laid out in that order and decoded in the same.
fn pattern32(value: u64, endianness: Endianness) -> (pattern: u32)
    ensures
        pattern == value as u32,
{
    let b0: u8 = (value >> 24) as u8;
    let b1: u8 = (value >> 16) as u8;
    let b2: u8 = (value >> 8) as u8;
    let b3: u8 = value as u8;
    proof {
        lemma_bytes_of_u32(value);
    }
    match endianness {
        Endianness::Big => {
            let buf: [u8; 4] = [b0, b1, b2, b3];
            read_u32_be(buf.as_slice())
        },
        Endianness::Little => {
            let buf: [u8; 4] = [b3, b2, b1, b0];
            read_u32_le(buf.as_slice())
        },
    }
}

/// The extracted 64 bits read as an IEEE-754 pattern in the field's byte
/// order: the pattern is laid out in that order and decoded in the same.
fn pattern64(value: u64, endianness: Endianness) -> (pattern: u64)
    ensures
        pattern == value,
{
    let b0: u8 = (value >> 56) as u8;
    let b1: u8 = (value >> 48) as u8;
    let b2: u8 = (value >> 40) as u8;
    let b3: u8 = (value >> 32) as u8;
    let b4: u8 = (value >> 24) as u8;
    let b5: u8 = (value >> 16) as u8;
    let b6: u8 = (value >> 8) as u8;
    let b7: u8 = value as u8;
    proof {
        lemma_bytes_of_u64(value);
    }
    match endianness {
        Endianness::Big => {
            let buf: [u8; 8] = [b0, b1, b2, b3, b4, b5, b6, b7];
            read_u64_be(buf.as_slice())
        },
        Endianness::Little => {
            let buf: [u8; 8] = [b7, b6, b5, b4, b3, b2, b1, b0];
            read_u64_le(buf.as_slice())
        },
    }
}

/// A buffer holds whole bytes at 8, 16, 24, 32, 40, 48, 56 and 64 valid
/// bits, and at no other count that the register allows: not at 0.
pub proof fn lemma_byte_aligned_counts(buffer: BitBuffer)
    requires
        buffer.wf(),
    ensures
        buffer.spec_byte_aligned() <==> (buffer.bits_avail == 8 || buffer.bits_avail == 16 || buffer.bits_avail == 24
            || buffer.bits_avail == 32 || buffer.bits_avail == 40 || buffer.bits_avail == 48 || buffer.bits_avail
            == 56 || buffer.bits_avail == 64),
        buffer.spec_byte_aligned() <==> buffer.can_pull_byte(),
{
}

/// The mask of `num_bits` bits is two to the power `num_bits`, less one.
pub proof fn lemma_low_mask_is_power(num_bits: u64)
    requires
        num_bits <= 64,
    ensures
        low_mask(num_bits) == vstd::arithmetic::power2::pow2(num_bits as nat) - 1,
{
    vstd::arithmetic::power2::lemma2_to64();
    vstd::arithmetic::power2::lemma2_to64_rest();
    if num_bits < 64 {
        vstd::bits::lemma_u64_shl_is_mul(1, num_bits);
        vstd::bits::lemma_u64_pow2_no_overflow(num_bits as nat);
    }
}

proof fn lemma_one_bit(num_bits: u64)
    by (bit_vector)
    requires
        num_bits < 64,
    ensures
        1u64 << num_bits >= 1,
{
}

proof fn lemma_byte_is_masked(byte: u8)
    by (bit_vector)
    ensures
        (byte as u64) & low_mask(8) == byte as u64,
{
}

proof fn lemma_low_byte(top: u64)
    by (bit_vector)
    ensures
        (top & low_mask(8)) as u8 == top as u8,
{
}

proof fn lemma_shift_out(bits: u64, masked: u64)
    by (bit_vector)
    ensures
        (bits << 64u64) | masked == masked,
{
}

proof fn lemma_nothing_in(bits: u64, raw: u64)
    by (bit_vector)
    ensures
        bits | ((raw & low_mask(0)) << 64u64) == bits,
{
}

proof fn lemma_all_out(bits: u64)
    by (bit_vector)
    ensures
        bits >> 64u64 == 0,
{
}

proof fn lemma_nothing_out(bits: u64)
    by (bit_vector)
    ensures
        (bits >> 64u64) & low_mask(0) == 0,
{
}

proof fn lemma_bytes_of_u32(value: u64)
    by (bit_vector)
    ensures
        (((value >> 24) as u8) as u32) << 24 | (((value >> 16) as u8) as u32) << 16 | (((value >> 8) as u8) as u32)
            << 8 | ((value as u8) as u32) == value as u32,
{
}

proof fn lemma_bytes_of_u64(value: u64)
    by (bit_vector)
    ensures
        (((value >> 56) as u8) as u64) << 56 | (((value >> 48) as u8) as u64) << 48 | (((value >> 40) as u8) as u64)
            << 40 | (((value >> 32) as u8) as u64) << 32 | (((value >> 24) as u8) as u64) << 24 | (((value
            >> 16) as u8) as u64) << 16 | (((value >> 8) as u8) as u64) << 8 | ((value as u8) as u64) == value,
{
}

} // verus!
