//! The vocabulary of fields: byte order, container width, field type.

use vstd::prelude::*;

verus! {

/// A number of bits.
pub type NumBits = usize;

/// A number of bytes.
pub type NumBytes = usize;

/// Whether an integer is signed or unsigned.
#[derive(Eq, PartialEq, Debug, Copy, Clone, Structural)]
pub enum Signedness {
    Unsigned,
    Signed,
}

/// Bit and byte order of a field.
#[derive(Eq, PartialEq, Debug, Copy, Clone, Structural)]
pub enum Endianness {
    Little,
    Big,
}

impl Default for Endianness {
    fn default() -> (e: Self)
        ensures
            e == Endianness::Little,
    {
        Endianness::Little
    }
}

/// The width of the byte-aligned container that a field lives in.
#[derive(PartialEq, Eq, Debug, Copy, Clone, Structural)]
pub enum BitSize {
    Bits8,
    Bits16,
    Bits32,
    Bits64,
}

impl BitSize {
    /// Width of the container in bytes.
    pub open spec fn spec_num_bytes(&self) -> usize {
        match self {
            BitSize::Bits8 => 1,
            BitSize::Bits16 => 2,
            BitSize::Bits32 => 4,
            BitSize::Bits64 => 8,
        }
    }

    /// Width of the container in bits.
    pub open spec fn spec_num_bits(&self) -> usize {
        match self {
            BitSize::Bits8 => 8,
            BitSize::Bits16 => 16,
            BitSize::Bits32 => 32,
            BitSize::Bits64 => 64,
        }
    }

    /// The smallest container that holds `num_bits` bits.
    pub open spec fn spec_fits_within(num_bits: usize) -> BitSize {
        if num_bits <= 8 {
            BitSize::Bits8
        } else if num_bits <= 16 {
            BitSize::Bits16
        } else if num_bits <= 32 {
            BitSize::Bits32
        } else {
            BitSize::Bits64
        }
    }

    #[verifier::when_used_as_spec(spec_num_bytes)]
    pub fn num_bytes(&self) -> (n: NumBytes)
        ensures
            n == self.spec_num_bytes(),
    {
        match self {
            BitSize::Bits8 => 1,
            BitSize::Bits16 => 2,
            BitSize::Bits32 => 4,
            BitSize::Bits64 => 8,
        }
    }

    /// The smallest container that holds `num_bits` bits. No container holds
    /// more than 64.
    pub fn fits_within(num_bits: NumBits) -> (size: Self)
        requires
            num_bits <= 64,
        ensures
            size == Self::spec_fits_within(num_bits),
            num_bits <= size.spec_num_bits(),
            forall|other: BitSize| num_bits <= other.spec_num_bits() ==> size.spec_num_bits() <= other.spec_num_bits(),
    {
        if num_bits <= 8 {
            BitSize::Bits8
        } else if num_bits <= 16 {
            BitSize::Bits16
        } else if num_bits <= 32 {
            BitSize::Bits32
        } else {
            BitSize::Bits64
        }
    }
}

/// The binary representation of a field: a signed or an unsigned integer of a
/// declared width inside a container, or an IEEE-754 number of 32 or 64 bits.
#[derive(Eq, PartialEq, Debug, Copy, Clone, Structural)]
pub enum FieldType {
    /// Signed integer: width in bits, byte order, container.
    Int(NumBits, Endianness, BitSize),
    /// Unsigned integer: width in bits, byte order, container.
    Uint(NumBits, Endianness, BitSize),
    /// Single precision, always 32 bits.
    Float(Endianness),
    /// Double precision, always 64 bits.
    Double(Endianness),
}

impl FieldType {
    /// The byte order that the type declares.
    pub open spec fn spec_endianness(&self) -> Endianness {
        match self {
            FieldType::Int(_, endianness, _) => *endianness,
            FieldType::Uint(_, endianness, _) => *endianness,
            FieldType::Float(endianness) => *endianness,
            FieldType::Double(endianness) => *endianness,
        }
    }

    /// The declared width in bits.
    pub open spec fn spec_num_bits(&self) -> usize {
        match self {
            FieldType::Int(num_bits, _, _) => *num_bits,
            FieldType::Uint(num_bits, _, _) => *num_bits,
            FieldType::Float(_) => 32,
            FieldType::Double(_) => 64,
        }
    }

    /// The container that is loaded before the first pull from an empty buffer.
    pub open spec fn spec_bit_size(&self) -> BitSize {
        match self {
            FieldType::Int(_, _, bit_size) => *bit_size,
            FieldType::Uint(_, _, bit_size) => *bit_size,
            FieldType::Float(_) => BitSize::Bits32,
            FieldType::Double(_) => BitSize::Bits64,
        }
    }

    /// A field is between one and 64 bits wide and no wider than its container.
    pub open spec fn wf(&self) -> bool {
        1 <= self.spec_num_bits() <= 64 && self.spec_num_bits() <= self.spec_bit_size().spec_num_bits()
    }

    pub fn u8(endianness: Endianness) -> (typ: FieldType)
        ensures
            typ == FieldType::Uint(8, endianness, BitSize::Bits8),
    {
        FieldType::Uint(8, endianness, BitSize::Bits8)
    }

    pub fn u16(endianness: Endianness) -> (typ: FieldType)
        ensures
            typ == FieldType::Uint(16, endianness, BitSize::Bits16),
    {
        FieldType::Uint(16, endianness, BitSize::Bits16)
    }

    pub fn u32(endianness: Endianness) -> (typ: FieldType)
        ensures
            typ == FieldType::Uint(32, endianness, BitSize::Bits32),
    {
        FieldType::Uint(32, endianness, BitSize::Bits32)
    }

    pub fn u64(endianness: Endianness) -> (typ: FieldType)
        ensures
            typ == FieldType::Uint(64, endianness, BitSize::Bits64),
    {
        FieldType::Uint(64, endianness, BitSize::Bits64)
    }

    pub fn i8(endianness: Endianness) -> (typ: FieldType)
        ensures
            typ == FieldType::Int(8, endianness, BitSize::Bits8),
    {
        FieldType::Int(8, endianness, BitSize::Bits8)
    }

    pub fn i16(endianness: Endianness) -> (typ: FieldType)
        ensures
            typ == FieldType::Int(16, endianness, BitSize::Bits16),
    {
        FieldType::Int(16, endianness, BitSize::Bits16)
    }

    pub fn i32(endianness: Endianness) -> (typ: FieldType)
        ensures
            typ == FieldType::Int(32, endianness, BitSize::Bits32),
    {
        FieldType::Int(32, endianness, BitSize::Bits32)
    }

    pub fn i64(endianness: Endianness) -> (typ: FieldType)
        ensures
            typ == FieldType::Int(64, endianness, BitSize::Bits64),
    {
        FieldType::Int(64, endianness, BitSize::Bits64)
    }

    pub fn float(endianness: Endianness) -> (typ: FieldType)
        ensures
            typ == FieldType::Float(endianness),
    {
        FieldType::Float(endianness)
    }

    pub fn double(endianness: Endianness) -> (typ: FieldType)
        ensures
            typ == FieldType::Double(endianness),
    {
        FieldType::Double(endianness)
    }

    #[verifier::when_used_as_spec(spec_endianness)]
    pub fn endianness(&self) -> (endianness: Endianness)
        ensures
            endianness == self.spec_endianness(),
    {
        match self {
            FieldType::Int(_, endianness, _) => *endianness,
            FieldType::Uint(_, endianness, _) => *endianness,
            FieldType::Float(endianness) => *endianness,
            FieldType::Double(endianness) => *endianness,
        }
    }

    #[verifier::when_used_as_spec(spec_num_bits)]
    pub fn num_bits(&self) -> (num_bits: NumBits)
        ensures
            num_bits == self.spec_num_bits(),
    {
        match self {
            FieldType::Int(num_bits, _, _) => *num_bits,
            FieldType::Uint(num_bits, _, _) => *num_bits,
            FieldType::Float(_) => 32,
            FieldType::Double(_) => 64,
        }
    }

    #[verifier::when_used_as_spec(spec_bit_size)]
    pub fn bit_size(&self) -> (bit_size: BitSize)
        ensures
            bit_size == self.spec_bit_size(),
    {
        match self {
            FieldType::Int(_, _, bit_size) => *bit_size,
            FieldType::Uint(_, _, bit_size) => *bit_size,
            FieldType::Float(_) => BitSize::Bits32,
            FieldType::Double(_) => BitSize::Bits64,
        }
    }
}

/// A primitive value under one of ten tags. `Float` and `Double` hold the
/// IEEE-754 bit pattern of the number.
#[derive(PartialEq, Eq, Debug, Copy, Clone, Structural)]
pub enum Value {
    Uint8(u8),
    Int8(i8),
    Uint16(u16),
    Int16(i16),
    Uint32(u32),
    Int32(i32),
    Uint64(u64),
    Int64(i64),
    Float(u32),
    Double(u64),
}

impl Value {
    /// The value widened to 64 bits: an unsigned integer and a pattern zero
    /// extended, a signed integer sign extended.
    pub open spec fn spec_raw_bits(&self) -> u64 {
        match self {
            Value::Uint8(val) => *val as u64,
            Value::Int8(val) => *val as u64,
            Value::Uint16(val) => *val as u64,
            Value::Int16(val) => *val as u64,
            Value::Uint32(val) => *val as u64,
            Value::Int32(val) => *val as u64,
            Value::Uint64(val) => *val,
            Value::Int64(val) => *val as u64,
            Value::Float(pattern) => *pattern as u64,
            Value::Double(pattern) => *pattern,
        }
    }

    /// The width of the tag in bits.
    pub open spec fn spec_tag_bits(&self) -> usize {
        match self {
            Value::Uint8(_) => 8,
            Value::Int8(_) => 8,
            Value::Uint16(_) => 16,
            Value::Int16(_) => 16,
            Value::Uint32(_) => 32,
            Value::Int32(_) => 32,
            Value::Uint64(_) => 64,
            Value::Int64(_) => 64,
            Value::Float(_) => 32,
            Value::Double(_) => 64,
        }
    }

    #[verifier::when_used_as_spec(spec_raw_bits)]
    pub fn raw_bits(&self) -> (raw: u64)
        ensures
            raw == self.spec_raw_bits(),
    {
        match self {
            Value::Uint8(val) => *val as u64,
            Value::Int8(val) => *val as u64,
            Value::Uint16(val) => *val as u64,
            Value::Int16(val) => *val as u64,
            Value::Uint32(val) => *val as u64,
            Value::Int32(val) => *val as u64,
            Value::Uint64(val) => *val,
            Value::Int64(val) => *val as u64,
            Value::Float(pattern) => *pattern as u64,
            Value::Double(pattern) => *pattern,
        }
    }
}

/// What has a width in bits.
pub trait HasNumBits {
    /// The width in bits.
    spec fn bit_count(&self) -> nat;

    /// The width in bits, where a `usize` holds it.
    fn num_bits(&self) -> (num_bits: NumBits)
        requires
            self.bit_count() <= usize::MAX,
        ensures
            num_bits == self.bit_count(),
    ;
}

/// The widths of the items of `items`, added up.
pub open spec fn total_bits<A: HasNumBits>(items: Seq<A>) -> nat
    decreases items.len(),
{
    if items.len() == 0 {
        0
    } else {
        total_bits(items.drop_last()) + items.last().bit_count()
    }
}

/// The first `n` items are no wider than all of them.
pub proof fn lemma_total_bits_prefix<A: HasNumBits>(items: Seq<A>, n: int)
    requires
        0 <= n <= items.len(),
    ensures
        total_bits(items.take(n)) <= total_bits(items),
    decreases items.len(),
{
    if n == items.len() {
        assert(items.take(n) =~= items);
    } else {
        lemma_total_bits_prefix(items.drop_last(), n);
        assert(items.drop_last().take(n) =~= items.take(n));
    }
}

impl<A: HasNumBits> HasNumBits for Vec<A> {
    open spec fn bit_count(&self) -> nat {
        total_bits(self@)
    }

    fn num_bits(&self) -> (num_bits: NumBits) {
        let mut sum: usize = 0;
        let mut i: usize = 0;
        while i < self.len()
            invariant
                i <= self.len(),
                sum == total_bits(self@.take(i as int)),
                total_bits(self@) <= usize::MAX,
            decreases self.len() - i,
        {
            proof {
                lemma_total_bits_prefix(self@, i + 1);
                assert(self@.take(i + 1).drop_last() =~= self@.take(i as int));
            }
            sum = sum + self[i].num_bits();
            i = i + 1;
        }
        proof {
            assert(self@.take(i as int) =~= self@);
        }
        sum
    }
}

impl HasNumBits for FieldType {
    open spec fn bit_count(&self) -> nat {
        self.spec_num_bits() as nat
    }

    fn num_bits(&self) -> (num_bits: NumBits) {
        match self {
            FieldType::Int(num_bits, _, _) => *num_bits,
            FieldType::Uint(num_bits, _, _) => *num_bits,
            FieldType::Float(_) => 32,
            FieldType::Double(_) => 64,
        }
    }
}

impl HasNumBits for BitSize {
    open spec fn bit_count(&self) -> nat {
        self.spec_num_bits() as nat
    }

    fn num_bits(&self) -> (num_bits: NumBits) {
        self.num_bytes() * 8
    }
}

impl HasNumBits for Value {
    open spec fn bit_count(&self) -> nat {
        self.spec_tag_bits() as nat
    }

    fn num_bits(&self) -> (num_bits: NumBits) {
        match self {
            Value::Uint8(_) => 8,
            Value::Int8(_) => 8,
            Value::Uint16(_) => 16,
            Value::Int16(_) => 16,
            Value::Uint32(_) => 32,
            Value::Int32(_) => 32,
            Value::Uint64(_) => 64,
            Value::Int64(_) => 64,
            Value::Float(_) => 32,
            Value::Double(_) => 64,
        }
    }
}

/// One entry of a binary record: the value, its type, and what it is.
#[derive(PartialEq, Debug, Clone)]
pub struct Field {
    pub value: Value,
    pub typ: FieldType,
    pub description: String,
}

impl Field {
    pub fn u8(val: u8, endianness: Endianness, descr: String) -> (field: Field)
        ensures
            field == (Field { value: Value::Uint8(val), typ: FieldType::Uint(8, endianness, BitSize::Bits8), description: descr }),
    {
        Field { value: Value::Uint8(val), typ: FieldType::u8(endianness), description: descr }
    }

    pub fn u16(val: u16, endianness: Endianness, descr: String) -> (field: Field)
        ensures
            field == (Field { value: Value::Uint16(val), typ: FieldType::Uint(16, endianness, BitSize::Bits16), description: descr }),
    {
        Field { value: Value::Uint16(val), typ: FieldType::u16(endianness), description: descr }
    }

    pub fn u32(val: u32, endianness: Endianness, descr: String) -> (field: Field)
        ensures
            field == (Field { value: Value::Uint32(val), typ: FieldType::Uint(32, endianness, BitSize::Bits32), description: descr }),
    {
        Field { value: Value::Uint32(val), typ: FieldType::u32(endianness), description: descr }
    }

    pub fn u64(val: u64, endianness: Endianness, descr: String) -> (field: Field)
        ensures
            field == (Field { value: Value::Uint64(val), typ: FieldType::Uint(64, endianness, BitSize::Bits64), description: descr }),
    {
        Field { value: Value::Uint64(val), typ: FieldType::u64(endianness), description: descr }
    }

    pub fn i8(val: i8, endianness: Endianness, descr: String) -> (field: Field)
        ensures
            field == (Field { value: Value::Int8(val), typ: FieldType::Int(8, endianness, BitSize::Bits8), description: descr }),
    {
        Field { value: Value::Int8(val), typ: FieldType::i8(endianness), description: descr }
    }

    pub fn i16(val: i16, endianness: Endianness, descr: String) -> (field: Field)
        ensures
            field == (Field { value: Value::Int16(val), typ: FieldType::Int(16, endianness, BitSize::Bits16), description: descr }),
    {
        Field { value: Value::Int16(val), typ: FieldType::i16(endianness), description: descr }
    }

    pub fn i32(val: i32, endianness: Endianness, descr: String) -> (field: Field)
        ensures
            field == (Field { value: Value::Int32(val), typ: FieldType::Int(32, endianness, BitSize::Bits32), description: descr }),
    {
        Field { value: Value::Int32(val), typ: FieldType::i32(endianness), description: descr }
    }

    pub fn i64(val: i64, endianness: Endianness, descr: String) -> (field: Field)
        ensures
            field == (Field { value: Value::Int64(val), typ: FieldType::Int(64, endianness, BitSize::Bits64), description: descr }),
    {
        Field { value: Value::Int64(val), typ: FieldType::i64(endianness), description: descr }
    }

    /// A single-precision field from the IEEE-754 pattern of its number.
    pub fn float(pattern: u32, endianness: Endianness, descr: String) -> (field: Field)
        ensures
            field == (Field { value: Value::Float(pattern), typ: FieldType::Float(endianness), description: descr }),
    {
        Field { value: Value::Float(pattern), typ: FieldType::float(endianness), description: descr }
    }

    /// A double-precision field from the IEEE-754 pattern of its number.
    pub fn double(pattern: u64, endianness: Endianness, descr: String) -> (field: Field)
        ensures
            field == (Field { value: Value::Double(pattern), typ: FieldType::Double(endianness), description: descr }),
    {
        Field { value: Value::Double(pattern), typ: FieldType::double(endianness), description: descr }
    }
}

impl HasNumBits for Field {
    open spec fn bit_count(&self) -> nat {
        self.typ.spec_num_bits() as nat
    }

    fn num_bits(&self) -> (num_bits: NumBits) {
        self.typ.num_bits()
    }
}

} // verus!
