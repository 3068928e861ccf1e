//! Field codec: generic, schema-driven decoding of one typed record from a
//! raw record's bytes. Subfields are fixed-width big-endian values; float
//! subfields are decoded to their raw bit patterns.
use vstd::prelude::*;

use crate::error::ParsingError;
use crate::packet::RawField;
use crate::packet::RawFieldView;

verus! {

/// The primitive shape of one subfield of a typed record.
#[derive(Clone, Copy, Debug, PartialEq, Eq, Structural)]
pub enum PrimitiveType {
    U8,
    U16,
    U32,
    U64,
    I8,
    I16,
    I32,
    I64,
    F32,
    F64,
}

impl PrimitiveType {
    /// Width of this subfield in bytes.
    pub open spec fn spec_size(self) -> nat {
        match self {
            PrimitiveType::U8 => 1,
            PrimitiveType::U16 => 2,
            PrimitiveType::U32 => 4,
            PrimitiveType::U64 => 8,
            PrimitiveType::I8 => 1,
            PrimitiveType::I16 => 2,
            PrimitiveType::I32 => 4,
            PrimitiveType::I64 => 8,
            PrimitiveType::F32 => 4,
            PrimitiveType::F64 => 8,
        }
    }

    /// Width of this subfield in bytes.
    pub fn size(self) -> (r: usize)
        ensures
            r == self.spec_size(),
            1 <= r <= 8,
    {
        match self {
            PrimitiveType::U8 => 1,
            PrimitiveType::U16 => 2,
            PrimitiveType::U32 => 4,
            PrimitiveType::U64 => 8,
            PrimitiveType::I8 => 1,
            PrimitiveType::I16 => 2,
            PrimitiveType::I32 => 4,
            PrimitiveType::I64 => 8,
            PrimitiveType::F32 => 4,
            PrimitiveType::F64 => 8,
        }
    }
}

/// One decoded subfield value. Floats are carried as raw bit patterns, which
/// a presentation layer may reinterpret.
#[derive(Clone, Copy, Debug, PartialEq, Eq, Structural)]
pub enum Value {
    U8(u8),
    U16(u16),
    U32(u32),
    U64(u64),
    I8(i8),
    I16(i16),
    I32(i32),
    I64(i64),
    F32Bits(u32),
    F64Bits(u64),
}

/// The unsigned value of a big-endian byte sequence.
pub open spec fn be_uint(s: Seq<u8>) -> nat
    decreases s.len(),
{
    if s.len() == 0 {
        0
    } else {
        (be_uint(s.drop_last()) * 256 + s.last()) as nat
    }
}

/// 256 to the power `n`: the number of values `n` bytes can take.
pub open spec fn pow256(n: nat) -> nat
    decreases n,
{
    if n == 0 {
        1
    } else {
        256 * pow256((n - 1) as nat)
    }
}

/// A big-endian value fits in its byte count.
pub proof fn lemma_be_uint_bound(s: Seq<u8>)
    ensures
        be_uint(s) < pow256(s.len()),
    decreases s.len(),
{
    if s.len() > 0 {
        lemma_be_uint_bound(s.drop_last());
    }
}

/// `pow256` is monotonic.
pub proof fn lemma_pow256_le(a: nat, b: nat)
    requires
        a <= b,
    ensures
        pow256(a) <= pow256(b),
    decreases b,
{
    if a < b {
        lemma_pow256_le(a, (b - 1) as nat);
        assert(pow256((b - 1) as nat) >= 1) by {
            lemma_pow256_le(0, (b - 1) as nat);
        }
    }
}

/// Reinterpret the unsigned value `n` as a two's-complement value modulo
/// `modulus`.
pub open spec fn spec_signed(n: int, modulus: int) -> int {
    if 2 * n < modulus {
        n
    } else {
        n - modulus
    }
}

/// The value a big-endian byte sequence decodes to under each primitive type.
pub open spec fn spec_decode_value(ty: PrimitiveType, s: Seq<u8>) -> Value {
    let n = be_uint(s) as int;
    match ty {
        PrimitiveType::U8 => Value::U8(#[verifier::truncate] (n as u8)),
        PrimitiveType::U16 => Value::U16(#[verifier::truncate] (n as u16)),
        PrimitiveType::U32 => Value::U32(#[verifier::truncate] (n as u32)),
        PrimitiveType::U64 => Value::U64(#[verifier::truncate] (n as u64)),
        PrimitiveType::I8 => Value::I8(
            #[verifier::truncate] (spec_signed(n, 0x100) as i8),
        ),
        PrimitiveType::I16 => Value::I16(
            #[verifier::truncate] (spec_signed(n, 0x10000) as i16),
        ),
        PrimitiveType::I32 => Value::I32(
            #[verifier::truncate] (spec_signed(n, 0x1_0000_0000) as i32),
        ),
        PrimitiveType::I64 => Value::I64(
            #[verifier::truncate] (spec_signed(n, 0x1_0000_0000_0000_0000) as i64),
        ),
        PrimitiveType::F32 => Value::F32Bits(#[verifier::truncate] (n as u32)),
        PrimitiveType::F64 => Value::F64Bits(#[verifier::truncate] (n as u64)),
    }
}

/// Result of extracting one subfield of type `ty` at `offset` within a raw
/// record's data.
pub open spec fn spec_extract(f: RawFieldView, offset: int, ty: PrimitiveType) -> Result<
    Value,
    ParsingError,
> {
    if offset + ty.spec_size() > f.data.len() {
        Err(ParsingError::FieldDecodeFailure)
    } else {
        Ok(spec_decode_value(ty, f.data.subrange(offset, offset + ty.spec_size())))
    }
}

/// Read `size` big-endian bytes of `data` starting at `offset`.
fn read_be(data: &[u8], offset: usize, size: usize) -> (r: u64)
    requires
        offset + size <= data@.len(),
        size <= 8,
    ensures
        r == be_uint(data@.subrange(offset as int, offset + size)),
        r < pow256(size as nat),
{
    let dl = data.len();
    let mut v: u64 = 0;
    let mut i: usize = 0;
    while i < size
        invariant
            i <= size,
            size <= 8,
            dl == data@.len(),
            offset + size <= data@.len(),
            v == be_uint(data@.subrange(offset as int, offset + i)),
            v < pow256(i as nat),
        decreases size - i,
    {
        proof {
            lemma_pow256_le((i + 1) as nat, 8);
            assert(pow256(8) == 0x1_0000_0000_0000_0000) by {
                reveal_with_fuel(pow256, 9);
            }
            assert(pow256((i + 1) as nat) == 256 * pow256(i as nat));
            assert(v * 256 + 255 < pow256((i + 1) as nat));
            assert(data@.subrange(offset as int, offset + i + 1).drop_last() =~= data@.subrange(
                offset as int,
                offset + i,
            ));
            assert(data@.subrange(offset as int, offset + i + 1).last() == data@[offset + i]);
        }
        v = v * 256 + (data[offset + i] as u64);
        i = i + 1;
    }
    v
}

/// Reinterpret an unsigned byte as two's complement.
fn to_i8(n: u64) -> (r: i8)
    requires
        n < 0x100,
    ensures
        r == spec_signed(n as int, 0x100),
{
    if n < 0x80 {
        n as i8
    } else {
        (-((0x100u16 - n as u16) as i16)) as i8
    }
}

/// Reinterpret two unsigned big-endian bytes as two's complement.
fn to_i16(n: u64) -> (r: i16)
    requires
        n < 0x10000,
    ensures
        r == spec_signed(n as int, 0x10000),
{
    if n < 0x8000 {
        n as i16
    } else {
        (-((0x10000u32 - n as u32) as i32)) as i16
    }
}

/// Reinterpret four unsigned big-endian bytes as two's complement.
fn to_i32(n: u64) -> (r: i32)
    requires
        n < 0x1_0000_0000,
    ensures
        r == spec_signed(n as int, 0x1_0000_0000),
{
    if n < 0x8000_0000 {
        n as i32
    } else {
        (-((0x1_0000_0000u64 - n) as i64)) as i32
    }
}

/// Reinterpret eight unsigned big-endian bytes as two's complement.
fn to_i64(n: u64) -> (r: i64)
    ensures
        r == spec_signed(n as int, 0x1_0000_0000_0000_0000),
{
    if n < 0x8000_0000_0000_0000 {
        n as i64
    } else {
        (-(0x1_0000_0000_0000_0000i128 - n as i128)) as i64
    }
}

impl RawField {
    /// Extract one subfield of type `ty` from this record's data, reading
    /// `ty`'s width in big-endian bytes starting at `offset`. Fails with
    /// `FieldDecodeFailure` when fewer bytes remain than the type needs.
    pub fn extract(&self, offset: usize, ty: PrimitiveType) -> (r: Result<Value, ParsingError>)
        ensures
            r == spec_extract(self@, offset as int, ty),
    {
        let size = ty.size();
        if offset > self.data.len() || size > self.data.len() - offset {
            return Err(ParsingError::FieldDecodeFailure);
        }
        let n = read_be(self.data.as_slice(), offset, size);
        proof {
            lemma_be_uint_bound(self.data@.subrange(offset as int, offset + size));
            reveal_with_fuel(pow256, 9);
        }
        let v = match ty {
            PrimitiveType::U8 => Value::U8(n as u8),
            PrimitiveType::U16 => Value::U16(n as u16),
            PrimitiveType::U32 => Value::U32(n as u32),
            PrimitiveType::U64 => Value::U64(n),
            PrimitiveType::I8 => Value::I8(to_i8(n)),
            PrimitiveType::I16 => Value::I16(to_i16(n)),
            PrimitiveType::I32 => Value::I32(to_i32(n)),
            PrimitiveType::I64 => Value::I64(to_i64(n)),
            PrimitiveType::F32 => Value::F32Bits(n as u32),
            PrimitiveType::F64 => Value::F64Bits(n),
        };
        Ok(v)
    }
}

// ---------------------------------------------------------------------------
// Record schemas and typed records.

/// Byte-layout description of one record type: its owning category id, its
/// record-type id within that category, and its ordered subfields.
#[derive(Clone, Debug, PartialEq, Eq)]
pub struct RecordSchema {
    pub set_descriptor: u8,
    pub data_descriptor: u8,
    pub subfields: Vec<PrimitiveType>,
}

/// Mathematical model of a `RecordSchema`.
#[verifier::ext_equal]
pub struct RecordSchemaView {
    pub set_descriptor: u8,
    pub data_descriptor: u8,
    pub subfields: Seq<PrimitiveType>,
}

impl View for RecordSchema {
    type V = RecordSchemaView;

    open spec fn view(&self) -> RecordSchemaView {
        RecordSchemaView {
            set_descriptor: self.set_descriptor,
            data_descriptor: self.data_descriptor,
            subfields: self.subfields@,
        }
    }
}

/// One decoded record: its record-type id and its subfield values in
/// declaration order.
#[derive(Clone, Debug, PartialEq, Eq)]
pub struct TypedRecord {
    pub data_descriptor: u8,
    pub values: Vec<Value>,
}

/// Mathematical model of a `TypedRecord`.
#[verifier::ext_equal]
pub struct TypedRecordView {
    pub data_descriptor: u8,
    pub values: Seq<Value>,
}

impl View for TypedRecord {
    type V = TypedRecordView;

    open spec fn view(&self) -> TypedRecordView {
        TypedRecordView { data_descriptor: self.data_descriptor, values: self.values@ }
    }
}

/// Total width in bytes of a subfield list.
pub open spec fn spec_total_size(ts: Seq<PrimitiveType>) -> nat
    decreases ts.len(),
{
    if ts.len() == 0 {
        0
    } else {
        spec_total_size(ts.drop_last()) + ts.last().spec_size()
    }
}

/// Byte offset of subfield `i`: the summed widths of the subfields before it.
pub open spec fn spec_offset_of(ts: Seq<PrimitiveType>, i: int) -> nat {
    spec_total_size(ts.take(i))
}

/// Extending a prefix by one subfield adds that subfield's width.
pub proof fn lemma_total_size_take_succ(ts: Seq<PrimitiveType>, i: int)
    requires
        0 <= i < ts.len(),
    ensures
        spec_total_size(ts.take(i + 1)) == spec_total_size(ts.take(i)) + ts[i].spec_size(),
{
    assert(ts.take(i + 1).drop_last() =~= ts.take(i));
    assert(ts.take(i + 1).last() == ts[i]);
}

/// A prefix never exceeds the whole in total width.
pub proof fn lemma_total_size_take_le(ts: Seq<PrimitiveType>, i: int)
    requires
        0 <= i <= ts.len(),
    ensures
        spec_total_size(ts.take(i)) <= spec_total_size(ts),
    decreases ts.len() - i,
{
    if i == ts.len() {
        assert(ts.take(i) =~= ts);
    } else {
        lemma_total_size_take_succ(ts, i);
        lemma_total_size_take_le(ts, i + 1);
    }
}

/// Result of decoding a whole record: every subfield in order, or failure as
/// soon as one subfield overruns the data.
pub open spec fn spec_decode_record(ts: Seq<PrimitiveType>, data: Seq<u8>) -> Result<
    Seq<Value>,
    ParsingError,
> {
    if spec_total_size(ts) <= data.len() {
        Ok(
            Seq::new(
                ts.len(),
                |i: int|
                    spec_decode_value(
                        ts[i],
                        data.subrange(
                            spec_offset_of(ts, i) as int,
                            (spec_offset_of(ts, i) + ts[i].spec_size()) as int,
                        ),
                    ),
            ),
        )
    } else {
        Err(ParsingError::FieldDecodeFailure)
    }
}

impl RecordSchema {
    /// The offset table of this record type: entry `i` is the byte offset of
    /// subfield `i` within the record's data.
    pub fn offsets(&self) -> (r: Vec<usize>)
        requires
            spec_total_size(self@.subfields) <= usize::MAX,
        ensures
            r@.len() == self@.subfields.len(),
            forall|i: int| 0 <= i < r@.len() ==> r@[i] == spec_offset_of(self@.subfields, i),
    {
        let ts = &self.subfields;
        let mut r: Vec<usize> = Vec::new();
        let mut off: usize = 0;
        let mut i: usize = 0;
        while i < ts.len()
            invariant
                i <= ts@.len(),
                off == spec_total_size(ts@.take(i as int)),
                spec_total_size(ts@) <= usize::MAX,
                r@.len() == i,
                forall|k: int| 0 <= k < i ==> r@[k] == spec_offset_of(ts@, k),
            decreases ts@.len() - i,
        {
            r.push(off);
            proof {
                lemma_total_size_take_succ(ts@, i as int);
                lemma_total_size_take_le(ts@, i + 1);
            }
            off = off + ts[i].size();
            i = i + 1;
        }
        r
    }

    /// Decode one raw record against this schema: each subfield is read at
    /// its offset; a record too short for its schema fails as a whole with
    /// `FieldDecodeFailure`.
    pub fn decode(&self, field: &RawField) -> (r: Result<TypedRecord, ParsingError>)
        ensures
            match r {
                Ok(t) => spec_decode_record(self@.subfields, field@.data) == Ok::<
                    Seq<Value>,
                    ParsingError,
                >(t@.values) && t@.data_descriptor == self@.data_descriptor,
                Err(e) => spec_decode_record(self@.subfields, field@.data) == Err::<
                    Seq<Value>,
                    ParsingError,
                >(e),
            },
    {
        let ts = &self.subfields;
        let dlen = field.data.len();
        let mut values: Vec<Value> = Vec::new();
        let mut off: usize = 0;
        let mut i: usize = 0;
        while i < ts.len()
            invariant
                ts@ == self@.subfields,
                i <= ts@.len(),
                off == spec_total_size(ts@.take(i as int)),
                off <= field@.data.len(),
                dlen == field@.data.len(),
                values@.len() == i,
                forall|k: int|
                    0 <= k < i ==> values@[k] == spec_decode_value(
                        ts@[k],
                        field@.data.subrange(
                            spec_offset_of(ts@, k) as int,
                            (spec_offset_of(ts@, k) + ts@[k].spec_size()) as int,
                        ),
                    ),
            decreases ts@.len() - i,
        {
            let ty = ts[i];
            proof {
                lemma_total_size_take_succ(ts@, i as int);
            }
            match field.extract(off, ty) {
                Err(_) => {
                    proof {
                        assert(off + ty.spec_size() > field@.data.len());
                        lemma_total_size_take_le(ts@, i + 1);
                        assert(spec_total_size(ts@) > field@.data.len());
                    }
                    return Err(ParsingError::FieldDecodeFailure);
                },
                Ok(v) => {
                    proof {
                        assert(off + ty.spec_size() <= field@.data.len());
                    }
                    values.push(v);
                    off = off + ty.size();
                },
            }
            i = i + 1;
        }
        proof {
            assert(ts@.take(ts@.len() as int) =~= ts@);
            assert(values@ =~= Seq::new(
                ts@.len(),
                |k: int|
                    spec_decode_value(
                        ts@[k],
                        field@.data.subrange(
                            spec_offset_of(ts@, k) as int,
                            (spec_offset_of(ts@, k) + ts@[k].spec_size()) as int,
                        ),
                    ),
            ));
        }
        Ok(TypedRecord { data_descriptor: self.data_descriptor, values })
    }
}

} // verus!
