//! The values of a flat column, one run per physical layout.

use crate::bits::{
    bit_in, code_at, code_in, lemma_code_bound, lemma_same_bits_same_code, top_code, word_bit,
    bit_of, words_for, words_needed, write_code,
};
use crate::scan::{signed_decimal, signed_text};
use crate::strings::{text_of, StringColumn};
use crate::types::{
    copy_bytes, layout_for, About, Datum, Error, ErrorCode, Failure, LogicalType, PhysicalType,
    Subject, Value,
};
use crate::validity::Validity;
use vstd::arithmetic::mul::*;
use vstd::prelude::*;
use vstd::string::*;
use vstd::utf8::{decode_utf8, encode_utf8, valid_utf8};

verus! {

/// The position of a value that is not anywhere, because it is null or out of range.
pub const NOWHERE: usize = usize::MAX;

/// The values of a flat vector, one run per physical type.
///
/// The variants are physical rather than logical, which is what lets a date and an integer share
/// storage. What a run of `i32` means is the vector's logical type's business. A float is kept as
/// the bits of its encoding.
#[derive(Debug)]
pub enum Data {
    /// No values, for the type of an untyped null.
    Empty,
    Bool(Vec<bool>),
    Int8(Vec<i8>),
    Int16(Vec<i16>),
    Int32(Vec<i32>),
    Int64(Vec<i64>),
    Int128(Vec<i128>),
    UInt8(Vec<u8>),
    UInt16(Vec<u16>),
    UInt32(Vec<u32>),
    UInt64(Vec<u64>),
    UInt128(Vec<u128>),
    Float32(Vec<u32>),
    Float64(Vec<u64>),
    Interval(Vec<(i32, i32, i64)>),
    /// Strings, as views plus the arena the long ones live in.
    Varlen(StringColumn),
}

/// One slot of a run, as a contract speaks of it.
pub enum Cell {
    Bool(bool),
    Signed(int),
    Unsigned(int),
    Float32(u32),
    Float64(u64),
    Interval(i32, i32, i64),
    Bytes(Seq<u8>),
}

/// The slot a null takes in a run of that layout.
pub open spec fn zero_cell(layout: PhysicalType) -> Cell {
    match layout {
        PhysicalType::Bool => Cell::Bool(false),
        PhysicalType::UInt8 | PhysicalType::UInt16 | PhysicalType::UInt32 | PhysicalType::UInt64
        | PhysicalType::UInt128 => Cell::Unsigned(0),
        PhysicalType::Float32 => Cell::Float32(0),
        PhysicalType::Float64 => Cell::Float64(0),
        PhysicalType::Interval => Cell::Interval(0, 0, 0),
        PhysicalType::Varlen => Cell::Bytes(Seq::empty()),
        _ => Cell::Signed(0),
    }
}

/// Whether a layout is a run of values rather than a shape of several columns.
pub open spec fn is_flat_layout(layout: PhysicalType) -> bool {
    !(layout is List || layout is Struct || layout is Array || layout is Union)
}

/// Whether a layout is a run of signed integers.
pub open spec fn is_signed_layout(layout: PhysicalType) -> bool {
    layout is Int8 || layout is Int16 || layout is Int32 || layout is Int64 || layout is Int128
}

/// Whether a layout is a run of signed integers no wider than 64 bits.
pub open spec fn is_narrow_layout(layout: PhysicalType) -> bool {
    layout is Int8 || layout is Int16 || layout is Int32 || layout is Int64
}

/// Whether a layout is a run of unsigned integers.
pub open spec fn is_unsigned_layout(layout: PhysicalType) -> bool {
    layout is UInt8 || layout is UInt16 || layout is UInt32 || layout is UInt64 || layout is UInt128
}

/// Whether a layout is a run of integers an `i128` holds every one of.
pub open spec fn is_exact_layout(layout: PhysicalType) -> bool {
    is_signed_layout(layout) || layout is UInt8 || layout is UInt16 || layout is UInt32
        || layout is UInt64
}

/// The lowest value of an integer layout.
pub open spec fn layout_low(layout: PhysicalType) -> int {
    match layout {
        PhysicalType::Int8 => i8::MIN as int,
        PhysicalType::Int16 => i16::MIN as int,
        PhysicalType::Int32 => i32::MIN as int,
        PhysicalType::Int64 => i64::MIN as int,
        PhysicalType::Int128 => i128::MIN as int,
        _ => 0,
    }
}

/// The highest value of an integer layout.
pub open spec fn layout_high(layout: PhysicalType) -> int {
    match layout {
        PhysicalType::Int8 => i8::MAX as int,
        PhysicalType::Int16 => i16::MAX as int,
        PhysicalType::Int32 => i32::MAX as int,
        PhysicalType::Int64 => i64::MAX as int,
        PhysicalType::Int128 => i128::MAX as int,
        PhysicalType::UInt8 => u8::MAX as int,
        PhysicalType::UInt16 => u16::MAX as int,
        PhysicalType::UInt32 => u32::MAX as int,
        PhysicalType::UInt64 => u64::MAX as int,
        _ => 0,
    }
}

/// An integer as the slot of an integer layout.
pub open spec fn integer_cell(layout: PhysicalType, value: int) -> Cell {
    if is_signed_layout(layout) {
        Cell::Signed(value)
    } else {
        Cell::Unsigned(value)
    }
}

/// How many bytes one slot of a layout takes.
pub open spec fn slot_bytes(layout: PhysicalType) -> nat {
    match layout {
        PhysicalType::Bool | PhysicalType::Int8 | PhysicalType::UInt8 => 1,
        PhysicalType::Int16 | PhysicalType::UInt16 => 2,
        PhysicalType::Int32 | PhysicalType::UInt32 | PhysicalType::Float32 => 4,
        PhysicalType::Int64 | PhysicalType::UInt64 | PhysicalType::Float64 => 8,
        PhysicalType::Int128 | PhysicalType::UInt128 | PhysicalType::Interval
        | PhysicalType::Varlen => 16,
        _ => 0,
    }
}

/// Some bytes read as a value of a text type.
pub open spec fn bytes_datum(ty: LogicalType, bytes: Seq<u8>) -> Datum {
    match ty {
        LogicalType::Varchar => if valid_utf8(bytes) {
            Datum::Varchar(decode_utf8(bytes))
        } else {
            Datum::Null
        },
        LogicalType::Blob | LogicalType::Bit => Datum::Blob(bytes),
        _ => Datum::Null,
    }
}

/// What a slot means to a type, and null where the slot is not one the type reads.
pub open spec fn cell_as(ty: LogicalType, cell: Cell) -> Datum {
    match cell {
        Cell::Bool(x) => if ty is Boolean {
            Datum::Boolean(x)
        } else {
            Datum::Null
        },
        Cell::Signed(x) => signed_as(ty, x),
        Cell::Unsigned(x) => unsigned_as(ty, x),
        Cell::Float32(x) => if ty is Float {
            Datum::Float(x)
        } else {
            Datum::Null
        },
        Cell::Float64(x) => if ty is Double {
            Datum::Double(x)
        } else {
            Datum::Null
        },
        Cell::Interval(months, days, micros) => if ty is Interval {
            Datum::Interval { months, days, micros }
        } else {
            Datum::Null
        },
        Cell::Bytes(bytes) => bytes_datum(ty, bytes),
    }
}

/// What a signed integer means to a type.
pub open spec fn signed_as(ty: LogicalType, x: int) -> Datum {
    match ty {
        LogicalType::TinyInt => if i8::MIN <= x <= i8::MAX {
            Datum::TinyInt(x as i8)
        } else {
            Datum::Null
        },
        LogicalType::SmallInt => if i16::MIN <= x <= i16::MAX {
            Datum::SmallInt(x as i16)
        } else {
            Datum::Null
        },
        LogicalType::Integer => if i32::MIN <= x <= i32::MAX {
            Datum::Integer(x as i32)
        } else {
            Datum::Null
        },
        LogicalType::BigInt => if i64::MIN <= x <= i64::MAX {
            Datum::BigInt(x as i64)
        } else {
            Datum::Null
        },
        LogicalType::HugeInt => if i128::MIN <= x <= i128::MAX {
            Datum::HugeInt(x as i128)
        } else {
            Datum::Null
        },
        LogicalType::Decimal { width, scale } => if i128::MIN <= x <= i128::MAX {
            Datum::Decimal { unscaled: x as i128, width, scale }
        } else {
            Datum::Null
        },
        LogicalType::Date => if i32::MIN <= x <= i32::MAX {
            Datum::Date(x as i32)
        } else {
            Datum::Null
        },
        LogicalType::Time => if i64::MIN <= x <= i64::MAX {
            Datum::Time(x as i64)
        } else {
            Datum::Null
        },
        LogicalType::TimeTz => if i64::MIN <= x <= i64::MAX {
            Datum::TimeTz(x as i64)
        } else {
            Datum::Null
        },
        LogicalType::Timestamp | LogicalType::TimestampS | LogicalType::TimestampMs
        | LogicalType::TimestampNs => if i64::MIN <= x <= i64::MAX {
            Datum::Timestamp(x as i64)
        } else {
            Datum::Null
        },
        LogicalType::TimestampTz => if i64::MIN <= x <= i64::MAX {
            Datum::TimestampTz(x as i64)
        } else {
            Datum::Null
        },
        _ => Datum::Null,
    }
}

/// What an unsigned integer means to a type.
pub open spec fn unsigned_as(ty: LogicalType, x: int) -> Datum {
    match ty {
        LogicalType::UTinyInt => if 0 <= x <= u8::MAX {
            Datum::UTinyInt(x as u8)
        } else {
            Datum::Null
        },
        LogicalType::USmallInt => if 0 <= x <= u16::MAX {
            Datum::USmallInt(x as u16)
        } else {
            Datum::Null
        },
        LogicalType::UInteger => if 0 <= x <= u32::MAX {
            Datum::UInteger(x as u32)
        } else {
            Datum::Null
        },
        LogicalType::UBigInt => if 0 <= x <= u64::MAX {
            Datum::UBigInt(x as u64)
        } else {
            Datum::Null
        },
        LogicalType::UHugeInt => if 0 <= x <= u128::MAX {
            Datum::UHugeInt(x as u128)
        } else {
            Datum::Null
        },
        _ => Datum::Null,
    }
}

/// The slot a value takes in a run of that layout, and nothing for a value that has no slot there.
pub open spec fn cell_for(layout: PhysicalType, value: Datum) -> Option<Cell> {
    if value is Null {
        Some(zero_cell(layout))
    } else {
        match layout {
            PhysicalType::Bool => match value {
                Datum::Boolean(x) => Some(Cell::Bool(x)),
                _ => None,
            },
            PhysicalType::Int8 => match value {
                Datum::TinyInt(x) => Some(Cell::Signed(x as int)),
                _ => None,
            },
            PhysicalType::Int16 => match value {
                Datum::SmallInt(x) => Some(Cell::Signed(x as int)),
                Datum::Decimal { unscaled, .. } => decimal_cell(layout, unscaled as int),
                _ => None,
            },
            PhysicalType::Int32 => match value {
                Datum::Integer(x) => Some(Cell::Signed(x as int)),
                Datum::Date(x) => Some(Cell::Signed(x as int)),
                Datum::Decimal { unscaled, .. } => decimal_cell(layout, unscaled as int),
                _ => None,
            },
            PhysicalType::Int64 => match value {
                Datum::BigInt(x) => Some(Cell::Signed(x as int)),
                Datum::Time(x) => Some(Cell::Signed(x as int)),
                Datum::TimeTz(x) => Some(Cell::Signed(x as int)),
                Datum::Timestamp(x) => Some(Cell::Signed(x as int)),
                Datum::TimestampTz(x) => Some(Cell::Signed(x as int)),
                Datum::Decimal { unscaled, .. } => decimal_cell(layout, unscaled as int),
                _ => None,
            },
            PhysicalType::Int128 => match value {
                Datum::HugeInt(x) => Some(Cell::Signed(x as int)),
                Datum::Decimal { unscaled, .. } => decimal_cell(layout, unscaled as int),
                _ => None,
            },
            PhysicalType::UInt8 => match value {
                Datum::UTinyInt(x) => Some(Cell::Unsigned(x as int)),
                _ => None,
            },
            PhysicalType::UInt16 => match value {
                Datum::USmallInt(x) => Some(Cell::Unsigned(x as int)),
                _ => None,
            },
            PhysicalType::UInt32 => match value {
                Datum::UInteger(x) => Some(Cell::Unsigned(x as int)),
                _ => None,
            },
            PhysicalType::UInt64 => match value {
                Datum::UBigInt(x) => Some(Cell::Unsigned(x as int)),
                _ => None,
            },
            PhysicalType::UInt128 => match value {
                Datum::UHugeInt(x) => Some(Cell::Unsigned(x as int)),
                _ => None,
            },
            PhysicalType::Float32 => match value {
                Datum::Float(x) => Some(Cell::Float32(x)),
                _ => None,
            },
            PhysicalType::Float64 => match value {
                Datum::Double(x) => Some(Cell::Float64(x)),
                _ => None,
            },
            PhysicalType::Interval => match value {
                Datum::Interval { months, days, micros } => Some(
                    Cell::Interval(months, days, micros),
                ),
                _ => None,
            },
            PhysicalType::Varlen => match value {
                Datum::Varchar(text) => Some(Cell::Bytes(encode_utf8(text))),
                Datum::Blob(bytes) => Some(Cell::Bytes(bytes)),
                _ => None,
            },
            _ => None,
        }
    }
}

/// An unscaled decimal in the run its precision chose, and nothing where it does not fit.
pub open spec fn decimal_cell(layout: PhysicalType, unscaled: int) -> Option<Cell> {
    if layout_low(layout) <= unscaled <= layout_high(layout) {
        Some(Cell::Signed(unscaled))
    } else {
        None
    }
}

/// Whether two 32 bit floats compare equal: the same bits and not a NaN, or both a zero.
pub open spec fn equal_floats32(left: u32, right: u32) -> bool {
    ||| left == right && !(left % 0x8000_0000u32 > 0x7f80_0000u32)
    ||| left % 0x8000_0000u32 == 0 && right % 0x8000_0000u32 == 0
}

/// Whether two 64 bit floats compare equal: the same bits and not a NaN, or both a zero.
pub open spec fn equal_floats64(left: u64, right: u64) -> bool {
    ||| left == right && !(left % 0x8000_0000_0000_0000u64 > 0x7ff0_0000_0000_0000u64)
    ||| left % 0x8000_0000_0000_0000u64 == 0 && right % 0x8000_0000_0000_0000u64 == 0
}

/// Whether two slots compare equal.
pub open spec fn equal_cells(left: Cell, right: Cell) -> bool {
    match (left, right) {
        (Cell::Float32(left), Cell::Float32(right)) => equal_floats32(left, right),
        (Cell::Float64(left), Cell::Float64(right)) => equal_floats64(left, right),
        _ => left == right,
    }
}

impl Data {
    /// A string run whose views are all of bytes that are there.
    pub open spec fn wf(&self) -> bool {
        *self matches Data::Varlen(column) ==> column.wf()
    }

    /// The layout these values are in.
    pub open spec fn layout(&self) -> PhysicalType {
        match self {
            Data::Empty => PhysicalType::Empty,
            Data::Bool(_) => PhysicalType::Bool,
            Data::Int8(_) => PhysicalType::Int8,
            Data::Int16(_) => PhysicalType::Int16,
            Data::Int32(_) => PhysicalType::Int32,
            Data::Int64(_) => PhysicalType::Int64,
            Data::Int128(_) => PhysicalType::Int128,
            Data::UInt8(_) => PhysicalType::UInt8,
            Data::UInt16(_) => PhysicalType::UInt16,
            Data::UInt32(_) => PhysicalType::UInt32,
            Data::UInt64(_) => PhysicalType::UInt64,
            Data::UInt128(_) => PhysicalType::UInt128,
            Data::Float32(_) => PhysicalType::Float32,
            Data::Float64(_) => PhysicalType::Float64,
            Data::Interval(_) => PhysicalType::Interval,
            Data::Varlen(_) => PhysicalType::Varlen,
        }
    }

    /// How many values are stored.
    pub open spec fn size(&self) -> nat {
        match self {
            Data::Empty => 0,
            Data::Bool(values) => values@.len(),
            Data::Int8(values) => values@.len(),
            Data::Int16(values) => values@.len(),
            Data::Int32(values) => values@.len(),
            Data::Int64(values) => values@.len(),
            Data::Int128(values) => values@.len(),
            Data::UInt8(values) => values@.len(),
            Data::UInt16(values) => values@.len(),
            Data::UInt32(values) => values@.len(),
            Data::UInt64(values) => values@.len(),
            Data::UInt128(values) => values@.len(),
            Data::Float32(values) => values@.len(),
            Data::Float64(values) => values@.len(),
            Data::Interval(values) => values@.len(),
            Data::Varlen(column) => column.views@.len(),
        }
    }

    /// The slot at a position.
    pub open spec fn cell(&self, at: int) -> Cell {
        match self {
            Data::Empty => Cell::Signed(0),
            Data::Bool(values) => Cell::Bool(values@[at]),
            Data::Int8(values) => Cell::Signed(values@[at] as int),
            Data::Int16(values) => Cell::Signed(values@[at] as int),
            Data::Int32(values) => Cell::Signed(values@[at] as int),
            Data::Int64(values) => Cell::Signed(values@[at] as int),
            Data::Int128(values) => Cell::Signed(values@[at] as int),
            Data::UInt8(values) => Cell::Unsigned(values@[at] as int),
            Data::UInt16(values) => Cell::Unsigned(values@[at] as int),
            Data::UInt32(values) => Cell::Unsigned(values@[at] as int),
            Data::UInt64(values) => Cell::Unsigned(values@[at] as int),
            Data::UInt128(values) => Cell::Unsigned(values@[at] as int),
            Data::Float32(values) => Cell::Float32(values@[at]),
            Data::Float64(values) => Cell::Float64(values@[at]),
            Data::Interval(values) => Cell::Interval(values@[at].0, values@[at].1, values@[at].2),
            Data::Varlen(column) => Cell::Bytes(column.row(at)),
        }
    }

    /// The slot at a position, and the zero of the layout where there is none.
    pub open spec fn cell_or_zero(&self, at: int) -> Cell {
        if 0 <= at < self.size() {
            self.cell(at)
        } else {
            zero_cell(self.layout())
        }
    }

    /// The integer at a position of an integer run.
    pub open spec fn integer(&self, at: int) -> int {
        match self.cell(at) {
            Cell::Signed(x) => x,
            Cell::Unsigned(x) => x,
            _ => 0,
        }
    }

    /// Whether two positions hold values that compare equal, two that hold none included.
    pub open spec fn same_slot(&self, left: int, right: int) -> bool {
        if 0 <= left < self.size() && 0 <= right < self.size() {
            equal_cells(self.cell(left), self.cell(right))
        } else {
            !(0 <= left < self.size()) && !(0 <= right < self.size())
        }
    }

    /// How many values are stored.
    pub fn len(&self) -> (len: usize)
        ensures
            len == self.size(),
    {
        match self {
            Data::Empty => 0,
            Data::Bool(values) => values.len(),
            Data::Int8(values) => values.len(),
            Data::Int16(values) => values.len(),
            Data::Int32(values) => values.len(),
            Data::Int64(values) => values.len(),
            Data::Int128(values) => values.len(),
            Data::UInt8(values) => values.len(),
            Data::UInt16(values) => values.len(),
            Data::UInt32(values) => values.len(),
            Data::UInt64(values) => values.len(),
            Data::UInt128(values) => values.len(),
            Data::Float32(values) => values.len(),
            Data::Float64(values) => values.len(),
            Data::Interval(values) => values.len(),
            Data::Varlen(column) => column.len(),
        }
    }

    /// Whether there are no values.
    pub fn is_empty(&self) -> (empty: bool)
        ensures
            empty == (self.size() == 0),
    {
        self.len() == 0
    }

    /// How many bytes of memory these values are holding, as far as a machine word counts.
    pub fn footprint(&self) -> (bytes: usize)
        ensures
            bytes == clamp(
                self.size() * slot_bytes(self.layout()) + match self {
                    Data::Varlen(column) => column.arena@.len(),
                    _ => 0,
                },
            ),
    {
        let slots: usize = saturating_product(self.len(), slot_width(layout_of(self)));
        match self {
            Data::Varlen(column) => slots.saturating_add(column.arena.len()),
            _ => slots,
        }
    }

    /// These values held as a page, so that copying them does not copy the values.
    ///
    /// A vector holds its values behind a shared handle already, so there is nothing to move.
    pub fn into_pages(self) -> (pages: Data)
        ensures
            pages == self,
    {
        self
    }

    /// An integer at `index`, widened, for any of the signed integer layouts.
    pub fn signed_at(&self, index: usize) -> (value: Option<i128>)
        ensures
            value is Some <==> index < self.size() && is_signed_layout(self.layout()),
            value matches Some(x) ==> self.cell(index as int) == Cell::Signed(x as int),
    {
        match self {
            Data::Int8(values) => if index < values.len() { Some(values[index] as i128) } else { None },
            Data::Int16(values) => if index < values.len() { Some(values[index] as i128) } else { None },
            Data::Int32(values) => if index < values.len() { Some(values[index] as i128) } else { None },
            Data::Int64(values) => if index < values.len() { Some(values[index] as i128) } else { None },
            Data::Int128(values) => if index < values.len() { Some(values[index] as i128) } else { None },
            _ => None,
        }
    }

    /// An unsigned integer at `index`, widened.
    pub fn unsigned_at(&self, index: usize) -> (value: Option<u128>)
        ensures
            value is Some <==> index < self.size() && is_unsigned_layout(self.layout()),
            value matches Some(x) ==> self.cell(index as int) == Cell::Unsigned(x as int),
    {
        match self {
            Data::UInt8(values) => if index < values.len() { Some(values[index] as u128) } else { None },
            Data::UInt16(values) => if index < values.len() { Some(values[index] as u128) } else { None },
            Data::UInt32(values) => if index < values.len() { Some(values[index] as u128) } else { None },
            Data::UInt64(values) => if index < values.len() { Some(values[index] as u128) } else { None },
            Data::UInt128(values) => if index < values.len() { Some(values[index] as u128) } else { None },
            _ => None,
        }
    }

    /// An integer at `index`, for any layout an `i128` holds every value of.
    pub(crate) fn integer_at(&self, index: usize) -> (value: Option<i128>)
        ensures
            value is Some <==> index < self.size() && is_exact_layout(self.layout()),
            value matches Some(x) ==> x == self.integer(index as int) && self.cell(index as int)
                == integer_cell(self.layout(), x as int) && layout_low(self.layout()) <= x
                <= layout_high(self.layout()),
    {
        match self {
            Data::Int8(values) => if index < values.len() { Some(values[index] as i128) } else { None },
            Data::Int16(values) => if index < values.len() { Some(values[index] as i128) } else { None },
            Data::Int32(values) => if index < values.len() { Some(values[index] as i128) } else { None },
            Data::Int64(values) => if index < values.len() { Some(values[index] as i128) } else { None },
            Data::Int128(values) => if index < values.len() { Some(values[index] as i128) } else { None },
            Data::UInt8(values) => if index < values.len() { Some(values[index] as i128) } else { None },
            Data::UInt16(values) => if index < values.len() { Some(values[index] as i128) } else { None },
            Data::UInt32(values) => if index < values.len() { Some(values[index] as i128) } else { None },
            Data::UInt64(values) => if index < values.len() { Some(values[index] as i128) } else { None },
            _ => None,
        }
    }

    /// A signed integer at `index` of a layout no wider than 64 bits.
    fn narrow_at(&self, index: usize) -> (value: Option<i64>)
        ensures
            value is Some <==> index < self.size() && is_narrow_layout(self.layout()),
            value matches Some(x) ==> self.cell(index as int) == Cell::Signed(x as int),
    {
        match self {
            Data::Int8(values) => if index < values.len() { Some(values[index] as i64) } else { None },
            Data::Int16(values) => if index < values.len() { Some(values[index] as i64) } else { None },
            Data::Int32(values) => if index < values.len() { Some(values[index] as i64) } else { None },
            Data::Int64(values) => if index < values.len() { Some(values[index] as i64) } else { None },
            _ => None,
        }
    }

    /// The first `len` signed integers, widened to `i64`, appended to `out`.
    ///
    /// `false`, leaving `out` as it found it, for the wide layout, for a run shorter than `len` and
    /// for every layout that is not a signed integer.
    pub fn signed_block(&self, len: usize, out: &mut Vec<i64>) -> (done: bool)
        ensures
            done == (is_narrow_layout(self.layout()) && len <= self.size()),
            !done ==> final(out)@ == old(out)@,
            done ==> final(out)@.len() == old(out)@.len() + len,
            done ==> forall|i: int|
                0 <= i < old(out)@.len() ==> final(out)@[i] == #[trigger] old(out)@[i],
            done ==> forall|i: int|
                0 <= i < len ==> Cell::Signed(#[trigger] final(out)@[old(out)@.len() + i] as int)
                    == self.cell(i),
    {
        let ghost before = out@;
        if !narrow(layout_of(self)) || len > self.len() {
            return false;
        }
        let mut row: usize = 0;
        while row < len
            invariant
                row <= len <= self.size(),
                is_narrow_layout(self.layout()),
                out@.len() == before.len() + row,
                forall|i: int| 0 <= i < before.len() ==> out@[i] == #[trigger] before[i],
                forall|i: int|
                    0 <= i < row ==> Cell::Signed(#[trigger] out@[before.len() + i] as int)
                        == self.cell(i),
            decreases len - row,
        {
            match self.narrow_at(row) {
                Some(x) => {
                    let ghost was = out@;
                    out.push(x);
                    assert forall|i: int| 0 <= i < row + 1 implies Cell::Signed(
                        #[trigger] out@[before.len() + i] as int,
                    ) == self.cell(i) by {
                        if i < row {
                            assert(was[before.len() + i] == out@[before.len() + i]);
                        }
                    }
                },
                None => {},
            }
            row += 1;
        }
        true
    }

    /// The signed integers at the rows `at` names among the first `len`, widened to `i64`,
    /// appended to `out`.
    ///
    /// `false`, leaving `out` as it found it, where [`Self::signed_block`] says `false`, and for a
    /// row that is not among the first `len`.
    pub fn signed_gather(&self, len: usize, at: &[u32], out: &mut Vec<i64>) -> (done: bool)
        ensures
            done == (is_narrow_layout(self.layout()) && len <= self.size() && forall|i: int|
                0 <= i < at@.len() ==> #[trigger] at@[i] < len),
            !done ==> final(out)@ == old(out)@,
            done ==> final(out)@.len() == old(out)@.len() + at@.len(),
            done ==> forall|i: int|
                0 <= i < old(out)@.len() ==> final(out)@[i] == #[trigger] old(out)@[i],
            done ==> forall|i: int|
                0 <= i < at@.len() ==> Cell::Signed(
                    #[trigger] final(out)@[old(out)@.len() + i] as int,
                ) == self.cell(at@[i] as int),
    {
        let ghost before = out@;
        if !narrow(layout_of(self)) || len > self.len() || !crate::bits::below(at, len) {
            return false;
        }
        let mut row: usize = 0;
        while row < at.len()
            invariant
                row <= at@.len(),
                len <= self.size(),
                is_narrow_layout(self.layout()),
                forall|i: int| 0 <= i < at@.len() ==> #[trigger] at@[i] < len,
                out@.len() == before.len() + row,
                forall|i: int| 0 <= i < before.len() ==> out@[i] == #[trigger] before[i],
                forall|i: int|
                    0 <= i < row ==> Cell::Signed(#[trigger] out@[before.len() + i] as int)
                        == self.cell(at@[i] as int),
            decreases at.len() - row,
        {
            assert(at@[row as int] < len);
            match self.narrow_at(at[row] as usize) {
                Some(x) => {
                    let ghost was = out@;
                    out.push(x);
                    assert forall|i: int| 0 <= i < row + 1 implies Cell::Signed(
                        #[trigger] out@[before.len() + i] as int,
                    ) == self.cell(at@[i] as int) by {
                        if i < row {
                            assert(was[before.len() + i] == out@[before.len() + i]);
                        }
                    }
                },
                None => {},
            }
            row += 1;
        }
        true
    }

    /// The bytes at `index`, for a string run, whatever they are.
    pub fn bytes_at(&self, index: usize) -> (bytes: Option<&[u8]>)
        requires
            self.wf(),
        ensures
            bytes is Some <==> self.layout() is Varlen && index < self.size(),
            bytes matches Some(bytes) ==> self.cell(index as int) == Cell::Bytes(bytes@),
    {
        match self {
            Data::Varlen(column) => column.bytes(index),
            _ => None,
        }
    }

    /// The string at `index`, for a string run.
    pub fn str_at(&self, index: usize) -> (text: Option<&str>)
        requires
            self.wf(),
        ensures
            text is Some <==> self.layout() is Varlen && index < self.size() && valid_utf8(
                self.cell(index as int)->Bytes_0,
            ),
            text matches Some(text) ==> text@ == decode_utf8(self.cell(index as int)->Bytes_0),
    {
        match self {
            Data::Varlen(column) => column.get(index),
            _ => None,
        }
    }

    /// Whether two positions hold values that compare equal.
    fn same_at(&self, left: usize, right: usize) -> (same: bool)
        requires
            self.wf(),
        ensures
            same == self.same_slot(left as int, right as int),
    {
        let len: usize = self.len();
        if left >= len || right >= len {
            return left >= len && right >= len;
        }
        match self {
            Data::Empty => true,
            Data::Bool(values) => values[left] == values[right],
            Data::Int8(values) => values[left] == values[right],
            Data::Int16(values) => values[left] == values[right],
            Data::Int32(values) => values[left] == values[right],
            Data::Int64(values) => values[left] == values[right],
            Data::Int128(values) => values[left] == values[right],
            Data::UInt8(values) => values[left] == values[right],
            Data::UInt16(values) => values[left] == values[right],
            Data::UInt32(values) => values[left] == values[right],
            Data::UInt64(values) => values[left] == values[right],
            Data::UInt128(values) => values[left] == values[right],
            Data::Float32(values) => same_float32(values[left], values[right]),
            Data::Float64(values) => same_float64(values[left], values[right]),
            Data::Interval(values) => values[left].0 == values[right].0 && values[left].1
                == values[right].1 && values[left].2 == values[right].2,
            Data::Varlen(column) => match (column.bytes(left), column.bytes(right)) {
                (Some(one), Some(other)) => crate::text::same_bytes(one, other),
                _ => false,
            },
        }
    }
}

/// A sum of bytes as far as a machine word counts.
pub open spec fn clamp(bytes: nat) -> int {
    if bytes <= usize::MAX {
        bytes as int
    } else {
        usize::MAX as int
    }
}

fn saturating_product(count: usize, each: usize) -> (bytes: usize)
    ensures
        bytes == clamp((count * each) as nat),
{
    match count.checked_mul(each) {
        Some(bytes) => bytes,
        None => usize::MAX,
    }
}

fn same_float32(left: u32, right: u32) -> (same: bool)
    ensures
        same == equal_floats32(left, right),
{
    (left == right && !(left % 0x8000_0000u32 > 0x7f80_0000u32)) || (left % 0x8000_0000u32 == 0
        && right % 0x8000_0000u32 == 0)
}

fn same_float64(left: u64, right: u64) -> (same: bool)
    ensures
        same == equal_floats64(left, right),
{
    (left == right && !(left % 0x8000_0000_0000_0000u64 > 0x7ff0_0000_0000_0000u64)) || (left
        % 0x8000_0000_0000_0000u64 == 0 && right % 0x8000_0000_0000_0000u64 == 0)
}

fn narrow(layout: PhysicalType) -> (yes: bool)
    ensures
        yes == is_narrow_layout(layout),
{
    matches!(
        layout,
        PhysicalType::Int8 | PhysicalType::Int16 | PhysicalType::Int32 | PhysicalType::Int64
    )
}

pub(crate) fn slot_width(layout: PhysicalType) -> (bytes: usize)
    ensures
        bytes == slot_bytes(layout),
        bytes <= 16,
{
    match layout {
        PhysicalType::Bool | PhysicalType::Int8 | PhysicalType::UInt8 => 1,
        PhysicalType::Int16 | PhysicalType::UInt16 => 2,
        PhysicalType::Int32 | PhysicalType::UInt32 | PhysicalType::Float32 => 4,
        PhysicalType::Int64 | PhysicalType::UInt64 | PhysicalType::Float64 => 8,
        PhysicalType::Int128 | PhysicalType::UInt128 | PhysicalType::Interval
        | PhysicalType::Varlen => 16,
        _ => 0,
    }
}

/// The physical layout a run of data is in, for the check that it matches its type.
pub(crate) fn layout_of(data: &Data) -> (layout: PhysicalType)
    ensures
        layout == data.layout(),
{
    match data {
        Data::Empty => PhysicalType::Empty,
        Data::Bool(_) => PhysicalType::Bool,
        Data::Int8(_) => PhysicalType::Int8,
        Data::Int16(_) => PhysicalType::Int16,
        Data::Int32(_) => PhysicalType::Int32,
        Data::Int64(_) => PhysicalType::Int64,
        Data::Int128(_) => PhysicalType::Int128,
        Data::UInt8(_) => PhysicalType::UInt8,
        Data::UInt16(_) => PhysicalType::UInt16,
        Data::UInt32(_) => PhysicalType::UInt32,
        Data::UInt64(_) => PhysicalType::UInt64,
        Data::UInt128(_) => PhysicalType::UInt128,
        Data::Float32(_) => PhysicalType::Float32,
        Data::Float64(_) => PhysicalType::Float64,
        Data::Interval(_) => PhysicalType::Interval,
        Data::Varlen(_) => PhysicalType::Varlen,
    }
}

/// The lowest and highest value a type's layout can hold, and `None` for a type with no integer
/// one. This is also the test of whether a type can be packed at all.
pub(crate) fn layout_range(ty: &LogicalType) -> (range: Option<(i128, i128)>)
    ensures
        range is Some <==> is_exact_layout(layout_for(*ty)),
        range matches Some((low, high)) ==> low == layout_low(layout_for(*ty)) && high
            == layout_high(layout_for(*ty)),
{
    match ty.physical() {
        PhysicalType::Int8 => Some((i8::MIN as i128, i8::MAX as i128)),
        PhysicalType::Int16 => Some((i16::MIN as i128, i16::MAX as i128)),
        PhysicalType::Int32 => Some((i32::MIN as i128, i32::MAX as i128)),
        PhysicalType::Int64 => Some((i64::MIN as i128, i64::MAX as i128)),
        PhysicalType::Int128 => Some((i128::MIN as i128, i128::MAX as i128)),
        PhysicalType::UInt8 => Some((u8::MIN as i128, u8::MAX as i128)),
        PhysicalType::UInt16 => Some((u16::MIN as i128, u16::MAX as i128)),
        PhysicalType::UInt32 => Some((u32::MIN as i128, u32::MAX as i128)),
        PhysicalType::UInt64 => Some((u64::MIN as i128, u64::MAX as i128)),
        _ => None,
    }
}

fn copied_run<T: Copy>(values: &Vec<T>, at: &[usize], zero: T) -> (out: Vec<T>)
    ensures
        out@.len() == at@.len(),
        forall|j: int|
            0 <= j < at@.len() ==> #[trigger] out@[j] == if at@[j] < values@.len() {
                values@[at@[j] as int]
            } else {
                zero
            },
{
    let mut out: Vec<T> = Vec::new();
    let mut row: usize = 0;
    while row < at.len()
        invariant
            row <= at@.len(),
            out@.len() == row,
            forall|j: int|
                0 <= j < row ==> #[trigger] out@[j] == if at@[j] < values@.len() {
                    values@[at@[j] as int]
                } else {
                    zero
                },
        decreases at.len() - row,
    {
        out.push(
            if at[row] < values.len() {
                values[at[row]]
            } else {
                zero
            },
        );
        row += 1;
    }
    out
}

fn cut_run<T: Copy>(values: &Vec<T>, at: usize, end: usize, zero: T) -> (out: Vec<T>)
    requires
        at <= end,
    ensures
        out@.len() == end - at,
        forall|j: int|
            0 <= j < end - at ==> #[trigger] out@[j] == if at + j < values@.len() {
                values@[at + j]
            } else {
                zero
            },
{
    let mut out: Vec<T> = Vec::new();
    let mut row: usize = at;
    while row < end
        invariant
            at <= row <= end,
            out@.len() == row - at,
            forall|j: int|
                0 <= j < row - at ==> #[trigger] out@[j] == if at + j < values@.len() {
                    values@[at + j]
                } else {
                    zero
                },
        decreases end - row,
    {
        out.push(
            if row < values.len() {
                values[row]
            } else {
                zero
            },
        );
        row += 1;
    }
    out
}

/// The last of the first `count` positions whose value lands on `place`.
pub open spec fn landed(inverse: Seq<u32>, place: int, count: nat) -> Option<int>
    decreases count,
{
    if count == 0 {
        None
    } else if inverse[count - 1] == place {
        Some(count - 1)
    } else {
        landed(inverse, place, (count - 1) as nat)
    }
}

proof fn lemma_landed(inverse: Seq<u32>, place: int, count: nat)
    requires
        count <= inverse.len(),
    ensures
        landed(inverse, place, count) matches Some(at) ==> 0 <= at < count && inverse[at] == place,
    decreases count,
{
    if count > 0 {
        lemma_landed(inverse, place, (count - 1) as nat);
    }
}

/// The values of `data` written to the places `inverse` gives them: value `n` lands at
/// `inverse[n]`, a place past the end is dropped and a place nobody wrote keeps the zero.
pub fn placed_of(data: &Data, inverse: &[u32]) -> (placed: Data)
    requires
        data.wf(),
    ensures
        placed.wf(),
        placed.layout() == data.layout(),
        !(data.layout() is Empty) ==> placed.size() == inverse@.len(),
        forall|p: int|
            0 <= p < placed.size() ==> #[trigger] placed.cell(p) == match landed(
                inverse@,
                p,
                inverse@.len(),
            ) {
                Some(n) => data.cell_or_zero(n),
                None => zero_cell(data.layout()),
            },
{
    let mut at: Vec<usize> = Vec::new();
    let mut place: usize = 0;
    while place < inverse.len()
        invariant
            place <= inverse@.len(),
            at@.len() == place,
            forall|p: int| 0 <= p < place ==> #[trigger] at@[p] == NOWHERE,
        decreases inverse.len() - place,
    {
        at.push(NOWHERE);
        place += 1;
    }
    let mut row: usize = 0;
    while row < inverse.len()
        invariant
            row <= inverse@.len(),
            at@.len() == inverse@.len(),
            forall|p: int|
                0 <= p < at@.len() ==> #[trigger] at@[p] == match landed(inverse@, p, row as nat) {
                    Some(n) => n as usize,
                    None => NOWHERE,
                },
        decreases inverse.len() - row,
    {
        let to: usize = inverse[row] as usize;
        if to < at.len() {
            at.set(to, row);
        }
        row += 1;
    }
    let held: usize = data.len();
    let placed = copy_of(data, at.as_slice());
    proof {
        assert(data.size() == held);
        assert forall|p: int| 0 <= p < placed.size() implies #[trigger] placed.cell(p)
            == match landed(inverse@, p, inverse@.len()) {
            Some(n) => data.cell_or_zero(n),
            None => zero_cell(data.layout()),
        } by {
            lemma_landed(inverse@, p, inverse@.len());
            assert(placed.cell(p) == data.cell_or_zero(at@[p] as int));
        }
    }
    placed
}

fn copied_strings(column: &StringColumn, at: &[usize]) -> (out: StringColumn)
    requires
        column.wf(),
    ensures
        out.wf(),
        out.views@.len() == at@.len(),
        forall|j: int|
            0 <= j < at@.len() ==> #[trigger] out.row(j) == if at@[j] < column.views@.len() {
                column.row(at@[j] as int)
            } else {
                Seq::<u8>::empty()
            },
{
    let mut out = StringColumn::new();
    let mut row: usize = 0;
    while row < at.len()
        invariant
            row <= at@.len(),
            column.wf(),
            out.wf(),
            out.views@.len() == row,
            forall|j: int|
                0 <= j < row ==> #[trigger] out.row(j) == if at@[j] < column.views@.len() {
                    column.row(at@[j] as int)
                } else {
                    Seq::<u8>::empty()
                },
        decreases at.len() - row,
    {
        match column.bytes(at[row]) {
            Some(bytes) => out.push_bytes(bytes),
            None => {
                let none: Vec<u8> = Vec::new();
                out.push_bytes(none.as_slice());
                assert(none@ =~= Seq::<u8>::empty());
            },
        }
        row += 1;
    }
    out
}

/// A run of data copied at the given positions, with a zero wherever a position is not there.
pub(crate) fn copy_of(data: &Data, at: &[usize]) -> (copy: Data)
    requires
        data.wf(),
    ensures
        copy.wf(),
        copy.layout() == data.layout(),
        !(data.layout() is Empty) ==> copy.size() == at@.len(),
        forall|j: int|
            0 <= j < copy.size() ==> #[trigger] copy.cell(j) == data.cell_or_zero(at@[j] as int),
{
    match data {
        Data::Empty => Data::Empty,
        Data::Bool(values) => Data::Bool(copied_run(values, at, false)),
        Data::Int8(values) => Data::Int8(copied_run(values, at, 0)),
        Data::Int16(values) => Data::Int16(copied_run(values, at, 0)),
        Data::Int32(values) => Data::Int32(copied_run(values, at, 0)),
        Data::Int64(values) => Data::Int64(copied_run(values, at, 0)),
        Data::Int128(values) => Data::Int128(copied_run(values, at, 0)),
        Data::UInt8(values) => Data::UInt8(copied_run(values, at, 0)),
        Data::UInt16(values) => Data::UInt16(copied_run(values, at, 0)),
        Data::UInt32(values) => Data::UInt32(copied_run(values, at, 0)),
        Data::UInt64(values) => Data::UInt64(copied_run(values, at, 0)),
        Data::UInt128(values) => Data::UInt128(copied_run(values, at, 0)),
        Data::Float32(values) => Data::Float32(copied_run(values, at, 0)),
        Data::Float64(values) => Data::Float64(copied_run(values, at, 0)),
        Data::Interval(values) => Data::Interval(copied_run(values, at, (0, 0, 0))),
        Data::Varlen(column) => Data::Varlen(copied_strings(column, at)),
    }
}

/// A contiguous run of a flat body, copied out, padded with zeros where the body is short.
pub(crate) fn run_of(data: &Data, at: usize, end: usize) -> (run: Data)
    requires
        data.wf(),
        at <= end,
    ensures
        run.wf(),
        run.layout() == data.layout(),
        !(data.layout() is Empty) ==> run.size() == end - at,
        forall|j: int| 0 <= j < run.size() ==> #[trigger] run.cell(j) == data.cell_or_zero(at + j),
{
    match data {
        Data::Empty => Data::Empty,
        Data::Bool(values) => Data::Bool(cut_run(values, at, end, false)),
        Data::Int8(values) => Data::Int8(cut_run(values, at, end, 0)),
        Data::Int16(values) => Data::Int16(cut_run(values, at, end, 0)),
        Data::Int32(values) => Data::Int32(cut_run(values, at, end, 0)),
        Data::Int64(values) => Data::Int64(cut_run(values, at, end, 0)),
        Data::Int128(values) => Data::Int128(cut_run(values, at, end, 0)),
        Data::UInt8(values) => Data::UInt8(cut_run(values, at, end, 0)),
        Data::UInt16(values) => Data::UInt16(cut_run(values, at, end, 0)),
        Data::UInt32(values) => Data::UInt32(cut_run(values, at, end, 0)),
        Data::UInt64(values) => Data::UInt64(cut_run(values, at, end, 0)),
        Data::UInt128(values) => Data::UInt128(cut_run(values, at, end, 0)),
        Data::Float32(values) => Data::Float32(cut_run(values, at, end, 0)),
        Data::Float64(values) => Data::Float64(cut_run(values, at, end, 0)),
        Data::Interval(values) => Data::Interval(cut_run(values, at, end, (0, 0, 0))),
        Data::Varlen(column) => {
            let mut rows: Vec<usize> = Vec::new();
            let mut row: usize = at;
            while row < end
                invariant
                    at <= row <= end,
                    rows@.len() == row - at,
                    forall|j: int| 0 <= j < row - at ==> #[trigger] rows@[j] == at + j,
                decreases end - row,
            {
                rows.push(row);
                row += 1;
            }
            Data::Varlen(copied_strings(column, rows.as_slice()))
        },
    }
}

/// An empty run of data of the right layout for a type.
pub(crate) fn empty_data_for(ty: &LogicalType) -> (data: Result<Data, Error>)
    ensures
        data is Ok <==> is_flat_layout(layout_for(*ty)),
        data matches Ok(data) ==> data.wf() && data.size() == 0 && data.layout() == layout_for(*ty),
        data matches Err(error) ==> error@ == no_flat_run(layout_for(*ty)),
{
    match ty.physical() {
        PhysicalType::Empty => Ok(Data::Empty),
        PhysicalType::Bool => Ok(Data::Bool(Vec::new())),
        PhysicalType::Int8 => Ok(Data::Int8(Vec::new())),
        PhysicalType::Int16 => Ok(Data::Int16(Vec::new())),
        PhysicalType::Int32 => Ok(Data::Int32(Vec::new())),
        PhysicalType::Int64 => Ok(Data::Int64(Vec::new())),
        PhysicalType::Int128 => Ok(Data::Int128(Vec::new())),
        PhysicalType::UInt8 => Ok(Data::UInt8(Vec::new())),
        PhysicalType::UInt16 => Ok(Data::UInt16(Vec::new())),
        PhysicalType::UInt32 => Ok(Data::UInt32(Vec::new())),
        PhysicalType::UInt64 => Ok(Data::UInt64(Vec::new())),
        PhysicalType::UInt128 => Ok(Data::UInt128(Vec::new())),
        PhysicalType::Float32 => Ok(Data::Float32(Vec::new())),
        PhysicalType::Float64 => Ok(Data::Float64(Vec::new())),
        PhysicalType::Interval => Ok(Data::Interval(Vec::new())),
        PhysicalType::Varlen => Ok(Data::Varlen(StringColumn::new())),
        other => Err(
            Error {
                code: ErrorCode::NotImplemented,
                message: "a flat vector of {} data, which arrives with the storage layer".to_owned(),
                about: Subject::Layout(other),
            },
        ),
    }
}

/// Appends an integer to a run of integers that can hold it.
fn push_integer(data: &mut Data, value: i128)
    requires
        old(data).wf(),
        is_exact_layout(old(data).layout()),
        layout_low(old(data).layout()) <= value <= layout_high(old(data).layout()),
    ensures
        final(data).wf(),
        final(data).layout() == old(data).layout(),
        final(data).size() == old(data).size() + 1,
        final(data).cell(old(data).size() as int) == integer_cell(
            old(data).layout(),
            value as int,
        ),
        forall|i: int|
            0 <= i < old(data).size() ==> #[trigger] final(data).cell(i) == old(data).cell(i),
{
    match data {
        Data::Int8(values) => values.push(value as i8),
        Data::Int16(values) => values.push(value as i16),
        Data::Int32(values) => values.push(value as i32),
        Data::Int64(values) => values.push(value as i64),
        Data::Int128(values) => values.push(value as i128),
        Data::UInt8(values) => values.push(value as u8),
        Data::UInt16(values) => values.push(value as u16),
        Data::UInt32(values) => values.push(value as u32),
        Data::UInt64(values) => values.push(value as u64),
        _ => {},
    }
}

/// The refusal of a decimal the run its precision chose cannot hold.
pub open spec fn decimal_refusal(unscaled: int) -> Failure {
    Failure {
        code: ErrorCode::Internal,
        message: "an unscaled decimal of "@ + signed_decimal(unscaled)
            + " does not fit the run its precision chose"@,
        about: About::Nothing,
    }
}

fn too_wide(unscaled: i128) -> (error: Error)
    ensures
        error@ == decimal_refusal(unscaled as int),
{
    let mut message = "an unscaled decimal of ".to_owned();
    let digits = signed_text(unscaled);
    message.append(digits.as_str());
    message.append(" does not fit the run its precision chose");
    Error { code: ErrorCode::Internal, message, about: Subject::Nothing }
}

/// What a value of another kind is told by a run of that layout.
pub open spec fn misfit_text(layout: PhysicalType) -> Seq<char> {
    match layout {
        PhysicalType::Int16 => "{} is not a 16 bit value"@,
        PhysicalType::Int32 => "{} is not a 32 bit value"@,
        PhysicalType::Int64 => "{} is not a 64 bit value"@,
        PhysicalType::Int128 => "{} is not a 128 bit value"@,
        PhysicalType::Interval => "{} is not an interval"@,
        PhysicalType::Varlen => "{} is not a string"@,
        _ => "{} does not belong in this vector"@,
    }
}

/// The refusal of a value by a run of that layout.
pub open spec fn misfit(layout: PhysicalType, value: Datum) -> Failure {
    match value {
        Datum::Decimal { unscaled, .. } if layout is Int16 || layout is Int32 || layout is Int64 => {
            decimal_refusal(unscaled as int)
        },
        _ => Failure {
            code: ErrorCode::Internal,
            message: misfit_text(layout),
            about: About::Held(value),
        },
    }
}

fn refused(value: &Value, message: &str) -> (error: Error)
    ensures
        error@ == (Failure {
            code: ErrorCode::Internal,
            message: message@,
            about: About::Held(value.datum()),
        }),
{
    Error {
        code: ErrorCode::Internal,
        message: message.to_owned(),
        about: Subject::Held(value.dup()),
    }
}

/// The refusal of a flat run of a layout that is not one.
pub open spec fn no_flat_run(layout: PhysicalType) -> Failure {
    Failure {
        code: ErrorCode::NotImplemented,
        message: "a flat vector of {} data, which arrives with the storage layer"@,
        about: About::Layout(layout),
    }
}

/// Appends one value to a run of data, or a zero of the right shape when it is null.
///
/// The zero matters. A null still occupies a position, and a run with a hole in it would put every
/// value after the hole in the wrong place.
pub(crate) fn push_value(data: &mut Data, value: &Value) -> (done: Result<(), Error>)
    requires
        old(data).wf(),
    ensures
        final(data).wf(),
        final(data).layout() == old(data).layout(),
        old(data).layout() is Empty ==> done is Ok && *final(data) == *old(data),
        !(old(data).layout() is Empty) ==> (done is Ok <==> cell_for(
            old(data).layout(),
            value.datum(),
        ) is Some),
        !(old(data).layout() is Empty) && done is Ok ==> {
            &&& final(data).size() == old(data).size() + 1
            &&& Some(final(data).cell(old(data).size() as int)) == cell_for(
                old(data).layout(),
                value.datum(),
            )
            &&& forall|i: int|
                0 <= i < old(data).size() ==> #[trigger] final(data).cell(i) == old(data).cell(i)
        },
        done matches Err(error) ==> error@ == misfit(old(data).layout(), value.datum())
            && *final(data) == *old(data),
{
    match data {
        Data::Empty => {},
        Data::Bool(values) => match value {
            Value::Null => values.push(false),
            Value::Boolean(x) => values.push(*x),
            _ => return Err(refused(value, "{} does not belong in this vector")),
        },
        Data::Int8(values) => match value {
            Value::Null => values.push(0),
            Value::TinyInt(x) => values.push(*x),
            _ => return Err(refused(value, "{} does not belong in this vector")),
        },
        Data::Int16(values) => match value {
            Value::Null => values.push(0),
            Value::SmallInt(x) => values.push(*x),
            Value::Decimal { unscaled, .. } => {
                if *unscaled < i16::MIN as i128 || *unscaled > i16::MAX as i128 {
                    return Err(too_wide(*unscaled));
                }
                values.push(*unscaled as i16);
            },
            _ => return Err(refused(value, "{} is not a 16 bit value")),
        },
        Data::Int32(values) => match value {
            Value::Null => values.push(0),
            Value::Integer(x) => values.push(*x),
            Value::Date(x) => values.push(*x),
            Value::Decimal { unscaled, .. } => {
                if *unscaled < i32::MIN as i128 || *unscaled > i32::MAX as i128 {
                    return Err(too_wide(*unscaled));
                }
                values.push(*unscaled as i32);
            },
            _ => return Err(refused(value, "{} is not a 32 bit value")),
        },
        Data::Int64(values) => match value {
            Value::Null => values.push(0),
            Value::BigInt(x) => values.push(*x),
            Value::Time(x) => values.push(*x),
            Value::TimeTz(x) => values.push(*x),
            Value::Timestamp(x) => values.push(*x),
            Value::TimestampTz(x) => values.push(*x),
            Value::Decimal { unscaled, .. } => {
                if *unscaled < i64::MIN as i128 || *unscaled > i64::MAX as i128 {
                    return Err(too_wide(*unscaled));
                }
                values.push(*unscaled as i64);
            },
            _ => return Err(refused(value, "{} is not a 64 bit value")),
        },
        Data::Int128(values) => match value {
            Value::Null => values.push(0),
            Value::HugeInt(x) => values.push(*x),
            Value::Decimal { unscaled, .. } => values.push(*unscaled),
            _ => return Err(refused(value, "{} is not a 128 bit value")),
        },
        Data::UInt8(values) => match value {
            Value::Null => values.push(0),
            Value::UTinyInt(x) => values.push(*x),
            _ => return Err(refused(value, "{} does not belong in this vector")),
        },
        Data::UInt16(values) => match value {
            Value::Null => values.push(0),
            Value::USmallInt(x) => values.push(*x),
            _ => return Err(refused(value, "{} does not belong in this vector")),
        },
        Data::UInt32(values) => match value {
            Value::Null => values.push(0),
            Value::UInteger(x) => values.push(*x),
            _ => return Err(refused(value, "{} does not belong in this vector")),
        },
        Data::UInt64(values) => match value {
            Value::Null => values.push(0),
            Value::UBigInt(x) => values.push(*x),
            _ => return Err(refused(value, "{} does not belong in this vector")),
        },
        Data::UInt128(values) => match value {
            Value::Null => values.push(0),
            Value::UHugeInt(x) => values.push(*x),
            _ => return Err(refused(value, "{} does not belong in this vector")),
        },
        Data::Float32(values) => match value {
            Value::Null => values.push(0),
            Value::Float(x) => values.push(*x),
            _ => return Err(refused(value, "{} does not belong in this vector")),
        },
        Data::Float64(values) => match value {
            Value::Null => values.push(0),
            Value::Double(x) => values.push(*x),
            _ => return Err(refused(value, "{} does not belong in this vector")),
        },
        Data::Interval(values) => match value {
            Value::Null => values.push((0, 0, 0)),
            Value::Interval { months, days, micros } => values.push((*months, *days, *micros)),
            _ => return Err(refused(value, "{} is not an interval")),
        },
        Data::Varlen(column) => match value {
            Value::Null => {
                let none: Vec<u8> = Vec::new();
                column.push_bytes(none.as_slice());
                assert(none@ =~= Seq::<u8>::empty());
            },
            Value::Varchar(text) => column.push(text.as_str()),
            Value::Blob(bytes) => column.push_bytes(bytes.as_slice()),
            _ => return Err(refused(value, "{} is not a string")),
        },
    }
    Ok(())
}

/// One row of a string column as a value, given what its bytes are meant to be read as.
pub(crate) fn bytes_as(ty: &LogicalType, bytes: &[u8]) -> (value: Value)
    ensures
        value.datum() == bytes_datum(*ty, bytes@),
{
    match ty {
        LogicalType::Varchar => match text_of(bytes) {
            Some(text) => Value::Varchar(text.to_owned()),
            None => Value::Null,
        },
        LogicalType::Blob | LogicalType::Bit => Value::Blob(copy_bytes(bytes)),
        _ => Value::Null,
    }
}

/// What a signed integer is to a type.
fn signed_value(ty: &LogicalType, x: i128) -> (value: Value)
    ensures
        value.datum() == signed_as(*ty, x as int),
{
    let i8s = i8::MIN as i128 <= x && x <= i8::MAX as i128;
    let i16s = i16::MIN as i128 <= x && x <= i16::MAX as i128;
    let i32s = i32::MIN as i128 <= x && x <= i32::MAX as i128;
    let i64s = i64::MIN as i128 <= x && x <= i64::MAX as i128;
    match ty {
        LogicalType::TinyInt if i8s => Value::TinyInt(x as i8),
        LogicalType::SmallInt if i16s => Value::SmallInt(x as i16),
        LogicalType::Integer if i32s => Value::Integer(x as i32),
        LogicalType::BigInt if i64s => Value::BigInt(x as i64),
        LogicalType::HugeInt => Value::HugeInt(x),
        LogicalType::Decimal { width, scale } => Value::Decimal {
            unscaled: x,
            width: *width,
            scale: *scale,
        },
        LogicalType::Date if i32s => Value::Date(x as i32),
        LogicalType::Time if i64s => Value::Time(x as i64),
        LogicalType::TimeTz if i64s => Value::TimeTz(x as i64),
        LogicalType::Timestamp if i64s => Value::Timestamp(x as i64),
        LogicalType::TimestampS if i64s => Value::Timestamp(x as i64),
        LogicalType::TimestampMs if i64s => Value::Timestamp(x as i64),
        LogicalType::TimestampNs if i64s => Value::Timestamp(x as i64),
        LogicalType::TimestampTz if i64s => Value::TimestampTz(x as i64),
        _ => Value::Null,
    }
}

/// What an unsigned integer is to a type.
fn unsigned_value(ty: &LogicalType, x: u128) -> (value: Value)
    ensures
        value.datum() == unsigned_as(*ty, x as int),
{
    match ty {
        LogicalType::UTinyInt if x <= u8::MAX as u128 => Value::UTinyInt(x as u8),
        LogicalType::USmallInt if x <= u16::MAX as u128 => Value::USmallInt(x as u16),
        LogicalType::UInteger if x <= u32::MAX as u128 => Value::UInteger(x as u32),
        LogicalType::UBigInt if x <= u64::MAX as u128 => Value::UBigInt(x as u64),
        LogicalType::UHugeInt => Value::UHugeInt(x),
        _ => Value::Null,
    }
}

/// One value out of a run of data, given what the run means.
///
/// The type decides rather than the data, because the data cannot tell a date from an integer.
pub(crate) fn value_from(ty: &LogicalType, data: &Data, index: usize) -> (value: Value)
    requires
        data.wf(),
    ensures
        value.datum() == if index < data.size() {
            cell_as(*ty, data.cell(index as int))
        } else {
            Datum::Null
        },
{
    if let Some(x) = data.signed_at(index) {
        return signed_value(ty, x);
    }
    if let Some(x) = data.unsigned_at(index) {
        return unsigned_value(ty, x);
    }
    if index >= data.len() {
        return Value::Null;
    }
    match (ty, data) {
        (LogicalType::Boolean, Data::Bool(values)) => Value::Boolean(values[index]),
        (LogicalType::Float, Data::Float32(values)) => Value::Float(values[index]),
        (LogicalType::Double, Data::Float64(values)) => Value::Double(values[index]),
        (LogicalType::Interval, Data::Interval(values)) => {
            let (months, days, micros) = values[index];
            Value::Interval { months, days, micros }
        },
        (_, Data::Varlen(column)) => match column.bytes(index) {
            Some(bytes) => bytes_as(ty, bytes),
            None => Value::Null,
        },
        _ => Value::Null,
    }
}

/// The value of an integer a packed column holds.
pub(crate) fn integer_value(ty: &LogicalType, x: i128) -> (value: Value)
    requires
        is_exact_layout(layout_for(*ty)),
        layout_low(layout_for(*ty)) <= x <= layout_high(layout_for(*ty)),
    ensures
        value.datum() == cell_as(*ty, integer_cell(layout_for(*ty), x as int)),
{
    match ty.physical() {
        PhysicalType::Int8
        | PhysicalType::Int16
        | PhysicalType::Int32
        | PhysicalType::Int64
        | PhysicalType::Int128 => signed_value(ty, x),
        _ => unsigned_value(ty, x as u128),
    }
}

/// The lowest and highest value in the first `len` slots of a run of integer data.
///
/// `None` for data that is not integers, which is what says a column cannot be packed. The null
/// slots are in the span, holding whatever zero was written into them.
pub(crate) fn span_of(data: &Data, len: usize) -> (span: Option<(i128, i128)>)
    ensures
        span is Some <==> is_exact_layout(data.layout()) && len > 0 && data.size() > 0,
        span matches Some((low, high)) ==> {
            &&& low <= high
            &&& layout_low(data.layout()) <= low && high <= layout_high(data.layout())
            &&& forall|i: int|
                0 <= i < len && i < data.size() ==> low <= #[trigger] data.integer(i) <= high
            &&& exists|i: int| 0 <= i < len && i < data.size() && #[trigger] data.integer(i) == low
            &&& exists|i: int| 0 <= i < len && i < data.size() && #[trigger] data.integer(i) == high
        },
{
    if len == 0 {
        return None;
    }
    let (mut low, mut high): (i128, i128) = match data.integer_at(0) {
        Some(first) => (first, first),
        None => return None,
    };
    let mut row: usize = 1;
    let stop: usize = if len < data.len() {
        len
    } else {
        data.len()
    };
    let ghost mut lowest: int = 0;
    let ghost mut highest: int = 0;
    while row < stop
        invariant
            1 <= row <= stop,
            stop <= len,
            stop <= data.size(),
            is_exact_layout(data.layout()),
            low <= high,
            layout_low(data.layout()) <= low,
            high <= layout_high(data.layout()),
            0 <= lowest < row,
            0 <= highest < row,
            data.integer(lowest) == low,
            data.integer(highest) == high,
            forall|i: int| 0 <= i < row ==> low <= #[trigger] data.integer(i) <= high,
        decreases stop - row,
    {
        if let Some(x) = data.integer_at(row) {
            if x < low {
                low = x;
                proof {
                    lowest = row as int;
                }
            }
            if x > high {
                high = x;
                proof {
                    highest = row as int;
                }
            }
        }
        row += 1;
    }
    Some((low, high))
}

/// What to subtract before packing, so that the whole code range lands inside the column's type.
///
/// The largest base that leaves every value a code of the width and every code of the width a value
/// of the type. `None` for a type with no integer layout, and where no base does both.
pub fn packing_base(ty: &LogicalType, low: i128, high: i128, width: u32) -> (base: Option<
    i128,
>)
    requires
        1 <= width <= 63,
        low <= high,
    ensures
        base matches Some(base) ==> packs(*ty, low as int, high as int, width as nat, base as int)
            && forall|other: int|
            packs(*ty, low as int, high as int, width as nat, other) ==> other <= base,
        base is None ==> forall|other: int|
            !packs(*ty, low as int, high as int, width as nat, other),
{
    let (floor, ceiling): (i128, i128) = match layout_range(ty) {
        Some(range) => range,
        None => return None,
    };
    proof {
        crate::bits::lemma_top_code(width);
    }
    let span: i128 = crate::bits::largest_code(width) as i128;
    let base: i128 = if low < ceiling - span {
        low
    } else {
        ceiling - span
    };
    if base >= floor && reaches(base, high, span) {
        Some(base)
    } else {
        None
    }
}

/// Whether `high` is at most `span` above `base`.
fn reaches(base: i128, high: i128, span: i128) -> (yes: bool)
    requires
        0 <= span <= u64::MAX,
    ensures
        yes == (base + span >= high),
{
    match base.checked_add(span) {
        Some(top) => top >= high,
        None => true,
    }
}

/// Whether packing from `base` keeps both promises: every value between `low` and `high` is a code
/// of `width` bits, and every code of `width` bits is a value of the type.
pub open spec fn packs(ty: LogicalType, low: int, high: int, width: nat, base: int) -> bool {
    &&& is_exact_layout(layout_for(ty))
    &&& base <= low
    &&& high - base <= top_code(width)
    &&& layout_low(layout_for(ty)) <= base
    &&& base + top_code(width) <= layout_high(layout_for(ty))
}

/// The first `len` values of a run of integer data, written out as codes of `width` bits from
/// `base`.
pub(crate) fn pack(data: &Data, len: usize, base: i128, width: u32) -> (words: Vec<u64>)
    requires
        is_exact_layout(data.layout()),
        len <= data.size(),
        1 <= width <= 63,
        forall|i: int|
            0 <= i < len ==> base <= #[trigger] data.integer(i) <= base + top_code(width as nat),
    ensures
        words@.len() == words_needed(len as int, width as int),
        forall|i: int|
            0 <= i < len ==> #[trigger] code_in(words@, i * width, width as nat) == data.integer(i)
                - base,
{
    let count: usize = words_for(len, width);
    let mut words: Vec<u64> = vec![0u64; count];
    proof {
        assert forall|p: int| !#[trigger] bit_in(words@, p) by {
            if 0 <= p && p / 64 < words@.len() {
                let at = (p % 64) as u64;
                assert((0u64 >> at) & 1 == 0) by (bit_vector);
            }
        }
        crate::bits::lemma_top_code(width);
    }
    let mut row: usize = 0;
    while row < len
        invariant
            row <= len <= data.size(),
            is_exact_layout(data.layout()),
            1 <= width <= 63,
                words@.len() == words_needed(len as int, width as int),
            top_code(width as nat) < 0x8000_0000_0000_0000,
            forall|i: int|
                0 <= i < len ==> base <= #[trigger] data.integer(i) <= base + top_code(
                    width as nat,
                ),
            forall|p: int| p >= row * width ==> !#[trigger] bit_in(words@, p),
            forall|i: int|
                0 <= i < row ==> #[trigger] code_in(words@, i * width, width as nat)
                    == data.integer(i) - base,
        decreases len - row,
    {
        let value: i128 = match data.integer_at(row) {
            Some(value) => value,
            None => base,
        };
        assert(data.integer(row as int) == value);
        let code: u64 = (value - base) as u64;
        proof {
            assert(row * width <= len * width && row * width + width <= len * width)
                by (nonlinear_arith)
                requires
                    row + 1 <= len,
                    width >= 1,
            ;
        }
        let bit: u128 = bit_of(0, row, width);
        let ghost before = words@;
        write_code(&mut words, bit, width, code);
        proof {
            assert forall|i: int| 0 <= i < row + 1 implies #[trigger] code_in(
                words@,
                i * width,
                width as nat,
            ) == data.integer(i) - base by {
                if i < row {
                    assert(i * width + width <= row * width) by (nonlinear_arith)
                        requires
                            i + 1 <= row,
                            width >= 1,
                    ;
                    assert forall|k: int| 0 <= k < width implies #[trigger] bit_in(
                        words@,
                        i * width + k,
                    ) == bit_in(before, i * width + k) by {}
                    lemma_same_bits_same_code(words@, before, i * width, width as nat);
                } else {
                    assert forall|k: int| 0 <= k < width implies word_bit(code, k as u64)
                        == #[trigger] bit_in(words@, bit + k) by {
                        assert(!bit_in(before, bit + k));
                    }
                    crate::bits::lemma_code_is(words@, bit as int, width, code);
                }
            }
            assert forall|p: int| p >= (row + 1) * width implies !#[trigger] bit_in(
                words@,
                p,
            ) by {
                assert((row + 1) * width == row * width + width) by (nonlinear_arith);
                assert(!bit_in(before, p));
            }
        }
        row += 1;
    }
    words
}

/// The codes at the given rows, unpacked into the flat layout the type calls for. A row of
/// [`NOWHERE`] writes the layout's zero.
pub(crate) fn unpack(
    ty: &LogicalType,
    words: &[u64],
    offset: usize,
    width: u32,
    base: i128,
    at: &[usize],
) -> (data: Result<Data, Error>)
    requires
        1 <= width <= 63,
        is_exact_layout(layout_for(*ty)),
        layout_low(layout_for(*ty)) <= base,
        base + top_code(width as nat) <= layout_high(layout_for(*ty)),
    ensures
        data matches Ok(data) && {
            &&& data.wf()
            &&& data.layout() == layout_for(*ty)
            &&& data.size() == at@.len()
            &&& forall|j: int|
                0 <= j < at@.len() ==> #[trigger] data.cell(j) == if at@[j] == NOWHERE {
                    zero_cell(layout_for(*ty))
                } else {
                    integer_cell(
                        layout_for(*ty),
                        base + code_in(words@, (offset + at@[j]) * width, width as nat),
                    )
                }
        },
{
    let mut out = match empty_data_for(ty) {
        Ok(out) => out,
        Err(error) => return Err(error),
    };
    let mut row: usize = 0;
    while row < at.len()
        invariant
            row <= at@.len(),
            1 <= width <= 63,
            is_exact_layout(layout_for(*ty)),
            layout_low(layout_for(*ty)) <= base,
            base + top_code(width as nat) <= layout_high(layout_for(*ty)),
            out.wf(),
            out.layout() == layout_for(*ty),
            out.size() == row,
            forall|j: int|
                0 <= j < row ==> #[trigger] out.cell(j) == if at@[j] == NOWHERE {
                    zero_cell(layout_for(*ty))
                } else {
                    integer_cell(
                        layout_for(*ty),
                        base + code_in(words@, (offset + at@[j]) * width, width as nat),
                    )
                },
        decreases at.len() - row,
    {
        let from: usize = at[row];
        if from == NOWHERE {
            push_integer(&mut out, 0);
        } else {
            proof {
                lemma_code_bound(words@, (offset + from) * width, width as nat);
                crate::bits::lemma_top_code(width);
            }
            let code: u64 = code_at(words, bit_of(offset, from, width), width);
            push_integer(&mut out, base + code as i128);
        }
        row += 1;
    }
    Ok(out)
}

/// Whether row `row` starts a new run: it is null where the row before is not, or the other way
/// round, or both hold values that differ. Two nulls beside each other are one run.
pub open spec fn breaks_at(data: &Data, validity: &Validity, row: int) -> bool {
    if validity.valid(row) && validity.valid(row - 1) {
        !data.same_slot(row, row - 1)
    } else {
        validity.valid(row) || validity.valid(row - 1)
    }
}

/// How many runs the first `len` rows are.
pub open spec fn run_count(data: &Data, validity: &Validity, len: nat) -> nat
    decreases len,
{
    if len <= 1 || data.layout() is Empty {
        if len == 0 {
            0
        } else {
            1
        }
    } else {
        run_count(data, validity, (len - 1) as nat) + if breaks_at(data, validity, len - 1) {
            1nat
        } else {
            0nat
        }
    }
}

/// Whether ends are exclusive, strictly increasing and none of them zero.
pub open spec fn increasing_ends(ends: Seq<u32>) -> bool {
    &&& forall|i: int, j: int|
        0 <= i < j < ends.len() ==> #[trigger] ends[i] < #[trigger] ends[j]
    &&& ends.len() > 0 ==> ends[0] > 0
}

/// The row each run ends at, for a flat body read alongside the validity that goes with it.
pub(crate) fn boundaries(data: &Data, validity: &Validity, len: usize) -> (ends: Vec<u32>)
    requires
        data.wf(),
        len <= u32::MAX,
    ensures
        increasing_ends(ends@),
        len == 0 ==> ends@.len() == 0,
        len > 0 ==> ends@.len() > 0 && ends@.last() == len,
        ends@.len() == run_count(data, validity, len as nat),
        !(data.layout() is Empty) ==> forall|row: int|
            0 < row < len ==> (#[trigger] breaks_at(data, validity, row) <==> ends@.contains(
                row as u32,
            )),
{
    let mut ends: Vec<u32> = Vec::new();
    if len == 0 {
        return ends;
    }
    if let Data::Empty = data {
        ends.push(len as u32);
        return ends;
    }
    let mut row: usize = 1;
    while row < len
        invariant
            1 <= row <= len <= u32::MAX,
            data.wf(),
            !(data.layout() is Empty),
            ends@.len() + 1 == run_count(data, validity, row as nat),
            forall|i: int, j: int|
                0 <= i < j < ends@.len() ==> #[trigger] ends@[i] < #[trigger] ends@[j],
            forall|i: int| 0 <= i < ends@.len() ==> 0 < #[trigger] ends@[i] < row,
            forall|r: int|
                0 < r < row ==> (#[trigger] breaks_at(data, validity, r) <==> ends@.contains(
                    r as u32,
                )),
        decreases len - row,
    {
        let here: bool = validity.is_valid(row);
        let before: bool = validity.is_valid(row - 1);
        let breaks: bool = if here && before {
            !data.same_at(row, row - 1)
        } else {
            here || before
        };
        let ghost was = ends@;
        if breaks {
            ends.push(row as u32);
        }
        proof {
            assert forall|r: int| 0 < r < row + 1 implies (#[trigger] breaks_at(data, validity, r)
                <==> ends@.contains(r as u32)) by {
                if r < row {
                    if was.contains(r as u32) {
                        let i = choose|i: int| 0 <= i < was.len() && was[i] == r as u32;
                        assert(ends@[i] == r as u32);
                    }
                    if ends@.contains(r as u32) {
                        let i = choose|i: int| 0 <= i < ends@.len() && ends@[i] == r as u32;
                        assert(was[i] == r as u32);
                    }
                } else if breaks {
                    assert(ends@[was.len() as int] == row as u32);
                }
            }
        }
        row += 1;
    }
    let ghost was = ends@;
    ends.push(len as u32);
    proof {
        assert forall|r: int| 0 < r < len implies (#[trigger] breaks_at(data, validity, r)
            <==> ends@.contains(r as u32)) by {
            if was.contains(r as u32) {
                let i = choose|i: int| 0 <= i < was.len() && was[i] == r as u32;
                assert(ends@[i] == r as u32);
            }
            if ends@.contains(r as u32) {
                let i = choose|i: int| 0 <= i < ends@.len() && ends@[i] == r as u32;
                assert(was[i] == r as u32);
            }
        }
    }
    ends
}

/// Two floats compare equal where their bits are the same, and where both are zero whatever their
/// signs. A number that is none compares equal to nothing, itself included.
pub proof fn law_floats_compare_by_their_bits_but_for_zero_and_none(left: u32, right: u32)
    ensures
        equal_floats32(0, 0x8000_0000) && equal_floats32(0x8000_0000, 0),
        0x7f80_0000 < left <= 0x7fff_ffff || 0xff80_0000 < left ==> !equal_floats32(left, right)
            && !equal_floats32(right, left),
        left <= 0x7f80_0000 || 0x8000_0000 <= left <= 0xff80_0000 ==> equal_floats32(left, left),
        equal_floats32(left, right) && left != right ==> (left == 0 && right == 0x8000_0000) || (left
            == 0x8000_0000 && right == 0),
{
}

/// The same of floats of 64 bits.
pub proof fn law_doubles_compare_by_their_bits_but_for_zero_and_none(left: u64, right: u64)
    ensures
        equal_floats64(0, 0x8000_0000_0000_0000) && equal_floats64(0x8000_0000_0000_0000, 0),
        0x7ff0_0000_0000_0000 < left <= 0x7fff_ffff_ffff_ffff || 0xfff0_0000_0000_0000 < left
            ==> !equal_floats64(left, right) && !equal_floats64(right, left),
        left <= 0x7ff0_0000_0000_0000 || 0x8000_0000_0000_0000 <= left <= 0xfff0_0000_0000_0000
            ==> equal_floats64(left, left),
        equal_floats64(left, right) && left != right ==> (left == 0 && right
            == 0x8000_0000_0000_0000) || (left == 0x8000_0000_0000_0000 && right == 0),
{
}

/// Slots that are no floats compare equal exactly where they hold the same.
pub proof fn law_slots_compare_by_what_they_hold(left: Cell, right: Cell)
    requires
        !(left is Float32),
        !(left is Float64),
    ensures
        equal_cells(left, right) <==> left == right,
{
}

/// What lands on a place is the last value that is sent there, and nothing where none is.
pub proof fn law_the_last_value_sent_to_a_place_lands_there(
    inverse: Seq<u32>,
    place: int,
    count: nat,
)
    requires
        count <= inverse.len(),
    ensures
        match landed(inverse, place, count) {
            Some(at) => 0 <= at < count && inverse[at] == place && forall|i: int|
                at < i < count ==> #[trigger] inverse[i] != place,
            None => forall|i: int| 0 <= i < count ==> #[trigger] inverse[i] != place,
        },
    decreases count,
{
    if count > 0 {
        law_the_last_value_sent_to_a_place_lands_there(inverse, place, (count - 1) as nat);
    }
}

/// A row starts a new run where it differs from the row before it, or where just one of the two is
/// null. Two nulls stay together, whatever lies under them.
pub proof fn law_a_run_goes_on_while_nothing_changes(data: &Data, validity: &Validity, row: int)
    requires
        0 < row < data.size(),
    ensures
        validity.valid(row) != validity.valid(row - 1) ==> breaks_at(data, validity, row),
        !validity.valid(row) && !validity.valid(row - 1) ==> !breaks_at(data, validity, row),
        validity.valid(row) && validity.valid(row - 1) ==> (breaks_at(data, validity, row)
            <==> !equal_cells(data.cell(row), data.cell(row - 1))),
{
}

/// There is one run more than there are rows that start a new one after the first.
pub proof fn law_runs_are_counted_by_where_they_start(data: &Data, validity: &Validity, len: nat)
    requires
        !(data.layout() is Empty),
    ensures
        run_count(data, validity, 0) == 0,
        run_count(data, validity, 1) == 1,
        len >= 1 && breaks_at(data, validity, len as int) ==> run_count(data, validity, len + 1)
            == run_count(data, validity, len) + 1,
        len >= 1 && !breaks_at(data, validity, len as int) ==> run_count(data, validity, len + 1)
            == run_count(data, validity, len),
{
}

/// A decimal is kept in a run of its width's integers exactly where one of them holds it, and as
/// itself.
pub proof fn law_a_decimal_is_kept_where_it_fits(unscaled: int)
    ensures
        decimal_cell(PhysicalType::Int16, unscaled) == if -32768 <= unscaled <= 32767 {
            Some(Cell::Signed(unscaled))
        } else {
            None
        },
        decimal_cell(PhysicalType::Int32, unscaled) == if -0x8000_0000 <= unscaled <= 0x7fff_ffff {
            Some(Cell::Signed(unscaled))
        } else {
            None
        },
        decimal_cell(PhysicalType::Int64, unscaled) == if -0x8000_0000_0000_0000 <= unscaled
            <= 0x7fff_ffff_ffff_ffff {
            Some(Cell::Signed(unscaled))
        } else {
            None
        },
        decimal_cell(PhysicalType::Int128, unscaled) == if i128::MIN <= unscaled <= i128::MAX {
            Some(Cell::Signed(unscaled))
        } else {
            None
        },
{
}

/// A slot takes as many bytes as its values have, and one of text as many as a view of it.
pub proof fn law_a_slot_is_as_wide_as_its_values()
    ensures
        slot_bytes(PhysicalType::Bool) == 1 && slot_bytes(PhysicalType::Int8) == 1 && slot_bytes(
            PhysicalType::UInt8,
        ) == 1,
        slot_bytes(PhysicalType::Int16) * 8 == 16 && slot_bytes(PhysicalType::UInt16) * 8 == 16,
        slot_bytes(PhysicalType::Int32) * 8 == 32 && slot_bytes(PhysicalType::UInt32) * 8 == 32
            && slot_bytes(PhysicalType::Float32) * 8 == 32,
        slot_bytes(PhysicalType::Int64) * 8 == 64 && slot_bytes(PhysicalType::UInt64) * 8 == 64
            && slot_bytes(PhysicalType::Float64) * 8 == 64,
        slot_bytes(PhysicalType::Int128) * 8 == 128 && slot_bytes(PhysicalType::UInt128) * 8 == 128,
        slot_bytes(PhysicalType::Interval) == 4 + 4 + 8,
        slot_bytes(PhysicalType::Varlen) == 16,
{
}

} // verus!
