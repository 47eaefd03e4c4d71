//! What a column reads back as, said of each type and each form outright.

use super::make::{
    are_lists, are_maps, datums, field_missing, field_refusal, flat_failure, list_elements, map_keys, map_values, refusal, restored,
};
use super::cut::past_the_end;
use super::encode::{code_past, gather_refusal, packed_refusal, runs_refusal};
use super::gather::widened;
use super::pack::alike;
use super::{
    find_name, run_from, run_of_row, sequence_at, source_row, Body, Vector, NO_ROW,
};
use crate::bits::code_in;
use crate::data::{cell_for, Cell, Data, NOWHERE};
use crate::scan::{decimal, signed_decimal};
use crate::strings::StringView;
use crate::types::{
    layout_for, About, Datum, Error, Failure, Field, LogicalType, PhysicalType, Value,
};
use crate::validity::Validity;
use std::sync::Arc;
use vstd::arithmetic::power2::*;
use vstd::prelude::*;
use vstd::utf8::*;

verus! {

/// A single value of a type's own kind reads back out of a column of that type as it was put in, bit
/// for bit: no sign, no precision, no byte of it is lost.
pub proof fn law_a_value_of_its_own_kind_reads_back(ty: LogicalType, value: Datum)
    ensures
        match (ty, value) {
            (LogicalType::Boolean, Datum::Boolean(_)) => restored(ty, value) == value,
            (LogicalType::TinyInt, Datum::TinyInt(_)) => restored(ty, value) == value,
            (LogicalType::SmallInt, Datum::SmallInt(_)) => restored(ty, value) == value,
            (LogicalType::Integer, Datum::Integer(_)) => restored(ty, value) == value,
            (LogicalType::BigInt, Datum::BigInt(_)) => restored(ty, value) == value,
            (LogicalType::HugeInt, Datum::HugeInt(_)) => restored(ty, value) == value,
            (LogicalType::UTinyInt, Datum::UTinyInt(_)) => restored(ty, value) == value,
            (LogicalType::USmallInt, Datum::USmallInt(_)) => restored(ty, value) == value,
            (LogicalType::UInteger, Datum::UInteger(_)) => restored(ty, value) == value,
            (LogicalType::UBigInt, Datum::UBigInt(_)) => restored(ty, value) == value,
            (LogicalType::UHugeInt, Datum::UHugeInt(_)) => restored(ty, value) == value,
            (LogicalType::Float, Datum::Float(_)) => restored(ty, value) == value,
            (LogicalType::Double, Datum::Double(_)) => restored(ty, value) == value,
            (LogicalType::Varchar, Datum::Varchar(_)) => restored(ty, value) == value,
            (LogicalType::Blob, Datum::Blob(_)) => restored(ty, value) == value,
            (LogicalType::Bit, Datum::Blob(_)) => restored(ty, value) == value,
            (LogicalType::Date, Datum::Date(_)) => restored(ty, value) == value,
            (LogicalType::Time, Datum::Time(_)) => restored(ty, value) == value,
            (LogicalType::TimeTz, Datum::TimeTz(_)) => restored(ty, value) == value,
            (LogicalType::Timestamp, Datum::Timestamp(_)) => restored(ty, value) == value,
            (LogicalType::TimestampS, Datum::Timestamp(_)) => restored(ty, value) == value,
            (LogicalType::TimestampMs, Datum::Timestamp(_)) => restored(ty, value) == value,
            (LogicalType::TimestampNs, Datum::Timestamp(_)) => restored(ty, value) == value,
            (LogicalType::TimestampTz, Datum::TimestampTz(_)) => restored(ty, value) == value,
            (LogicalType::Interval, Datum::Interval { .. }) => restored(ty, value) == value,
            (
                LogicalType::Decimal { width, scale },
                Datum::Decimal { unscaled, width: digits, scale: places },
            ) => width == digits && scale == places && (width <= 4 ==> -32768 <= unscaled <= 32767)
                && (4 < width <= 9 ==> -0x8000_0000 <= unscaled <= 0x7fff_ffff) && (9 < width <= 18
                ==> -0x8000_0000_0000_0000 <= unscaled <= 0x7fff_ffff_ffff_ffff) ==> restored(
                ty,
                value,
            ) == value,
            (_, Datum::Null) => restored(ty, value) == value,
            _ => true,
        },
{
    broadcast use vstd::utf8::encode_utf8_decode_utf8;
    broadcast use vstd::utf8::encode_utf8_valid_utf8;

}

/// A column of single values of its type's own kind, with any nulls among them, is never refused.
pub proof fn law_values_of_their_own_kind_are_never_refused(ty: LogicalType, rows: Seq<Datum>)
    requires
        forall|r: int|
            0 <= r < rows.len() ==> match (ty, #[trigger] rows[r]) {
                (_, Datum::Null) => !(ty is List || ty is Struct || ty is Mapping || ty is Array
                    || ty is Union),
                (LogicalType::Boolean, Datum::Boolean(_)) => true,
                (LogicalType::TinyInt, Datum::TinyInt(_)) => true,
                (LogicalType::SmallInt, Datum::SmallInt(_)) => true,
                (LogicalType::Integer, Datum::Integer(_)) => true,
                (LogicalType::BigInt, Datum::BigInt(_)) => true,
                (LogicalType::HugeInt, Datum::HugeInt(_)) => true,
                (LogicalType::UTinyInt, Datum::UTinyInt(_)) => true,
                (LogicalType::USmallInt, Datum::USmallInt(_)) => true,
                (LogicalType::UInteger, Datum::UInteger(_)) => true,
                (LogicalType::UBigInt, Datum::UBigInt(_)) => true,
                (LogicalType::UHugeInt, Datum::UHugeInt(_)) => true,
                (LogicalType::Float, Datum::Float(_)) => true,
                (LogicalType::Double, Datum::Double(_)) => true,
                (LogicalType::Varchar, Datum::Varchar(_)) => true,
                (LogicalType::Blob, Datum::Blob(_)) => true,
                (LogicalType::Bit, Datum::Blob(_)) => true,
                (LogicalType::Date, Datum::Date(_)) => true,
                (LogicalType::Time, Datum::Time(_)) => true,
                (LogicalType::TimeTz, Datum::TimeTz(_)) => true,
                (LogicalType::Timestamp, Datum::Timestamp(_)) => true,
                (LogicalType::TimestampS, Datum::Timestamp(_)) => true,
                (LogicalType::TimestampMs, Datum::Timestamp(_)) => true,
                (LogicalType::TimestampNs, Datum::Timestamp(_)) => true,
                (LogicalType::TimestampTz, Datum::TimestampTz(_)) => true,
                (LogicalType::Interval, Datum::Interval { .. }) => true,
                (LogicalType::Decimal { width, .. }, Datum::Decimal { unscaled, .. }) => (width <= 4
                    ==> -32768 <= unscaled <= 32767) && (4 < width <= 9 ==> -0x8000_0000 <= unscaled
                    <= 0x7fff_ffff) && (9 < width <= 18 ==> -0x8000_0000_0000_0000 <= unscaled
                    <= 0x7fff_ffff_ffff_ffff),
                _ => false,
            },
        rows.len() > 0,
    ensures
        refusal(ty, rows) is None,
{
    assert(match (ty, rows[0]) {
        (LogicalType::List(_), _) => false,
        (LogicalType::Struct(_), _) => false,
        (LogicalType::Mapping(_, _), _) => false,
        (LogicalType::Array(_, _), _) => false,
        (LogicalType::Union(_), _) => false,
        _ => true,
    });
    assert forall|r: int| 0 <= r < rows.len() implies layout_for(ty) is Empty || cell_for(
        layout_for(ty),
        #[trigger] rows[r],
    ) is Some by {
        assert(rows[r] == rows[r]);
    }
}

/// A value of another kind, put among the rows of a column of single values, refuses the column: a
/// text is no number, a number of one width is no number of another, and a decimal that its width
/// does not hold is refused rather than cut.
pub proof fn law_a_value_of_another_kind_is_refused(ty: LogicalType, rows: Seq<Datum>, r: int)
    requires
        0 <= r < rows.len(),
        !(rows[r] is Null),
        match ty {
            LogicalType::Boolean => !(rows[r] is Boolean),
            LogicalType::TinyInt => !(rows[r] is TinyInt),
            LogicalType::SmallInt => !(rows[r] is SmallInt) && !(rows[r] is Decimal),
            LogicalType::Integer | LogicalType::Date => !(rows[r] is Integer) && !(rows[r] is Date)
                && !(rows[r] is Decimal),
            LogicalType::BigInt
            | LogicalType::Time
            | LogicalType::TimeTz
            | LogicalType::Timestamp
            | LogicalType::TimestampS
            | LogicalType::TimestampMs
            | LogicalType::TimestampNs
            | LogicalType::TimestampTz => !(rows[r] is BigInt) && !(rows[r] is Time)
                && !(rows[r] is TimeTz) && !(rows[r] is Timestamp) && !(rows[r] is TimestampTz)
                && !(rows[r] is Decimal),
            LogicalType::HugeInt => !(rows[r] is HugeInt) && !(rows[r] is Decimal),
            LogicalType::UTinyInt => !(rows[r] is UTinyInt),
            LogicalType::USmallInt => !(rows[r] is USmallInt),
            LogicalType::UInteger => !(rows[r] is UInteger),
            LogicalType::UBigInt => !(rows[r] is UBigInt),
            LogicalType::UHugeInt => !(rows[r] is UHugeInt),
            LogicalType::Float => !(rows[r] is Float),
            LogicalType::Double => !(rows[r] is Double),
            LogicalType::Varchar | LogicalType::Blob | LogicalType::Bit => !(rows[r] is Varchar)
                && !(rows[r] is Blob),
            LogicalType::Interval => !(rows[r] is Interval),
            LogicalType::Decimal { width, .. } => match rows[r] {
                Datum::Decimal { unscaled, .. } => (width <= 4 && !(-32768 <= unscaled <= 32767))
                    || (4 < width <= 9 && !(-0x8000_0000 <= unscaled <= 0x7fff_ffff)) || (9 < width
                    <= 18 && !(-0x8000_0000_0000_0000 <= unscaled <= 0x7fff_ffff_ffff_ffff)),
                Datum::Varchar(_) => true,
                Datum::Boolean(_) => true,
                Datum::Double(_) => true,
                _ => false,
            },
            _ => false,
        },
    ensures
        refusal(ty, rows) is Some,
{
    assert(cell_for(layout_for(ty), rows[r]) is None);
}

/// A list reads back with as many elements, in the same order, each as the element's type keeps it. A
/// map reads back with as many entries, each key with its own value.
pub proof fn law_a_nested_value_reads_back_part_by_part(
    element: Arc<LogicalType>,
    key: Arc<LogicalType>,
    of: Arc<LogicalType>,
    given: LogicalType,
    other: LogicalType,
    values: Seq<Datum>,
    entries: Seq<(Datum, Datum)>,
    k: int,
)
    ensures
        restored(LogicalType::List(element), Datum::List { element: given, values }) matches Datum::List {
            element: kept,
            values: read,
        } && kept == *element && read.len() == values.len() && (0 <= k < values.len() ==> read[k]
            == restored(*element, values[k])),
        restored(
            LogicalType::Mapping(key, of),
            Datum::Mapping { key: given, value: other, entries },
        ) matches Datum::Mapping { key: kept, value: held, entries: read } && kept == *key && held
            == *of && read.len() == entries.len() && (0 <= k < entries.len() ==> read[k] == (
            restored(*key, entries[k].0),
            restored(*of, entries[k].1),
        )),
{
}

proof fn lemma_find_name(held: Seq<(Seq<char>, Datum)>, name: Seq<char>, from: nat, at: int)
    requires
        from <= at < held.len(),
        held[at].0 == name,
        forall|i: int| from <= i < at ==> held[i].0 != name,
    ensures
        find_name(held, name, from) == Some(at),
    decreases at - from,
{
    if from < at {
        assert(held[from as int].0 != name);
        lemma_find_name(held, name, from + 1, at);
    }
}

/// A struct reads back with the fields of its type in their own order, each holding what the value
/// holds under that name, wherever in the value that is. A tuple's are taken by place.
pub proof fn law_a_struct_reads_back_by_name(
    fields: Arc<Vec<Field>>,
    held: Seq<(Seq<char>, Datum)>,
    f: int,
    at: int,
)
    requires
        0 <= f < fields@.len(),
        0 <= at < held.len(),
        if forall|i: int| 0 <= i < fields@.len() ==> (#[trigger] fields@[i]).name@.len() == 0 {
            at == f
        } else {
            &&& held[at].0 == fields@[f].name@
            &&& forall|i: int| 0 <= i < at ==> held[i].0 != fields@[f].name@
        },
    ensures
        restored(LogicalType::Struct(fields), Datum::Struct(held)) matches Datum::Struct(read)
            && read.len() == fields@.len() && read[f].0 == fields@[f].name@ && read[f].1
            == restored(fields@[f].ty, held[at].1),
{
    if exists|i: int| 0 <= i < fields@.len() && (#[trigger] fields@[i]).name@.len() != 0 {
        lemma_find_name(held, fields@[f].name@, 0, at);
    }
}

/// A value says the kind and the number, text or parts it was made with.
pub proof fn law_a_value_is_what_it_was_made_with(value: Value)
    ensures
        match value {
            Value::Null => value.datum() == Datum::Null,
            Value::Boolean(x) => value.datum() == Datum::Boolean(x),
            Value::TinyInt(x) => value.datum() == Datum::TinyInt(x),
            Value::SmallInt(x) => value.datum() == Datum::SmallInt(x),
            Value::Integer(x) => value.datum() == Datum::Integer(x),
            Value::BigInt(x) => value.datum() == Datum::BigInt(x),
            Value::HugeInt(x) => value.datum() == Datum::HugeInt(x),
            Value::UTinyInt(x) => value.datum() == Datum::UTinyInt(x),
            Value::USmallInt(x) => value.datum() == Datum::USmallInt(x),
            Value::UInteger(x) => value.datum() == Datum::UInteger(x),
            Value::UBigInt(x) => value.datum() == Datum::UBigInt(x),
            Value::UHugeInt(x) => value.datum() == Datum::UHugeInt(x),
            Value::Float(x) => value.datum() == Datum::Float(x),
            Value::Double(x) => value.datum() == Datum::Double(x),
            Value::Decimal { unscaled, width, scale } => value.datum() == (Datum::Decimal {
                unscaled,
                width,
                scale,
            }),
            Value::Varchar(text) => value.datum() == Datum::Varchar(text@),
            Value::Blob(bytes) => value.datum() == Datum::Blob(bytes@),
            Value::Date(x) => value.datum() == Datum::Date(x),
            Value::Time(x) => value.datum() == Datum::Time(x),
            Value::TimeTz(x) => value.datum() == Datum::TimeTz(x),
            Value::Timestamp(x) => value.datum() == Datum::Timestamp(x),
            Value::TimestampTz(x) => value.datum() == Datum::TimestampTz(x),
            Value::Interval { months, days, micros } => value.datum() == (Datum::Interval {
                months,
                days,
                micros,
            }),
            Value::List { element, values } => value.datum() matches Datum::List {
                element: of,
                values: held,
            } && of == element && held.len() == values@.len() && forall|k: int|
                0 <= k < values@.len() ==> #[trigger] held[k] == values@[k].datum(),
            Value::Struct(fields) => value.datum() matches Datum::Struct(held) && held.len()
                == fields@.len() && forall|k: int|
                0 <= k < fields@.len() ==> #[trigger] held[k] == (
                    fields@[k].0@,
                    fields@[k].1.datum(),
                ),
            Value::Mapping { key, value: of, entries } => value.datum() matches Datum::Mapping {
                key: keys,
                value: values,
                entries: held,
            } && keys == key && values == of && held.len() == entries@.len() && forall|k: int|
                0 <= k < entries@.len() ==> #[trigger] held[k] == (
                    entries@[k].0.datum(),
                    entries@[k].1.datum(),
                ),
        },
{
}

/// A row past the end of a column is null, and so is one its mask leaves out, whatever lies under it.
pub proof fn law_a_row_that_is_not_there_is_null(vector: Vector, at: int)
    ensures
        at < 0 || at >= vector.len ==> vector.datum(at) == Datum::Null,
        vector.validity is AllInvalid ==> vector.datum(at) == Datum::Null,
        vector.validity matches Validity::Mask(mask) ==> (!(0 <= at < mask@.len()) || !mask@[at]
            ==> vector.datum(at) == Datum::Null),
{
}

/// Laid flat, row `at` is the value in slot `at`, as the column's type spells it.
pub proof fn law_a_flat_row_is_its_slot(vector: Vector, at: int)
    requires
        0 <= at < vector.len,
        vector.validity is AllValid || (vector.validity matches Validity::Mask(mask) && at
            < mask@.len() && mask@[at]),
    ensures
        vector.body matches Body::Flat(data) ==> match *data {
            Data::Bool(slots) => at < slots@.len() && vector.ty is Boolean ==> vector.datum(at)
                == Datum::Boolean(slots@[at]),
            Data::Int8(slots) => at < slots@.len() && vector.ty is TinyInt ==> vector.datum(at)
                == Datum::TinyInt(slots@[at]),
            Data::Int16(slots) => at < slots@.len() ==> match vector.ty {
                LogicalType::SmallInt => vector.datum(at) == Datum::SmallInt(slots@[at]),
                LogicalType::Decimal { width, scale } => vector.datum(at) == (Datum::Decimal {
                    unscaled: slots@[at] as i128,
                    width,
                    scale,
                }),
                _ => true,
            },
            Data::Int32(slots) => at < slots@.len() ==> match vector.ty {
                LogicalType::Integer => vector.datum(at) == Datum::Integer(slots@[at]),
                LogicalType::Date => vector.datum(at) == Datum::Date(slots@[at]),
                LogicalType::Decimal { width, scale } => vector.datum(at) == (Datum::Decimal {
                    unscaled: slots@[at] as i128,
                    width,
                    scale,
                }),
                _ => true,
            },
            Data::Int64(slots) => at < slots@.len() ==> match vector.ty {
                LogicalType::BigInt => vector.datum(at) == Datum::BigInt(slots@[at]),
                LogicalType::Time => vector.datum(at) == Datum::Time(slots@[at]),
                LogicalType::TimeTz => vector.datum(at) == Datum::TimeTz(slots@[at]),
                LogicalType::Timestamp => vector.datum(at) == Datum::Timestamp(slots@[at]),
                LogicalType::TimestampTz => vector.datum(at) == Datum::TimestampTz(slots@[at]),
                LogicalType::Decimal { width, scale } => vector.datum(at) == (Datum::Decimal {
                    unscaled: slots@[at] as i128,
                    width,
                    scale,
                }),
                _ => true,
            },
            Data::Int128(slots) => at < slots@.len() ==> match vector.ty {
                LogicalType::HugeInt => vector.datum(at) == Datum::HugeInt(slots@[at]),
                LogicalType::Decimal { width, scale } => vector.datum(at) == (Datum::Decimal {
                    unscaled: slots@[at],
                    width,
                    scale,
                }),
                _ => true,
            },
            Data::UInt8(slots) => at < slots@.len() && vector.ty is UTinyInt ==> vector.datum(at)
                == Datum::UTinyInt(slots@[at]),
            Data::UInt16(slots) => at < slots@.len() && vector.ty is USmallInt ==> vector.datum(at)
                == Datum::USmallInt(slots@[at]),
            Data::UInt32(slots) => at < slots@.len() && vector.ty is UInteger ==> vector.datum(at)
                == Datum::UInteger(slots@[at]),
            Data::UInt64(slots) => at < slots@.len() && vector.ty is UBigInt ==> vector.datum(at)
                == Datum::UBigInt(slots@[at]),
            Data::UInt128(slots) => at < slots@.len() && vector.ty is UHugeInt ==> vector.datum(at)
                == Datum::UHugeInt(slots@[at]),
            Data::Float32(slots) => at < slots@.len() && vector.ty is Float ==> vector.datum(at)
                == Datum::Float(slots@[at]),
            Data::Float64(slots) => at < slots@.len() && vector.ty is Double ==> vector.datum(at)
                == Datum::Double(slots@[at]),
            Data::Interval(slots) => at < slots@.len() && vector.ty is Interval ==> vector.datum(at)
                == (Datum::Interval {
                months: slots@[at].0,
                days: slots@[at].1,
                micros: slots@[at].2,
            }),
            _ => true,
        },
{
}

/// In the forms that hold no slot of their own for a row: a repeated value is itself on every row, a
/// sequence is its start and as many steps as the row, a code is the row of the values it names, a
/// run is its value on every row from the end of the run before it up to its own end, a row id is the
/// row of the source it names, and packed bits are that many above the base.
pub proof fn law_a_row_reads_as_its_form_says(vector: Vector, at: int)
    requires
        0 <= at < vector.len,
        vector.validity is AllValid || (vector.validity matches Validity::Mask(mask) && at
            < mask@.len() && mask@[at]),
    ensures
        match vector.body {
            Body::Constant(value) => vector.datum(at) == value.datum(),
            Body::Sequence { start, step } => i64::MIN <= start + step * at <= i64::MAX
                ==> vector.datum(at) == Datum::BigInt((start + step * at) as i64),
            Body::Dictionary { codes, values, .. } => at < codes@.len() ==> vector.datum(at)
                == values.datum(codes@[at] as int),
            Body::Runs { ends, values } => forall|run: int|
                0 <= run < ends@.len() && ends@[0] > 0 && (forall|i: int, j: int|
                    0 <= i < j < ends@.len() ==> #[trigger] ends@[i] < #[trigger] ends@[j]) && at
                    < ends@[run] && (run > 0 ==> ends@[run - 1] <= at) ==> vector.datum(at)
                    == #[trigger] values.datum(run),
            Body::Gathered { source, rids, offset } => offset + at < rids@.len() ==> vector.datum(at)
                == (if rids@[offset + at] == NO_ROW {
                Datum::Null
            } else {
                source.datum(rids@[offset + at] as int)
            }),
            Body::Packed { words, width, base, offset } => {
                let value = base + code_in(words@, (offset + at) * width, width as nat);
                match vector.ty {
                    LogicalType::Integer => i32::MIN <= value <= i32::MAX ==> vector.datum(at)
                        == Datum::Integer(value as i32),
                    LogicalType::SmallInt => i16::MIN <= value <= i16::MAX ==> vector.datum(at)
                        == Datum::SmallInt(value as i16),
                    LogicalType::BigInt => i64::MIN <= value <= i64::MAX ==> vector.datum(at)
                        == Datum::BigInt(value as i64),
                    LogicalType::Date => i32::MIN <= value <= i32::MAX ==> vector.datum(at)
                        == Datum::Date(value as i32),
                    LogicalType::UBigInt => 0 <= value <= u64::MAX ==> vector.datum(at)
                        == Datum::UBigInt(value as u64),
                    LogicalType::UInteger => 0 <= value <= u32::MAX ==> vector.datum(at)
                        == Datum::UInteger(value as u32),
                    _ => true,
                }
            },
            _ => true,
        },
{
    match vector.body {
        Body::Sequence { start, step } => {
            if i64::MIN <= start + step * at <= i64::MAX {
                vstd::arithmetic::div_mod::lemma_small_mod(
                    (start + step * at + 0x8000_0000_0000_0000) as nat,
                    0x1_0000_0000_0000_0000,
                );
            }
        },
        Body::Runs { ends, values } => {
            assert forall|run: int|
                0 <= run < ends@.len() && ends@[0] > 0 && (forall|i: int, j: int|
                    0 <= i < j < ends@.len() ==> #[trigger] ends@[i] < #[trigger] ends@[j]) && at
                    < ends@[run] && (run > 0 ==> ends@[run - 1] <= at) implies vector.datum(at)
                == #[trigger] values.datum(run) by {
                super::read::lemma_run_found(ends@, at, run, 0);
            }
        },
        _ => {},
    }
}

/// A list row is the elements of the child from its start on, as many as its length says, in order,
/// and a map row is the keys and the values of the child there, pair by pair. A struct row is that
/// row of each of its fields, under the field's name.
pub proof fn law_a_nested_row_is_made_of_its_children(vector: Vector, at: int, k: int)
    requires
        0 <= at < vector.len,
        vector.validity is AllValid || (vector.validity matches Validity::Mask(mask) && at
            < mask@.len() && mask@[at]),
    ensures
        match vector.body {
            Body::Nested { entries, child } => at < entries@.len() ==> match vector.ty {
                LogicalType::List(_) => vector.datum(at) matches Datum::List { values, .. }
                    && values.len() == entries@[at].1 && (0 <= k < values.len() ==> values[k]
                    == child.datum(entries@[at].0 + k)),
                LogicalType::Mapping(_, _) => (child.body matches Body::Fields { children }
                    && children@.len() == 2) ==> (vector.datum(at) matches Datum::Mapping {
                    entries: held,
                    ..
                } && held.len() == entries@[at].1 && (0 <= k < held.len() ==> held[k] == (
                    child.body->Fields_children@[0].datum(entries@[at].0 + k),
                    child.body->Fields_children@[1].datum(entries@[at].0 + k),
                ))),
                _ => true,
            },
            Body::Fields { children } => vector.datum(at) matches Datum::Struct(held) && held.len()
                == children@.len() && (0 <= k < children@.len() ==> held[k].1
                == children@[k].datum(at) && (vector.ty matches LogicalType::Struct(fields)
                ==> held[k].0 == fields@[k].name@)),
            _ => true,
        },
{
}

/// A code is the number its bits spell, the first of them the lowest: its bits are those of the
/// words, and no code is past the largest its width spells.
pub proof fn law_a_code_is_its_bits(words: Seq<u64>, bit: int, width: nat)
    requires
        0 <= bit,
        width > 0,
    ensures
        code_in(words, bit, width) % 2 == if bit / 64 < words.len() && (words[bit / 64] >> ((bit
            % 64) as u64)) & 1 == 1 {
            1nat
        } else {
            0nat
        },
        code_in(words, bit, width) / 2 == code_in(words, bit + 1, (width - 1) as nat),
        code_in(words, bit, 0) == 0,
    decreases width,
{
    lemma2_to64();
    let below = code_in(words, bit, (width - 1) as nat);
    let top = if crate::bits::bit_in(words, bit + width - 1) {
        pow2((width - 1) as nat)
    } else {
        0
    };
    assert(code_in(words, bit, width) == below + top);
    if width == 1 {
        assert(below == 0);
        assert(pow2(0) == 1);
        assert(code_in(words, bit + 1, 0) == 0);
    } else {
        law_a_code_is_its_bits(words, bit, (width - 1) as nat);
        lemma_pow2_unfold((width - 1) as nat);
        let rest = code_in(words, bit + 1, (width - 1) as nat);
        assert(rest == code_in(words, bit + 1, (width - 2) as nat) + if crate::bits::bit_in(
            words,
            bit + 1 + (width - 1) - 1,
        ) {
            pow2((width - 2) as nat)
        } else {
            0
        });
    }
}

/// A text row is the characters its bytes spell, whether they lie in a run of their own, inside a view
/// or in the arena a view points into.
pub proof fn law_a_text_row_is_what_its_bytes_spell(vector: Vector, at: int, text: Seq<char>)
    requires
        0 <= at < vector.len,
        vector.ty is Varchar,
        vector.validity is AllValid || (vector.validity matches Validity::Mask(mask) && at
            < mask@.len() && mask@[at]),
    ensures
        match vector.body {
            Body::Flat(data) => at < data.size() && data.cell(at) == Cell::Bytes(encode_utf8(text))
                ==> vector.datum(at) == Datum::Varchar(text),
            Body::Views { views, arena } => at < views@.len() ==> match views@[at] {
                StringView::Inline { len, bytes } => len <= 12 && bytes@.subrange(0, len as int)
                    == encode_utf8(text) ==> vector.datum(at) == Datum::Varchar(text),
                StringView::Long { start, len } => start + len <= arena@.len() && arena@.subrange(
                    start as int,
                    start + len,
                ) == encode_utf8(text) ==> vector.datum(at) == Datum::Varchar(text),
            },
            Body::ExternalText { text: source } => source.reads(at) == Ok::<
                Option<Seq<u8>>,
                Failure,
            >(Some(encode_utf8(text))) ==> vector.datum(at) == Datum::Varchar(text),
            _ => true,
        },
{
    encode_utf8_valid_utf8(text);
    encode_utf8_decode_utf8(text);
}

/// A row of raw bytes is those bytes, in the same places.
pub proof fn law_a_row_of_bytes_is_its_bytes(vector: Vector, at: int, held: Seq<u8>)
    requires
        0 <= at < vector.len,
        vector.ty is Blob || vector.ty is Bit,
        vector.validity is AllValid || (vector.validity matches Validity::Mask(mask) && at
            < mask@.len() && mask@[at]),
    ensures
        match vector.body {
            Body::Flat(data) => at < data.size() && data.cell(at) == Cell::Bytes(held)
                ==> vector.datum(at) == Datum::Blob(held),
            Body::Views { views, arena } => at < views@.len() ==> match views@[at] {
                StringView::Inline { len, bytes } => len <= 12 && bytes@.subrange(0, len as int)
                    == held ==> vector.datum(at) == Datum::Blob(held),
                StringView::Long { start, len } => start + len <= arena@.len() && arena@.subrange(
                    start as int,
                    start + len,
                ) == held ==> vector.datum(at) == Datum::Blob(held),
            },
            _ => true,
        },
{
}

/// Packed bits of the other types kept as whole numbers are that many above the base too.
pub proof fn law_a_packed_row_is_a_number_of_its_type(vector: Vector, at: int)
    requires
        0 <= at < vector.len,
        vector.validity is AllValid || (vector.validity matches Validity::Mask(mask) && at
            < mask@.len() && mask@[at]),
    ensures
        match vector.body {
            Body::Packed { words, width, base, offset } => {
                let value = base + code_in(words@, (offset + at) * width, width as nat);
                match vector.ty {
                    LogicalType::TinyInt => i8::MIN <= value <= i8::MAX ==> vector.datum(at)
                        == Datum::TinyInt(value as i8),
                    LogicalType::UTinyInt => 0 <= value <= u8::MAX ==> vector.datum(at)
                        == Datum::UTinyInt(value as u8),
                    LogicalType::USmallInt => 0 <= value <= u16::MAX ==> vector.datum(at)
                        == Datum::USmallInt(value as u16),
                    LogicalType::Time => i64::MIN <= value <= i64::MAX ==> vector.datum(at)
                        == Datum::Time(value as i64),
                    LogicalType::TimeTz => i64::MIN <= value <= i64::MAX ==> vector.datum(at)
                        == Datum::TimeTz(value as i64),
                    LogicalType::Timestamp => i64::MIN <= value <= i64::MAX ==> vector.datum(at)
                        == Datum::Timestamp(value as i64),
                    LogicalType::TimestampTz => i64::MIN <= value <= i64::MAX ==> vector.datum(at)
                        == Datum::TimestampTz(value as i64),
                    LogicalType::HugeInt => i128::MIN <= value <= i128::MAX ==> vector.datum(at)
                        == Datum::HugeInt(value as i128),
                    _ => true,
                }
            },
            _ => true,
        },
{
}

/// A row that is null in any form reads as null.
pub proof fn law_a_null_row_reads_as_null(vector: &Vector, at: int)
    requires
        vector.null_at(at),
    ensures
        vector.datum(at) == Datum::Null,
    decreases vector,
{
    if 0 <= at < vector.len && vector.validity.valid(at) {
        match &vector.body {
            Body::Dictionary { codes, values, .. } => {
                if at < codes@.len() {
                    law_a_null_row_reads_as_null(values, codes@[at] as int);
                }
            },
            Body::Runs { ends, values } => {
                if let Some(run) = run_of_row(ends@, at) {
                    law_a_null_row_reads_as_null(values, run);
                }
            },
            Body::Gathered { source, rids, offset } => {
                if let Some(row) = source_row(rids@, *offset + at) {
                    law_a_null_row_reads_as_null(source, row);
                }
            },
            _ => {},
        }
    }
}

/// A row is null where its mask leaves it out, where the row of the values its code names is null, and
/// where its row id names no row or a null one. A row that holds a value of its own is not.
pub proof fn law_a_row_is_null_where_what_it_names_is(vector: Vector, at: int)
    requires
        0 <= at < vector.len,
    ensures
        vector.validity is AllInvalid ==> vector.null_at(at),
        (vector.validity matches Validity::Mask(mask) && at < mask@.len() && !mask@[at])
            ==> vector.null_at(at),
        vector.validity is AllValid ==> match vector.body {
            Body::Dictionary { codes, values, .. } => at < codes@.len() ==> vector.null_at(at)
                == values.null_at(codes@[at] as int),
            Body::Gathered { source, rids, offset } => offset + at < rids@.len() ==> vector.null_at(
                at,
            ) == (rids@[offset + at] == NO_ROW || source.null_at(rids@[offset + at] as int)),
            Body::Flat(_) | Body::Sequence { .. } | Body::Packed { .. } | Body::Views {
                ..
            } | Body::Nested { .. } | Body::Fields { .. } => !vector.null_at(at),
            _ => true,
        },
{
}

/// A row that is a signed number is read as that number where it lies, whatever the form.
pub proof fn law_a_signed_row_is_read_as_its_number(vector: &Vector, at: int)
    ensures
        match vector.datum(at) {
            Datum::TinyInt(x) => vector.signed_read(at) == Some(x as int),
            Datum::SmallInt(x) => vector.signed_read(at) == Some(x as int),
            Datum::Integer(x) => vector.signed_read(at) == Some(x as int),
            Datum::BigInt(x) => vector.signed_read(at) == Some(x as int),
            Datum::Date(x) => vector.signed_read(at) == Some(x as int),
            Datum::Time(x) => vector.signed_read(at) == Some(x as int),
            Datum::Timestamp(x) => vector.signed_read(at) == Some(x as int),
            Datum::HugeInt(x) => vector.signed_read(at) == Some(x as int),
            Datum::Decimal { unscaled, .. } => vector.signed_read(at) == Some(unscaled as int),
            _ => true,
        },
    decreases vector,
{
    if 0 <= at < vector.len && vector.validity.valid(at) {
        match &vector.body {
            Body::Dictionary { codes, values, .. } => {
                if at < codes@.len() {
                    law_a_signed_row_is_read_as_its_number(values, codes@[at] as int);
                }
            },
            Body::Runs { ends, values } => {
                if let Some(run) = run_of_row(ends@, at) {
                    law_a_signed_row_is_read_as_its_number(values, run);
                }
            },
            Body::Gathered { source, rids, offset } => {
                if let Some(row) = source_row(rids@, *offset + at) {
                    law_a_signed_row_is_read_as_its_number(source, row);
                }
            },
            _ => {},
        }
    }
}

/// A row that is a text is read as the bytes that spell it where it lies, in every form but a
/// compressed one.
pub proof fn law_a_text_row_is_read_as_its_bytes(vector: &Vector, at: int)
    requires
        !(vector.root().body is Coded),
        vector.datum(at) is Varchar,
    ensures
        vector.text_read(at) matches Ok(Some(bytes)) && valid_utf8(bytes) && decode_utf8(bytes)
            == vector.datum(at)->Varchar_0,
    decreases vector,
{
    match &vector.body {
        Body::Dictionary { codes, values, .. } => {
            law_a_text_row_is_read_as_its_bytes(values, codes@[at] as int);
        },
        Body::Runs { ends, values } => {
            law_a_text_row_is_read_as_its_bytes(values, run_of_row(ends@, at)->Some_0);
        },
        Body::Gathered { source, rids, offset } => {
            law_a_text_row_is_read_as_its_bytes(
                source,
                source_row(rids@, *offset + at)->Some_0,
            );
        },
        Body::Constant(value) => {
            let text = value.datum()->Varchar_0;
            encode_utf8_valid_utf8(text);
            encode_utf8_decode_utf8(text);
        },
        _ => {},
    }
}

/// A row is in the first run that ends past it.
pub proof fn law_a_row_is_in_the_first_run_past_it(ends: Seq<u32>, row: int, from: nat)
    ensures
        match run_from(ends, row, from) {
            Some(run) => from <= run < ends.len() && row < ends[run] && forall|i: int|
                from <= i < run ==> #[trigger] ends[i] <= row,
            None => forall|i: int| from <= i < ends.len() ==> #[trigger] ends[i] <= row,
        },
    decreases ends.len() - from,
{
    if from < ends.len() {
        law_a_row_is_in_the_first_run_past_it(ends, row, from + 1);
    }
}

/// A sequence that runs off the end of 64 bits goes on from the other end: it is always a whole number
/// of turns from where it would be.
pub proof fn law_a_sequence_wraps_in_whole_turns(start: i64, step: i64, row: int) -> (turns: int)
    ensures
        sequence_at(start, step, row) == start + step * row - turns * 0x1_0000_0000_0000_0000,
{
    let x = start + step * row + 0x8000_0000_0000_0000;
    vstd::arithmetic::div_mod::lemma_fundamental_div_mod(x, 0x1_0000_0000_0000_0000);
    x / 0x1_0000_0000_0000_0000
}

/// A column of single values is refused because of the first value in it that its run cannot hold, and
/// the refusal names that value, or the digits of a decimal its run is too narrow for.
pub proof fn law_a_column_is_refused_for_its_first_misfit(
    layout: PhysicalType,
    rows: Seq<Datum>,
    from: nat,
    r: int,
)
    requires
        from <= r < rows.len(),
        cell_for(layout, rows[r]) is None,
        forall|i: int| from <= i < r ==> cell_for(layout, #[trigger] rows[i]) is Some,
    ensures
        flat_failure(layout, rows, from).code is Internal,
        !(rows[r] is Decimal) ==> flat_failure(layout, rows, from).about == About::Held(rows[r]),
        rows[r] is Decimal && (layout is Int16 || layout is Int32 || layout is Int64)
            ==> flat_failure(layout, rows, from).message == "an unscaled decimal of "@
            + signed_decimal(rows[r]->Decimal_unscaled as int)
            + " does not fit the run its precision chose"@,
    decreases r - from,
{
    if from < r {
        assert(cell_for(layout, rows[from as int]) is Some);
        law_a_column_is_refused_for_its_first_misfit(layout, rows, from + 1, r);
    }
}

/// A type whose values are no run of single values has no column of them, which is not a fault of the
/// values.
pub proof fn law_arrays_and_unions_have_no_flat_column(ty: LogicalType, rows: Seq<Datum>)
    requires
        ty is Array || ty is Union,
    ensures
        refusal(ty, rows) is Some,
        refusal(ty, rows)->Some_0.code is NotImplemented,
{
}

/// A list column is refused where a row is neither null nor a list, and a map column where a row is
/// neither null nor a map.
pub proof fn law_a_nested_column_is_refused_for_a_row_of_another_kind(
    element: Arc<LogicalType>,
    key: Arc<LogicalType>,
    of: Arc<LogicalType>,
    rows: Seq<Datum>,
    r: int,
)
    requires
        0 <= r < rows.len(),
        !(rows[r] is Null),
    ensures
        !(rows[r] is List) ==> refusal(LogicalType::List(element), rows) is Some,
        !(rows[r] is Mapping) ==> refusal(LogicalType::Mapping(key, of), rows) is Some,
{
    if !(rows[r] is List) {
        assert(!are_lists(rows));
    }
    if !(rows[r] is Mapping) {
        assert(!are_maps(rows));
    }
}

/// Text that is read from storage fails to be written out because of the first row asked for that
/// cannot be read, as reading that row fails, and not at all where every row asked for can be read.
pub proof fn law_text_fails_as_its_first_row_that_cannot_be_read(
    vector: &Vector,
    at: Seq<usize>,
    from: nat,
) -> (k: int)
    requires
        vector.body is ExternalText,
        from <= at.len(),
    ensures
        match vector.first_unwritten(at, from) {
            Some(failure) => from <= k < at.len() && at[k] != NOWHERE
                && vector.body->ExternalText_text.reads(at[k] as int) == Err::<
                Option<Seq<u8>>,
                Failure,
            >(failure) && forall|i: int|
                from <= i < k && #[trigger] at[i] != NOWHERE
                    ==> vector.body->ExternalText_text.reads(at[i] as int) is Ok,
            None => forall|i: int|
                from <= i < at.len() && #[trigger] at[i] != NOWHERE
                    ==> vector.body->ExternalText_text.reads(at[i] as int) is Ok,
        },
    decreases at.len() - from,
{
    if from < at.len() && (at[from as int] == NOWHERE
        || vector.body->ExternalText_text.reads(at[from as int] as int) is Ok) {
        law_text_fails_as_its_first_row_that_cannot_be_read(vector, at, from + 1)
    } else {
        from as int
    }
}

/// A cut of text in storage fails the same way over the rows of the cut.
pub proof fn law_a_cut_fails_as_its_first_row_that_cannot_be_read(
    vector: &Vector,
    at: int,
    stop: int,
) -> (row: int)
    requires
        vector.body is ExternalText,
        at <= stop,
    ensures
        match vector.first_unread(at, stop) {
            Some(failure) => at <= row < stop && vector.body->ExternalText_text.reads(row) == Err::<
                Option<Seq<u8>>,
                Failure,
            >(failure) && forall|i: int|
                at <= i < row ==> (#[trigger] vector.body->ExternalText_text.reads(i)) is Ok,
            None => forall|i: int|
                at <= i < stop ==> (#[trigger] vector.body->ExternalText_text.reads(i)) is Ok,
        },
    decreases stop - at,
{
    if at < stop && vector.body->ExternalText_text.reads(at) is Ok {
        law_a_cut_fails_as_its_first_row_that_cannot_be_read(vector, at + 1, stop)
    } else {
        at
    }
}

/// Rows laid out flat, packed, counted, seen or nested are always copied out.
pub proof fn law_rows_that_are_there_are_always_copied(
    vector: &Vector,
    at: Seq<usize>,
    forms_stay: bool,
)
    requires
        vector.body is Flat || vector.body is Packed || vector.body is Sequence
            || vector.body is Views || vector.body is Nested,
    ensures
        vector.copy_failure(at, forms_stay) is None,
{
}

/// The values of a map are laid under its keys, entry by entry, and the elements of a list are its own.
pub proof fn law_a_map_is_its_keys_and_its_values(
    key: LogicalType,
    of: LogicalType,
    entries: Seq<(Datum, Datum)>,
    values: Seq<Datum>,
    i: int,
)
    requires
        0 <= i < entries.len(),
    ensures
        map_keys(Datum::Mapping { key, value: of, entries }).len() == entries.len(),
        map_values(Datum::Mapping { key, value: of, entries }).len() == entries.len(),
        map_keys(Datum::Mapping { key, value: of, entries })[i] == entries[i].0,
        map_values(Datum::Mapping { key, value: of, entries })[i] == entries[i].1,
        list_elements(Datum::List { element: of, values }) == values,
{
}

/// A column of signed numbers of up to 64 bits is handed over as a block: laid out flat, counted, of
/// one number, or of codes whose values are such a column without a null.
pub proof fn law_narrow_numbers_are_handed_over_as_a_block(vector: &Vector)
    ensures
        match vector.body {
            Body::Flat(data) => (data.layout() is Int8 || data.layout() is Int16 || data.layout()
                is Int32 || data.layout() is Int64) && vector.len <= data.size()
                ==> vector.blockable(),
            Body::Sequence { .. } => vector.blockable(),
            Body::Constant(value) => vector.blockable() <==> (value.datum() is TinyInt
                || value.datum() is SmallInt || value.datum() is Integer || value.datum() is BigInt
                || value.datum() is Date || value.datum() is Time || value.datum() is Timestamp),
            Body::Dictionary { codes, values, .. } => values.blockable() && values.clear_of_nulls()
                && (forall|i: int| 0 <= i < codes@.len() ==> #[trigger] codes@[i] < values.len)
                ==> vector.blockable(),
            Body::Views { .. } | Body::Nested { .. } | Body::Fields { .. } | Body::ExternalText {
                ..
            } | Body::Coded { .. } => !vector.blockable(),
            _ => true,
        },
{
}

/// A text that is read where it lies lies there, unless it is a value that is repeated.
pub proof fn law_text_that_is_read_lies_where_it_is_read(vector: &Vector, at: int)
    requires
        !(vector.root().body is Constant),
        vector.text_read(at) is Ok,
        vector.text_read(at)->Ok_0 is Some,
    ensures
        vector.text_lies(at) == vector.text_read(at)->Ok_0,
    decreases vector,
{
    if 0 <= at < vector.len && vector.validity.valid(at) {
        match &vector.body {
            Body::Dictionary { codes, values, .. } => {
                if at < codes@.len() {
                    law_text_that_is_read_lies_where_it_is_read(values, codes@[at] as int);
                }
            },
            Body::Runs { ends, values } => {
                if let Some(run) = run_of_row(ends@, at) {
                    law_text_that_is_read_lies_where_it_is_read(values, run);
                }
            },
            Body::Gathered { source, rids, offset } => {
                if let Some(row) = source_row(rids@, *offset + at) {
                    law_text_that_is_read_lies_where_it_is_read(source, row);
                }
            },
            _ => {},
        }
    }
}

/// A column is clear of nulls only where no row of it is null, as long as every code and every row id
/// in it names a row.
pub proof fn law_a_clear_column_has_no_null_row(vector: &Vector, at: int)
    requires
        vector.wf(),
        vector.in_range(),
        vector.clear_of_nulls(),
        0 <= at < vector.len,
    ensures
        !vector.null_at(at),
    decreases vector,
{
    match &vector.body {
        Body::Dictionary { codes, values, .. } => {
            law_a_clear_column_has_no_null_row(values, codes@[at] as int);
        },
        Body::Runs { ends, values } => {
            law_a_row_is_in_the_first_run_past_it(ends@, at, 0);
            law_a_clear_column_has_no_null_row(values, run_of_row(ends@, at)->Some_0);
        },
        Body::Gathered { source, rids, offset } => {
            assert(source_row(rids@, *offset + at) is Some);
            assert(rids@[*offset + at] < source.len);
            law_a_clear_column_has_no_null_row(source, source_row(rids@, *offset + at)->Some_0);
        },
        _ => {},
    }
}

/// A column laid out flat without a mask is clear of nulls, and one with a row masked out is not.
pub proof fn law_a_masked_row_shows(vector: &Vector, at: int)
    requires
        0 <= at < vector.len,
    ensures
        (vector.body is Flat || vector.body is Sequence || vector.body is Packed
            || vector.body is Views) && vector.validity is AllValid ==> vector.clear_of_nulls(),
        !vector.validity.valid(at) ==> !vector.clear_of_nulls(),
{
}

/// A form is told by how the values are kept, and text is told the same whether its views point into
/// memory or into storage.
pub proof fn law_a_form_says_how_values_are_kept(vector: &Vector)
    ensures
        vector.shape() is Flat <==> vector.body is Flat,
        vector.shape() is Constant <==> vector.body is Constant,
        vector.shape() is Sequence <==> vector.body is Sequence,
        vector.shape() is Dictionary <==> vector.body is Dictionary,
        vector.shape() is BitPacked <==> vector.body is Packed,
        vector.shape() is StringView <==> vector.body is Views || vector.body is ExternalText,
        vector.shape() is Fsst <==> vector.body is Coded,
        vector.shape() is Rle <==> vector.body is Runs,
        vector.shape() is List <==> vector.body is Nested,
        vector.shape() is Struct <==> vector.body is Fields,
        vector.shape() is Gathered <==> vector.body is Gathered,
{
}

/// Values that point elsewhere, are packed, counted, compressed or in storage are not written out. A
/// flat run and a list are, and a struct is where its fields are.
pub proof fn law_what_is_written_out(vector: &Vector)
    ensures
        vector.body is Flat || vector.body is Nested ==> vector.written_out(),
        vector.body is Dictionary || vector.body is Runs || vector.body is Gathered
            || vector.body is Packed || vector.body is Sequence || vector.body is Coded
            || vector.body is Views || vector.body is ExternalText ==> !vector.written_out(),
        vector.body is Constant ==> (vector.written_out() <==> vector.body->Constant_0.datum()
            is Null),
        vector.body is Dictionary || vector.body is Runs || vector.body is Gathered
            <==> vector.points_elsewhere(),
{
}

/// Text in storage is stored, and so is whatever points at it. What is laid out in memory is not.
pub proof fn law_what_is_stored(vector: &Vector)
    ensures
        vector.body is ExternalText ==> vector.stored(),
        vector.body is Flat || vector.body is Constant || vector.body is Sequence
            || vector.body is Packed || vector.body is Views || vector.body is Coded
            ==> !vector.stored(),
        match vector.body {
            Body::Dictionary { values, .. } => vector.stored() == values.stored(),
            Body::Runs { values, .. } => vector.stored() == values.stored(),
            Body::Gathered { source, .. } => vector.stored() == source.stored(),
            Body::Nested { child, .. } => vector.stored() == child.stored(),
            _ => true,
        },
{
}

/// A run is cut into runs only where that is less than half of its rows, and then into as many as it
/// has, and packing leaves every value and every null as it is.
pub proof fn law_encoding_keeps_the_rows(
    vector: &Vector,
    packed: Result<Vector, Error>,
    cut: Result<Vector, Error>,
    at: int,
)
    requires
        call_ensures(Vector::bit_packed, (vector,), packed),
        call_ensures(Vector::run_encoded, (vector,), cut),
    ensures
        packed is Ok,
        cut is Ok,
        packed->Ok_0.datum(at) == vector.datum(at),
        packed->Ok_0.len == vector.len && packed->Ok_0.ty == vector.ty,
        cut->Ok_0.len == vector.len && cut->Ok_0.ty == vector.ty,
        !(vector.datum(at) is Float) && !(vector.datum(at) is Double) ==> cut->Ok_0.datum(at)
            == vector.datum(at),
        !(vector.body is Flat) ==> packed->Ok_0 == *vector && cut->Ok_0 == *vector,
        vector.body is Flat && cut->Ok_0.body is Runs ==> 2
            * cut->Ok_0.body->Runs_ends@.len() < vector.len,
{
    assert(alike(cut->Ok_0.datum(at), vector.datum(at)));
}

/// Whether a value is of the one kind that a column of that type is made for.
pub open spec fn is_own_kind(ty: LogicalType, value: Datum) -> bool {
    match (ty, value) {
        (LogicalType::Boolean, Datum::Boolean(_)) => true,
        (LogicalType::TinyInt, Datum::TinyInt(_)) => true,
        (LogicalType::SmallInt, Datum::SmallInt(_)) => true,
        (LogicalType::Integer, Datum::Integer(_)) => true,
        (LogicalType::BigInt, Datum::BigInt(_)) => true,
        (LogicalType::HugeInt, Datum::HugeInt(_)) => true,
        (LogicalType::UTinyInt, Datum::UTinyInt(_)) => true,
        (LogicalType::USmallInt, Datum::USmallInt(_)) => true,
        (LogicalType::UInteger, Datum::UInteger(_)) => true,
        (LogicalType::UBigInt, Datum::UBigInt(_)) => true,
        (LogicalType::UHugeInt, Datum::UHugeInt(_)) => true,
        (LogicalType::Float, Datum::Float(_)) => true,
        (LogicalType::Double, Datum::Double(_)) => true,
        (LogicalType::Varchar, Datum::Varchar(_)) => true,
        (LogicalType::Blob, Datum::Blob(_)) => true,
        (LogicalType::Date, Datum::Date(_)) => true,
        (LogicalType::Time, Datum::Time(_)) => true,
        (LogicalType::TimeTz, Datum::TimeTz(_)) => true,
        (LogicalType::Timestamp, Datum::Timestamp(_)) => true,
        (LogicalType::TimestampTz, Datum::TimestampTz(_)) => true,
        (LogicalType::Interval, Datum::Interval { .. }) => true,
        _ => false,
    }
}

/// A column is made of any values of its type's own kind, as many rows as there are values, and every
/// one of them is read back as it was put in, by itself and with all the others.
pub proof fn law_what_is_put_in_is_read_back(
    ty: LogicalType,
    values: &[Value],
    made: Result<Vector, Error>,
    at: usize,
    read: Value,
    all: Vec<Value>,
)
    requires
        call_ensures(Vector::from_values, (ty, values), made),
        forall|i: int| 0 <= i < values@.len() ==> is_own_kind(ty, (#[trigger] values@[i]).datum()),
        at < values@.len(),
        made is Ok ==> call_ensures(Vector::value_at, (&made->Ok_0, at), read),
        made is Ok ==> call_ensures(Vector::iter, (&made->Ok_0,), all),
    ensures
        made is Ok,
        made->Ok_0.ty == ty,
        made->Ok_0.len == values@.len(),
        read.datum() == values@[at as int].datum(),
        all@.len() == values@.len(),
        all@[at as int].datum() == values@[at as int].datum(),
{
    let rows = datums(values@);
    assert forall|r: int| 0 <= r < rows.len() implies is_own_kind(ty, #[trigger] rows[r]) by {
        assert(is_own_kind(ty, values@[r].datum()));
    }
    law_values_of_their_own_kind_are_never_refused(ty, rows);
    assert(is_own_kind(ty, values@[at as int].datum()));
    law_a_value_of_its_own_kind_reads_back(ty, values@[at as int].datum());
}

/// A cut is the rows from its start on, as many as were asked for. Rows past the end are refused.
pub proof fn law_a_cut_is_its_rows(
    vector: &Vector,
    at: usize,
    len: usize,
    cut: Result<Vector, Error>,
    row: int,
)
    requires
        call_ensures(Vector::slice, (vector, at, len), cut),
    ensures
        at + len > vector.len ==> cut is Err,
        cut is Ok ==> cut->Ok_0.len == len && cut->Ok_0.ty == vector.ty,
        cut is Ok && 0 <= row < len ==> cut->Ok_0.datum(row) == vector.datum(at + row),
        at + len <= vector.len && !vector.stored() ==> cut is Ok,
        cut is Err && at + len > vector.len ==> cut->Err_0@.code is Internal,
{
    if !vector.stored() {
        vector.law_without_storage_every_cut_succeeds(at as int, len as int);
    }
}

/// Gathered, the rows are those asked for, in the order they were asked for in and as often, and one
/// that is not there is null. Laid out flat they are the same rows.
pub proof fn law_gathered_rows_are_the_ones_asked_for(
    vector: &Vector,
    indices: &[u32],
    gathered: Result<Vector, Error>,
    flat: Result<Vector, Error>,
    row: int,
)
    requires
        vector.wf(),
        vector.at_home(),
        call_ensures(Vector::gather, (vector, indices), gathered),
        call_ensures(Vector::flatten, (vector,), flat),
    ensures
        gathered is Ok ==> gathered->Ok_0.len == indices@.len() && gathered->Ok_0.ty == vector.ty,
        gathered is Ok && 0 <= row < indices@.len() ==> gathered->Ok_0.datum(row) == vector.datum(
            indices@[row] as int,
        ),
        flat is Ok ==> flat->Ok_0.len == vector.len && flat->Ok_0.datum(row) == vector.datum(row),
        flat is Ok ==> !flat->Ok_0.points_elsewhere(),
        vector.body is Flat ==> flat is Ok && flat->Ok_0 == *vector,
{
    if gathered is Ok && 0 <= row < indices@.len() {
        let at = widened(indices@);
        assert(at[row] == indices@[row]);
        assert(gathered->Ok_0.datum(row) == vector.datum(at[row] as int));
    }
}

/// A text is read as the characters it was put in as, and a number as the number.
pub proof fn law_a_row_is_read_as_what_it_is(
    vector: &Vector,
    at: usize,
    text: Result<Option<&str>, Error>,
    number: Option<i128>,
    null: bool,
)
    requires
        vector.wf(),
        call_ensures(Vector::try_text_at, (vector, at), text),
        call_ensures(Vector::signed_at, (vector, at), number),
        call_ensures(Vector::is_null_at, (vector, at), null),
    ensures
        vector.ty is Varchar && vector.datum(at as int) is Varchar && !(vector.root().body is Coded)
            ==> (text matches Ok(Some(said)) && said@ == vector.datum(at as int)->Varchar_0),
        vector.datum(at as int) is Integer ==> number == Some(
            vector.datum(at as int)->Integer_0 as i128,
        ),
        vector.datum(at as int) is BigInt ==> number == Some(
            vector.datum(at as int)->BigInt_0 as i128,
        ),
        vector.datum(at as int) is Date ==> number == Some(vector.datum(at as int)->Date_0 as i128),
        null ==> vector.datum(at as int) is Null,
        at >= vector.len ==> null,
{
    law_a_signed_row_is_read_as_its_number(vector, at as int);
    if vector.datum(at as int) is Varchar && !(vector.root().body is Coded) {
        law_a_text_row_is_read_as_its_bytes(vector, at as int);
    }
    if null {
        law_a_null_row_reads_as_null(vector, at as int);
    }
}

/// A decimal column takes a wider type of the same scale without its numbers changing, where both are
/// kept in the same integers.
pub proof fn law_a_wider_decimal_has_the_same_numbers(
    vector: &Vector,
    target: &LogicalType,
    wider: Option<Vector>,
    at: int,
)
    requires
        call_ensures(Vector::as_wider_decimal, (vector, target), wider),
    ensures
        wider is Some ==> vector.ty is Decimal && *target is Decimal && vector.ty->Decimal_scale
            == target->Decimal_scale && vector.ty->Decimal_width <= target->Decimal_width,
        wider is Some ==> wider->Some_0.ty == *target && wider->Some_0.len == vector.len
            && wider->Some_0.validity == vector.validity && wider->Some_0.body == vector.body,
        wider is Some && vector.datum(at) is Decimal && wider->Some_0.datum(at) is Decimal
            ==> wider->Some_0.datum(at)->Decimal_unscaled == vector.datum(at)->Decimal_unscaled,
{
    if wider is Some {
        law_a_signed_row_is_read_as_its_number(vector, at);
        law_a_signed_row_is_read_as_its_number(&wider->Some_0, at);
    }
}

/// What a caller could not have meant is an internal failure: a code, a row id, a run, a packed value,
/// an entry or a field that its column does not have, rows past the end, and a value of another kind.
/// The code that is too large and the rows that are not there are named in it.
pub proof fn law_a_column_that_does_not_hold_together_is_an_internal_failure(
    ty: LogicalType,
    highest: u32,
    values: usize,
    a: int,
    b: int,
    c: int,
    d: int,
    name: Seq<char>,
    flag: bool,
)
    ensures
        code_past(highest, values).code is Internal,
        code_past(highest, values).message == "dictionary code "@ + decimal(highest as nat)
            + " is past the end of a "@ + decimal(values as nat) + " value dictionary"@,
        gather_refusal(a, b, c, d).code is Internal,
        runs_refusal(flag, a, b).code is Internal,
        packed_refusal(ty, a, b, c, d).code is Internal,
        past_the_end(a, b, c).code is Internal,
        b <= usize::MAX ==> past_the_end(a, b, c).message == "rows "@ + decimal(a as nat) + " to "@
            + decimal(b as nat) + " of a vector of "@ + decimal(c as nat),
        field_missing(flag, name).code is Internal,
        field_missing(false, name).message == "a struct row with no "@ + name + " field in it"@,
        field_refusal(name, a, b).code is Internal,
{
}

} // verus!
