//! Building a column out of single values, and out of columns that already exist.

use super::{belongs, find_name, picked, Body, Vector, MAP_KEY, MAP_VALUE};
use crate::data::{
    cell_as, cell_for, empty_data_for, is_flat_layout, layout_of, misfit, no_flat_run, push_value,
    Data,
};
use crate::scan::{decimal, push_number};
use crate::types::{
    all_unnamed, layout_for, same_text, About, Datum, Error, ErrorCode, Failure, Field, LogicalType,
    PhysicalType, Subject, Value,
};
use crate::validity::Validity;
use std::sync::Arc;
use vstd::prelude::*;
use vstd::string::*;

verus! {

/// What some values are.
pub open spec fn datums(values: Seq<Value>) -> Seq<Datum> {
    Seq::new(values.len(), |i: int| values[i].datum())
}

/// The elements of a list value, none for anything else.
pub open spec fn list_elements(value: Datum) -> Seq<Datum> {
    match value {
        Datum::List { values, .. } => values,
        _ => Seq::empty(),
    }
}

/// The keys of a map value, none for anything else.
pub open spec fn map_keys(value: Datum) -> Seq<Datum> {
    match value {
        Datum::Mapping { entries, .. } => Seq::new(entries.len(), |i: int| entries[i].0),
        _ => Seq::empty(),
    }
}

/// The values of a map value, none for anything else.
pub open spec fn map_values(value: Datum) -> Seq<Datum> {
    match value {
        Datum::Mapping { entries, .. } => Seq::new(entries.len(), |i: int| entries[i].1),
        _ => Seq::empty(),
    }
}

/// What of a nested value goes into a child column.
pub enum Part {
    Elements,
    Keys,
    Values,
}

/// That part of a nested value.
pub open spec fn part_of(part: Part, value: Datum) -> Seq<Datum> {
    match part {
        Part::Elements => list_elements(value),
        Part::Keys => map_keys(value),
        Part::Values => map_values(value),
    }
}

/// What the first `count` rows are made of, end to end.
pub open spec fn end_to_end(part: Part, rows: Seq<Datum>, count: nat) -> Seq<Datum>
    decreases count,
{
    if count == 0 {
        Seq::empty()
    } else {
        end_to_end(part, rows, (count - 1) as nat) + part_of(part, rows[count - 1])
    }
}

/// Whether each row's entry is where its part starts and how long its part is.
pub open spec fn entries_of(part: Part, rows: Seq<Datum>, entries: Seq<(u32, u32)>) -> bool {
    &&& entries.len() == rows.len()
    &&& forall|r: int|
        0 <= r < rows.len() ==> (#[trigger] entries[r]).0 == end_to_end(part, rows, r as nat).len()
            && entries[r].1 == part_of(part, rows[r]).len()
}

/// Whether every row is a list or null, of a length the entries can say.
pub open spec fn are_lists(rows: Seq<Datum>) -> bool {
    &&& forall|r: int| 0 <= r < rows.len() ==> (#[trigger] rows[r] is Null || rows[r] is List)
    &&& counts_fit(Part::Elements, rows)
}

/// Whether every row is a map or null, of a length the entries can say.
pub open spec fn are_maps(rows: Seq<Datum>) -> bool {
    &&& forall|r: int| 0 <= r < rows.len() ==> (#[trigger] rows[r] is Null || rows[r] is Mapping)
    &&& counts_fit(Part::Keys, rows)
}

/// Whether every row starts, and is as long as, what 32 bits count to.
pub open spec fn counts_fit(part: Part, rows: Seq<Datum>) -> bool {
    forall|r: int|
        0 <= r < rows.len() ==> #[trigger] end_to_end(part, rows, r as nat).len() <= u32::MAX
            && part_of(part, rows[r]).len() <= u32::MAX
}

/// One field of every row of a struct column, null where the row is null.
pub open spec fn field_column(fields: Seq<Field>, at: int, rows: Seq<Datum>) -> Seq<Datum> {
    Seq::new(
        rows.len(),
        |r: int|
            match rows[r] {
                Datum::Struct(held) => match picked(fields, at, held) {
                    Some(place) => held[place].1,
                    None => Datum::Null,
                },
                _ => Datum::Null,
            },
    )
}

/// Whether every row of a struct column is null or has the field at `at`.
pub open spec fn has_field(fields: Seq<Field>, at: int, rows: Seq<Datum>) -> bool {
    forall|r: int|
        0 <= r < rows.len() ==> (#[trigger] rows[r] is Null || (rows[r] matches Datum::Struct(held)
            && picked(fields, at, held) is Some))
}

/// A failure of the library's own making.
pub open spec fn internal(message: Seq<char>) -> Failure {
    Failure { code: ErrorCode::Internal, message, about: About::Nothing }
}

/// A refusal that names a value.
pub open spec fn of_value(value: Datum, message: Seq<char>) -> Failure {
    Failure { code: ErrorCode::Internal, message, about: About::Held(value) }
}

fn refused_value(value: &Value, message: &str) -> (error: Error)
    ensures
        error@ == of_value(value.datum(), message@),
{
    Error {
        code: ErrorCode::Internal,
        message: message.to_owned(),
        about: Subject::Held(value.dup()),
    }
}

/// The refusal of the first row from `at` on that an entry of a list or a map column cannot be made
/// of.
pub open spec fn nesting_failure(part: Part, rows: Seq<Datum>, at: nat) -> Failure
    decreases rows.len() - at,
{
    let of_lists = part is Elements;
    if at >= rows.len() {
        internal(""@)
    } else if end_to_end(part, rows, at).len() > u32::MAX {
        internal(
            if of_lists {
                "a list column with more than u32 elements in it"@
            } else {
                "a map column with more than u32 entries in it"@
            },
        )
    } else if !(rows[at as int] is Null || if of_lists {
        rows[at as int] is List
    } else {
        rows[at as int] is Mapping
    }) {
        of_value(
            rows[at as int],
            if of_lists {
                "{} does not belong in a list vector"@
            } else {
                "{} does not belong in a map vector"@
            },
        )
    } else if part_of(part, rows[at as int]).len() > u32::MAX {
        internal(
            if of_lists {
                "a list longer than u32"@
            } else {
                "a map with more than u32 entries"@
            },
        )
    } else {
        nesting_failure(part, rows, at + 1)
    }
}

/// The refusal of the first row from `from` on that has no field at `at`.
pub open spec fn field_failure(fields: Seq<Field>, at: int, rows: Seq<Datum>, from: nat) -> Failure
    decreases rows.len() - from,
{
    if from >= rows.len() {
        internal(""@)
    } else {
        match rows[from as int] {
            Datum::Null => field_failure(fields, at, rows, from + 1),
            Datum::Struct(held) => if picked(fields, at, held) is Some {
                field_failure(fields, at, rows, from + 1)
            } else {
                field_missing(all_unnamed(fields), fields[at].name@)
            },
            _ => of_value(rows[from as int], "{} does not belong in a struct vector"@),
        }
    }
}

/// The refusal of a row that a field of its struct is not in.
pub open spec fn field_missing(unnamed: bool, name: Seq<char>) -> Failure {
    internal(
        if unnamed {
            "a tuple row shorter than its type"@
        } else {
            "a struct row with no "@ + name + " field in it"@
        },
    )
}

/// The refusal of the first row from `at` on that a flat run of that layout cannot hold.
pub open spec fn flat_failure(layout: PhysicalType, rows: Seq<Datum>, at: nat) -> Failure
    decreases rows.len() - at,
{
    if at >= rows.len() {
        internal(""@)
    } else if cell_for(layout, rows[at as int]) is None {
        misfit(layout, rows[at as int])
    } else {
        flat_failure(layout, rows, at + 1)
    }
}

/// Why a column of that type cannot be built out of those rows, and `None` where it can.
pub open spec fn refusal(ty: LogicalType, rows: Seq<Datum>) -> Option<Failure>
    decreases ty, 2nat, 0nat,
{
    match ty {
        LogicalType::List(element) => if are_lists(rows) {
            refusal(*element, end_to_end(Part::Elements, rows, rows.len()))
        } else {
            Some(nesting_failure(Part::Elements, rows, 0))
        },
        LogicalType::Struct(_) => struct_refusal(ty, 0, rows),
        LogicalType::Mapping(key, value) => if are_maps(rows) {
            match refusal(*key, end_to_end(Part::Keys, rows, rows.len())) {
                Some(failure) => Some(failure),
                None => refusal(*value, end_to_end(Part::Values, rows, rows.len())),
            }
        } else {
            Some(nesting_failure(Part::Keys, rows, 0))
        },
        _ => if !is_flat_layout(layout_for(ty)) {
            Some(no_flat_run(layout_for(ty)))
        } else if layout_for(ty) is Empty || forall|r: int|
            0 <= r < rows.len() ==> cell_for(layout_for(ty), #[trigger] rows[r]) is Some {
            None
        } else {
            Some(flat_failure(layout_for(ty), rows, 0))
        },
    }
}

/// Why the fields from `at` on of a struct column cannot be built out of those rows.
pub open spec fn struct_refusal(ty: LogicalType, at: nat, rows: Seq<Datum>) -> Option<Failure>
    decreases
        ty,
        1nat,
        match ty {
            LogicalType::Struct(fields) => fields@.len() - at,
            _ => 0,
        },
{
    match ty {
        LogicalType::Struct(fields) => if at >= fields@.len() {
            None
        } else if !has_field(fields@, at as int, rows) {
            Some(field_failure(fields@, at as int, rows, 0))
        } else {
            match refusal(fields@[at as int].ty, field_column(fields@, at as int, rows)) {
                Some(failure) => Some(failure),
                None => struct_refusal(ty, at + 1, rows),
            }
        },
        _ => None,
    }
}

/// What a value put into a column of that type reads back as.
///
/// A column keeps its own type's reading of a value: its element types, its precision and its
/// field order.
pub open spec fn restored(ty: LogicalType, value: Datum) -> Datum
    decreases ty,
{
    if value is Null {
        Datum::Null
    } else {
        match ty {
            LogicalType::List(element) => Datum::List {
                element: *element,
                values: Seq::new(
                    list_elements(value).len(),
                    |k: int| restored(*element, list_elements(value)[k]),
                ),
            },
            LogicalType::Struct(fields) => Datum::Struct(
                Seq::new(
                    fields@.len(),
                    |f: int|
                        if 0 <= f < fields@.len() {
                            (
                                fields@[f].name@,
                                restored(fields@[f].ty, field_column(fields@, f, seq![value])[0]),
                            )
                        } else {
                            (Seq::empty(), Datum::Null)
                        },
                ),
            ),
            LogicalType::Mapping(key, of) => Datum::Mapping {
                key: *key,
                value: *of,
                entries: Seq::new(
                    map_keys(value).len(),
                    |k: int|
                        (restored(*key, map_keys(value)[k]), restored(*of, map_values(value)[k])),
                ),
            },
            _ => if layout_for(ty) is Empty {
                Datum::Null
            } else {
                cell_as(ty, cell_for(layout_for(ty), value)->Some_0)
            },
        }
    }
}

/// A value that belongs in a column of that type reads back as it was.
pub proof fn law_a_value_of_the_type_is_kept(ty: LogicalType, value: Datum)
    requires
        belongs(ty, value),
    ensures
        restored(ty, value) == value,
    decreases ty,
{
    if !(value is Null) {
        match ty {
            LogicalType::List(element) => {
                let values = value->List_values;
                assert forall|k: int| 0 <= k < values.len() implies restored(
                    *element,
                    #[trigger] values[k],
                ) == values[k] by {
                    law_a_value_of_the_type_is_kept(*element, values[k]);
                }
                assert(restored(ty, value)->List_values =~= values);
            },
            LogicalType::Struct(fields) => {
                let held = value->Struct_0;
                assert forall|f: int| 0 <= f < held.len() implies (
                #[trigger] restored(ty, value)->Struct_0[f]) == held[f] by {
                    assert(held[f].0 == fields@[f].name@);
                    law_a_value_of_the_type_is_kept(fields@[f].ty, held[f].1);
                }
                assert(restored(ty, value)->Struct_0 =~= held);
            },
            LogicalType::Mapping(key, of) => {
                let entries = value->Mapping_entries;
                assert forall|k: int| 0 <= k < entries.len() implies (
                #[trigger] restored(ty, value)->Mapping_entries[k]) == entries[k] by {
                    assert(belongs(*key, entries[k].0) && belongs(*of, entries[k].1));
                    law_a_value_of_the_type_is_kept(*key, entries[k].0);
                    law_a_value_of_the_type_is_kept(*of, entries[k].1);
                }
                assert(restored(ty, value)->Mapping_entries =~= entries);
            },
            _ => {},
        }
    }
}

proof fn lemma_end_to_end(part: Part, rows: Seq<Datum>, row: int, count: nat)
    requires
        0 <= row < count <= rows.len(),
    ensures
        end_to_end(part, rows, row as nat).len() + part_of(part, rows[row]).len() <= end_to_end(
            part,
            rows,
            count,
        ).len(),
        forall|k: int|
            0 <= k < part_of(part, rows[row]).len() ==> #[trigger] end_to_end(part, rows, count)[
            end_to_end(part, rows, row as nat).len() + k] == part_of(part, rows[row])[k],
    decreases count,
{
    if row < count - 1 {
        lemma_end_to_end(part, rows, row, (count - 1) as nat);
        let before = end_to_end(part, rows, (count - 1) as nat);
        let start = end_to_end(part, rows, row as nat).len();
        assert forall|k: int| 0 <= k < part_of(part, rows[row]).len() implies #[trigger] end_to_end(
            part,
            rows,
            count,
        )[start + k] == part_of(part, rows[row])[k] by {
            assert(before[start + k] == part_of(part, rows[row])[k]);
        }
    }
}

/// The keys and the values of maps are as many.
proof fn lemma_pairs(rows: Seq<Datum>, count: nat)
    requires
        count <= rows.len(),
    ensures
        end_to_end(Part::Keys, rows, count).len() == end_to_end(Part::Values, rows, count).len(),
    decreases count,
{
    if count > 0 {
        lemma_pairs(rows, (count - 1) as nat);
    }
}

/// The elements of every row end to end, and each row's entry into them.
fn flatten_lists(values: &[Value]) -> (flat: Result<(Vec<Value>, Vec<(u32, u32)>), Error>)
    ensures
        match flat {
            Ok((flat, entries)) => are_lists(datums(values@)) && entries_of(
                Part::Elements,
                datums(values@),
                entries@,
            ) && datums(flat@) == end_to_end(Part::Elements, datums(values@), values@.len()),
            Err(error) => !are_lists(datums(values@)) && error@ == nesting_failure(
                Part::Elements,
                datums(values@),
                0,
            ),
        },
{
    let ghost rows = datums(values@);
    let mut flat: Vec<Value> = Vec::new();
    let mut entries: Vec<(u32, u32)> = Vec::new();
    let mut row: usize = 0;
    assert(datums(flat@) =~= end_to_end(Part::Elements, rows, 0));
    while row < values.len()
        invariant
            row <= values@.len(),
            rows == datums(values@),
            entries@.len() == row,
            datums(flat@) == end_to_end(Part::Elements, rows, row as nat),
            nesting_failure(Part::Elements, rows, 0) == nesting_failure(
                Part::Elements,
                rows,
                row as nat,
            ),
            forall|r: int| 0 <= r < row ==> (#[trigger] rows[r] is Null || rows[r] is List),
            forall|r: int|
                0 <= r < row ==> #[trigger] end_to_end(Part::Elements, rows, r as nat).len()
                    <= u32::MAX && part_of(Part::Elements, rows[r]).len() <= u32::MAX,
            forall|r: int|
                0 <= r < row ==> (#[trigger] entries@[r]).0 == end_to_end(
                    Part::Elements,
                    rows,
                    r as nat,
                ).len() && entries@[r].1 == part_of(Part::Elements, rows[r]).len(),
        decreases values.len() - row,
    {
        let ghost whole = rows[row as int];
        assert(whole == values@[row as int].datum());
        assert(datums(flat@).len() == flat@.len());
        let ghost at = row as int;
        assert(end_to_end(Part::Elements, rows, at as nat) == datums(flat@));
        if flat.len() as u64 > u32::MAX as u64 {
            assert(end_to_end(Part::Elements, rows, at as nat).len() > u32::MAX);
            return Err(Error::internal("a list column with more than u32 elements in it"));
        }
        let start: u32 = flat.len() as u32;
        match &values[row] {
            Value::Null => {
                assert(end_to_end(Part::Elements, rows, (row + 1) as nat) =~= datums(flat@));
                entries.push((start, 0));
            },
            Value::List { values: held, .. } => {
                assert(part_of(Part::Elements, whole) =~= datums(held@));
                if held.len() as u64 > u32::MAX as u64 {
                    assert(end_to_end(Part::Elements, rows, at as nat).len() <= u32::MAX);
                    return Err(Error::internal("a list longer than u32"));
                }
                let ghost before = flat@;
                append_values(&mut flat, held);
                assert(datums(flat@) =~= datums(before) + datums(held@));
                entries.push((start, held.len() as u32));
            },
            _ => {
                assert(!(whole is Null || whole is List));
                return Err(
                    refused_value(&values[row], "{} does not belong in a list vector"),
                );
            },
        }
        assert forall|r: int| 0 <= r < row + 1 implies #[trigger] end_to_end(
            Part::Elements,
            rows,
            r as nat,
        ).len() <= u32::MAX && part_of(Part::Elements, rows[r]).len() <= u32::MAX by {
            if r == at {
                assert(end_to_end(Part::Elements, rows, at as nat).len() <= u32::MAX);
            }
        }
        row += 1;
    }
    Ok((flat, entries))
}

/// The keys and the values of every row end to end, and each row's entry into them.
fn flatten_maps(values: &[Value]) -> (flat: Result<
    (Vec<Value>, Vec<Value>, Vec<(u32, u32)>),
    Error,
>)
    ensures
        match flat {
            Ok((keys, held, entries)) => are_maps(datums(values@)) && entries_of(
                Part::Keys,
                datums(values@),
                entries@,
            ) && datums(keys@) == end_to_end(Part::Keys, datums(values@), values@.len())
                && datums(held@) == end_to_end(Part::Values, datums(values@), values@.len()),
            Err(error) => !are_maps(datums(values@)) && error@ == nesting_failure(
                Part::Keys,
                datums(values@),
                0,
            ),
        },
{
    let ghost rows = datums(values@);
    let mut keys: Vec<Value> = Vec::new();
    let mut held: Vec<Value> = Vec::new();
    let mut entries: Vec<(u32, u32)> = Vec::new();
    let mut row: usize = 0;
    assert(datums(keys@) =~= end_to_end(Part::Keys, rows, 0));
    assert(datums(held@) =~= end_to_end(Part::Values, rows, 0));
    while row < values.len()
        invariant
            row <= values@.len(),
            rows == datums(values@),
            entries@.len() == row,
            datums(keys@) == end_to_end(Part::Keys, rows, row as nat),
            datums(held@) == end_to_end(Part::Values, rows, row as nat),
            nesting_failure(Part::Keys, rows, 0) == nesting_failure(Part::Keys, rows, row as nat),
            forall|r: int| 0 <= r < row ==> (#[trigger] rows[r] is Null || rows[r] is Mapping),
            forall|r: int|
                0 <= r < row ==> #[trigger] end_to_end(Part::Keys, rows, r as nat).len()
                    <= u32::MAX && part_of(Part::Keys, rows[r]).len() <= u32::MAX,
            forall|r: int|
                0 <= r < row ==> (#[trigger] entries@[r]).0 == end_to_end(
                    Part::Keys,
                    rows,
                    r as nat,
                ).len() && entries@[r].1 == part_of(Part::Keys, rows[r]).len(),
        decreases values.len() - row,
    {
        let ghost whole = rows[row as int];
        assert(whole == values@[row as int].datum());
        assert(datums(keys@).len() == keys@.len());
        let ghost at = row as int;
        assert(end_to_end(Part::Keys, rows, at as nat) == datums(keys@));
        if keys.len() as u64 > u32::MAX as u64 {
            assert(end_to_end(Part::Keys, rows, at as nat).len() > u32::MAX);
            return Err(Error::internal("a map column with more than u32 entries in it"));
        }
        let start: u32 = keys.len() as u32;
        match &values[row] {
            Value::Null => {
                assert(end_to_end(Part::Keys, rows, (row + 1) as nat) =~= datums(keys@));
                assert(end_to_end(Part::Values, rows, (row + 1) as nat) =~= datums(held@));
                entries.push((start, 0));
            },
            Value::Mapping { entries: pairs, .. } => {
                assert(part_of(Part::Keys, whole).len() == pairs@.len());
                if pairs.len() as u64 > u32::MAX as u64 {
                    assert(end_to_end(Part::Keys, rows, at as nat).len() <= u32::MAX);
                    return Err(Error::internal("a map with more than u32 entries"));
                }
                let ghost keys_before = keys@;
                let ghost held_before = held@;
                append_pairs(&mut keys, &mut held, pairs);
                assert(datums(keys@) =~= datums(keys_before) + part_of(Part::Keys, whole));
                assert(datums(held@) =~= datums(held_before) + part_of(Part::Values, whole));
                entries.push((start, pairs.len() as u32));
            },
            _ => {
                assert(!(whole is Null || whole is Mapping));
                return Err(
                    refused_value(&values[row], "{} does not belong in a map vector"),
                );
            },
        }
        assert forall|r: int| 0 <= r < row + 1 implies #[trigger] end_to_end(
            Part::Keys,
            rows,
            r as nat,
        ).len() <= u32::MAX && part_of(Part::Keys, rows[r]).len() <= u32::MAX by {
            if r == at {
                assert(end_to_end(Part::Keys, rows, at as nat).len() <= u32::MAX);
            }
        }
        row += 1;
    }
    Ok((keys, held, entries))
}

/// Which of some named values has that name, the first of them.
fn find_field(held: &Vec<(String, Value)>, name: &str) -> (at: Option<usize>)
    ensures
        match at {
            Some(at) => at < held@.len() && find_name(
                Value::Struct(*held).datum()->Struct_0,
                name@,
                0,
            ) == Some(at as int),
            None => find_name(Value::Struct(*held).datum()->Struct_0, name@, 0) is None,
        },
{
    let ghost all = Value::Struct(*held).datum()->Struct_0;
    let mut at: usize = 0;
    while at < held.len()
        invariant
            at <= held@.len(),
            all == Value::Struct(*held).datum()->Struct_0,
            all.len() == held@.len(),
            find_name(all, name@, 0) == find_name(all, name@, at as nat),
        decreases held.len() - at,
    {
        assert(all[at as int].0 == held@[at as int].0@);
        if same_text(held[at].0.as_str(), name) {
            return Some(at);
        }
        at += 1;
    }
    None
}

fn live_rows(values: &[Value]) -> (validity: Validity)
    ensures
        forall|i: int|
            0 <= i < values@.len() ==> #[trigger] validity.valid(i) == !(
            values@[i].datum() is Null),
{
    let mut live: Vec<bool> = Vec::new();
    let mut row: usize = 0;
    while row < values.len()
        invariant
            row <= values@.len(),
            live@.len() == row,
            forall|i: int|
                0 <= i < row ==> #[trigger] live@[i] == !(values@[i].datum() is Null),
        decreases values.len() - row,
    {
        live.push(!values[row].is_null());
        row += 1;
    }
    Validity::from_run(live.as_slice())
}

impl Vector {
    /// A flat vector of `data`, all valid.
    ///
    /// A vector whose type and layout disagree is a wrong answer waiting to be read out, so data in
    /// another layout than the type's is refused.
    pub fn flat(ty: LogicalType, data: Data) -> (vector: Result<Vector, Error>)
        requires
            data.wf(),
        ensures
            match vector {
                Ok(vector) => {
                    &&& data.layout() is Empty || data.layout() == layout_for(ty)
                    &&& vector == (Vector {
                        ty,
                        len: data.size() as usize,
                        validity: Validity::AllValid,
                        body: Body::Flat(Arc::new(data)),
                    })
                    &&& vector.wf()
                    &&& vector.len == data.size()
                },
                Err(error) => !(data.layout() is Empty) && data.layout() != layout_for(ty)
                    && error@ == (Failure {
                    code: ErrorCode::Internal,
                    message: "a {} vector cannot hold {} data"@,
                    about: About::TypeAndLayout(ty, data.layout()),
                }),
            },
    {
        let len: usize = data.len();
        let layout = layout_of(&data);
        if layout != PhysicalType::Empty && layout != ty.physical() {
            return Err(
                Error {
                    code: ErrorCode::Internal,
                    message: "a {} vector cannot hold {} data".to_owned(),
                    about: Subject::TypeAndLayout(ty, layout),
                },
            );
        }
        Ok(Vector { ty, len, validity: Validity::AllValid, body: Body::Flat(Arc::new(data)) })
    }

    /// A vector of `len` copies of one value, which costs one value whatever the length.
    pub fn constant(ty: LogicalType, value: Value, len: usize) -> (vector: Vector)
        ensures
            vector.ty == ty,
            vector.len == len,
            vector.body == Body::Constant(Arc::new(value)),
            vector.validity == (if value.datum() is Null {
                Validity::AllInvalid
            } else {
                Validity::AllValid
            }),
            vector.wf(),
            belongs(ty, value.datum()) ==> vector.at_home(),
            forall|i: int| 0 <= i < len ==> #[trigger] vector.datum(i) == value.datum(),
    {
        proof {
            if belongs(ty, value.datum()) {
                law_a_value_of_the_type_is_kept(ty, value.datum());
            }
        }
        let validity = if value.is_null() {
            Validity::AllInvalid
        } else {
            Validity::AllValid
        };
        Vector { ty, len, validity, body: Body::Constant(Arc::new(value)) }
    }

    /// A vector of `len` values starting at `start` and stepping by `step`.
    pub fn sequence(start: i64, step: i64, len: usize) -> (vector: Vector)
        ensures
            vector == (Vector {
                ty: LogicalType::BigInt,
                len,
                validity: Validity::AllValid,
                body: Body::Sequence { start, step },
            }),
            vector.wf(),
    {
        Vector {
            ty: LogicalType::BigInt,
            len,
            validity: Validity::AllValid,
            body: Body::Sequence { start, step },
        }
    }

    /// The same vector with a different validity.
    pub fn with_validity(self, validity: Validity) -> (vector: Vector)
        ensures
            vector == (Vector { validity, ..self }),
            self.wf() ==> vector.wf(),
    {
        Vector { ty: self.ty, len: self.len, validity, body: self.body }
    }

    /// A list vector over a child that already exists, one entry per row.
    ///
    /// An entry that runs past the end of the child would be a row that reads elements belonging to
    /// nobody, and is refused.
    pub fn list(entries: Vec<(u32, u32)>, child: Vector) -> (vector: Result<Vector, Error>)
        requires
            child.wf(),
        ensures
            match vector {
                Ok(vector) => {
                    &&& forall|i: int|
                        0 <= i < entries@.len() ==> (#[trigger] entries@[i]).0 + entries@[i].1
                            <= child.len
                    &&& vector == (Vector {
                        ty: LogicalType::List(Arc::new(child.ty)),
                        len: entries@.len() as usize,
                        validity: Validity::AllValid,
                        body: Body::Nested { entries: Arc::new(entries), child: Arc::new(child) },
                    })
                    &&& vector.len == entries@.len()
                    &&& vector.wf()
                },
                Err(error) => error@ == entry_refusal(entries@, child.len as int, 0)
                    && exists|i: int|
                    0 <= i < entries@.len() && (#[trigger] entries@[i]).0 + entries@[i].1
                        > child.len,
            },
    {
        if let Some(error) = entry_past(entries.as_slice(), child.len) {
            return Err(error);
        }
        Ok(
            Vector {
                ty: LogicalType::list(child.ty.dup()),
                len: entries.len(),
                validity: Validity::AllValid,
                body: Body::Nested { entries: Arc::new(entries), child: Arc::new(child) },
            },
        )
    }

    /// A struct vector over children that already exist, one per field.
    ///
    /// A struct of no fields has no child to take its length from, and children of different
    /// lengths do not line up with the rows. Both are refused.
    pub fn structure(children: Vec<(String, Vector)>) -> (vector: Result<Vector, Error>)
        requires
            forall|f: int| 0 <= f < children@.len() ==> (#[trigger] children@[f]).1.wf(),
        ensures
            match vector {
                Ok(vector) => {
                    &&& children@.len() > 0
                    &&& vector.wf()
                    &&& vector.len == children@[0].1.len
                    &&& vector.validity is AllValid
                    &&& vector.ty matches LogicalType::Struct(fields) && fields@.len()
                        == children@.len() && forall|f: int|
                        0 <= f < fields@.len() ==> #[trigger] fields@[f] == (Field {
                            name: children@[f].0,
                            ty: children@[f].1.ty,
                            not_null: false,
                        })
                    &&& vector.body matches Body::Fields { children: held } && held@.len()
                        == children@.len() && forall|f: int|
                        0 <= f < held@.len() ==> *(#[trigger] held@[f]) == children@[f].1
                },
                Err(error) => if children@.len() == 0 {
                    error@ == (Failure {
                        code: ErrorCode::Internal,
                        message: "a struct vector of no fields, which has no length"@,
                        about: About::Nothing,
                    })
                } else {
                    exists|f: int|
                        {
                            &&& 0 < f < children@.len()
                            &&& (#[trigger] children@[f]).1.len != children@[0].1.len
                            &&& forall|g: int|
                                0 <= g < f ==> (#[trigger] children@[g]).1.len
                                    == children@[0].1.len
                            &&& error@ == field_refusal(
                                children@[f].0@,
                                children@[f].1.len as int,
                                children@[0].1.len as int,
                            )
                        }
                },
            },
    {
        if children.len() == 0 {
            return Err(Error::internal("a struct vector of no fields, which has no length"));
        }
        let len: usize = children[0].1.len;
        let mut fields: Vec<Field> = Vec::new();
        let mut held: Vec<Arc<Vector>> = Vec::new();
        let mut f: usize = 0;
        while f < children.len()
            invariant
                f <= children@.len(),
                children@.len() > 0,
                len == children@[0].1.len,
                fields@.len() == f,
                held@.len() == f,
                forall|i: int|
                    0 <= i < f ==> (#[trigger] children@[i]).1.len == len && *held@[i]
                        == children@[i].1 && fields@[i] == (Field {
                        name: children@[i].0,
                        ty: children@[i].1.ty,
                        not_null: false,
                    }),
            decreases children.len() - f,
        {
            if children[f].1.len != len {
                assert(children@[f as int].1.len != children@[0].1.len);
                let mut message = "a ".to_owned();
                message.append(children[f].0.as_str());
                message.append(" field of ");
                push_number(&mut message, children[f].1.len);
                message.append(" rows beside a struct of ");
                push_number(&mut message, len);
                return Err(Error { code: ErrorCode::Internal, message, about: Subject::Nothing });
            }
            fields.push(Field::new(children[f].0.clone(), children[f].1.ty.dup()));
            held.push(Arc::new(children[f].1.dup()));
            assert(children@[f as int].1.len == len);
            f += 1;
        }
        let vector = Vector {
            ty: LogicalType::structure(fields),
            len,
            validity: Validity::AllValid,
            body: Body::Fields { children: Arc::new(held) },
        };
        assert forall|i: int| 0 <= i < held@.len() implies (#[trigger] held@[i]).wf()
            && held@[i].len == len && held@[i].ty == fields@[i].ty && *held@[i]
            == children@[i].1 by {
            assert(children@[i].1.wf());
        }
        assert forall|i: int| 0 <= i < fields@.len() implies #[trigger] fields@[i] == (Field {
            name: children@[i].0,
            ty: children@[i].1.ty,
            not_null: false,
        }) by {
            assert(children@[i].1.len == len);
        }
        Ok(vector)
    }

    /// A map vector over a pair of columns that already exist, one entry per row.
    pub fn map(entries: Vec<(u32, u32)>, keys: Vector, values: Vector) -> (vector: Result<
        Vector,
        Error,
    >)
        requires
            keys.wf(),
            values.wf(),
        ensures
            match vector {
                Ok(vector) => {
                    &&& keys.len == values.len
                    &&& forall|i: int|
                        0 <= i < entries@.len() ==> (#[trigger] entries@[i]).0 + entries@[i].1
                            <= keys.len
                    &&& vector.wf()
                    &&& vector.len == entries@.len()
                    &&& vector.validity is AllValid
                    &&& vector.ty == LogicalType::Mapping(Arc::new(keys.ty), Arc::new(values.ty))
                    &&& vector.body matches Body::Nested { entries: held, child } && held@
                        == entries@ && (child.body matches Body::Fields { children }
                        && children@.len() == 2 && *children@[0] == keys && *children@[1]
                        == values)
                },
                Err(error) => error@ == (if keys.len != values.len {
                    field_refusal(MAP_VALUE@, values.len as int, keys.len as int)
                } else {
                    entry_refusal(entries@, keys.len as int, 0)
                }) && (keys.len != values.len || exists|i: int|
                    0 <= i < entries@.len() && (#[trigger] entries@[i]).0 + entries@[i].1
                        > keys.len),
            },
    {
        let key = keys.ty.dup();
        let value = values.ty.dup();
        let parts = vec![(MAP_KEY.to_owned(), keys), (MAP_VALUE.to_owned(), values)];
        let child = match Vector::structure(parts) {
            Ok(child) => child,
            Err(error) => return Err(error),
        };
        if let Some(error) = entry_past(entries.as_slice(), child.len) {
            return Err(error);
        }
        let vector = Vector {
            ty: LogicalType::map(key, value),
            len: entries.len(),
            validity: Validity::AllValid,
            body: Body::Nested { entries: Arc::new(entries), child: Arc::new(child) },
        };
        assert(*(child.body->Fields_children@[0]) == keys);
        assert(*(child.body->Fields_children@[1]) == values);
        Ok(vector)
    }

    /// A flat vector built from single values, with the nulls among them turning into validity.
    ///
    /// A list, a struct and a map are built as one. A value the type cannot hold is refused, and so
    /// is a type there is no vector for yet.
    pub fn from_values(ty: LogicalType, values: &[Value]) -> (vector: Result<Vector, Error>)
        ensures
            match vector {
                Ok(vector) => {
                    &&& refusal(ty, datums(values@)) is None
                    &&& vector.wf()
                    &&& vector.written_out()
                    &&& !(ty is List) && !(ty is Struct) && !(ty is Mapping) ==> (
                    vector.body matches Body::Flat(data) && data.layout() == layout_for(ty))
                    &&& vector.ty == ty
                    &&& vector.len == values@.len()
                    &&& forall|i: int|
                        0 <= i < values@.len() ==> #[trigger] vector.datum(i) == restored(
                            ty,
                            values@[i].datum(),
                        )
                },
                Err(error) => refusal(ty, datums(values@)) == Some(error@),
            },
        decreases ty, 1nat,
    {
        match &ty {
            LogicalType::List(element) => {
                return Vector::list_from_values(&ty, element, values);
            },
            LogicalType::Struct(fields) => {
                return Vector::struct_from_values(&ty, fields, values);
            },
            LogicalType::Mapping(key, value) => {
                return Vector::map_from_values(&ty, key, value, values);
            },
            _ => {},
        }
        let ghost rows = datums(values@);
        let mut data = match empty_data_for(&ty) {
            Ok(data) => data,
            Err(error) => return Err(error),
        };
        let ghost layout = layout_for(ty);
        let mut row: usize = 0;
        while row < values.len()
            invariant
                row <= values@.len(),
                rows == datums(values@),
                layout == layout_for(ty),
                !(ty is List) && !(ty is Struct) && !(ty is Mapping),
                is_flat_layout(layout),
                data.wf(),
                data.layout() == layout,
                layout is Empty ==> data.size() == 0,
                !(layout is Empty) ==> flat_failure(layout, rows, 0) == flat_failure(
                    layout,
                    rows,
                    row as nat,
                ),
                !(layout is Empty) ==> data.size() == row && forall|i: int|
                    0 <= i < row ==> cell_for(layout, #[trigger] rows[i]) == Some(data.cell(i)),
            decreases values.len() - row,
        {
            assert(rows[row as int] == values@[row as int].datum());
            let ghost before = data;
            match push_value(&mut data, &values[row]) {
                Ok(()) => {},
                Err(error) => {
                    assert(cell_for(layout, rows[row as int]) is None);
                    return Err(error);
                },
            }
            proof {
                if !(layout is Empty) {
                    assert forall|i: int| 0 <= i < row + 1 implies cell_for(
                        layout,
                        #[trigger] rows[i],
                    ) == Some(data.cell(i)) by {
                        if i < row {
                            assert(data.cell(i) == before.cell(i));
                        }
                    }
                }
            }
            row += 1;
        }
        let validity = live_rows(values);
        let vector = Vector { ty, len: values.len(), validity, body: Body::Flat(Arc::new(data)) };
        assert forall|i: int| 0 <= i < values@.len() implies #[trigger] vector.datum(i) == restored(
            ty,
            values@[i].datum(),
        ) by {
            assert(rows[i] == values@[i].datum());
            assert(validity.valid(i) == !(values@[i].datum() is Null));
        }
        Ok(vector)
    }

    /// A list vector of `element`, built from one list value per row.
    ///
    /// The elements of every row go into one child vector end to end. A null row contributes no
    /// elements and gets an entry of length zero, which is the same entry an empty list gets.
    fn list_from_values(whole: &LogicalType, element: &Arc<LogicalType>, values: &[Value]) -> (vector:
        Result<Vector, Error>)
        requires
            *whole == LogicalType::List(*element),
        ensures
            match vector {
                Ok(vector) => {
                    &&& refusal(LogicalType::List(*element), datums(values@)) is None
                    &&& vector.wf()
                    &&& vector.written_out()
                    &&& vector.ty == LogicalType::List(*element)
                    &&& vector.len == values@.len()
                    &&& forall|i: int|
                        0 <= i < values@.len() ==> #[trigger] vector.datum(i) == restored(
                            LogicalType::List(*element),
                            values@[i].datum(),
                        )
                },
                Err(error) => refusal(LogicalType::List(*element), datums(values@)) == Some(
                    error@,
                ),
            },
        decreases *whole, 0nat,
    {
        let ghost rows = datums(values@);
        let (flat, entries) = match flatten_lists(values) {
            Ok(flat) => flat,
            Err(error) => return Err(error),
        };
        let child = match Vector::from_values(element.dup(), flat.as_slice()) {
            Ok(child) => child,
            Err(error) => return Err(error),
        };
        let validity = live_rows(values);
        let vector = Vector {
            ty: LogicalType::List(element.clone()),
            len: values.len(),
            validity,
            body: Body::Nested { entries: Arc::new(entries), child: Arc::new(child) },
        };
        proof {
            assert(datums(flat@).len() == flat@.len());
            assert forall|i: int| 0 <= i < entries@.len() implies (#[trigger] entries@[i]).0
                + entries@[i].1 <= child.len by {
                lemma_end_to_end(Part::Elements, rows, i, rows.len());
            }
            assert forall|i: int| 0 <= i < values@.len() implies #[trigger] vector.datum(i)
                == restored(vector.ty, values@[i].datum()) by {
                assert(rows[i] == values@[i].datum());
                assert(validity.valid(i) == !(values@[i].datum() is Null));
                if !(rows[i] is Null) {
                    assert(rows[i] is List);
                    lemma_end_to_end(Part::Elements, rows, i, rows.len());
                    assert(entries@[i].1 == list_elements(rows[i]).len());
                    let start = entries@[i].0 as int;
                    let want = restored(vector.ty, rows[i])->List_values;
                    let got = vector.datum(i)->List_values;
                    assert forall|k: int| 0 <= k < got.len() implies got[k] == want[k] by {
                        assert(child.datum(start + k) == restored(
                            **element,
                            flat@[start + k].datum(),
                        ));
                        assert(datums(flat@)[start + k] == part_of(Part::Elements, rows[i])[k]);
                    }
                    assert(got =~= want);
                }
            }
        }
        Ok(vector)
    }

    /// A struct vector of `fields`, built from one struct value per row.
    ///
    /// The fields are matched by name and not by position, so a value written in another order does
    /// not land in the wrong columns. A row missing a field is refused. A tuple's fields have no
    /// names and are taken by place.
    fn struct_from_values(whole: &LogicalType, fields: &Arc<Vec<Field>>, values: &[Value]) -> (vector:
        Result<Vector, Error>)
        requires
            *whole == LogicalType::Struct(*fields),
        ensures
            match vector {
                Ok(vector) => {
                    &&& refusal(LogicalType::Struct(*fields), datums(values@)) is None
                    &&& vector.wf()
                    &&& vector.written_out()
                    &&& vector.ty == LogicalType::Struct(*fields)
                    &&& vector.len == values@.len()
                    &&& forall|i: int|
                        0 <= i < values@.len() ==> #[trigger] vector.datum(i) == restored(
                            LogicalType::Struct(*fields),
                            values@[i].datum(),
                        )
                },
                Err(error) => refusal(LogicalType::Struct(*fields), datums(values@)) == Some(
                    error@,
                ),
            },
        decreases *whole, 0nat,
    {
        let ghost rows = datums(values@);
        let ghost ty = LogicalType::Struct(*fields);
        let unnamed: bool = Field::unnamed(fields.as_slice());
        let mut children: Vec<Arc<Vector>> = Vec::new();
        let mut at: usize = 0;
        while at < fields.len()
            invariant
                at <= fields@.len(),
                *whole == LogicalType::Struct(*fields),
                rows == datums(values@),
                ty == LogicalType::Struct(*fields),
                unnamed == all_unnamed(fields@),
                children@.len() == at,
                refusal(ty, rows) == struct_refusal(ty, at as nat, rows),
                forall|f: int|
                    0 <= f < at ==> has_field(fields@, f, rows) && (#[trigger] children@[f]).wf()
                        && children@[f].written_out() && children@[f].len == values@.len() && children@[f].ty == fields@[f].ty
                        && forall|i: int|
                        0 <= i < values@.len() ==> #[trigger] children@[f].datum(i) == restored(
                            fields@[f].ty,
                            field_column(fields@, f, rows)[i],
                        ),
            decreases fields.len() - at,
        {
            let mut column: Vec<Value> = Vec::new();
            let mut row: usize = 0;
            while row < values.len()
                invariant
                    row <= values@.len(),
                    at < fields@.len(),
                    rows == datums(values@),
                    ty == LogicalType::Struct(*fields),
                    unnamed == all_unnamed(fields@),
                    column@.len() == row,
                    refusal(ty, rows) == struct_refusal(ty, at as nat, rows),
                    field_failure(fields@, at as int, rows, 0) == field_failure(
                        fields@,
                        at as int,
                        rows,
                        row as nat,
                    ),
                    forall|r: int|
                        0 <= r < row ==> (#[trigger] rows[r] is Null || (
                        rows[r] matches Datum::Struct(held) && picked(
                            fields@,
                            at as int,
                            held,
                        ) is Some)) && column@[r].datum() == field_column(
                            fields@,
                            at as int,
                            rows,
                        )[r],
                decreases values.len() - row,
            {
                assert(rows[row as int] == values@[row as int].datum());
                let ghost whole = rows[row as int];
                match &values[row] {
                    Value::Null => column.push(Value::Null),
                    Value::Struct(held) => {
                        let place: Option<usize> = if unnamed {
                            if at < held.len() {
                                Some(at)
                            } else {
                                None
                            }
                        } else {
                            find_field(held, fields[at].name.as_str())
                        };
                        match place {
                            Some(place) => {
                                assert(whole->Struct_0[place as int].1 == held@[place as int].1.datum());
                                column.push(held[place].1.dup());
                            },
                            None => {
                                assert(!has_field(fields@, at as int, rows));
                                return Err(missing_field(unnamed, fields[at].name.as_str()));
                            },
                        }
                    },
                    _ => {
                        assert(!has_field(fields@, at as int, rows));
                        return Err(
                            refused_value(&values[row], "{} does not belong in a struct vector"),
                        );
                    },
                }
                row += 1;
            }
            assert(has_field(fields@, at as int, rows));
            assert(datums(column@) =~= field_column(fields@, at as int, rows)) by {
                assert forall|r: int| 0 <= r < rows.len() implies datums(column@)[r]
                    == field_column(fields@, at as int, rows)[r] by {
                    assert(rows[r] is Null || rows[r] is Struct);
                }
            }
            assert(decreases_to!(*whole => whole->Struct_0@[at as int].ty));
            let child = match Vector::from_values(fields[at].ty.dup(), column.as_slice()) {
                Ok(child) => child,
                Err(error) => return Err(error),
            };
            assert forall|i: int| 0 <= i < values@.len() implies #[trigger] child.datum(i)
                == restored(fields@[at as int].ty, field_column(fields@, at as int, rows)[i]) by {
                assert(datums(column@)[i] == column@[i].datum());
            }
            children.push(Arc::new(child));
            at += 1;
        }
        let validity = live_rows(values);
        let vector = Vector {
            ty: LogicalType::Struct(fields.clone()),
            len: values.len(),
            validity,
            body: Body::Fields { children: Arc::new(children) },
        };
        proof {
            assert forall|i: int| 0 <= i < values@.len() implies #[trigger] vector.datum(i)
                == restored(ty, values@[i].datum()) by {
                assert(rows[i] == values@[i].datum());
                assert(validity.valid(i) == !(values@[i].datum() is Null));
                if !(rows[i] is Null) {
                    let want = restored(ty, rows[i])->Struct_0;
                    let got = vector.datum(i)->Struct_0;
                    assert forall|f: int| 0 <= f < got.len() implies got[f] == want[f] by {
                        assert(children@[f].datum(i) == restored(
                            fields@[f].ty,
                            field_column(fields@, f, rows)[i],
                        ));
                        assert(field_column(fields@, f, seq![rows[i]])[0] == field_column(
                            fields@,
                            f,
                            rows,
                        )[i]);
                    }
                    assert(got =~= want);
                }
            }
        }
        Ok(vector)
    }

    /// A map vector, built from one map value per row.
    ///
    /// A map is a list whose child is a struct of two fields. The keys of every row go into one
    /// column end to end, the values into another beside it.
    fn map_from_values(
        whole: &LogicalType,
        key: &Arc<LogicalType>,
        value: &Arc<LogicalType>,
        values: &[Value],
    ) -> (vector: Result<Vector, Error>)
        requires
            *whole == LogicalType::Mapping(*key, *value),
        ensures
            match vector {
                Ok(vector) => {
                    &&& refusal(LogicalType::Mapping(*key, *value), datums(values@)) is None
                    &&& vector.wf()
                    &&& vector.written_out()
                    &&& vector.ty == LogicalType::Mapping(*key, *value)
                    &&& vector.len == values@.len()
                    &&& forall|i: int|
                        0 <= i < values@.len() ==> #[trigger] vector.datum(i) == restored(
                            LogicalType::Mapping(*key, *value),
                            values@[i].datum(),
                        )
                },
                Err(error) => refusal(LogicalType::Mapping(*key, *value), datums(values@)) == Some(
                    error@,
                ),
            },
        decreases *whole, 0nat,
    {
        let ghost rows = datums(values@);
        let ghost ty = LogicalType::Mapping(*key, *value);
        let (keys, held, entries) = match flatten_maps(values) {
            Ok(flat) => flat,
            Err(error) => return Err(error),
        };
        let first = match Vector::from_values(key.dup(), keys.as_slice()) {
            Ok(column) => column,
            Err(error) => return Err(error),
        };
        let second = match Vector::from_values(value.dup(), held.as_slice()) {
            Ok(column) => column,
            Err(error) => return Err(error),
        };
        let parts = vec![(MAP_KEY.to_owned(), first), (MAP_VALUE.to_owned(), second)];
        proof {
            lemma_pairs(rows, rows.len());
            assert(datums(keys@).len() == keys@.len());
            assert(datums(held@).len() == held@.len());
        }
        let child = match Vector::structure(parts) {
            Ok(child) => child,
            Err(error) => return Err(error),
        };
        let validity = live_rows(values);
        let vector = Vector {
            ty: LogicalType::Mapping(key.clone(), value.clone()),
            len: values.len(),
            validity,
            body: Body::Nested { entries: Arc::new(entries), child: Arc::new(child) },
        };
        proof {
            let children = child.body->Fields_children@;
            assert(*children[0] == first && *children[1] == second);
            assert forall|i: int| 0 <= i < entries@.len() implies (#[trigger] entries@[i]).0
                + entries@[i].1 <= child.len by {
                lemma_end_to_end(Part::Keys, rows, i, rows.len());
            }
            assert forall|i: int| 0 <= i < values@.len() implies #[trigger] vector.datum(i)
                == restored(ty, values@[i].datum()) by {
                assert(rows[i] == values@[i].datum());
                assert(validity.valid(i) == !(values@[i].datum() is Null));
                if !(rows[i] is Null) {
                    assert(rows[i] is Mapping);
                    lemma_end_to_end(Part::Keys, rows, i, rows.len());
                    lemma_end_to_end(Part::Values, rows, i, rows.len());
                    lemma_pairs(rows, i as nat);
                    assert(entries@[i].1 == map_keys(rows[i]).len());
                    let start = entries@[i].0 as int;
                    let want = restored(ty, rows[i])->Mapping_entries;
                    let got = vector.datum(i)->Mapping_entries;
                    assert forall|k: int| 0 <= k < got.len() implies got[k] == want[k] by {
                        assert(first.datum(start + k) == restored(**key, keys@[start + k].datum()));
                        assert(second.datum(start + k) == restored(
                            **value,
                            held@[start + k].datum(),
                        ));
                        assert(datums(keys@)[start + k] == part_of(Part::Keys, rows[i])[k]);
                        assert(datums(held@)[start + k] == part_of(Part::Values, rows[i])[k]);
                    }
                    assert(got =~= want);
                }
            }
        }
        Ok(vector)
    }
}

/// The refusal of the first entry from `at` on that reaches past a child of `reach` rows.
pub open spec fn entry_refusal(entries: Seq<(u32, u32)>, reach: int, at: nat) -> Failure
    decreases entries.len() - at,
{
    if at >= entries.len() || entries[at as int].0 + entries[at as int].1 > reach {
        Failure {
            code: ErrorCode::Internal,
            message: "a list entry of "@ + decimal(entries[at as int].1 as nat) + " at "@ + decimal(
                entries[at as int].0 as nat,
            ) + " in a child of "@ + decimal(reach as nat),
            about: About::Nothing,
        }
    } else {
        entry_refusal(entries, reach, at + 1)
    }
}

/// The refusal of a field as long as the struct is not.
pub open spec fn field_refusal(name: Seq<char>, rows: int, len: int) -> Failure {
    Failure {
        code: ErrorCode::Internal,
        message: "a "@ + name + " field of "@ + decimal(rows as nat) + " rows beside a struct of "@
            + decimal(len as nat),
        about: About::Nothing,
    }
}

/// The refusal of the first entry that reaches past a child of `reach` rows, and `None` where every
/// entry is inside it.
fn entry_past(entries: &[(u32, u32)], reach: usize) -> (error: Option<Error>)
    ensures
        match error {
            Some(error) => error@ == entry_refusal(entries@, reach as int, 0) && exists|i: int|
                0 <= i < entries@.len() && (#[trigger] entries@[i]).0 + entries@[i].1 > reach,
            None => forall|i: int|
                0 <= i < entries@.len() ==> (#[trigger] entries@[i]).0 + entries@[i].1 <= reach,
        },
{
    let mut at: usize = 0;
    while at < entries.len()
        invariant
            at <= entries@.len(),
            entry_refusal(entries@, reach as int, 0) == entry_refusal(
                entries@,
                reach as int,
                at as nat,
            ),
            forall|i: int|
                0 <= i < at ==> (#[trigger] entries@[i]).0 + entries@[i].1 <= reach,
        decreases entries.len() - at,
    {
        let (start, len) = entries[at];
        if start as u64 + len as u64 > reach as u64 {
            let mut message = "a list entry of ".to_owned();
            push_number(&mut message, len as usize);
            message.append(" at ");
            push_number(&mut message, start as usize);
            message.append(" in a child of ");
            push_number(&mut message, reach);
            assert(entries@[at as int].0 + entries@[at as int].1 > reach);
            return Some(Error { code: ErrorCode::Internal, message, about: Subject::Nothing });
        }
        at += 1;
    }
    None
}

fn missing_field(unnamed: bool, name: &str) -> (error: Error)
    ensures
        error@ == field_missing(unnamed, name@),
{
    if unnamed {
        return Error::internal("a tuple row shorter than its type");
    }
    let mut message = "a struct row with no ".to_owned();
    message.append(name);
    message.append(" field in it");
    Error { code: ErrorCode::Internal, message, about: Subject::Nothing }
}

fn append_pairs(keys: &mut Vec<Value>, held: &mut Vec<Value>, pairs: &Vec<(Value, Value)>)
    ensures
        final(keys)@.len() == old(keys)@.len() + pairs@.len(),
        final(held)@.len() == old(held)@.len() + pairs@.len(),
        forall|i: int| 0 <= i < old(keys)@.len() ==> final(keys)@[i] == #[trigger] old(keys)@[i],
        forall|i: int| 0 <= i < old(held)@.len() ==> final(held)@[i] == #[trigger] old(held)@[i],
        forall|i: int|
            0 <= i < pairs@.len() ==> final(keys)@[old(keys)@.len() + i].datum() == (
            #[trigger] pairs@[i]).0.datum() && final(held)@[old(held)@.len() + i].datum()
                == pairs@[i].1.datum(),
{
    let ghost one = keys@;
    let ghost two = held@;
    let mut at: usize = 0;
    while at < pairs.len()
        invariant
            at <= pairs@.len(),
            keys@.len() == one.len() + at,
            held@.len() == two.len() + at,
            forall|i: int| 0 <= i < one.len() ==> keys@[i] == #[trigger] one[i],
            forall|i: int| 0 <= i < two.len() ==> held@[i] == #[trigger] two[i],
            forall|i: int|
                0 <= i < at ==> keys@[one.len() + i].datum() == (#[trigger] pairs@[i]).0.datum()
                    && held@[two.len() + i].datum() == pairs@[i].1.datum(),
        decreases pairs.len() - at,
    {
        keys.push(pairs[at].0.dup());
        held.push(pairs[at].1.dup());
        at += 1;
    }
}

fn append_values(out: &mut Vec<Value>, held: &Vec<Value>)
    ensures
        final(out)@.len() == old(out)@.len() + held@.len(),
        forall|i: int| 0 <= i < old(out)@.len() ==> final(out)@[i] == #[trigger] old(out)@[i],
        forall|i: int|
            0 <= i < held@.len() ==> final(out)@[old(out)@.len() + i].datum() == (
            #[trigger] held@[i]).datum(),
{
    let ghost before = out@;
    let mut at: usize = 0;
    while at < held.len()
        invariant
            at <= held@.len(),
            out@.len() == before.len() + at,
            forall|i: int| 0 <= i < before.len() ==> out@[i] == #[trigger] before[i],
            forall|i: int|
                0 <= i < at ==> out@[before.len() + i].datum() == (#[trigger] held@[i]).datum(),
        decreases held.len() - at,
    {
        out.push(held[at].dup());
        at += 1;
    }
}

} // verus!
