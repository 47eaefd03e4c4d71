//! Answering a simple aggregate from what a stored table says of itself.

use crate::result::QueryResult;
use crate::scan::{equal_but_case, lowered, same_but_case};
use crate::shape::{
    average_shape, distinct_shape, extrema_shape, native_extrema_shape, native_nonzero_shape,
    native_single_average_shape, native_single_distinct_shape, native_three_aggregate_shape,
    nonzero_shape, three_shape, Ast,
};
use crate::types::{Datum, Error, Field, LogicalType, Value};
use crate::vector::{refusal, belongs, law_a_value_of_the_type_is_kept};
use vstd::prelude::*;
use vstd::string::*;

verus! {

/// How many values apart the ends of a column may be for a counter with a slot per value.
pub const DENSE_SPAN: i128 = 4096;

/// How many distinct values a column may have to be counted here at all.
pub const DISTINCT_MAX: u64 = 4096;

/// Exact bounds for a one statement result.
#[derive(Debug, Clone, Copy, PartialEq, Eq, Structural)]
#[allow(inconsistent_fields)]
pub enum NativeExtremaValues {
    /// Bounds for an integer column.
    Integer { low: i128, high: i128 },
    /// Day counts for a date column.
    Date { low: i32, high: i32 },
}

/// The ends of a column as its table keeps them, none where every row is null.
#[derive(Debug, Clone, Copy, PartialEq, Eq, Structural)]
pub enum IntegerExtremes {
    Null,
    Values { low: i128, high: i128 },
}

/// The first name that is `wanted` but for case.
pub open spec fn first_named(names: Seq<Seq<char>>, wanted: Seq<char>, from: nat) -> Option<int>
    decreases names.len() - from,
{
    if from >= names.len() {
        None
    } else if same_but_case(names[from as int], wanted) {
        Some(from as int)
    } else {
        first_named(names, wanted, from + 1)
    }
}

/// What some texts say.
pub open spec fn spelled(names: Seq<String>) -> Seq<Seq<char>> {
    Seq::new(names.len(), |i: int| names[i]@)
}

/// What some fields are called.
pub open spec fn field_names(fields: Seq<Field>) -> Seq<Seq<char>> {
    Seq::new(fields.len(), |i: int| fields[i].name@)
}

/// The stored table a statement names.
pub fn find_table(names: &Vec<String>, table: &str) -> (found: Option<usize>)
    ensures
        match found {
            Some(at) => at < names@.len() && first_named(spelled(names@), table@, 0) == Some(
                at as int,
            ),
            None => first_named(spelled(names@), table@, 0) is None,
        },
{
    let mut at: usize = 0;
    while at < names.len()
        invariant
            at <= names@.len(),
            first_named(spelled(names@), table@, 0) == first_named(
                spelled(names@),
                table@,
                at as nat,
            ),
        decreases names.len() - at,
    {
        assert(spelled(names@)[at as int] == names@[at as int]@);
        if equal_but_case(names[at].as_str(), table) {
            return Some(at);
        }
        at += 1;
    }
    None
}

/// The column of a table a statement names.
pub fn find_column(fields: &Vec<Field>, column: &str) -> (found: Option<usize>)
    ensures
        match found {
            Some(at) => at < fields@.len() && first_named(field_names(fields@), column@, 0) == Some(
                at as int,
            ),
            None => first_named(field_names(fields@), column@, 0) is None,
        },
{
    let mut at: usize = 0;
    while at < fields.len()
        invariant
            at <= fields@.len(),
            first_named(field_names(fields@), column@, 0) == first_named(
                field_names(fields@),
                column@,
                at as nat,
            ),
        decreases fields.len() - at,
    {
        assert(field_names(fields@)[at as int] == fields@[at as int].name@);
        if equal_but_case(fields[at].name.as_str(), column) {
            return Some(at);
        }
        at += 1;
    }
    None
}

/// Whether a type is an integer of 64 bits or fewer.
pub open spec fn is_counted(ty: LogicalType) -> bool {
    ty is TinyInt || ty is SmallInt || ty is Integer || ty is BigInt || ty is UTinyInt
        || ty is USmallInt || ty is UInteger || ty is UBigInt
}

/// Whether a column of that type is one whose values are counted here.
pub fn counted_type(ty: &LogicalType) -> (yes: bool)
    ensures
        yes == is_counted(*ty),
{
    matches!(
        ty,
        LogicalType::TinyInt
        | LogicalType::SmallInt
        | LogicalType::Integer
        | LogicalType::BigInt
        | LogicalType::UTinyInt
        | LogicalType::USmallInt
        | LogicalType::UInteger
        | LogicalType::UBigInt
    )
}

/// A stored integer as a value of its column's type, where it is one.
pub open spec fn integer_datum(ty: LogicalType, x: int) -> Option<Datum> {
    match ty {
        LogicalType::TinyInt => if i8::MIN <= x <= i8::MAX {
            Some(Datum::TinyInt(x as i8))
        } else {
            None
        },
        LogicalType::SmallInt => if i16::MIN <= x <= i16::MAX {
            Some(Datum::SmallInt(x as i16))
        } else {
            None
        },
        LogicalType::Integer => if i32::MIN <= x <= i32::MAX {
            Some(Datum::Integer(x as i32))
        } else {
            None
        },
        LogicalType::BigInt => if i64::MIN <= x <= i64::MAX {
            Some(Datum::BigInt(x as i64))
        } else {
            None
        },
        LogicalType::UTinyInt => if 0 <= x <= u8::MAX {
            Some(Datum::UTinyInt(x as u8))
        } else {
            None
        },
        LogicalType::USmallInt => if 0 <= x <= u16::MAX {
            Some(Datum::USmallInt(x as u16))
        } else {
            None
        },
        LogicalType::UInteger => if 0 <= x <= u32::MAX {
            Some(Datum::UInteger(x as u32))
        } else {
            None
        },
        LogicalType::UBigInt => if 0 <= x <= u64::MAX {
            Some(Datum::UBigInt(x as u64))
        } else {
            None
        },
        LogicalType::Date => if i32::MIN <= x <= i32::MAX {
            Some(Datum::Date(x as i32))
        } else {
            None
        },
        _ => None,
    }
}

/// A stored integer as a value of its column's type, where it is one.
pub fn native_integer_value(ty: &LogicalType, value: i128) -> (found: Option<Value>)
    ensures
        match found {
            Some(found) => integer_datum(*ty, value as int) == Some(found.datum()),
            None => integer_datum(*ty, value as int) is None,
        },
{
    let x: i128 = value;
    match ty {
        LogicalType::TinyInt if i8::MIN as i128 <= x && x <= i8::MAX as i128 => Some(
            Value::TinyInt(x as i8),
        ),
        LogicalType::SmallInt if i16::MIN as i128 <= x && x <= i16::MAX as i128 => Some(
            Value::SmallInt(x as i16),
        ),
        LogicalType::Integer if i32::MIN as i128 <= x && x <= i32::MAX as i128 => Some(
            Value::Integer(x as i32),
        ),
        LogicalType::BigInt if i64::MIN as i128 <= x && x <= i64::MAX as i128 => Some(
            Value::BigInt(x as i64),
        ),
        LogicalType::UTinyInt if 0 <= x && x <= u8::MAX as i128 => Some(Value::UTinyInt(x as u8)),
        LogicalType::USmallInt if 0 <= x && x <= u16::MAX as i128 => Some(
            Value::USmallInt(x as u16),
        ),
        LogicalType::UInteger if 0 <= x && x <= u32::MAX as i128 => Some(
            Value::UInteger(x as u32),
        ),
        LogicalType::UBigInt if 0 <= x && x <= u64::MAX as i128 => Some(Value::UBigInt(x as u64)),
        LogicalType::Date if i32::MIN as i128 <= x && x <= i32::MAX as i128 => Some(
            Value::Date(x as i32),
        ),
        _ => None,
    }
}

/// A count as a signed 64 bit integer, where it is one.
pub fn count_value(count: u64) -> (value: Option<i64>)
    ensures
        value is Some <==> count <= i64::MAX,
        value matches Some(value) ==> value == count,
{
    if count <= i64::MAX as u64 {
        Some(count as i64)
    } else {
        None
    }
}

/// The bounds of a column, where the table keeps them and both are values of the column's type.
pub fn extrema_values(ty: &LogicalType, ends: Option<IntegerExtremes>) -> (values: Option<
    NativeExtremaValues,
>)
    ensures
        match values {
            Some(NativeExtremaValues::Date { low, high }) => *ty is Date && ends == Some(
                IntegerExtremes::Values { low: low as i128, high: high as i128 },
            ),
            Some(NativeExtremaValues::Integer { low, high }) => !(*ty is Date) && ends == Some(
                IntegerExtremes::Values { low, high },
            ) && integer_datum(*ty, low as int) is Some && integer_datum(
                *ty,
                high as int,
            ) is Some,
            None => !(ends matches Some(IntegerExtremes::Values { low, high }) && integer_datum(
                *ty,
                low as int,
            ) is Some && integer_datum(*ty, high as int) is Some),
        },
{
    match ends {
        Some(IntegerExtremes::Values { low, high }) => {
            if native_integer_value(ty, low).is_none() || native_integer_value(ty, high).is_none() {
                return None;
            }
            match ty {
                LogicalType::Date => Some(
                    NativeExtremaValues::Date { low: low as i32, high: high as i32 },
                ),
                _ => Some(NativeExtremaValues::Integer { low, high }),
            }
        },
        _ => None,
    }
}

/// A sum, a row count and the parts of an average, where all three have a value: the average is
/// the second sum over the second count.
pub fn three_values(rows: u64, summed: (i128, u64), averaged: (i128, u64)) -> (values: Option<
    (i128, i64, (i128, u64)),
>)
    ensures
        values is Some <==> rows <= i64::MAX && summed.1 != 0 && averaged.1 != 0,
        values matches Some((sum, count, average)) ==> sum == summed.0 && count == rows && average
            == averaged,
{
    match count_value(rows) {
        Some(count) if summed.1 != 0 && averaged.1 != 0 => Some((summed.0, count, averaged)),
        _ => None,
    }
}

/// What a parsed statement asks of a stored table, for the statements answered from its synopsis.
#[derive(Debug)]
#[allow(inconsistent_fields)]
pub enum NativeRequest {
    Nonzero { table: String, column: String, title: String },
    Average { table: String, column: String, title: String },
    Distinct { table: String, column: String, title: String },
    Extrema { table: String, column: String, titles: [String; 2] },
    Three { table: String, summed: String, averaged: String, titles: [String; 3] },
}

/// Whether a request is what the statement asks.
pub open spec fn requests(ast: Ast, request: NativeRequest) -> bool {
    match request {
        NativeRequest::Nonzero { table, column, title } => nonzero_shape(ast) == Some(
            (table@, column@, title@),
        ),
        NativeRequest::Average { table, column, title } => average_shape(ast) == Some(
            (table@, column@, title@),
        ),
        NativeRequest::Distinct { table, column, title } => distinct_shape(ast) == Some(
            (table@, column@, title@),
        ),
        NativeRequest::Extrema { table, column, titles } => extrema_shape(ast) matches Some(
            (t, c, names),
        ) && table@ == t && column@ == c && titles[0]@ == names[0] && titles[1]@ == names[1],
        NativeRequest::Three { table, summed, averaged, titles } => three_shape(ast) matches Some(
            (t, s, a, names),
        ) && table@ == t && summed@ == s && averaged@ == a && titles[0]@ == names[0] && titles[1]@
            == names[1] && titles[2]@ == names[2],
    }
}

/// What a parsed statement asks of a stored table, and `None` for a statement for the executor.
pub fn native_request(ast: &Ast) -> (request: Option<NativeRequest>)
    ensures
        match request {
            Some(request) => requests(*ast, request),
            None => nonzero_shape(*ast) is None && average_shape(*ast) is None && distinct_shape(
                *ast,
            ) is None && extrema_shape(*ast) is None && three_shape(*ast) is None,
        },
{
    if let Some((table, column, title)) = native_nonzero_shape(ast) {
        return Some(
            NativeRequest::Nonzero { table: table.to_owned(), column: column.to_owned(), title },
        );
    }
    if let Some((table, column, title)) = native_single_average_shape(ast) {
        return Some(
            NativeRequest::Average { table: table.to_owned(), column: column.to_owned(), title },
        );
    }
    if let Some((table, column, title)) = native_single_distinct_shape(ast) {
        return Some(
            NativeRequest::Distinct { table: table.to_owned(), column: column.to_owned(), title },
        );
    }
    if let Some((table, column, titles)) = native_extrema_shape(ast) {
        return Some(
            NativeRequest::Extrema { table: table.to_owned(), column: column.to_owned(), titles },
        );
    }
    if let Some((table, summed, averaged, titles)) = native_three_aggregate_shape(ast) {
        return Some(
            NativeRequest::Three {
                table: table.to_owned(),
                summed: summed.to_owned(),
                averaged: averaged.to_owned(),
                titles,
            },
        );
    }
    None
}

/// The only cell of a result of one row of one column.
pub open spec fn only_cell(result: QueryResult) -> Datum {
    result.chunks@[0].cell(0, 0)
}

/// One row of one count.
pub fn answer_count(title: String, count: u64) -> (answer: Result<Option<QueryResult>, Error>)
    ensures
        answer matches Ok(answer) && (answer is Some <==> count <= i64::MAX) && (
        answer matches Some(result) ==> result.wf() && result.names@ == seq![title]
            && result.types@ == seq![LogicalType::BigInt] && result.chunks@.len() == 1
            && result.chunks@[0].len == 1 && only_cell(result) == Datum::BigInt(count as i64)),
{
    let count: i64 = match count_value(count) {
        Some(count) => count,
        None => return Ok(None),
    };
    let types = vec![LogicalType::BigInt];
    assert(types@ =~= seq![LogicalType::BigInt]);
    let names = vec![title];
    assert(names@ =~= seq![title]);
    match QueryResult::one_row(names, types, vec![Value::BigInt(count)]) {
        Ok(result) => {
            assert(types@[0] == LogicalType::BigInt);
            Ok(Some(result))
        },
        Err(error) => {
            assert(types@[0] == LogicalType::BigInt);
            Err(error)
        },
    }
}

/// One row of one average, given the bits of the quotient, and null for an average of no values.
pub fn answer_average(title: String, count: u64, quotient: u64) -> (answer: Result<
    QueryResult,
    Error,
>)
    ensures
        answer matches Ok(result) && result.wf() && result.names@ == seq![title] && result.types@
            == seq![LogicalType::Double] && result.chunks@.len() == 1 && result.chunks@[0].len == 1
            && only_cell(result) == if count == 0 {
            Datum::Null
        } else {
            Datum::Double(quotient)
        },
{
    let value = if count == 0 {
        Value::Null
    } else {
        Value::Double(quotient)
    };
    let types = vec![LogicalType::Double];
    assert(types@ =~= seq![LogicalType::Double]);
    let names = vec![title];
    assert(names@ =~= seq![title]);
    match QueryResult::one_row(names, types, vec![value]) {
        Ok(result) => {
            assert(types@[0] == LogicalType::Double);
            Ok(result)
        },
        Err(error) => {
            assert(types@[0] == LogicalType::Double);
            Err(error)
        },
    }
}

/// What an end of a column is as a value of its type: null where every row is.
pub open spec fn end_datum(ty: LogicalType, ends: IntegerExtremes, high: bool) -> Option<Datum> {
    match ends {
        IntegerExtremes::Null => Some(Datum::Null),
        IntegerExtremes::Values { low, high: top } => integer_datum(
            ty,
            if high {
                top as int
            } else {
                low as int
            },
        ),
    }
}

/// A stored integer of a column's type is kept by a column of that type.
proof fn lemma_integer_belongs(ty: LogicalType, x: int)
    requires
        integer_datum(ty, x) is Some,
    ensures
        belongs(ty, integer_datum(ty, x)->Some_0),
{
}

/// One row of the two ends of a column.
pub fn answer_extrema(titles: [String; 2], ty: &LogicalType, ends: IntegerExtremes) -> (answer:
    Result<Option<QueryResult>, Error>)
    ensures
        answer matches Ok(answer) ==> (answer is Some <==> end_datum(*ty, ends, false) is Some
            && end_datum(*ty, ends, true) is Some),
        answer matches Ok(Some(result)) ==> result.wf() && result.names@.len() == 2
            && result.names@[0]@ == titles[0]@ && result.names@[1]@ == titles[1]@ && result.types@
            == seq![*ty, *ty] && result.chunks@.len() == 1 && result.chunks@[0].len == 1
            && result.chunks@[0].cell(0, 0) == end_datum(*ty, ends, false)->Some_0
            && result.chunks@[0].cell(0, 1) == end_datum(*ty, ends, true)->Some_0,
        match answer {
            Ok(_) => ends is Null ==> refusal(*ty, seq![Datum::Null]) is None,
            Err(error) => ends is Null && refusal(*ty, seq![Datum::Null]) == Some(error@),
        },
{
    let (low, high) = match ends {
        IntegerExtremes::Null => (Value::Null, Value::Null),
        IntegerExtremes::Values { low, high } => match (
            native_integer_value(ty, low),
            native_integer_value(ty, high),
        ) {
            (Some(low), Some(high)) => (low, high),
            _ => return Ok(None),
        },
    };
    let ghost first = low.datum();
    let ghost second = high.datum();
    proof {
        if let IntegerExtremes::Values { low: l, high: h } = ends {
            lemma_integer_belongs(*ty, l as int);
            lemma_integer_belongs(*ty, h as int);
        }
        law_a_value_of_the_type_is_kept(*ty, first);
        law_a_value_of_the_type_is_kept(*ty, second);
    }
    let types = vec![ty.dup(), ty.dup()];
    assert(types@ =~= seq![*ty, *ty]);
    let names = vec![titles[0].clone(), titles[1].clone()];
    match QueryResult::one_row(names, types, vec![low, high]) {
        Ok(result) => {
            assert(types@[0] == *ty);
            assert(types@[1] == *ty);
            Ok(Some(result))
        },
        Err(error) => Err(error),
    }
}

/// One row of a sum, a row count and an average, given the bits of the average's quotient.
pub fn answer_three(
    titles: [String; 3],
    rows: u64,
    summed: (i128, u64),
    averaged: u64,
    quotient: u64,
) -> (answer: Result<Option<QueryResult>, Error>)
    ensures
        answer matches Ok(answer) && (answer is Some <==> rows <= i64::MAX) && (
        answer matches Some(result) ==> result.wf() && result.names@.len() == 3
            && result.names@[0]@ == titles[0]@ && result.names@[1]@ == titles[1]@
            && result.names@[2]@ == titles[2]@ && result.types@ == seq![
            LogicalType::HugeInt,
            LogicalType::BigInt,
            LogicalType::Double,
        ] && result.chunks@.len() == 1 && result.chunks@[0].len == 1 && result.chunks@[0].cell(0, 0)
            == (if summed.1 == 0 {
            Datum::Null
        } else {
            Datum::HugeInt(summed.0)
        }) && result.chunks@[0].cell(0, 1) == Datum::BigInt(rows as i64)
            && result.chunks@[0].cell(0, 2) == (if averaged == 0 {
            Datum::Null
        } else {
            Datum::Double(quotient)
        })),
{
    let count: i64 = match count_value(rows) {
        Some(count) => count,
        None => return Ok(None),
    };
    let sum = if summed.1 == 0 {
        Value::Null
    } else {
        Value::HugeInt(summed.0)
    };
    let average = if averaged == 0 {
        Value::Null
    } else {
        Value::Double(quotient)
    };
    let types = vec![LogicalType::HugeInt, LogicalType::BigInt, LogicalType::Double];
    assert(types@ =~= seq![LogicalType::HugeInt, LogicalType::BigInt, LogicalType::Double]);
    let names = vec![titles[0].clone(), titles[1].clone(), titles[2].clone()];
    match QueryResult::one_row(names, types, vec![sum, Value::BigInt(count), average]) {
        Ok(result) => {
            assert(types@[0] is HugeInt && types@[1] is BigInt && types@[2] is Double);
            Ok(Some(result))
        },
        Err(error) => {
            assert(types@[0] is HugeInt && types@[1] is BigInt && types@[2] is Double);
            Err(error)
        },
    }
}

/// One row of a key and a text, which is the result set a plan is handed back as.
pub fn explained(key: &str, text: &str) -> (answer: Result<QueryResult, Error>)
    ensures
        answer matches Ok(result) && result.wf() && result.names@.len() == 2 && result.names@[0]@
            == "explain_key"@ && result.names@[1]@ == "explain_value"@ && result.types@ == seq![
            LogicalType::Varchar,
            LogicalType::Varchar,
        ] && result.chunks@.len() == 1 && result.chunks@[0].len == 1 && result.chunks@[0].cell(0, 0)
            == Datum::Varchar(key@) && result.chunks@[0].cell(0, 1) == Datum::Varchar(text@),
{
    broadcast use vstd::utf8::encode_utf8_decode_utf8;
    broadcast use vstd::utf8::encode_utf8_valid_utf8;

    let types = vec![LogicalType::Varchar, LogicalType::Varchar];
    assert(types@ =~= seq![LogicalType::Varchar, LogicalType::Varchar]);
    let names = vec!["explain_key".to_owned(), "explain_value".to_owned()];
    let values = vec![Value::Varchar(key.to_owned()), Value::Varchar(text.to_owned())];
    proof {
        assert(vstd::utf8::valid_utf8(vstd::utf8::encode_utf8(key@)));
        assert(vstd::utf8::valid_utf8(vstd::utf8::encode_utf8(text@)));
        assert(vstd::utf8::decode_utf8(vstd::utf8::encode_utf8(key@)) == key@);
        assert(vstd::utf8::decode_utf8(vstd::utf8::encode_utf8(text@)) == text@);
    }
    match QueryResult::one_row(names, types, values) {
        Ok(result) => {
            assert(types@[0] is Varchar && types@[1] is Varchar);
            Ok(result)
        },
        Err(error) => {
            assert(types@[0] is Varchar && types@[1] is Varchar);
            Err(error)
        },
    }
}

/// A name is found, but for the case of its letters, exactly where one of the names is it, and the
/// first of those is the one found.
pub proof fn law_the_first_of_a_name_is_found(names: Seq<Seq<char>>, wanted: Seq<char>, from: nat)
    ensures
        match first_named(names, wanted, from) {
            Some(at) => from <= at < names.len() && lowered(names[at]) == lowered(wanted)
                && forall|i: int| from <= i < at ==> lowered(#[trigger] names[i]) != lowered(wanted),
            None => forall|i: int|
                from <= i < names.len() ==> lowered(#[trigger] names[i]) != lowered(wanted),
        },
    decreases names.len() - from,
{
    if from < names.len() {
        law_the_first_of_a_name_is_found(names, wanted, from + 1);
    }
}

/// A count is handed on as itself as far as a signed word holds it, the ends of a column as they are
/// kept, and the three summaries as they are kept where there is something to sum and to divide by.
pub proof fn law_what_is_kept_is_handed_on_as_it_is(
    count: u64,
    counted: Option<i64>,
    ty: &LogicalType,
    low: i128,
    high: i128,
    ends: Option<NativeExtremaValues>,
    rows: u64,
    summed: (i128, u64),
    averaged: (i128, u64),
    three: Option<(i128, i64, (i128, u64))>,
)
    requires
        call_ensures(count_value, (count,), counted),
        call_ensures(extrema_values, (ty, Some(IntegerExtremes::Values { low, high })), ends),
        call_ensures(three_values, (rows, summed, averaged), three),
    ensures
        counted is Some <==> count <= 0x7fff_ffff_ffff_ffff,
        counted is Some ==> counted->Some_0 == count,
        ends is Some ==> match ends->Some_0 {
            NativeExtremaValues::Date { low: first, high: last } => *ty is Date && first == low
                && last == high,
            NativeExtremaValues::Integer { low: first, high: last } => !(*ty is Date) && first == low
                && last == high,
        },
        *ty is BigInt && i64::MIN <= low <= i64::MAX && i64::MIN <= high <= i64::MAX ==> ends
            is Some,
        *ty is Date && i32::MIN <= low <= i32::MAX && i32::MIN <= high <= i32::MAX ==> ends is Some,
        three is Some <==> rows <= 0x7fff_ffff_ffff_ffff && summed.1 > 0 && averaged.1 > 0,
        three is Some ==> (three->Some_0).0 == summed.0 && (three->Some_0).1 == rows
            && (three->Some_0).2 == averaged,
{
}

/// The low end of a column is its low value and the high end its high one.
pub proof fn law_an_end_is_the_low_or_the_high(ty: LogicalType, low: i128, high: i128)
    ensures
        end_datum(ty, IntegerExtremes::Values { low, high }, false) == integer_datum(
            ty,
            low as int,
        ),
        end_datum(ty, IntegerExtremes::Values { low, high }, true) == integer_datum(
            ty,
            high as int,
        ),
{
}

} // verus!
