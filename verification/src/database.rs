//! What the file of a database answers on its own, from what it keeps beside its columns.

use crate::data::is_exact_layout;
use crate::native::{
    answer_average, answer_count, answer_extrema, answer_three, count_value, counted_type,
    end_datum, extrema_values, field_names, find_column, first_named, integer_datum, is_counted,
    native_request, only_cell, IntegerExtremes, NativeExtremaValues, NativeRequest, DENSE_SPAN,
    DISTINCT_MAX,
};
use crate::result::QueryResult;
use crate::scan::equal_but_case;
use crate::shape::{
    average_shape, distinct_shape, extrema_shape, nonzero_shape, three_shape, Ast,
};
use crate::statement::{
    average_in, distinct_in, extrema_in, group_count_in, native_simple_average_statement,
    native_simple_distinct_statement, native_simple_extrema_statement,
    native_simple_group_count_statement, native_simple_nonzero_statement,
    native_simple_three_statement, nonzero_in, three_in,
};
use crate::tally::{
    holds, in_rank_order, is_tallied, names, rows_with, GroupCounts,
};
use crate::types::{layout_for, About, Datum, Error, ErrorCode, Failure, Field, LogicalType};
use crate::vector::{flat_row, flatten_failure, is_flattened, refusal, Body, Vector};
use vstd::prelude::*;

verus! {

/// What a file keeps of a column, each part only where it is certain of it.
pub struct ColumnFacts {
    /// How many rows are neither null nor zero.
    pub nonzero: Option<u64>,
    /// How many distinct values there are.
    pub distinct: Option<u64>,
    /// The least and the greatest value.
    pub ends: Option<IntegerExtremes>,
    /// The sum of the values, and how many there are.
    pub sum: Option<(i128, u64)>,
    /// The sum divided by how many there are, as the bits of a double.
    pub quotient: u64,
}

/// A table of a file.
pub struct StoredTable {
    pub name: String,
    pub rows: u64,
    pub fields: Vec<Field>,
    /// What is kept of each column, one entry for each field.
    pub columns: Vec<ColumnFacts>,
}

/// The file of a database, as far as it answers without running a query.
pub struct Database {
    pub tables: Vec<StoredTable>,
}

/// A part of a column: counted already, or read.
pub enum Part {
    /// Values with how often each occurs.
    Tallied(Vec<(i128, u64)>),
    Column(Vector),
}

/// The integer a value is kept as.
pub open spec fn counted_integer(value: Datum) -> Option<int> {
    match value {
        Datum::TinyInt(x) => Some(x as int),
        Datum::SmallInt(x) => Some(x as int),
        Datum::Integer(x) => Some(x as int),
        Datum::BigInt(x) => Some(x as int),
        Datum::Date(x) => Some(x as int),
        Datum::Time(x) => Some(x as int),
        Datum::TimeTz(x) => Some(x as int),
        Datum::Timestamp(x) => Some(x as int),
        Datum::TimestampTz(x) => Some(x as int),
        Datum::Decimal { unscaled, .. } => Some(unscaled as int),
        Datum::UTinyInt(x) => Some(x as int),
        Datum::USmallInt(x) => Some(x as int),
        Datum::UInteger(x) => Some(x as int),
        Datum::UBigInt(x) => Some(x as int),
        _ => None,
    }
}

/// How many of the first `count` rows of a column, laid out flat, are that integer.
pub open spec fn rows_of(column: Vector, value: int, count: nat) -> nat
    decreases count,
{
    if count == 0 {
        0
    } else {
        rows_of(column, value, (count - 1) as nat) + if counted_integer(
            flat_row(column, count - 1),
        ) == Some(value) {
            1nat
        } else {
            0nat
        }
    }
}

/// How often a value is counted in the first `count` entries of a tally.
pub open spec fn tallied(counts: Seq<(i128, u64)>, value: int, count: nat) -> nat
    decreases count,
{
    if count == 0 {
        0
    } else {
        tallied(counts, value, (count - 1) as nat) + if counts[count - 1].0 == value {
            counts[count - 1].1 as nat
        } else {
            0
        }
    }
}

/// How many rows the first `count` entries of a tally stand for.
pub open spec fn tally_rows(counts: Seq<(i128, u64)>, count: nat) -> nat
    decreases count,
{
    if count == 0 {
        0
    } else {
        tally_rows(counts, (count - 1) as nat) + counts[count - 1].1 as nat
    }
}

/// Whether a column that lays out flat lays out as a run of integers of up to 64 bits.
pub open spec fn lays_out_integers(column: Vector) -> bool {
    if column.body is Flat {
        is_tallied(column)
    } else {
        &&& is_exact_layout(layout_for(column.ty))
        &&& !(layout_for(column.ty) is Int128)
        &&& !(column.root().body matches Body::Flat(data) && *data is Empty)
    }
}

/// What stops the first of some parts, from `at` on, that does not count, and `None` where all do.
pub open spec fn first_stop(parts: Seq<Part>, at: nat) -> Option<Option<Failure>>
    decreases parts.len() - at,
{
    if at >= parts.len() {
        None
    } else {
        match parts[at as int].stop() {
            Some(stop) => Some(stop),
            None => first_stop(parts, at + 1),
        }
    }
}

impl Part {
    /// How often a value occurs.
    pub open spec fn count_of(&self, value: int) -> nat {
        match self {
            Part::Tallied(counts) => tallied(counts@, value, counts@.len()),
            Part::Column(column) => rows_of(*column, value, column.len as nat),
        }
    }

    /// How many rows there are.
    pub open spec fn size(&self) -> nat {
        match self {
            Part::Tallied(counts) => tally_rows(counts@, counts@.len()),
            Part::Column(column) => column.len as nat,
        }
    }

    pub open spec fn wf(&self) -> bool {
        self matches Part::Column(column) ==> column.wf()
    }

    /// What stops a part being counted, and `None` where it counts: the failure of laying it out
    /// flat, or nothing more than that it lays out as something that is no run of integers.
    pub open spec fn stop(&self) -> Option<Option<Failure>> {
        match self {
            Part::Tallied(_) => None,
            Part::Column(column) => match flatten_failure(*column) {
                Some(failure) => Some(Some(failure)),
                None => if lays_out_integers(*column) {
                    None
                } else {
                    Some(None)
                },
            },
        }
    }
}

/// How often a value occurs in the first `count` parts.
pub open spec fn occurrences(parts: Seq<Part>, value: int, count: nat) -> nat
    decreases count,
{
    if count == 0 {
        0
    } else {
        occurrences(parts, value, (count - 1) as nat) + parts[count - 1].count_of(value)
    }
}

/// How many rows the first `count` parts have.
pub open spec fn part_rows(parts: Seq<Part>, count: nat) -> nat
    decreases count,
{
    if count == 0 {
        0
    } else {
        part_rows(parts, (count - 1) as nat) + parts[count - 1].size()
    }
}

/// What the tables are called.
pub open spec fn stored_names(tables: Seq<StoredTable>) -> Seq<Seq<char>> {
    Seq::new(tables.len(), |i: int| tables[i].name@)
}

/// The table and the column of those names, whatever the case.
pub open spec fn column_place(
    tables: Seq<StoredTable>,
    table: Seq<char>,
    column: Seq<char>,
) -> Option<(int, int)> {
    match first_named(stored_names(tables), table, 0) {
        Some(at) => match first_named(field_names(tables[at].fields@), column, 0) {
            Some(field) => Some((at, field)),
            None => None,
        },
        None => None,
    }
}

/// What a file keeps of the column of those names.
pub open spec fn facts_at(
    tables: Seq<StoredTable>,
    named: Option<(Seq<char>, Seq<char>)>,
) -> Option<(LogicalType, ColumnFacts)> {
    match named {
        Some((table, column)) => match column_place(tables, table, column) {
            Some((at, field)) => Some(
                (tables[at].fields@[field].ty, tables[at].columns@[field]),
            ),
            None => None,
        },
        None => None,
    }
}

/// A count as a signed integer, where it is one.
pub open spec fn as_count(count: Option<u64>) -> Option<i64> {
    match count {
        Some(count) => if count <= i64::MAX {
            Some(count as i64)
        } else {
            None
        },
        None => None,
    }
}

/// Whether a column is counted by value here: one of few distinct values, or of values close
/// together.
pub open spec fn is_grouped_here(facts: ColumnFacts) -> bool {
    match facts.distinct {
        Some(count) => count <= DISTINCT_MAX,
        None => facts.ends matches Some(IntegerExtremes::Values { low, high }) && 0 <= high - low
            <= DENSE_SPAN,
    }
}

/// Whether a statement plainly asks for the counts by value of a column that is counted here.
pub open spec fn groups_here(tables: Seq<StoredTable>, sql: Seq<char>, reserved: bool) -> bool {
    facts_at(tables, group_count_in(sql, reserved)) matches Some((ty, facts)) && is_counted(ty)
        && is_grouped_here(facts)
}

/// Whether groups are the nonzero values of some parts with how often each occurs, the larger
/// counts first and the smaller values first among equals.
pub open spec fn groups_are(groups: Seq<(i128, i64)>, parts: Seq<Part>) -> bool {
    &&& in_rank_order(groups)
    &&& forall|i: int|
        0 <= i < groups.len() ==> (#[trigger] groups[i]).0 != 0 && groups[i].1 > 0 && groups[i].1
            == occurrences(parts, groups[i].0 as int, parts.len())
    &&& forall|v: int|
        i128::MIN <= v <= i128::MAX && v != 0 && #[trigger] occurrences(parts, v, parts.len()) > 0
            ==> names(groups, v)
}

/// A row of a flat column of counted integers holds a value exactly where it reads as it.
proof fn lemma_holds(column: Vector, row: int, value: int)
    requires
        column.wf(),
        is_tallied(column),
        0 <= row < column.len,
    ensures
        holds(column, row, value) <==> counted_integer(column.datum(row)) == Some(value),
{
    let data = column.body->Flat_0;
    assert(data.layout() == layout_for(column.ty));
    assert(row < data.size());
}

proof fn lemma_rows_with(flat: Vector, column: Vector, value: int, count: nat)
    requires
        flat.wf(),
        is_tallied(flat),
        flat.len == column.len,
        is_flattened(flat, column),
        count <= flat.len,
    ensures
        rows_with(flat, value, count) == rows_of(column, value, count),
    decreases count,
{
    if count > 0 {
        lemma_rows_with(flat, column, value, (count - 1) as nat);
        lemma_holds(flat, count - 1, value);
        assert(flat.datum(count - 1) == flat_row(column, count - 1));
    }
}

proof fn lemma_count_bound(part: Part, value: int)
    ensures
        part.count_of(value) <= part.size(),
{
    match part {
        Part::Tallied(counts) => lemma_tally_bound(counts@, value, counts@.len()),
        Part::Column(column) => lemma_rows_bound(column, value, column.len as nat),
    }
}

proof fn lemma_tally_bound(counts: Seq<(i128, u64)>, value: int, count: nat)
    ensures
        tallied(counts, value, count) <= tally_rows(counts, count),
    decreases count,
{
    if count > 0 {
        lemma_tally_bound(counts, value, (count - 1) as nat);
    }
}

proof fn lemma_rows_bound(column: Vector, value: int, count: nat)
    ensures
        rows_of(column, value, count) <= count,
    decreases count,
{
    if count > 0 {
        lemma_rows_bound(column, value, (count - 1) as nat);
    }
}

proof fn lemma_occurrence_bound(parts: Seq<Part>, value: int, count: nat)
    ensures
        occurrences(parts, value, count) <= part_rows(parts, count),
    decreases count,
{
    if count > 0 {
        lemma_occurrence_bound(parts, value, (count - 1) as nat);
        lemma_count_bound(parts[count - 1], value);
    }
}

proof fn lemma_part_rows_grow(parts: Seq<Part>, few: nat, many: nat)
    requires
        few <= many,
    ensures
        part_rows(parts, few) <= part_rows(parts, many),
    decreases many - few,
{
    if few < many {
        lemma_part_rows_grow(parts, few, (many - 1) as nat);
    }
}

proof fn lemma_tally_rows_grow(counts: Seq<(i128, u64)>, few: nat, many: nat)
    requires
        few <= many,
    ensures
        tally_rows(counts, few) <= tally_rows(counts, many),
    decreases many - few,
{
    if few < many {
        lemma_tally_rows_grow(counts, few, (many - 1) as nat);
    }
}

/// Whether an answer is one row of a count, where there is one.
pub open spec fn answers_count(
    answer: Result<Option<QueryResult>, Error>,
    title: Seq<char>,
    count: Option<u64>,
) -> bool {
    answer matches Ok(found) && match as_count(count) {
        Some(count) => found matches Some(result) && result.wf() && result.names@.len() == 1
            && result.names@[0]@ == title && result.types@ == seq![LogicalType::BigInt]
            && result.chunks@.len() == 1 && result.chunks@[0].len == 1 && only_cell(result)
            == Datum::BigInt(count),
        None => found is None,
    }
}

/// Whether an answer is one row of an average, where the sum is kept.
pub open spec fn answers_average(
    answer: Result<Option<QueryResult>, Error>,
    title: Seq<char>,
    facts: ColumnFacts,
) -> bool {
    answer matches Ok(found) && match facts.sum {
        Some((_, count)) => found matches Some(result) && result.wf() && result.names@.len() == 1
            && result.names@[0]@ == title && result.types@ == seq![LogicalType::Double]
            && result.chunks@.len() == 1 && result.chunks@[0].len == 1 && only_cell(result)
            == if count == 0 {
            Datum::Null
        } else {
            Datum::Double(facts.quotient)
        },
        None => found is None,
    }
}

/// Whether an answer is one row of the two ends of a column, where they are kept and are values of
/// its type.
pub open spec fn answers_extrema(
    answer: Result<Option<QueryResult>, Error>,
    titles: Seq<Seq<char>>,
    ty: LogicalType,
    ends: Option<IntegerExtremes>,
) -> bool {
    match ends {
        None => answer matches Ok(found) && found is None,
        Some(ends) => match answer {
            Ok(Some(result)) => {
                &&& result.wf()
                &&& result.names@.len() == 2
                &&& result.names@[0]@ == titles[0]
                &&& result.names@[1]@ == titles[1]
                &&& result.types@ == seq![ty, ty]
                &&& result.chunks@.len() == 1
                &&& result.chunks@[0].len == 1
                &&& Some(result.chunks@[0].cell(0, 0)) == end_datum(ty, ends, false)
                &&& Some(result.chunks@[0].cell(0, 1)) == end_datum(ty, ends, true)
            },
            Ok(None) => end_datum(ty, ends, false) is None || end_datum(ty, ends, true) is None,
            Err(error) => ends is Null && refusal(ty, seq![Datum::Null]) == Some(error@),
        },
    }
}

/// Whether an answer is one row of a sum, a row count and an average, where both sums are kept and
/// the rows are counted.
pub open spec fn answers_three(
    answer: Result<Option<QueryResult>, Error>,
    titles: Seq<Seq<char>>,
    rows: u64,
    summed: ColumnFacts,
    averaged: ColumnFacts,
) -> bool {
    answer matches Ok(found) && match (summed.sum, averaged.sum) {
        (Some((sum, counted)), Some((_, count))) if rows <= i64::MAX => found matches Some(result)
            && result.wf() && result.names@.len() == 3 && result.names@[0]@ == titles[0]
            && result.names@[1]@ == titles[1] && result.names@[2]@ == titles[2] && result.types@
            == seq![LogicalType::HugeInt, LogicalType::BigInt, LogicalType::Double]
            && result.chunks@.len() == 1 && result.chunks@[0].len == 1 && result.chunks@[0].cell(0, 0)
            == (if counted == 0 {
            Datum::Null
        } else {
            Datum::HugeInt(sum)
        }) && result.chunks@[0].cell(0, 1) == Datum::BigInt(rows as i64)
            && result.chunks@[0].cell(0, 2) == (if count == 0 {
            Datum::Null
        } else {
            Datum::Double(averaged.quotient)
        }),
        _ => found is None,
    }
}

/// Whether an answer is what a file says to a statement, `None` where it says nothing.
pub open spec fn answered_by(
    tables: Seq<StoredTable>,
    ast: Ast,
    answer: Result<Option<QueryResult>, Error>,
) -> bool {
    let nothing = answer matches Ok(found) && found is None;
    if let Some((table, column, title)) = nonzero_shape(ast) {
        match facts_at(tables, Some((table, column))) {
            Some((_, facts)) => answers_count(answer, title, facts.nonzero),
            None => nothing,
        }
    } else if let Some((table, column, title)) = average_shape(ast) {
        match facts_at(tables, Some((table, column))) {
            Some((_, facts)) => answers_average(answer, title, facts),
            None => nothing,
        }
    } else if let Some((table, column, title)) = distinct_shape(ast) {
        match facts_at(tables, Some((table, column))) {
            Some((_, facts)) => answers_count(answer, title, facts.distinct),
            None => nothing,
        }
    } else if let Some((table, column, titles)) = extrema_shape(ast) {
        match facts_at(tables, Some((table, column))) {
            Some((ty, facts)) => answers_extrema(answer, titles, ty, facts.ends),
            None => nothing,
        }
    } else if let Some((table, summed, averaged, titles)) = three_shape(ast) {
        match (column_place(tables, table, summed), column_place(tables, table, averaged)) {
            (Some((at, first)), Some((_, second))) => answers_three(
                answer,
                titles,
                tables[at].rows,
                tables[at].columns@[first],
                tables[at].columns@[second],
            ),
            _ => nothing,
        }
    } else {
        nothing
    }
}

/// The bounds of a column, where they are kept and are values of its type.
pub open spec fn bounds_of(ty: LogicalType, ends: Option<IntegerExtremes>) -> Option<
    NativeExtremaValues,
> {
    match ends {
        Some(IntegerExtremes::Values { low, high }) => if integer_datum(ty, low as int) is Some
            && integer_datum(ty, high as int) is Some {
            if ty is Date {
                Some(NativeExtremaValues::Date { low: low as i32, high: high as i32 })
            } else {
                Some(NativeExtremaValues::Integer { low, high })
            }
        } else {
            None
        },
        _ => None,
    }
}

impl Database {
    pub open spec fn wf(&self) -> bool {
        forall|i: int|
            0 <= i < self.tables@.len() ==> (#[trigger] self.tables@[i]).columns@.len()
                == self.tables@[i].fields@.len()
    }

    /// The table and the column of those names.
    fn place(&self, table: &str, column: &str) -> (place: Option<(usize, usize)>)
        requires
            self.wf(),
        ensures
            match place {
                Some((at, field)) => {
                    &&& column_place(self.tables@, table@, column@) == Some(
                        (at as int, field as int),
                    )
                    &&& at < self.tables@.len()
                    &&& field < self.tables@[at as int].fields@.len()
                    &&& field < self.tables@[at as int].columns@.len()
                },
                None => column_place(self.tables@, table@, column@) is None,
            },
    {
        let mut at: usize = 0;
        while at < self.tables.len()
            invariant
                at <= self.tables@.len(),
                self.wf(),
                first_named(stored_names(self.tables@), table@, 0) == first_named(
                    stored_names(self.tables@),
                    table@,
                    at as nat,
                ),
            decreases self.tables.len() - at,
        {
            assert(stored_names(self.tables@)[at as int] == self.tables@[at as int].name@);
            if equal_but_case(self.tables[at].name.as_str(), table) {
                assert(self.tables@[at as int].columns@.len()
                    == self.tables@[at as int].fields@.len());
                return match find_column(&self.tables[at].fields, column) {
                    Some(field) => Some((at, field)),
                    None => None,
                };
            }
            at += 1;
        }
        None
    }

    /// The count of a filtered count that is written plainly, from what the file keeps.
    pub fn query_native_nonzero_value_once(&self, sql: &str) -> (count: Option<i64>)
        requires
            self.wf(),
        ensures
            count == match facts_at(self.tables@, nonzero_in(sql@)) {
                Some((ty, facts)) => if is_counted(ty) {
                    as_count(facts.nonzero)
                } else {
                    None
                },
                None => None,
            },
    {
        let (table, column) = match native_simple_nonzero_statement(sql) {
            Some(named) => named,
            None => return None,
        };
        let (at, field) = match self.place(table, column) {
            Some(place) => place,
            None => return None,
        };
        if !counted_type(&self.tables[at].fields[field].ty) {
            return None;
        }
        match self.tables[at].columns[field].nonzero {
            Some(count) => count_value(count),
            None => None,
        }
    }

    /// The average of a plain average, as the bits of a double, from the sum the file keeps. A
    /// column of no values is left to a regular query.
    pub fn query_native_average_value_once(&self, sql: &str) -> (average: Option<u64>)
        requires
            self.wf(),
        ensures
            average == match facts_at(self.tables@, average_in(sql@)) {
                Some((_, facts)) => match facts.sum {
                    Some((_, count)) => if count == 0 {
                        None
                    } else {
                        Some(facts.quotient)
                    },
                    None => None,
                },
                None => None,
            },
    {
        let (table, column) = match native_simple_average_statement(sql) {
            Some(named) => named,
            None => return None,
        };
        let (at, field) = match self.place(table, column) {
            Some(place) => place,
            None => return None,
        };
        match self.tables[at].columns[field].sum {
            Some((_, count)) => if count == 0 {
                None
            } else {
                Some(self.tables[at].columns[field].quotient)
            },
            None => None,
        }
    }

    /// The count of a plain distinct count, from what the file keeps.
    pub fn query_native_distinct_value_once(&self, sql: &str) -> (count: Option<i64>)
        requires
            self.wf(),
        ensures
            count == match facts_at(self.tables@, distinct_in(sql@)) {
                Some((_, facts)) => as_count(facts.distinct),
                None => None,
            },
    {
        let (table, column) = match native_simple_distinct_statement(sql) {
            Some(named) => named,
            None => return None,
        };
        let (at, field) = match self.place(table, column) {
            Some(place) => place,
            None => return None,
        };
        match self.tables[at].columns[field].distinct {
            Some(count) => count_value(count),
            None => None,
        }
    }

    /// The two ends a plain statement asks for, from what the file keeps.
    pub fn query_native_extrema_values_once(&self, sql: &str) -> (bounds: Option<
        NativeExtremaValues,
    >)
        requires
            self.wf(),
        ensures
            bounds == match facts_at(self.tables@, extrema_in(sql@)) {
                Some((ty, facts)) => bounds_of(ty, facts.ends),
                None => None,
            },
    {
        let (table, column) = match native_simple_extrema_statement(sql) {
            Some(named) => named,
            None => return None,
        };
        let (at, field) = match self.place(table, column) {
            Some(place) => place,
            None => return None,
        };
        extrema_values(&self.tables[at].fields[field].ty, self.tables[at].columns[field].ends)
    }

    /// The sum, the row count and the average, as the bits of a double, that a plain statement asks
    /// for, from the sums the file keeps. Whether the grammar keeps one of its names for itself is
    /// asked of the grammar.
    pub fn query_native_three_values_once(&self, sql: &str, reserved: bool) -> (values: Option<
        (i128, i64, u64),
    >)
        requires
            self.wf(),
        ensures
            values == match three_in(sql@, reserved) {
                Some((table, summed, averaged)) => match (
                    column_place(self.tables@, table, summed),
                    column_place(self.tables@, table, averaged),
                ) {
                    (Some((at, first)), Some((_, second))) => match (
                        self.tables@[at].columns@[first].sum,
                        self.tables@[at].columns@[second].sum,
                    ) {
                        (Some((sum, counted)), Some((_, count))) => if counted == 0 || count == 0
                            || self.tables@[at].rows > i64::MAX {
                            None
                        } else {
                            Some(
                                (
                                    sum,
                                    self.tables@[at].rows as i64,
                                    self.tables@[at].columns@[second].quotient,
                                ),
                            )
                        },
                        _ => None,
                    },
                    _ => None,
                },
                None => None,
            },
    {
        let (table, summed, averaged) = match native_simple_three_statement(sql, reserved) {
            Some(named) => named,
            None => return None,
        };
        let (at, first) = match self.place(table, summed) {
            Some(place) => place,
            None => return None,
        };
        let (_, second) = match self.place(table, averaged) {
            Some(place) => place,
            None => return None,
        };
        let rows = match count_value(self.tables[at].rows) {
            Some(rows) => rows,
            None => return None,
        };
        match (self.tables[at].columns[first].sum, self.tables[at].columns[second].sum) {
            (Some((sum, counted)), Some((_, count))) => if counted == 0 || count == 0 {
                None
            } else {
                Some((sum, rows, self.tables[at].columns[second].quotient))
            },
            _ => None,
        }
    }

    /// What the file answers to a parsed statement, and `None` for one a regular query has to run.
    pub fn query_native_once(&self, ast: &Ast) -> (answer: Result<Option<QueryResult>, Error>)
        requires
            self.wf(),
        ensures
            answered_by(self.tables@, *ast, answer),
    {
        match native_request(ast) {
            None => Ok(None),
            Some(NativeRequest::Nonzero { table, column, title }) => match self.place(
                table.as_str(),
                column.as_str(),
            ) {
                Some((at, field)) => match self.tables[at].columns[field].nonzero {
                    Some(count) => answer_count(title, count),
                    None => Ok(None),
                },
                None => Ok(None),
            },
            Some(NativeRequest::Average { table, column, title }) => match self.place(
                table.as_str(),
                column.as_str(),
            ) {
                Some((at, field)) => match self.tables[at].columns[field].sum {
                    Some((_, count)) => match answer_average(
                        title,
                        count,
                        self.tables[at].columns[field].quotient,
                    ) {
                        Ok(result) => Ok(Some(result)),
                        Err(error) => Err(error),
                    },
                    None => Ok(None),
                },
                None => Ok(None),
            },
            Some(NativeRequest::Distinct { table, column, title }) => match self.place(
                table.as_str(),
                column.as_str(),
            ) {
                Some((at, field)) => match self.tables[at].columns[field].distinct {
                    Some(count) => answer_count(title, count),
                    None => Ok(None),
                },
                None => Ok(None),
            },
            Some(NativeRequest::Extrema { table, column, titles }) => match self.place(
                table.as_str(),
                column.as_str(),
            ) {
                Some((at, field)) => match self.tables[at].columns[field].ends {
                    Some(ends) => answer_extrema(titles, &self.tables[at].fields[field].ty, ends),
                    None => Ok(None),
                },
                None => Ok(None),
            },
            Some(NativeRequest::Three { table, summed, averaged, titles }) => {
                let (at, first) = match self.place(table.as_str(), summed.as_str()) {
                    Some(place) => place,
                    None => return Ok(None),
                };
                let (_, second) = match self.place(table.as_str(), averaged.as_str()) {
                    Some(place) => place,
                    None => return Ok(None),
                };
                match (self.tables[at].columns[first].sum, self.tables[at].columns[second].sum) {
                    (Some(sum), Some((_, count))) => answer_three(
                        titles,
                        self.tables[at].rows,
                        sum,
                        count,
                        self.tables[at].columns[second].quotient,
                    ),
                    _ => Ok(None),
                }
            },
        }
    }

    /// The table and the column a statement plainly asks the counts by value of, where they are
    /// counted here, so that the parts of no other column are read.
    pub fn grouped_column(&self, sql: &str, reserved: bool) -> (place: Option<(usize, usize)>)
        requires
            self.wf(),
        ensures
            place is Some <==> groups_here(self.tables@, sql@, reserved),
            place matches Some((at, field)) ==> (group_count_in(sql@, reserved) matches Some((table, column))
                && column_place(self.tables@, table, column) == Some((at as int, field as int))),
            place matches Some((at, field)) ==> at < self.tables@.len() && field
                < self.tables@[at as int].columns@.len(),
    {
        let (table, column) = match native_simple_group_count_statement(sql, reserved) {
            Some(named) => named,
            None => return None,
        };
        let (at, field) = match self.place(table, column) {
            Some(place) => place,
            None => return None,
        };
        if !counted_type(&self.tables[at].fields[field].ty) {
            return None;
        }
        let facts = &self.tables[at].columns[field];
        match GroupCounts::for_column(facts.distinct, facts.ends) {
            Some(_) => Some((at, field)),
            None => None,
        }
    }

    /// The nonzero values of a column with how often each occurs, for a statement that plainly asks
    /// for them, counted out of the parts of the column. A column of many values, or of values
    /// nothing is known of, is left to a regular query, and so is a part that is not a run of
    /// integers.
    pub fn query_native_group_count_once(
        &self,
        sql: &str,
        reserved: bool,
        parts: &Vec<Part>,
    ) -> (groups: Result<Option<Vec<(i128, i64)>>, Error>)
        requires
            self.wf(),
            forall|i: int| 0 <= i < parts@.len() ==> (#[trigger] parts@[i]).wf(),
            part_rows(parts@, parts@.len()) <= u64::MAX,
        ensures
            ({
                let answer = match first_stop(parts@, 0) {
                    Some(Some(failure)) => groups matches Err(error) && error@ == failure,
                    Some(None) => groups matches Ok(groups) && groups is None,
                    None => match groups {
                        Ok(Some(groups)) => groups_are(groups@, parts@),
                        Ok(None) => false,
                        Err(error) => error@ == (Failure {
                            code: ErrorCode::Internal,
                            message: "grouped count exceeds BIGINT"@,
                            about: About::Nothing,
                        }) && exists|v: int| #[trigger]
                            occurrences(parts@, v, parts@.len()) > i64::MAX,
                    },
                };
                if groups_here(self.tables@, sql@, reserved) {
                    answer
                } else {
                    groups matches Ok(groups) && groups is None
                }
            }),
    {
        let (at, field) = match self.grouped_column(sql, reserved) {
            Some(place) => place,
            None => return Ok(None),
        };
        let facts = &self.tables[at].columns[field];
        let counter = match GroupCounts::for_column(facts.distinct, facts.ends) {
            Some(counter) => counter,
            None => return Ok(None),
        };
        assert(is_grouped_here(*facts));
        let counted = match count_parts(counter, parts) {
            Ok(Some(counted)) => counted,
            Ok(None) => return Ok(None),
            Err(error) => return Err(error),
        };
        assert forall|v: int| #[trigger] counted.count_of(v) == if v == 0 {
            0
        } else {
            occurrences(parts@, v, parts@.len())
        } by {}
        match counted.finish() {
            Ok(groups) => {
                proof {
                    assert forall|i: int| 0 <= i < groups@.len() implies (#[trigger] groups@[i]).0
                        != 0 && groups@[i].1 > 0 && groups@[i].1 == occurrences(
                        parts@,
                        groups@[i].0 as int,
                        parts@.len(),
                    ) by {
                        assert(counted.count_of(groups@[i].0 as int) == groups@[i].1);
                    }
                    assert forall|v: int|
                        i128::MIN <= v <= i128::MAX && v != 0 && #[trigger] occurrences(
                            parts@,
                            v,
                            parts@.len(),
                        ) > 0 implies names(groups@, v) by {
                        assert(counted.count_of(v) > 0);
                    }
                }
                Ok(Some(groups))
            },
            Err(error) => {
                proof {
                    let v = choose|v: int| #[trigger] counted.count_of(v) > i64::MAX;
                    assert(occurrences(parts@, v, parts@.len()) > i64::MAX);
                }
                Err(error)
            },
        }
    }
}

/// Counts a tally into the counts, past its entry `at`.
fn count_tally(counter: GroupCounts, counts: &Vec<(i128, u64)>) -> (counted: GroupCounts)
    requires
        counter.wf(),
        forall|v: int| #[trigger] counter.count_of(v) + tally_rows(counts@, counts@.len())
            <= u64::MAX,
    ensures
        counted.wf(),
        forall|v: int| #[trigger] counted.count_of(v) == counter.count_of(v) + if v == 0 {
            0
        } else {
            tallied(counts@, v, counts@.len())
        },
{
    let mut counted = counter;
    let mut at: usize = 0;
    while at < counts.len()
        invariant
            at <= counts@.len(),
            counted.wf(),
            forall|v: int| #[trigger] counter.count_of(v) + tally_rows(counts@, counts@.len())
                <= u64::MAX,
            forall|v: int| #[trigger] counted.count_of(v) == counter.count_of(v) + if v == 0 {
                0
            } else {
                tallied(counts@, v, at as nat)
            },
        decreases counts.len() - at,
    {
        let (value, count) = counts[at];
        proof {
            lemma_tally_bound(counts@, value as int, at as nat);
            lemma_tally_rows_grow(counts@, (at + 1) as nat, counts@.len());
            assert(counter.count_of(value as int) + tally_rows(counts@, counts@.len())
                <= u64::MAX);
        }
        counted.tally(value, count);
        at += 1;
    }
    counted
}

/// Counts every part of a column into the counts, `None` where a part is not a run of integers.
fn count_parts(counter: GroupCounts, parts: &Vec<Part>) -> (counted: Result<
    Option<GroupCounts>,
    Error,
>)
    requires
        counter.wf(),
        forall|v: int| #[trigger] counter.count_of(v) == 0,
        forall|i: int| 0 <= i < parts@.len() ==> (#[trigger] parts@[i]).wf(),
        part_rows(parts@, parts@.len()) <= u64::MAX,
    ensures
        match counted {
            Ok(Some(counted)) => first_stop(parts@, 0) is None && counted.wf() && forall|v: int| #[trigger]
                counted.count_of(v) == if v == 0 {
                    0
                } else {
                    occurrences(parts@, v, parts@.len())
                },
            Ok(None) => first_stop(parts@, 0) == Some(None::<Failure>),
            Err(error) => first_stop(parts@, 0) == Some(Some(error@)),
        },
{
    let mut counted = counter;
    let mut at: usize = 0;
    while at < parts.len()
        invariant
            at <= parts@.len(),
            counted.wf(),
            forall|i: int| 0 <= i < parts@.len() ==> (#[trigger] parts@[i]).wf(),
            part_rows(parts@, parts@.len()) <= u64::MAX,
            first_stop(parts@, 0) == first_stop(parts@, at as nat),
            forall|v: int| #[trigger] counted.count_of(v) == if v == 0 {
                0
            } else {
                occurrences(parts@, v, at as nat)
            },
        decreases parts.len() - at,
    {
        let ghost before = counted;
        let ghost part = parts@[at as int];
        assert(part.wf());
        proof {
            lemma_part_rows_grow(parts@, (at + 1) as nat, parts@.len());
            assert forall|v: int| #[trigger] before.count_of(v) + part.size() <= u64::MAX by {
                lemma_occurrence_bound(parts@, v, at as nat);
            }
        }
        match &parts[at] {
            Part::Tallied(counts) => {
                counted = count_tally(counted, counts);
            },
            Part::Column(column) => {
                let flat = match column.flatten() {
                    Ok(flat) => flat,
                    Err(error) => return Err(error),
                };
                proof {
                    lemma_laid_out(flat, *column);
                }
                if !counted.count_column(&flat) {
                    return Ok(None);
                }
                proof {
                    assert forall|v: int| rows_with(flat, v, flat.len as nat) == rows_of(
                        *column,
                        v,
                        column.len as nat,
                    ) by {
                        lemma_rows_with(flat, *column, v, flat.len as nat);
                    }
                }
            },
        }
        at += 1;
    }
    Ok(Some(counted))
}

/// A column laid out flat is a run of integers where its type and its values say so.
proof fn lemma_laid_out(flat: Vector, column: Vector)
    requires
        column.wf(),
        flat.wf(),
        flat.ty == column.ty,
        is_flattened(flat, column),
        flat.written_out(),
    ensures
        is_tallied(flat) <==> lays_out_integers(column),
{
    column.lemma_root();
}

} // verus!
