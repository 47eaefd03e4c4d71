//! What the rows of a stored column come to, and that a file answers from what it keeps as a query
//! over the rows would.

use crate::database::{
    answered_by, as_count, bounds_of, column_place, counted_integer, facts_at, first_stop, groups_are,
    is_grouped_here, occurrences, rows_of, stored_names, tallied, ColumnFacts, Part, StoredTable,
};
use crate::native::{
    end_datum, field_names, first_named, integer_datum, is_counted, only_cell, IntegerExtremes,
    NativeExtremaValues,
};
use crate::result::QueryResult;
use crate::scan::{lowered, same_but_case};
use crate::shape::{
    aggregated, average_shape, column_named, distinct_shape, extrema_shape, law_one_shape_at_most,
    lone_select, lone_table, nonzero_shape, three_shape, Ast, Expr, Query, QueryBody, Select, Source,
    Statement, Target,
};
use crate::types::{Datum, Error, Field, LogicalType};
use crate::tally::{names, ranks_before};
use crate::vector::{flat_row, flatten_failure, run_of_row, source_row, Body, Vector};
use vstd::prelude::*;

verus! {

/// The whole number a value is.
pub open spec fn number_of(value: Datum) -> Option<int> {
    match value {
        Datum::HugeInt(x) => Some(x as int),
        _ => counted_integer(value),
    }
}

/// How many of the first `count` rows are not null.
pub open spec fn values_in(column: Vector, count: nat) -> nat
    decreases count,
{
    if count == 0 {
        0
    } else {
        values_in(column, (count - 1) as nat) + if column.datum(count - 1) is Null {
            0nat
        } else {
            1nat
        }
    }
}

/// How many of the first `count` rows are a number other than zero.
pub open spec fn nonzero_in_rows(column: Vector, count: nat) -> nat
    decreases count,
{
    if count == 0 {
        0
    } else {
        nonzero_in_rows(column, (count - 1) as nat) + match number_of(column.datum(count - 1)) {
            Some(x) => if x != 0 {
                1nat
            } else {
                0nat
            },
            None => 0nat,
        }
    }
}

/// What the numbers of the first `count` rows add up to, the nulls left out.
pub open spec fn sum_in(column: Vector, count: nat) -> int
    decreases count,
{
    if count == 0 {
        0
    } else {
        sum_in(column, (count - 1) as nat) + match number_of(column.datum(count - 1)) {
            Some(x) => x,
            None => 0,
        }
    }
}

/// The values of the first `count` rows, the nulls left out.
pub open spec fn values_of(column: Vector, count: nat) -> Set<Datum>
    decreases count,
{
    if count == 0 {
        Set::empty()
    } else if column.datum(count - 1) is Null {
        values_of(column, (count - 1) as nat)
    } else {
        values_of(column, (count - 1) as nat).insert(column.datum(count - 1))
    }
}

/// Whether a number is one of a column's and none of them is below it.
pub open spec fn is_least(column: Vector, low: int) -> bool {
    &&& exists|row: int| 0 <= row < column.len && number_of(#[trigger] column.datum(row)) == Some(low)
    &&& forall|row: int|
        0 <= row < column.len ==> (number_of(#[trigger] column.datum(row)) matches Some(x) ==> low
            <= x)
}

/// Whether a number is one of a column's and none of them is above it.
pub open spec fn is_greatest(column: Vector, high: int) -> bool {
    &&& exists|row: int|
        0 <= row < column.len && number_of(#[trigger] column.datum(row)) == Some(high)
    &&& forall|row: int|
        0 <= row < column.len ==> (number_of(#[trigger] column.datum(row)) matches Some(x) ==> x
            <= high)
}

/// Whether what is kept of a column is what its rows come to. The quotient is what the machine
/// makes of dividing the sum by how many values there are, of which nothing is said.
pub open spec fn kept_of(facts: ColumnFacts, column: Vector) -> bool {
    &&& facts.nonzero matches Some(count) ==> count == nonzero_in_rows(column, column.len as nat)
    &&& facts.distinct matches Some(count) ==> count == values_of(column, column.len as nat).len()
    &&& match facts.ends {
        Some(IntegerExtremes::Values { low, high }) => is_least(column, low as int) && is_greatest(
            column,
            high as int,
        ),
        Some(IntegerExtremes::Null) => values_in(column, column.len as nat) == 0,
        None => true,
    }
    &&& facts.sum matches Some((sum, count)) ==> sum == sum_in(column, column.len as nat) && count
        == values_in(column, column.len as nat)
}

/// Whether the tables of a file are about those columns, one run of them for each table.
pub open spec fn stores(tables: Seq<StoredTable>, columns: Seq<Seq<Vector>>) -> bool {
    &&& columns.len() == tables.len()
    &&& forall|t: int| 0 <= t < tables.len() ==> #[trigger] holds_table(tables[t], columns[t])
}

/// Whether a table is about those columns.
pub open spec fn holds_table(table: StoredTable, columns: Seq<Vector>) -> bool {
    &&& table.fields@.len() == columns.len()
    &&& table.columns@.len() == columns.len()
    &&& forall|c: int|
        0 <= c < columns.len() ==> {
            &&& (#[trigger] columns[c]).wf()
            &&& columns[c].at_home()
            &&& columns[c].len == table.rows
            &&& columns[c].ty == table.fields@[c].ty
            &&& kept_of(table.columns@[c], columns[c])
        }
}

/// The column of those names.
pub open spec fn column_at(
    tables: Seq<StoredTable>,
    columns: Seq<Seq<Vector>>,
    table: Seq<char>,
    column: Seq<char>,
) -> Vector {
    match column_place(tables, table, column) {
        Some((at, field)) => columns[at][field],
        None => arbitrary(),
    }
}

/// The sum of a column as a query gives it, which is null where there is nothing to add.
pub open spec fn summed(column: Vector) -> Datum {
    if values_in(column, column.len as nat) == 0 {
        Datum::Null
    } else {
        Datum::HugeInt(sum_in(column, column.len as nat) as i128)
    }
}

/// Whether a cell is the average of a column: null where there is nothing to divide by, and
/// otherwise the quotient the file keeps.
pub open spec fn averaged(cell: Datum, column: Vector, quotient: u64) -> bool {
    cell == if values_in(column, column.len as nat) == 0 {
        Datum::Null
    } else {
        Datum::Double(quotient)
    }
}

/// The quotient a file keeps of the column of those names.
pub open spec fn quotient_at(
    tables: Seq<StoredTable>,
    table: Seq<char>,
    column: Seq<char>,
) -> u64 {
    match facts_at(tables, Some((table, column))) {
        Some((_, facts)) => facts.quotient,
        None => 0,
    }
}

/// Whether two cells are the least and the greatest value of a column, both null where it has none.
pub open spec fn are_ends(low: Datum, high: Datum, column: Vector) -> bool {
    if values_in(column, column.len as nat) == 0 {
        low is Null && high is Null
    } else {
        &&& exists|row: int| 0 <= row < column.len && #[trigger] column.datum(row) == low
        &&& exists|row: int| 0 <= row < column.len && #[trigger] column.datum(row) == high
        &&& number_of(low) matches Some(x) && is_least(column, x)
        &&& number_of(high) matches Some(x) && is_greatest(column, x)
    }
}

/// Whether a result is the one a query over the rows of the columns gives to a statement.
pub open spec fn rows_give(
    tables: Seq<StoredTable>,
    columns: Seq<Seq<Vector>>,
    ast: Ast,
    result: QueryResult,
) -> bool {
    if let Some((table, column, _)) = nonzero_shape(ast) {
        let rows = column_at(tables, columns, table, column);
        only_cell(result) == Datum::BigInt(nonzero_in_rows(rows, rows.len as nat) as i64)
    } else if let Some((table, column, _)) = average_shape(ast) {
        averaged(
            only_cell(result),
            column_at(tables, columns, table, column),
            quotient_at(tables, table, column),
        )
    } else if let Some((table, column, _)) = distinct_shape(ast) {
        let rows = column_at(tables, columns, table, column);
        only_cell(result) == Datum::BigInt(values_of(rows, rows.len as nat).len() as i64)
    } else if let Some((table, column, _)) = extrema_shape(ast) {
        are_ends(
            result.chunks@[0].cell(0, 0),
            result.chunks@[0].cell(0, 1),
            column_at(tables, columns, table, column),
        )
    } else if let Some((table, first, second, _)) = three_shape(ast) {
        let rows = column_at(tables, columns, table, first);
        &&& result.chunks@[0].cell(0, 0) == summed(rows)
        &&& result.chunks@[0].cell(0, 1) == Datum::BigInt(rows.len as i64)
        &&& averaged(
            result.chunks@[0].cell(0, 2),
            column_at(tables, columns, table, second),
            quotient_at(tables, table, second),
        )
    } else {
        false
    }
}

proof fn lemma_first_named(names: Seq<Seq<char>>, wanted: Seq<char>, from: nat)
    ensures
        first_named(names, wanted, from) matches Some(at) ==> from <= at < names.len(),
    decreases names.len() - from,
{
    if from < names.len() {
        lemma_first_named(names, wanted, from + 1);
    }
}

/// What a file finds under two names is kept of the column of those names.
pub proof fn law_facts_are_those_of_the_named_column(
    tables: Seq<StoredTable>,
    columns: Seq<Seq<Vector>>,
    table: Seq<char>,
    column: Seq<char>,
)
    requires
        stores(tables, columns),
    ensures
        facts_at(tables, Some((table, column))) matches Some((ty, facts)) ==> {
            let rows = column_at(tables, columns, table, column);
            rows.wf() && rows.at_home() && rows.ty == ty && kept_of(facts, rows)
        },
        column_place(tables, table, column) matches Some((at, field)) ==> column_at(
            tables,
            columns,
            table,
            column,
        ).len == tables[at].rows,
{
    lemma_first_named(crate::database::stored_names(tables), table, 0);
    if let Some((at, field)) = column_place(tables, table, column) {
        lemma_first_named(field_names(tables[at].fields@), column, 0);
        assert(holds_table(tables[at], columns[at]));
        assert(columns[at][field].wf());
    }
}

/// A value of a column of whole numbers is the number as its type spells it.
proof fn lemma_typed(column: &Vector, row: int)
    requires
        column.wf(),
        column.at_home(),
        is_counted(column.ty) || column.ty is Date,
        !(column.datum(row) is Null),
    ensures
        counted_integer(column.datum(row)) matches Some(x) && integer_datum(column.ty, x) == Some(
            column.datum(row),
        ),
    decreases column,
{
    match &column.body {
        Body::Dictionary { codes, values, .. } => lemma_typed(&**values, codes@[row] as int),
        Body::Runs { ends, values } => lemma_typed(&**values, run_of_row(ends@, row)->Some_0),
        Body::Gathered { source, rids, offset } => lemma_typed(
            &**source,
            source_row(rids@, *offset + row)->Some_0,
        ),
        _ => {},
    }
}

proof fn lemma_a_value_is_counted(column: Vector, row: int, count: nat)
    requires
        0 <= row < count,
        !(column.datum(row) is Null),
    ensures
        values_in(column, count) > 0,
    decreases count,
{
    if row < count - 1 {
        lemma_a_value_is_counted(column, row, (count - 1) as nat);
    }
}

/// The ends a file keeps of a column are its least and its greatest value.
pub proof fn law_kept_ends_are_the_ends_of_the_rows(column: Vector, facts: ColumnFacts)
    requires
        column.wf(),
        column.at_home(),
        kept_of(facts, column),
    ensures
        facts.ends matches Some(ends) ==> (end_datum(column.ty, ends, false) matches Some(low) ==> (
        end_datum(column.ty, ends, true) matches Some(high) ==> are_ends(low, high, column))),
{
    if let Some(IntegerExtremes::Values { low, high }) = facts.ends {
        if integer_datum(column.ty, low as int) is Some && integer_datum(column.ty, high as int)
            is Some {
            let first = choose|row: int|
                0 <= row < column.len && number_of(#[trigger] column.datum(row)) == Some(low as int);
            let last = choose|row: int|
                0 <= row < column.len && number_of(#[trigger] column.datum(row)) == Some(
                    high as int,
                );
            lemma_typed(&column, first);
            lemma_typed(&column, last);
            lemma_a_value_is_counted(column, first, column.len as nat);
        }
    }
}

/// The answer a file gives from what it keeps is the answer the rows give.
///
/// Null rows, tables of no rows and columns of nulls alone are among them. An average is the quotient
/// kept beside the sum, and null exactly where the rows hold nothing to divide by.
pub proof fn law_a_kept_answer_is_the_one_the_rows_give(
    tables: Seq<StoredTable>,
    columns: Seq<Seq<Vector>>,
    ast: Ast,
    result: QueryResult,
)
    requires
        stores(tables, columns),
        answered_by(tables, ast, Ok::<Option<QueryResult>, Error>(Some(result))),
    ensures
        rows_give(tables, columns, ast, result),
{
    if let Some((table, column, _)) = nonzero_shape(ast) {
        law_facts_are_those_of_the_named_column(tables, columns, table, column);
    } else if let Some((table, column, _)) = average_shape(ast) {
        law_facts_are_those_of_the_named_column(tables, columns, table, column);
    } else if let Some((table, column, _)) = distinct_shape(ast) {
        law_facts_are_those_of_the_named_column(tables, columns, table, column);
    } else if let Some((table, column, _)) = extrema_shape(ast) {
        law_facts_are_those_of_the_named_column(tables, columns, table, column);
        let (_, facts) = facts_at(tables, Some((table, column)))->Some_0;
        law_kept_ends_are_the_ends_of_the_rows(
            column_at(tables, columns, table, column),
            facts,
        );
    } else if let Some((table, first, second, _)) = three_shape(ast) {
        law_facts_are_those_of_the_named_column(tables, columns, table, first);
        law_facts_are_those_of_the_named_column(tables, columns, table, second);
        let (_, facts) = facts_at(tables, Some((table, second)))->Some_0;
        let (_, other) = facts_at(tables, Some((table, first)))->Some_0;
        assert(kept_of(other, column_at(tables, columns, table, first)));
        assert(kept_of(facts, column_at(tables, columns, table, second)));
    }
}

/// The counts a file keeps of a column are those of its rows.
pub proof fn law_kept_counts_are_those_of_the_rows(column: Vector, facts: ColumnFacts)
    requires
        kept_of(facts, column),
    ensures
        as_count(facts.nonzero) matches Some(count) ==> count == nonzero_in_rows(
            column,
            column.len as nat,
        ),
        as_count(facts.distinct) matches Some(count) ==> count == values_of(
            column,
            column.len as nat,
        ).len(),
{
}

/// The bounds a file keeps of a column are the numbers of its least and its greatest value.
pub proof fn law_kept_bounds_are_those_of_the_rows(column: Vector, facts: ColumnFacts)
    requires
        column.wf(),
        kept_of(facts, column),
    ensures
        match bounds_of(column.ty, facts.ends) {
            Some(NativeExtremaValues::Date { low, high }) => is_least(column, low as int)
                && is_greatest(column, high as int),
            Some(NativeExtremaValues::Integer { low, high }) => is_least(column, low as int)
                && is_greatest(column, high as int),
            None => true,
        },
{
}

/// The first of some fields, from `from` on, that has a name, whatever the case.
pub open spec fn field_of(fields: Seq<Field>, name: Seq<char>, from: nat) -> Option<int>
    decreases fields.len() - from,
{
    if from >= fields.len() {
        None
    } else if same_but_case(fields[from as int].name@, name) {
        Some(from as int)
    } else {
        field_of(fields, name, from + 1)
    }
}

/// What an expression is on a row: a column its value there, and the number zero itself. Nothing is
/// said of any other.
pub open spec fn on_row(
    expr: Expr,
    fields: Seq<Field>,
    columns: Seq<Vector>,
    row: int,
) -> Option<Datum> {
    match expr {
        Expr::Column { name } => if name@.len() == 1 {
            match field_of(fields, name@[0]@, 0) {
                Some(f) => Some(columns[f].datum(row)),
                None => None,
            }
        } else {
            None
        },
        Expr::Literal { kind, text } => if kind is Number && text@ == "0"@ {
            Some(Datum::Integer(0))
        } else {
            None
        },
        _ => None,
    }
}

/// Whether a filter keeps a row, which one that compares with a null does not. Nothing is said of a
/// filter other than one that tells two numbers apart.
pub open spec fn keeps(
    filter: Option<Expr>,
    fields: Seq<Field>,
    columns: Seq<Vector>,
    row: int,
) -> Option<bool> {
    match filter {
        None => Some(true),
        Some(Expr::Binary { op, left, right }) => if op is NotEq {
            match (on_row(*left, fields, columns, row), on_row(*right, fields, columns, row)) {
                (Some(left), Some(right)) => Some(
                    number_of(left) is Some && number_of(right) is Some && number_of(left)
                        != number_of(right),
                ),
                _ => None,
            }
        } else {
            None
        },
        _ => None,
    }
}

/// The rows among the first `count` that a filter keeps, in order.
pub open spec fn kept_rows(
    filter: Option<Expr>,
    fields: Seq<Field>,
    columns: Seq<Vector>,
    count: nat,
) -> Seq<int>
    decreases count,
{
    if count == 0 {
        seq![]
    } else {
        let before = kept_rows(filter, fields, columns, (count - 1) as nat);
        if keeps(filter, fields, columns, count - 1) == Some(true) {
            before.push(count - 1)
        } else {
            before
        }
    }
}

/// What an expression is on each of some rows, the nulls left out.
pub open spec fn values_on(
    expr: Expr,
    fields: Seq<Field>,
    columns: Seq<Vector>,
    rows: Seq<int>,
) -> Seq<Datum>
    decreases rows.len(),
{
    if rows.len() == 0 {
        seq![]
    } else {
        let before = values_on(expr, fields, columns, rows.drop_last());
        match on_row(expr, fields, columns, rows.last()) {
            Some(value) => if value is Null {
                before
            } else {
                before.push(value)
            },
            None => before,
        }
    }
}

/// What some numbers add up to.
pub open spec fn total(values: Seq<Datum>) -> int
    decreases values.len(),
{
    if values.len() == 0 {
        0
    } else {
        total(values.drop_last()) + match number_of(values.last()) {
            Some(x) => x,
            None => 0,
        }
    }
}

/// Whether a cell is what a target of a select means over the rows its filter keeps:
///
/// - `count(*)` is how many rows there are,
/// - `count(x)` how many of them `x` is not null on,
/// - `count(DISTINCT x)` how many values `x` has on them, the nulls left out,
/// - `sum(x)` what its values add up to, null where it has none,
/// - `min(x)` and `max(x)` one of its values that none is below, or above, null where it has none,
/// - `avg(x)` null exactly where it has no values, and a double otherwise.
pub open spec fn means(
    expr: Expr,
    filter: Option<Expr>,
    fields: Seq<Field>,
    columns: Seq<Vector>,
    count: nat,
    cell: Datum,
) -> bool {
    let rows = kept_rows(filter, fields, columns, count);
    match expr {
        Expr::Function { name, args, distinct, filter: filtered } => {
            let values = values_on(args@[0], fields, columns, rows);
            &&& !filtered
            &&& name@.len() == 1
            &&& args@.len() == 1
            &&& if same_but_case(name@[0]@, "count"@) {
                cell matches Datum::BigInt(n) && n == (match args@[0] {
                    Expr::Star { qualifier, replacements } => if qualifier == 0 && replacements == 0
                        && !distinct {
                        rows.len() as int
                    } else {
                        -1
                    },
                    _ => if distinct {
                        values.to_set().len() as int
                    } else {
                        values.len() as int
                    },
                })
            } else if same_but_case(name@[0]@, "sum"@) {
                !distinct && if values.len() == 0 {
                    cell is Null
                } else {
                    cell matches Datum::HugeInt(n) && n == total(values)
                }
            } else if same_but_case(name@[0]@, "min"@) {
                !distinct && if values.len() == 0 {
                    cell is Null
                } else {
                    values.contains(cell) && number_of(cell) is Some && forall|i: int|
                        0 <= i < values.len() && number_of(#[trigger] values[i]) is Some
                            ==> number_of(cell)->Some_0 <= number_of(values[i])->Some_0
                }
            } else if same_but_case(name@[0]@, "max"@) {
                !distinct && if values.len() == 0 {
                    cell is Null
                } else {
                    values.contains(cell) && number_of(cell) is Some && forall|i: int|
                        0 <= i < values.len() && number_of(#[trigger] values[i]) is Some
                            ==> number_of(values[i])->Some_0 <= number_of(cell)->Some_0
                }
            } else if same_but_case(name@[0]@, "avg"@) {
                !distinct && if values.len() == 0 {
                    cell is Null
                } else {
                    cell is Double
                }
            } else {
                false
            }
        },
        _ => false,
    }
}

/// Whether a query has nothing round its body that would change what it gives.
pub open spec fn is_bare(query: Query) -> bool {
    query.ctes == 0 && query.order_by == 0 && !query.order_by_all && !query.limit && !query.offset
        && !query.limit_percent
}

/// Whether a select gives one row for all of its rows.
pub open spec fn is_whole(select: Select) -> bool {
    select.distinct is No && select.group_by == 0 && !select.group_by_all && !select.having
}

/// Whether a statement is a query of one select of one table, and nothing else.
pub open spec fn selects(ast: Ast, select: Select, table: Seq<char>) -> bool {
    &&& ast.statements@.len() == 1
    &&& ast.statements@[0] matches Statement::Query(query) && is_bare(query) && query.body
        == QueryBody::Select(select)
    &&& is_whole(select)
    &&& select.from@.len() == 1
    &&& select.from@[0] matches Source::Table { name, alias, columns } && !alias && columns == 0
        && name@.len() == 1 && name@[0]@ == table
}

proof fn lemma_field_of(fields: Seq<Field>, name: Seq<char>, from: nat)
    ensures
        field_of(fields, name, from) == first_named(field_names(fields), name, from),
    decreases fields.len() - from,
{
    if from < fields.len() {
        lemma_field_of(fields, name, from + 1);
    }
}

proof fn lemma_first_is_first(names: Seq<Seq<char>>, wanted: Seq<char>, from: nat)
    ensures
        first_named(names, wanted, from) matches Some(at) ==> from <= at < names.len()
            && same_but_case(names[at], wanted) && forall|i: int|
            from <= i < at ==> !same_but_case(#[trigger] names[i], wanted),
    decreases names.len() - from,
{
    if from < names.len() {
        lemma_first_is_first(names, wanted, from + 1);
    }
}

proof fn lemma_all_rows(fields: Seq<Field>, columns: Seq<Vector>, count: nat)
    ensures
        kept_rows(None, fields, columns, count) == Seq::new(count, |i: int| i),
    decreases count,
{
    if count > 0 {
        lemma_all_rows(fields, columns, (count - 1) as nat);
    }
    assert(kept_rows(None, fields, columns, count) =~= Seq::new(count, |i: int| i));
}

proof fn lemma_values_on(
    expr: Expr,
    fields: Seq<Field>,
    columns: Seq<Vector>,
    column: Vector,
    count: nat,
)
    requires
        forall|row: int| #[trigger] on_row(expr, fields, columns, row) == Some(column.datum(row)),
    ensures
        ({
            let values = values_on(expr, fields, columns, Seq::new(count, |i: int| i));
            &&& values.len() == values_in(column, count)
            &&& values.to_set() == values_of(column, count)
            &&& total(values) == sum_in(column, count)
            &&& forall|i: int|
                0 <= i < values.len() ==> exists|row: int|
                    0 <= row < count && column.datum(row) == #[trigger] values[i]
            &&& forall|row: int|
                0 <= row < count && !(#[trigger] column.datum(row) is Null) ==> values.contains(
                    column.datum(row),
                )
        }),
    decreases count,
{
    let rows = Seq::new(count, |i: int| i);
    let values = values_on(expr, fields, columns, rows);
    if count == 0 {
        assert(values.to_set() =~= Set::empty());
    } else {
        let fewer = Seq::new((count - 1) as nat, |i: int| i);
        assert(rows.drop_last() =~= fewer);
        lemma_values_on(expr, fields, columns, column, (count - 1) as nat);
        let before = values_on(expr, fields, columns, fewer);
        let last = column.datum(count - 1);
        assert(on_row(expr, fields, columns, count - 1) == Some(last));
        if !(last is Null) {
            assert(values == before.push(last));
            assert(values.drop_last() =~= before);
            assert(values.to_set() =~= before.to_set().insert(last)) by {
                assert forall|d: Datum| values.to_set().contains(d) implies before.to_set().insert(
                    last,
                ).contains(d) by {
                    let i = choose|i: int| 0 <= i < values.len() && values[i] == d;
                    if i < before.len() {
                        assert(before[i] == d);
                    }
                }
                assert forall|d: Datum| before.to_set().insert(
                    last,
                ).contains(d) implies values.to_set().contains(d) by {
                    if d == last {
                        assert(values[values.len() - 1] == d);
                    } else {
                        let i = choose|i: int| 0 <= i < before.len() && before[i] == d;
                        assert(values[i] == d);
                    }
                }
            }
            assert forall|i: int| 0 <= i < values.len() implies exists|row: int|
                0 <= row < count && column.datum(row) == #[trigger] values[i] by {
                if i < before.len() {
                    assert(values[i] == before[i]);
                    let row = choose|row: int|
                        0 <= row < count - 1 && column.datum(row) == before[i];
                    assert(column.datum(row) == values[i]);
                } else {
                    assert(column.datum(count - 1) == values[i]);
                }
            }
        }
        assert forall|row: int|
            0 <= row < count && !(#[trigger] column.datum(row) is Null) implies values.contains(
            column.datum(row),
        ) by {
            if row < count - 1 {
                assert(before.contains(column.datum(row)));
                let i = choose|i: int| 0 <= i < before.len() && before[i] == column.datum(row);
                assert(values[i] == column.datum(row));
            } else {
                assert(values[values.len() - 1] == column.datum(row));
            }
        }
    }
}

proof fn lemma_nonzero_rows(
    filter: Expr,
    fields: Seq<Field>,
    columns: Seq<Vector>,
    column: Vector,
    count: nat,
)
    requires
        forall|row: int|
            #[trigger] keeps(Some(filter), fields, columns, row) == Some(
                number_of(column.datum(row)) matches Some(x) && x != 0,
            ),
    ensures
        kept_rows(Some(filter), fields, columns, count).len() == nonzero_in_rows(column, count),
    decreases count,
{
    if count > 0 {
        lemma_nonzero_rows(filter, fields, columns, column, (count - 1) as nat);
        assert(keeps(Some(filter), fields, columns, count - 1) == Some(
            number_of(column.datum(count - 1)) matches Some(x) && x != 0,
        ));
    }
}

/// What a file answers to a statement is what the statement means over the rows: the statement is one
/// plain select of one table, the table is the first of that name, and each cell of the one row of
/// the answer is what the target in its place means over the rows the filter keeps. The place of the
/// table is what is handed back.
#[verifier::rlimit(40)]
pub proof fn law_an_answer_is_what_the_statement_means(
    tables: Seq<StoredTable>,
    columns: Seq<Seq<Vector>>,
    ast: Ast,
    result: QueryResult,
) -> (found: (int, Select, Seq<char>))
    requires
        stores(tables, columns),
        answered_by(tables, ast, Ok::<Option<QueryResult>, Error>(Some(result))),
    ensures
        selects(ast, found.1, found.2),
        0 <= found.0 < tables.len(),
        same_but_case(tables[found.0].name@, found.2),
        forall|t: int| 0 <= t < found.0 ==> !same_but_case(#[trigger] tables[t].name@, found.2),
        result.chunks@.len() == 1,
        result.chunks@[0].len == 1,
        result.types@.len() == found.1.targets@.len(),
        forall|j: int|
            0 <= j < found.1.targets@.len() ==> means(
                (#[trigger] found.1.targets@[j]).expr,
                found.1.filter,
                tables[found.0].fields@,
                columns[found.0],
                tables[found.0].rows as nat,
                result.chunks@[0].cell(0, j),
            ),
{
    let select = lone_select(ast)->Some_0;
    let name = lone_table(select)->Some_0;
    let table = first_named(stored_names(tables), name, 0)->Some_0;
    let fields = tables[table].fields@;
    let held = columns[table];
    let count = tables[table].rows as nat;
    lemma_first_is_first(stored_names(tables), name, 0);
    assert forall|t: int| 0 <= t < table implies !same_but_case(
        #[trigger] tables[t].name@,
        name,
    ) by {
        assert(stored_names(tables)[t] == tables[t].name@);
    }
    assert(holds_table(tables[table], held)) by {
        assert(holds_table(tables[table], columns[table]));
    }
    lemma_all_rows(fields, held, count);
    lemma_names();
    if let Some((_, column, _)) = nonzero_shape(ast) {
        lemma_field_of(fields, column, 0);
        lemma_first_is_first(field_names(fields), column, 0);
        let rows = held[field_of(fields, column, 0)->Some_0];
        assert(rows.wf());
        let filter = select.filter->Some_0;
        reveal_strlit("0");
        assert forall|row: int| #[trigger] keeps(Some(filter), fields, held, row) == Some(
            number_of(rows.datum(row)) matches Some(x) && x != 0,
        ) by {}
        lemma_nonzero_rows(filter, fields, held, rows, count);
    } else if let Some((_, column, _)) = average_shape(ast) {
        lemma_column(fields, held, select.targets@[0].expr, column, count);
    } else if let Some((_, column, _)) = distinct_shape(ast) {
        lemma_column(fields, held, select.targets@[0].expr, column, count);
    } else if let Some((_, column, _)) = extrema_shape(ast) {
        law_facts_are_those_of_the_named_column(tables, columns, name, column);
        let (_, facts) = facts_at(tables, Some((name, column)))->Some_0;
        law_kept_ends_are_the_ends_of_the_rows(column_at(tables, columns, name, column), facts);
        let other = aggregated(select.targets@[1].expr, "max"@, false)->Some_0;
        lemma_same_field(fields, column, other, 0);
        lemma_field_of(fields, column, 0);
        lemma_field_of(fields, other, 0);
        lemma_column(fields, held, select.targets@[0].expr, column, count);
        lemma_column(fields, held, select.targets@[1].expr, other, count);
        let rows = held[field_of(fields, column, 0)->Some_0];
        assert(rows == column_at(tables, columns, name, column));
        lemma_ends(
            rows,
            result.chunks@[0].cell(0, 0),
            result.chunks@[0].cell(0, 1),
            values_on(
                select.targets@[0].expr->Function_args@[0],
                fields,
                held,
                Seq::new(count, |i: int| i),
            ),
            count,
        );
        lemma_ends(
            rows,
            result.chunks@[0].cell(0, 0),
            result.chunks@[0].cell(0, 1),
            values_on(
                select.targets@[1].expr->Function_args@[0],
                fields,
                held,
                Seq::new(count, |i: int| i),
            ),
            count,
        );
    } else if let Some((_, summed, averaged, _)) = three_shape(ast) {
        lemma_column(fields, held, select.targets@[0].expr, summed, count);
        lemma_column(fields, held, select.targets@[2].expr, averaged, count);
    }
    (table, select, name)
}

proof fn lemma_names()
    ensures
        !same_but_case("count"@, "sum"@) && !same_but_case("count"@, "min"@) && !same_but_case(
            "count"@,
            "max"@,
        ) && !same_but_case("count"@, "avg"@) && !same_but_case("sum"@, "min"@) && !same_but_case(
            "sum"@,
            "max"@,
        ) && !same_but_case("sum"@, "avg"@) && !same_but_case("min"@, "max"@) && !same_but_case(
            "min"@,
            "avg"@,
        ) && !same_but_case("max"@, "avg"@),
        forall|name: Seq<char>, one: Seq<char>, other: Seq<char>|
            #[trigger] same_but_case(name, one) && #[trigger] same_but_case(name, other)
                ==> same_but_case(one, other),
{
    reveal_strlit("count");
    reveal_strlit("sum");
    reveal_strlit("min");
    reveal_strlit("max");
    reveal_strlit("avg");
    assert(lowered("count"@).len() == 5 && lowered("sum"@).len() == 3 && lowered("min"@).len() == 3
        && lowered("max"@).len() == 3 && lowered("avg"@).len() == 3);
    assert(lowered("sum"@)[0] == 's' && lowered("min"@)[0] == 'm' && lowered("max"@)[0] == 'm'
        && lowered("avg"@)[0] == 'a');
    assert(lowered("min"@)[1] == 'i' && lowered("max"@)[1] == 'a');
}

proof fn lemma_same_field(fields: Seq<Field>, one: Seq<char>, other: Seq<char>, from: nat)
    requires
        same_but_case(one, other),
    ensures
        field_of(fields, one, from) == field_of(fields, other, from),
    decreases fields.len() - from,
{
    if from < fields.len() {
        lemma_same_field(fields, one, other, from + 1);
    }
}

/// The values of the column an aggregate is of.
proof fn lemma_column(
    fields: Seq<Field>,
    columns: Seq<Vector>,
    expr: Expr,
    column: Seq<char>,
    count: nat,
)
    requires
        expr matches Expr::Function { args, .. } && args@.len() == 1 && column_named(args@[0])
            == Some(column),
        fields.len() == columns.len(),
        first_named(field_names(fields), column, 0) is Some,
    ensures
        ({
            let f = first_named(field_names(fields), column, 0)->Some_0;
            let values = values_on(
                expr->Function_args@[0],
                fields,
                columns,
                Seq::new(count, |i: int| i),
            );
            &&& field_of(fields, column, 0) == Some(f)
            &&& 0 <= f < columns.len()
            &&& values.len() == values_in(columns[f], count)
            &&& values.to_set() == values_of(columns[f], count)
            &&& total(values) == sum_in(columns[f], count)
            &&& forall|i: int|
                0 <= i < values.len() ==> exists|row: int|
                    0 <= row < count && columns[f].datum(row) == #[trigger] values[i]
            &&& forall|row: int|
                0 <= row < count && !(#[trigger] columns[f].datum(row) is Null) ==> values.contains(
                    columns[f].datum(row),
                )
        }),
{
    lemma_field_of(fields, column, 0);
    lemma_first_is_first(field_names(fields), column, 0);
    let f = first_named(field_names(fields), column, 0)->Some_0;
    let arg = expr->Function_args@[0];
    assert forall|row: int| #[trigger] on_row(arg, fields, columns, row) == Some(
        columns[f].datum(row),
    ) by {}
    lemma_values_on(arg, fields, columns, columns[f], count);
}

/// The two ends of a column are among its values, with none below the one and none above the other.
proof fn lemma_ends(column: Vector, low: Datum, high: Datum, values: Seq<Datum>, count: nat)
    requires
        column.len == count,
        are_ends(low, high, column),
        values.len() == values_in(column, count),
        forall|i: int|
            0 <= i < values.len() ==> exists|row: int|
                0 <= row < count && column.datum(row) == #[trigger] values[i],
        forall|row: int|
            0 <= row < count && !(#[trigger] column.datum(row) is Null) ==> values.contains(
                column.datum(row),
            ),
    ensures
        values.len() == 0 ==> low is Null && high is Null,
        values.len() > 0 ==> values.contains(low) && number_of(low) is Some && forall|i: int|
            0 <= i < values.len() && number_of(#[trigger] values[i]) is Some ==> number_of(
                low,
            )->Some_0 <= number_of(values[i])->Some_0,
        values.len() > 0 ==> values.contains(high) && number_of(high) is Some && forall|i: int|
            0 <= i < values.len() && number_of(#[trigger] values[i]) is Some ==> number_of(
                values[i],
            )->Some_0 <= number_of(high)->Some_0,
{
    if values.len() > 0 {
        assert forall|i: int| 0 <= i < values.len() && number_of(
            #[trigger] values[i],
        ) is Some implies number_of(low)->Some_0 <= number_of(values[i])->Some_0 && number_of(
            values[i],
        )->Some_0 <= number_of(high)->Some_0 by {
            let row = choose|row: int| 0 <= row < count && column.datum(row) == values[i];
            assert(number_of(column.datum(row)) is Some);
        }
        let first = choose|row: int| 0 <= row < column.len && #[trigger] column.datum(row) == low;
        let last = choose|row: int| 0 <= row < column.len && #[trigger] column.datum(row) == high;
        assert(!(column.datum(first) is Null));
        assert(!(column.datum(last) is Null));
    }
}

/// A plain aggregate is recognised, with the columns it names and the titles its targets are given or
/// are called by:
///
/// - `count(*)` filtered by a column that is not zero, whichever side the column is on,
/// - `avg` of a column, and `count(DISTINCT)` of one,
/// - `min` and `max` of the same column,
/// - `sum` of a column, `count(*)` and `avg` of a column.
pub proof fn law_plain_aggregates_are_recognised(ast: Ast, select: Select, table: Seq<char>)
    requires
        selects(ast, select, table),
    ensures
        select.targets@.len() == 1 && counts_star(select.targets@[0].expr) && (
        select.filter matches Some(filter) && tells_from_zero(filter) is Some) ==> nonzero_shape(ast)
            == Some(
            (
                table,
                tells_from_zero(select.filter->Some_0)->Some_0,
                title_or(select.targets@[0], "count_star()"@),
            ),
        ),
        select.targets@.len() == 1 && select.filter is None ==> {
            &&& of_column(select.targets@[0].expr, "avg"@, false) matches Some(column)
                ==> average_shape(ast) == Some(
                (table, column, title_or(select.targets@[0], "avg("@ + column + ")"@)),
            )
            &&& of_column(select.targets@[0].expr, "count"@, true) matches Some(column)
                ==> distinct_shape(ast) == Some(
                (table, column, title_or(select.targets@[0], "count(DISTINCT "@ + column + ")"@)),
            )
        },
        select.targets@.len() == 2 && select.filter is None ==> (of_column(
            select.targets@[0].expr,
            "min"@,
            false,
        ) matches Some(column) ==> (of_column(select.targets@[1].expr, "max"@, false) matches Some(
            other,
        ) ==> (same_but_case(column, other) ==> extrema_shape(ast) == Some(
            (
                table,
                column,
                seq![
                    title_or(select.targets@[0], "min("@ + column + ")"@),
                    title_or(select.targets@[1], "max("@ + column + ")"@),
                ],
            ),
        )))),
        select.targets@.len() == 3 && select.filter is None && counts_star(select.targets@[1].expr)
            ==> (of_column(select.targets@[0].expr, "sum"@, false) matches Some(summed) ==> (
        of_column(select.targets@[2].expr, "avg"@, false) matches Some(averaged) ==> three_shape(ast)
            == Some(
            (
                table,
                summed,
                averaged,
                seq![
                    title_or(select.targets@[0], "sum("@ + summed + ")"@),
                    title_or(select.targets@[1], "count_star()"@),
                    title_or(select.targets@[2], "avg("@ + averaged + ")"@),
                ],
            ),
        ))),
{
    reveal_strlit("0");
}

/// A target's alias, or else what it is called by.
pub open spec fn title_or(target: Target, called: Seq<char>) -> Seq<char> {
    if target.alias is Some {
        target.alias->Some_0@
    } else {
        called
    }
}

/// Whether an expression is `count(*)`.
pub open spec fn counts_star(expr: Expr) -> bool {
    &&& expr is Function
    &&& !expr->Function_distinct
    &&& !expr->Function_filter
    &&& expr->Function_name@.len() == 1
    &&& same_but_case(expr->Function_name@[0]@, "count"@)
    &&& expr->Function_args@.len() == 1
    &&& expr->Function_args@[0] is Star
    &&& expr->Function_args@[0]->qualifier == 0
    &&& expr->Function_args@[0]->replacements == 0
}

/// The column an aggregate of that name is of, where it is of one column and unfiltered.
pub open spec fn of_column(expr: Expr, function: Seq<char>, distinct: bool) -> Option<Seq<char>> {
    if expr is Function && expr->Function_distinct == distinct && !expr->Function_filter
        && expr->Function_name@.len() == 1 && same_but_case(expr->Function_name@[0]@, function)
        && expr->Function_args@.len() == 1 && expr->Function_args@[0] is Column
        && expr->Function_args@[0]->Column_name@.len() == 1 {
        Some(expr->Function_args@[0]->Column_name@[0]@)
    } else {
        None
    }
}

/// The column a filter tells from the number zero, whichever side it is on.
pub open spec fn tells_from_zero(filter: Expr) -> Option<Seq<char>> {
    if filter is Binary && filter->op is NotEq {
        let (left, right) = (*filter->left, *filter->right);
        if left is Column && left->Column_name@.len() == 1 && right is Literal && right->kind is Number
            && right->text@ == "0"@ {
            Some(left->Column_name@[0]@)
        } else if right is Column && right->Column_name@.len() == 1 && left is Literal
            && left->kind is Number && left->text@ == "0"@ {
            Some(right->Column_name@[0]@)
        } else {
            None
        }
    } else {
        None
    }
}

/// Where a file keeps what a plain aggregate asks for of a column it has, it answers: with a count
/// that is no more than a signed word counts to, with an average or a sum wherever the sum is kept,
/// and with the ends of a column of whole numbers or dates.
pub proof fn law_what_is_kept_is_answered(
    tables: Seq<StoredTable>,
    columns: Seq<Seq<Vector>>,
    ast: Ast,
    answer: Result<Option<QueryResult>, Error>,
)
    requires
        stores(tables, columns),
        answered_by(tables, ast, answer),
    ensures
        nonzero_shape(ast) matches Some((table, column, _)) ==> (column_place(tables, table, column)
            matches Some((t, f)) ==> (tables[t].columns@[f].nonzero matches Some(n) ==> (n
            <= 0x7fff_ffff_ffff_ffff ==> (answer is Ok && answer->Ok_0 is Some)))),
        average_shape(ast) matches Some((table, column, _)) ==> (column_place(tables, table, column)
            matches Some((t, f)) ==> (tables[t].columns@[f].sum is Some ==> (answer is Ok && answer->Ok_0 is Some))),
        distinct_shape(ast) matches Some((table, column, _)) ==> (column_place(tables, table, column)
            matches Some((t, f)) ==> (tables[t].columns@[f].distinct matches Some(n) ==> (n
            <= 0x7fff_ffff_ffff_ffff ==> (answer is Ok && answer->Ok_0 is Some)))),
        three_shape(ast) matches Some((table, summed, averaged, _)) ==> (column_place(
            tables,
            table,
            summed,
        ) matches Some((t, first)) ==> (column_place(tables, table, averaged) matches Some((_, second))
            ==> (tables[t].columns@[first].sum is Some && tables[t].columns@[second].sum is Some
            && tables[t].rows <= 0x7fff_ffff_ffff_ffff ==> (answer is Ok && answer->Ok_0 is Some)))),
        extrema_shape(ast) matches Some((table, column, _)) ==> (column_place(tables, table, column)
            matches Some((t, f)) ==> (tables[t].columns@[f].ends is Some && (
        tables[t].fields@[f].ty is TinyInt || tables[t].fields@[f].ty is SmallInt
            || tables[t].fields@[f].ty is Integer || tables[t].fields@[f].ty is BigInt
            || tables[t].fields@[f].ty is UTinyInt || tables[t].fields@[f].ty is USmallInt
            || tables[t].fields@[f].ty is UInteger || tables[t].fields@[f].ty is UBigInt
            || tables[t].fields@[f].ty is Date) ==> (answer is Ok && answer->Ok_0 is Some))),
{
    law_one_shape_at_most(ast);
    if let Some((table, column, _)) = extrema_shape(ast) {
        law_facts_are_those_of_the_named_column(tables, columns, table, column);
        if let Some((t, f)) = column_place(tables, table, column) {
            let rows = columns[t][f];
            let ty = tables[t].fields@[f].ty;
            assert(facts_at(tables, Some((table, column))) == Some((ty, tables[t].columns@[f])));
            assert(rows == column_at(tables, columns, table, column));
            if is_counted(ty) || ty is Date {
                if let Some(IntegerExtremes::Values { low, high }) = tables[t].columns@[f].ends {
                    let first = choose|row: int|
                        0 <= row < rows.len && number_of(#[trigger] rows.datum(row)) == Some(
                            low as int,
                        );
                    let last = choose|row: int|
                        0 <= row < rows.len && number_of(#[trigger] rows.datum(row)) == Some(
                            high as int,
                        );
                    lemma_typed(&rows, first);
                    lemma_typed(&rows, last);
                }
                crate::vector::laws::law_values_of_their_own_kind_are_never_refused(
                    ty,
                    seq![Datum::Null],
                );
            }
        }
    }
}

/// A column is found by its table's name and its own, whatever their case, the first of each that
/// matches, and not found where no table or no column of it matches.
pub proof fn law_a_column_is_found_by_its_names(
    tables: Seq<StoredTable>,
    table: Seq<char>,
    column: Seq<char>,
)
    ensures
        match column_place(tables, table, column) {
            Some((t, f)) => {
                &&& 0 <= t < tables.len()
                &&& same_but_case(tables[t].name@, table)
                &&& forall|u: int| 0 <= u < t ==> !same_but_case(#[trigger] tables[u].name@, table)
                &&& 0 <= f < tables[t].fields@.len()
                &&& same_but_case(tables[t].fields@[f].name@, column)
                &&& forall|g: int|
                    0 <= g < f ==> !same_but_case((#[trigger] tables[t].fields@[g]).name@, column)
                &&& facts_at(tables, Some((table, column))) == Some(
                    (tables[t].fields@[f].ty, tables[t].columns@[f]),
                )
            },
            None => {
                ||| forall|u: int| 0 <= u < tables.len() ==> !same_but_case(
                    #[trigger] tables[u].name@,
                    table,
                )
                ||| exists|t: int|
                    {
                        &&& 0 <= t < tables.len()
                        &&& same_but_case(#[trigger] tables[t].name@, table)
                        &&& forall|u: int| 0 <= u < t ==> !same_but_case(tables[u].name@, table)
                        &&& forall|g: int|
                            0 <= g < tables[t].fields@.len() ==> !same_but_case(
                                (#[trigger] tables[t].fields@[g]).name@,
                                column,
                            )
                    }
            },
        },
        facts_at(tables, None) is None,
{
    let names = stored_names(tables);
    lemma_first_is_first(names, table, 0);
    lemma_none_named(names, table, 0);
    match first_named(names, table, 0) {
        Some(t) => {
            let fields = field_names(tables[t].fields@);
            lemma_first_is_first(fields, column, 0);
            lemma_none_named(fields, column, 0);
            assert forall|u: int| 0 <= u < t implies !same_but_case(
                #[trigger] tables[u].name@,
                table,
            ) by {
                assert(names[u] == tables[u].name@);
            }
            assert(names[t] == tables[t].name@);
            match first_named(fields, column, 0) {
                Some(f) => {
                    assert forall|g: int| 0 <= g < f implies !same_but_case(
                        (#[trigger] tables[t].fields@[g]).name@,
                        column,
                    ) by {
                        assert(fields[g] == tables[t].fields@[g].name@);
                    }
                },
                None => {
                    assert forall|g: int| 0 <= g < tables[t].fields@.len() implies !same_but_case(
                        (#[trigger] tables[t].fields@[g]).name@,
                        column,
                    ) by {
                        assert(fields[g] == tables[t].fields@[g].name@);
                    }
                    assert(same_but_case(tables[t].name@, table));
                },
            }
        },
        None => {
            assert forall|u: int| 0 <= u < tables.len() implies !same_but_case(
                #[trigger] tables[u].name@,
                table,
            ) by {
                assert(names[u] == tables[u].name@);
            }
        },
    }
}

proof fn lemma_none_named(names: Seq<Seq<char>>, wanted: Seq<char>, from: nat)
    ensures
        first_named(names, wanted, from) is None ==> forall|i: int|
            from <= i < names.len() ==> !same_but_case(#[trigger] names[i], wanted),
    decreases names.len() - from,
{
    if from < names.len() {
        lemma_none_named(names, wanted, from + 1);
    }
}

/// A kept count is the count, as far as a signed word counts. The eight kinds of whole number of up
/// to 64 bits are counted, and a column of them is counted by value where it has few values or, where
/// that is not known, values close together.
pub proof fn law_what_is_counted_here(facts: ColumnFacts, count: u64, ty: LogicalType)
    ensures
        count <= 0x7fff_ffff_ffff_ffff ==> as_count(Some(count)) == Some(count as i64),
        count > 0x7fff_ffff_ffff_ffff ==> as_count(Some(count)) is None,
        as_count(None) is None,
        is_counted(ty) <==> (ty is TinyInt || ty is SmallInt || ty is Integer || ty is BigInt
            || ty is UTinyInt || ty is USmallInt || ty is UInteger || ty is UBigInt),
        facts.distinct matches Some(n) ==> (is_grouped_here(facts) <==> n <= 4096),
        facts.distinct is None && facts.ends is None ==> !is_grouped_here(facts),
        facts.distinct is None && facts.ends == Some(IntegerExtremes::Null) ==> !is_grouped_here(
            facts,
        ),
        facts.distinct is None ==> (facts.ends matches Some(IntegerExtremes::Values { low, high })
            ==> (is_grouped_here(facts) <==> 0 <= high - low <= 4096)),
{
}

/// A stored whole number is a value of its column's type where the type's range holds it, and the
/// ends of a column of nulls are null.
pub proof fn law_a_stored_number_is_a_value_of_its_type(ty: LogicalType, x: int)
    ensures
        match ty {
            LogicalType::TinyInt => -128 <= x <= 127 ==> integer_datum(ty, x) == Some(
                Datum::TinyInt(x as i8),
            ),
            LogicalType::SmallInt => -32768 <= x <= 32767 ==> integer_datum(ty, x) == Some(
                Datum::SmallInt(x as i16),
            ),
            LogicalType::Integer => -0x8000_0000 <= x <= 0x7fff_ffff ==> integer_datum(ty, x)
                == Some(Datum::Integer(x as i32)),
            LogicalType::BigInt => -0x8000_0000_0000_0000 <= x <= 0x7fff_ffff_ffff_ffff
                ==> integer_datum(ty, x) == Some(Datum::BigInt(x as i64)),
            LogicalType::UTinyInt => 0 <= x <= 255 ==> integer_datum(ty, x) == Some(
                Datum::UTinyInt(x as u8),
            ),
            LogicalType::USmallInt => 0 <= x <= 65535 ==> integer_datum(ty, x) == Some(
                Datum::USmallInt(x as u16),
            ),
            LogicalType::UInteger => 0 <= x <= 0xffff_ffff ==> integer_datum(ty, x) == Some(
                Datum::UInteger(x as u32),
            ),
            LogicalType::UBigInt => 0 <= x <= 0xffff_ffff_ffff_ffff ==> integer_datum(ty, x)
                == Some(Datum::UBigInt(x as u64)),
            LogicalType::Date => -0x8000_0000 <= x <= 0x7fff_ffff ==> integer_datum(ty, x) == Some(
                Datum::Date(x as i32),
            ),
            _ => true,
        },
        integer_datum(ty, x) matches Some(value) ==> counted_integer(value) == Some(x),
        end_datum(ty, IntegerExtremes::Null, true) == Some(Datum::Null),
        end_datum(ty, IntegerExtremes::Null, false) == Some(Datum::Null),
{
}

/// A whole number is counted as the number it is, and nothing else is counted.
pub proof fn law_a_number_is_counted_as_itself(value: Datum)
    ensures
        match value {
            Datum::TinyInt(x) => counted_integer(value) == Some(x as int),
            Datum::SmallInt(x) => counted_integer(value) == Some(x as int),
            Datum::Integer(x) => counted_integer(value) == Some(x as int),
            Datum::BigInt(x) => counted_integer(value) == Some(x as int),
            Datum::UTinyInt(x) => counted_integer(value) == Some(x as int),
            Datum::USmallInt(x) => counted_integer(value) == Some(x as int),
            Datum::UInteger(x) => counted_integer(value) == Some(x as int),
            Datum::UBigInt(x) => counted_integer(value) == Some(x as int),
            Datum::Date(x) => counted_integer(value) == Some(x as int),
            Datum::Null => counted_integer(value) is None && number_of(value) is None,
            Datum::Varchar(_) => counted_integer(value) is None && number_of(value) is None,
            Datum::Boolean(_) => counted_integer(value) is None,
            Datum::Float(_) => counted_integer(value) is None,
            Datum::Double(_) => counted_integer(value) is None,
            _ => true,
        },
        counted_integer(value) is Some ==> number_of(value) == counted_integer(value),
{
}

/// The rows of a column, laid out flat, that are a number.
pub open spec fn rows_that_are(column: Vector, value: int, count: nat) -> Set<int> {
    Set::new(|r: int| 0 <= r < count && counted_integer(flat_row(column, r)) == Some(value))
}

/// How often a number occurs in a part of a column is how many rows of it are that number, the nulls
/// left out. In a part that was counted already it is what the entries for that number come to.
pub proof fn law_a_number_occurs_as_often_as_rows_hold_it(column: Vector, value: int, count: nat)
    ensures
        rows_that_are(column, value, count).finite(),
        rows_of(column, value, count) == rows_that_are(column, value, count).len(),
        count == column.len ==> Part::Column(column).count_of(value) == rows_that_are(
            column,
            value,
            count,
        ).len(),
    decreases count,
{
    let rows = rows_that_are(column, value, count);
    if count == 0 {
        assert(rows =~= Set::empty());
    } else {
        let fewer = rows_that_are(column, value, (count - 1) as nat);
        law_a_number_occurs_as_often_as_rows_hold_it(column, value, (count - 1) as nat);
        if counted_integer(flat_row(column, count - 1)) == Some(value) {
            assert(rows =~= fewer.insert(count - 1));
        } else {
            assert(rows =~= fewer);
        }
    }
}

/// An entry of a part that was counted already counts for its own number and no other, and the
/// entries of such a part, and the parts of a column, add up.
pub proof fn law_counts_add_up(
    counts: Vec<(i128, u64)>,
    parts: Seq<Part>,
    part: Part,
    value: int,
)
    ensures
        counts@.len() == 0 ==> Part::Tallied(counts).count_of(value) == 0,
        counts@.len() == 1 ==> Part::Tallied(counts).count_of(value) == if counts@[0].0 == value {
            counts@[0].1 as nat
        } else {
            0
        },
        forall|n: nat|
            0 < n <= counts@.len() ==> #[trigger] tallied(counts@, value, n) == tallied(
                counts@,
                value,
                (n - 1) as nat,
            ) + tallied(seq![counts@[n - 1]], value, 1),
        Part::Tallied(counts).count_of(value) == tallied(counts@, value, counts@.len()),
        occurrences(seq![], value, 0) == 0,
        occurrences(parts.push(part), value, parts.len() + 1) == occurrences(
            parts,
            value,
            parts.len(),
        ) + part.count_of(value),
{
    assert forall|n: nat| 0 < n <= counts@.len() implies #[trigger] tallied(counts@, value, n)
        == tallied(counts@, value, (n - 1) as nat) + tallied(seq![counts@[n - 1]], value, 1) by {
        assert(tallied(seq![counts@[n - 1]], value, 0) == 0);
    }
    if counts@.len() == 1 {
        assert(tallied(counts@, value, 0) == 0);
    }
    lemma_same_occurrences(parts, parts.push(part), value, parts.len());
}

proof fn lemma_same_occurrences(left: Seq<Part>, right: Seq<Part>, value: int, count: nat)
    requires
        count <= left.len(),
        count <= right.len(),
        forall|i: int| 0 <= i < count ==> left[i] == right[i],
    ensures
        occurrences(left, value, count) == occurrences(right, value, count),
    decreases count,
{
    if count > 0 {
        lemma_same_occurrences(left, right, value, (count - 1) as nat);
    }
}

/// The groups of a count by value: every number but zero that occurs, each once, with how often it
/// occurs, the more often the earlier, and of those that occur as often the smaller the earlier.
pub proof fn law_groups_are_the_numbers_that_occur(
    groups: Seq<(i128, i64)>,
    parts: Seq<Part>,
    value: i128,
)
    requires
        groups_are(groups, parts),
    ensures
        forall|i: int|
            0 <= i < groups.len() ==> (#[trigger] groups[i]).0 != 0 && groups[i].1 > 0 && groups[i].1
                == occurrences(parts, groups[i].0 as int, parts.len()),
        value != 0 && occurrences(parts, value as int, parts.len()) > 0 ==> exists|i: int|
            0 <= i < groups.len() && (#[trigger] groups[i]).0 == value,
        forall|i: int, j: int|
            0 <= i < j < groups.len() ==> {
                ||| (#[trigger] groups[i]).1 > (#[trigger] groups[j]).1
                ||| groups[i].1 == groups[j].1 && groups[i].0 < groups[j].0
            },
        forall|i: int, j: int|
            0 <= i < j < groups.len() ==> (#[trigger] groups[i]).0 != (#[trigger] groups[j]).0,
{
    assert forall|i: int, j: int| 0 <= i < j < groups.len() implies (#[trigger] groups[i]).0 != (
    #[trigger] groups[j]).0 by {
        assert(ranks_before(groups[i], groups[j]));
    }
    assert forall|i: int, j: int| 0 <= i < j < groups.len() implies {
        ||| (#[trigger] groups[i]).1 > (#[trigger] groups[j]).1
        ||| groups[i].1 == groups[j].1 && groups[i].0 < groups[j].0
    } by {
        assert(ranks_before(groups[i], groups[j]));
    }
    if value != 0 && occurrences(parts, value as int, parts.len()) > 0 {
        assert(names(groups, value as int));
    }
}

/// The first part that does not count is the one that decides, and what decides is that it cannot be
/// laid out flat, or that it lays out as something that is no run of whole numbers.
pub proof fn law_the_first_part_that_does_not_count_decides(parts: Seq<Part>, at: int)
    requires
        0 <= at < parts.len(),
        forall|i: int| 0 <= i < at ==> (#[trigger] parts[i]) is Tallied,
    ensures
        parts[at] matches Part::Column(column) ==> {
            &&& flatten_failure(column) matches Some(failure) ==> first_stop(parts, 0) == Some(
                Some(failure),
            )
            &&& flatten_failure(column) is None && (column.ty is Varchar || column.ty is Boolean
                || column.ty is Double || column.ty is Float || column.ty is HugeInt)
                && column.wf() ==> first_stop(parts, 0) == Some(None::<crate::types::Failure>)
        },
        (forall|i: int| 0 <= i < parts.len() ==> (#[trigger] parts[i]) is Tallied) ==> first_stop(
            parts,
            0,
        ) is None,
{
    lemma_first_stop(parts, at, 0);
    if forall|i: int| 0 <= i < parts.len() ==> (#[trigger] parts[i]) is Tallied {
        lemma_no_stop(parts, 0);
    }
}

proof fn lemma_first_stop(parts: Seq<Part>, at: int, from: nat)
    requires
        from <= at < parts.len(),
        forall|i: int| from <= i < at ==> (#[trigger] parts[i]) is Tallied,
    ensures
        parts[at].stop() is Some ==> first_stop(parts, from) == parts[at].stop(),
    decreases at - from,
{
    if from < at {
        lemma_first_stop(parts, at, from + 1);
    }
}

proof fn lemma_no_stop(parts: Seq<Part>, from: nat)
    requires
        forall|i: int| 0 <= i < parts.len() ==> (#[trigger] parts[i]) is Tallied,
    ensures
        first_stop(parts, from) is None,
    decreases parts.len() - from,
{
    if from < parts.len() {
        lemma_no_stop(parts, from + 1);
    }
}

} // verus!
