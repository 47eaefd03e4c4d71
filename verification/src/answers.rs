//! What a statement that is answered by its words alone comes to over the rows it names, and what an
//! answer looks like.

use crate::database::{column_place, facts_at, Database};
use crate::facts::{
    column_at, is_greatest, is_least, law_facts_are_those_of_the_named_column, nonzero_in_rows,
    quotient_at, stores, sum_in, values_in, values_of,
};
use crate::native::{is_counted, NativeExtremaValues};
use crate::result::QueryResult;
use crate::shape::{
    average_shape, distinct_shape, extrema_shape, law_one_shape_at_most, nonzero_shape, three_shape,
    Ast,
};
use crate::statement::{average_in, distinct_in, extrema_in, nonzero_in, three_names_in};
use crate::types::Error;
use crate::vector::Vector;
use vstd::prelude::*;

verus! {

/// The count of the rows that are not zero is the count over the rows of the column of those names. It
/// is answered only for a column of whole numbers of up to 64 bits, and always where the file keeps
/// one that a signed word holds.
pub proof fn law_a_filtered_count_is_counted_over_the_rows(
    database: &Database,
    columns: Seq<Seq<Vector>>,
    sql: &str,
    table: Seq<char>,
    column: Seq<char>,
    count: Option<i64>,
)
    requires
        stores(database.tables@, columns),
        nonzero_in(sql@) == Some((table, column)),
        call_ensures(Database::query_native_nonzero_value_once, (database, sql), count),
    ensures
        ({
            let rows = column_at(database.tables@, columns, table, column);
            let kept = facts_at(database.tables@, Some((table, column)));
            &&& count is Some ==> column_place(database.tables@, table, column) is Some
                && count->Some_0 == nonzero_in_rows(rows, rows.len as nat) && is_counted(rows.ty)
            &&& kept is Some && is_counted((kept->Some_0).0) && (kept->Some_0).1.nonzero is Some
                && (kept->Some_0).1.nonzero->Some_0 <= 0x7fff_ffff_ffff_ffff ==> count is Some
        }),
{
    law_facts_are_those_of_the_named_column(database.tables@, columns, table, column);
}

/// The average is the quotient kept of the column of those names, and there is none where the rows
/// hold nothing to divide by.
pub proof fn law_an_average_is_kept_of_the_rows(
    database: &Database,
    columns: Seq<Seq<Vector>>,
    sql: &str,
    table: Seq<char>,
    column: Seq<char>,
    average: Option<u64>,
)
    requires
        stores(database.tables@, columns),
        average_in(sql@) == Some((table, column)),
        call_ensures(Database::query_native_average_value_once, (database, sql), average),
    ensures
        ({
            let rows = column_at(database.tables@, columns, table, column);
            let kept = facts_at(database.tables@, Some((table, column)));
            &&& average is Some ==> values_in(rows, rows.len as nat) > 0 && average->Some_0
                == quotient_at(database.tables@, table, column)
            &&& kept is Some && (kept->Some_0).1.sum is Some && values_in(rows, rows.len as nat) > 0
                ==> average is Some
        }),
{
    law_facts_are_those_of_the_named_column(database.tables@, columns, table, column);
}

/// The count of the distinct values is the count of those the rows of the column hold.
pub proof fn law_a_distinct_count_is_counted_over_the_rows(
    database: &Database,
    columns: Seq<Seq<Vector>>,
    sql: &str,
    table: Seq<char>,
    column: Seq<char>,
    count: Option<i64>,
)
    requires
        stores(database.tables@, columns),
        distinct_in(sql@) == Some((table, column)),
        call_ensures(Database::query_native_distinct_value_once, (database, sql), count),
    ensures
        ({
            let rows = column_at(database.tables@, columns, table, column);
            let kept = facts_at(database.tables@, Some((table, column)));
            &&& count is Some ==> count->Some_0 == values_of(rows, rows.len as nat).len()
            &&& kept is Some && (kept->Some_0).1.distinct is Some
                && (kept->Some_0).1.distinct->Some_0 <= 0x7fff_ffff_ffff_ffff ==> count is Some
        }),
{
    law_facts_are_those_of_the_named_column(database.tables@, columns, table, column);
}

/// The two ends are the least and the greatest number the rows of the column hold, as dates of a column
/// of dates and as whole numbers otherwise.
pub proof fn law_two_ends_are_those_of_the_rows(
    database: &Database,
    columns: Seq<Seq<Vector>>,
    sql: &str,
    table: Seq<char>,
    column: Seq<char>,
    bounds: Option<NativeExtremaValues>,
)
    requires
        stores(database.tables@, columns),
        extrema_in(sql@) == Some((table, column)),
        call_ensures(Database::query_native_extrema_values_once, (database, sql), bounds),
    ensures
        ({
            let rows = column_at(database.tables@, columns, table, column);
            match bounds {
                Some(NativeExtremaValues::Date { low, high }) => rows.ty is Date && is_least(
                    rows,
                    low as int,
                ) && is_greatest(rows, high as int),
                Some(NativeExtremaValues::Integer { low, high }) => !(rows.ty is Date) && is_least(
                    rows,
                    low as int,
                ) && is_greatest(rows, high as int),
                None => true,
            }
        }),
{
    law_facts_are_those_of_the_named_column(database.tables@, columns, table, column);
}

/// The sum, the count and the average are the sum of the first column, the rows of the table, and the
/// quotient kept of the second. A name the grammar keeps for itself is not answered.
pub proof fn law_three_summaries_are_those_of_the_rows(
    database: &Database,
    columns: Seq<Seq<Vector>>,
    sql: &str,
    table: Seq<char>,
    first: Seq<char>,
    second: Seq<char>,
    reserved: bool,
    values: Option<(i128, i64, u64)>,
)
    requires
        stores(database.tables@, columns),
        three_names_in(sql@) == Some((table, first, second)),
        call_ensures(Database::query_native_three_values_once, (database, sql, reserved), values),
    ensures
        ({
            let summed = column_at(database.tables@, columns, table, first);
            let averaged = column_at(database.tables@, columns, table, second);
            &&& reserved ==> values is None
            &&& values is Some ==> (values->Some_0).0 == sum_in(summed, summed.len as nat)
                && (values->Some_0).1 == summed.len && (values->Some_0).2 == quotient_at(
                database.tables@,
                table,
                second,
            ) && values_in(summed, summed.len as nat) > 0 && values_in(averaged, averaged.len as nat)
                > 0
        }),
{
    law_facts_are_those_of_the_named_column(database.tables@, columns, table, first);
    law_facts_are_those_of_the_named_column(database.tables@, columns, table, second);
}

/// An answer is one row under the titles its statement gives, of a count, of an average, of the two
/// ends as values of the column's own type, or of a sum, a count and an average.
pub proof fn law_an_answer_is_one_row_under_its_titles(
    database: &Database,
    ast: &Ast,
    answer: Result<Option<QueryResult>, Error>,
)
    requires
        call_ensures(Database::query_native_once, (database, ast), answer),
        answer is Ok,
        answer->Ok_0 is Some,
    ensures
        ({
            let result = answer->Ok_0->Some_0;
            &&& result.wf()
            &&& result.chunks@.len() == 1
            &&& result.chunks@[0].len == 1
            &&& nonzero_shape(*ast) is Some || average_shape(*ast) is Some || distinct_shape(
                *ast,
            ) is Some || extrema_shape(*ast) is Some || three_shape(*ast) is Some
            &&& nonzero_shape(*ast) is Some ==> result.names@.len() == 1 && result.names@[0]@ == (
            nonzero_shape(*ast)->Some_0).2 && result.types@[0] is BigInt && result.chunks@[0].cell(
                0,
                0,
            ) is BigInt
            &&& distinct_shape(*ast) is Some ==> result.names@.len() == 1 && result.names@[0]@ == (
            distinct_shape(*ast)->Some_0).2 && result.types@[0] is BigInt && result.chunks@[0].cell(
                0,
                0,
            ) is BigInt
            &&& average_shape(*ast) is Some ==> result.names@.len() == 1 && result.names@[0]@ == (
            average_shape(*ast)->Some_0).2 && result.types@[0] is Double
            &&& extrema_shape(*ast) is Some ==> result.names@.len() == 2 && result.names@[0]@ == (
            extrema_shape(*ast)->Some_0).2[0] && result.names@[1]@ == (extrema_shape(
                *ast,
            )->Some_0).2[1] && result.types@[0] == result.types@[1]
            &&& three_shape(*ast) is Some ==> result.names@.len() == 3 && result.names@[0]@ == (
            three_shape(*ast)->Some_0).3[0] && result.names@[1]@ == (three_shape(*ast)->Some_0).3[1]
                && result.names@[2]@ == (three_shape(*ast)->Some_0).3[2] && result.types@[0]
                is HugeInt && result.types@[1] is BigInt && result.types@[2] is Double
        }),
{
    law_one_shape_at_most(*ast);
}

} // verus!
