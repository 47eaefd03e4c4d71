//! Recognising the handful of statements that are answered without a parser.
//!
//! Each is a deliberately small shape of unquoted words. Anything with another clause, expression
//! or quoting rule is not recognised and goes through the regular parser instead.

use crate::scan::{
    before_space, ends_in, equal_but_case, is_plain_name, is_space,
    law_trimming_takes_off_white_space_alone, lowered, plain_name, same_but_case, split_words, trim,
    trimmed, words,
};
use crate::types::same_text;
use vstd::prelude::*;
use vstd::string::*;

verus! {

/// A statement without the white space round it and without one closing semicolon.
pub open spec fn statement_text(sql: Seq<char>) -> Seq<char> {
    let inner = trimmed(sql);
    if inner.len() > 0 && inner.last() == ';' {
        inner.subrange(0, before_space(inner, 0, inner.len() - 1))
    } else {
        inner
    }
}

/// The words of a statement.
pub open spec fn statement_words(sql: Seq<char>) -> Seq<Seq<char>> {
    words(statement_text(sql))
}

/// Whether a word starts with a prefix, whatever the case.
pub open spec fn starts(word: Seq<char>, prefix: Seq<char>) -> bool {
    word.len() >= prefix.len() && same_but_case(word.subrange(0, prefix.len() as int), prefix)
}

/// A call of a function of one argument, `f(x)`, and what follows it: the `x`.
///
/// `head` is the function's name and bracket, `tail` the closing bracket and what follows it.
pub open spec fn argument(word: Seq<char>, head: Seq<char>, tail: Seq<char>) -> Option<Seq<char>> {
    if starts(word, head) && word.len() >= head.len() + tail.len() && word.subrange(
        word.len() - tail.len(),
        word.len() as int,
    ) == tail {
        Some(word.subrange(head.len() as int, word.len() - tail.len()))
    } else {
        None
    }
}

/// The table and the column of `SELECT AVG(column) FROM table`.
pub open spec fn average_in(sql: Seq<char>) -> Option<(Seq<char>, Seq<char>)> {
    let w = statement_words(sql);
    if w.len() == 4 && same_but_case(w[0], "select"@) && same_but_case(w[2], "from"@) {
        match argument(w[1], "avg("@, ")"@) {
            Some(column) => if is_plain_name(column) && is_plain_name(w[3]) {
                Some((w[3], column))
            } else {
                None
            },
            None => None,
        }
    } else {
        None
    }
}

/// The table and the column of `SELECT COUNT(*) FROM table WHERE column <> 0`.
pub open spec fn nonzero_in(sql: Seq<char>) -> Option<(Seq<char>, Seq<char>)> {
    let w = statement_words(sql);
    if w.len() == 8 && same_but_case(w[0], "select"@) && same_but_case(w[1], "count(*)"@)
        && same_but_case(w[2], "from"@) && same_but_case(w[4], "where"@) && w[6] == "<>"@ && w[7]
        == "0"@ && is_plain_name(w[3]) && is_plain_name(w[5]) {
        Some((w[3], w[5]))
    } else {
        None
    }
}

/// The table and the column of `SELECT COUNT(DISTINCT column) FROM table`.
pub open spec fn distinct_in(sql: Seq<char>) -> Option<(Seq<char>, Seq<char>)> {
    let w = statement_words(sql);
    if w.len() == 5 && same_but_case(w[0], "select"@) && same_but_case(w[1], "count(distinct"@)
        && same_but_case(w[3], "from"@) {
        match argument(w[2], ""@, ")"@) {
            Some(column) => if is_plain_name(column) && is_plain_name(w[4]) {
                Some((w[4], column))
            } else {
                None
            },
            None => None,
        }
    } else {
        None
    }
}

/// The table and the column of `SELECT MIN(column), MAX(column) FROM table`.
pub open spec fn extrema_in(sql: Seq<char>) -> Option<(Seq<char>, Seq<char>)> {
    let w = statement_words(sql);
    if w.len() == 5 && same_but_case(w[0], "select"@) && same_but_case(w[3], "from"@)
        && is_plain_name(w[4]) {
        match (argument(w[1], "min("@, "),"@), argument(w[2], "max("@, ")"@)) {
            (Some(column), Some(other)) => if is_plain_name(column) && same_but_case(column, other) {
                Some((w[4], column))
            } else {
                None
            },
            _ => None,
        }
    } else {
        None
    }
}

/// The table, the summed column and the averaged column of
/// `SELECT SUM(column), COUNT(*), AVG(column) FROM table`.
pub open spec fn three_names_in(sql: Seq<char>) -> Option<(Seq<char>, Seq<char>, Seq<char>)> {
    let w = statement_words(sql);
    if w.len() == 6 && same_but_case(w[0], "select"@) && same_but_case(w[2], "count(*),"@)
        && same_but_case(w[4], "from"@) && is_plain_name(w[5]) {
        match (argument(w[1], "sum("@, "),"@), argument(w[3], "avg("@, ")"@)) {
            (Some(summed), Some(averaged)) => if is_plain_name(summed) && is_plain_name(averaged) {
                Some((w[5], summed, averaged))
            } else {
                None
            },
            _ => None,
        }
    } else {
        None
    }
}

/// The same, where the grammar keeps none of the three names for itself.
pub open spec fn three_in(sql: Seq<char>, reserved: bool) -> Option<
    (Seq<char>, Seq<char>, Seq<char>),
> {
    if reserved {
        None
    } else {
        three_names_in(sql)
    }
}

/// The table and the key of `SELECT key, COUNT(*) FROM table WHERE key <> 0 GROUP BY key ORDER BY
/// COUNT(*) DESC`.
pub open spec fn group_names_in(sql: Seq<char>) -> Option<(Seq<char>, Seq<char>)> {
    let w = statement_words(sql);
    if w.len() == 16 && same_but_case(w[0], "select"@) && same_but_case(w[2], "count(*)"@)
        && same_but_case(w[3], "from"@) && same_but_case(w[5], "where"@) && w[7] == "<>"@ && w[8]
        == "0"@ && same_but_case(w[9], "group"@) && same_but_case(w[10], "by"@) && same_but_case(
        w[12],
        "order"@,
    ) && same_but_case(w[13], "by"@) && same_but_case(w[14], "count(*)"@) && same_but_case(
        w[15],
        "desc"@,
    ) && is_plain_name(w[4]) {
        match argument(w[1], ""@, ","@) {
            Some(key) => if is_plain_name(key) && same_but_case(w[6], key) && same_but_case(
                w[11],
                key,
            ) {
                Some((w[4], key))
            } else {
                None
            },
            None => None,
        }
    } else {
        None
    }
}

/// The same, where the grammar keeps neither of the two names for itself.
pub open spec fn group_count_in(sql: Seq<char>, reserved: bool) -> Option<(Seq<char>, Seq<char>)> {
    if reserved {
        None
    } else {
        group_names_in(sql)
    }
}

/// The words of a statement.
fn words_of(sql: &str) -> (found: Vec<&str>)
    ensures
        found@.len() == statement_words(sql@).len(),
        forall|i: int|
            0 <= i < found@.len() ==> (#[trigger] found@[i])@ == statement_words(sql@)[i],
{
    let inner = trim(sql);
    if !ends_in(inner, ';') {
        return split_words(inner);
    }
    let len: usize = inner.unicode_len();
    let mut to: usize = len - 1;
    while to > 0 && crate::scan::space(inner.get_char(to - 1))
        invariant
            to < len,
            len == inner@.len(),
            before_space(inner@, 0, len - 1) == before_space(inner@, 0, to as int),
        decreases to,
    {
        to -= 1;
    }
    split_words(inner.substring_char(0, to))
}

/// The argument of a call of a function of one argument.
fn argument_of<'a>(word: &'a str, head: &str, tail: &str) -> (found: Option<&'a str>)
    ensures
        match found {
            Some(found) => argument(word@, head@, tail@) == Some(found@),
            None => argument(word@, head@, tail@) is None,
        },
{
    let len: usize = word.unicode_len();
    let before: usize = head.unicode_len();
    let after: usize = tail.unicode_len();
    if before > len || after > len - before {
        return None;
    }
    if !equal_but_case(word.substring_char(0, before), head) || !same_text(
        word.substring_char(len - after, len),
        tail,
    ) {
        return None;
    }
    Some(word.substring_char(before, len - after))
}

/// Whether a text is a name that needs no quotes.
pub fn native_simple_identifier(text: &str) -> (yes: bool)
    ensures
        yes == is_plain_name(text@),
{
    plain_name(text)
}

/// Whether a bare name can stand where the grammar wants one, which a word the grammar keeps for
/// itself cannot.
pub fn native_simple_unquoted_identifier(text: &str, reserved: bool) -> (yes: bool)
    ensures
        yes == (is_plain_name(text@) && !reserved),
{
    plain_name(text) && !reserved
}

/// The table and the column of a single unquoted average.
pub fn native_simple_average_statement(sql: &str) -> (found: Option<(&str, &str)>)
    ensures
        match found {
            Some((table, column)) => average_in(sql@) == Some((table@, column@)),
            None => average_in(sql@) is None,
        },
{
    let w = words_of(sql);
    if w.len() != 4 || !equal_but_case(w[0], "select") || !equal_but_case(w[2], "from") {
        return None;
    }
    match argument_of(w[1], "avg(", ")") {
        Some(column) => if plain_name(column) && plain_name(w[3]) {
            Some((w[3], column))
        } else {
            None
        },
        None => None,
    }
}

/// The table and the column of an unquoted count filtered by a nonzero integer column.
pub fn native_simple_nonzero_statement(sql: &str) -> (found: Option<(&str, &str)>)
    ensures
        match found {
            Some((table, column)) => nonzero_in(sql@) == Some((table@, column@)),
            None => nonzero_in(sql@) is None,
        },
{
    let w = words_of(sql);
    if w.len() == 8 && equal_but_case(w[0], "select") && equal_but_case(w[1], "count(*)")
        && equal_but_case(w[2], "from") && equal_but_case(w[4], "where") && same_text(w[6], "<>")
        && same_text(w[7], "0") && plain_name(w[3]) && plain_name(w[5]) {
        Some((w[3], w[5]))
    } else {
        None
    }
}

/// The table and the column of a single unquoted count of distinct values.
pub fn native_simple_distinct_statement(sql: &str) -> (found: Option<(&str, &str)>)
    ensures
        match found {
            Some((table, column)) => distinct_in(sql@) == Some((table@, column@)),
            None => distinct_in(sql@) is None,
        },
{
    let w = words_of(sql);
    if w.len() != 5 || !equal_but_case(w[0], "select") || !equal_but_case(w[1], "count(distinct")
        || !equal_but_case(w[3], "from") {
        return None;
    }
    match argument_of(w[2], "", ")") {
        Some(column) => if plain_name(column) && plain_name(w[4]) {
            Some((w[4], column))
        } else {
            None
        },
        None => None,
    }
}

/// The table and the column of one unquoted minimum and maximum of the same column.
pub fn native_simple_extrema_statement(sql: &str) -> (found: Option<(&str, &str)>)
    ensures
        match found {
            Some((table, column)) => extrema_in(sql@) == Some((table@, column@)),
            None => extrema_in(sql@) is None,
        },
{
    let w = words_of(sql);
    if w.len() != 5 || !equal_but_case(w[0], "select") || !equal_but_case(w[3], "from")
        || !plain_name(w[4]) {
        return None;
    }
    match (argument_of(w[1], "min(", "),"), argument_of(w[2], "max(", ")")) {
        (Some(column), Some(other)) => if plain_name(column) && equal_but_case(column, other) {
            Some((w[4], column))
        } else {
            None
        },
        _ => None,
    }
}

/// The table and the two columns of an unquoted sum, count and average, given whether the grammar
/// keeps one of the three names for itself.
pub fn native_simple_three_statement(sql: &str, reserved: bool) -> (found: Option<
    (&str, &str, &str),
>)
    ensures
        match found {
            Some((table, summed, averaged)) => three_in(sql@, reserved) == Some(
                (table@, summed@, averaged@),
            ),
            None => three_in(sql@, reserved) is None,
        },
{
    if reserved {
        return None;
    }
    native_simple_three_names(sql)
}

/// The three names of an unquoted sum, count and average, for the grammar to be asked of: the table
/// and the two columns.
pub fn native_simple_three_names(sql: &str) -> (found: Option<(&str, &str, &str)>)
    ensures
        match found {
            Some((table, summed, averaged)) => three_names_in(sql@) == Some(
                (table@, summed@, averaged@),
            ),
            None => three_names_in(sql@) is None,
        },
{
    let w = words_of(sql);
    if w.len() != 6 || !equal_but_case(w[0], "select") || !equal_but_case(w[2], "count(*),")
        || !equal_but_case(w[4], "from") || !plain_name(w[5]) {
        return None;
    }
    match (argument_of(w[1], "sum(", "),"), argument_of(w[3], "avg(", ")")) {
        (Some(summed), Some(averaged)) => if plain_name(summed)
            && plain_name(averaged) {
            Some((w[5], summed, averaged))
        } else {
            None
        },
        _ => None,
    }
}

/// The table and the key of a single numeric key grouped by its nonzero values, given whether the
/// grammar keeps one of the two names for itself.
pub fn native_simple_group_count_statement(sql: &str, reserved: bool) -> (found: Option<
    (&str, &str),
>)
    ensures
        match found {
            Some((table, key)) => group_count_in(sql@, reserved) == Some((table@, key@)),
            None => group_count_in(sql@, reserved) is None,
        },
{
    if reserved {
        return None;
    }
    native_simple_group_count_names(sql)
}

/// The two names of a single numeric key grouped by its nonzero values, for the grammar to be asked
/// of: the table and the key.
pub fn native_simple_group_count_names(sql: &str) -> (found: Option<(&str, &str)>)
    ensures
        match found {
            Some((table, key)) => group_names_in(sql@) == Some((table@, key@)),
            None => group_names_in(sql@) is None,
        },
{
    let w = words_of(sql);
    if w.len() != 16 || !equal_but_case(w[0], "select") || !equal_but_case(w[2], "count(*)")
        || !equal_but_case(w[3], "from") || !equal_but_case(w[5], "where") || !same_text(
        w[7],
        "<>",
    ) || !same_text(w[8], "0") || !equal_but_case(w[9], "group") || !equal_but_case(w[10], "by")
        || !equal_but_case(w[12], "order") || !equal_but_case(w[13], "by") || !equal_but_case(
        w[14],
        "count(*)",
    ) || !equal_but_case(w[15], "desc") || !plain_name(w[4]) {
        return None;
    }
    match argument_of(w[1], "", ",") {
        Some(key) => if plain_name(key) && equal_but_case(w[6], key)
            && equal_but_case(w[11], key) {
            Some((w[4], key))
        } else {
            None
        },
        None => None,
    }
}

/// A statement is what stands between the white space round it, without one closing semicolon and the
/// white space before that.
pub proof fn law_a_statement_loses_one_semicolon(
    before: Seq<char>,
    inner: Seq<char>,
    between: Seq<char>,
    after: Seq<char>,
)
    requires
        forall|i: int| 0 <= i < before.len() ==> is_space(#[trigger] before[i]),
        forall|i: int| 0 <= i < between.len() ==> is_space(#[trigger] between[i]),
        forall|i: int| 0 <= i < after.len() ==> is_space(#[trigger] after[i]),
        inner.len() > 0,
        !is_space(inner[0]),
        !is_space(inner.last()),
    ensures
        inner.last() != ';' ==> statement_text(before + inner + after) == inner,
        statement_text(before + inner + between + seq![';'] + after) == inner,
{
    lemma_trims(before, inner, after);
    let closed = inner + between + seq![';'];
    assert(closed[0] == inner[0]);
    assert(closed.last() == ';');
    assert(before + inner + between + seq![';'] + after =~= before + closed + after);
    lemma_trims(before, closed, after);
    assert forall|i: int| inner.len() <= i < closed.len() - 1 implies is_space(
        #[trigger] closed[i],
    ) by {
        assert(closed[i] == between[i - inner.len()]);
    }
    assert(closed[inner.len() - 1] == inner.last());
    lemma_before(closed, inner.len() as int, closed.len() - 1);
    assert(closed.subrange(0, inner.len() as int) =~= inner);
}

proof fn lemma_before(text: Seq<char>, stop: int, to: int)
    requires
        0 < stop <= to <= text.len(),
        forall|i: int| stop <= i < to ==> is_space(#[trigger] text[i]),
        !is_space(text[stop - 1]),
    ensures
        before_space(text, 0, to) == stop,
    decreases to - stop,
{
    if stop < to {
        lemma_before(text, stop, to - 1);
    }
}

proof fn lemma_trims(before: Seq<char>, inner: Seq<char>, after: Seq<char>)
    requires
        forall|i: int| 0 <= i < before.len() ==> is_space(#[trigger] before[i]),
        forall|i: int| 0 <= i < after.len() ==> is_space(#[trigger] after[i]),
        inner.len() > 0,
        !is_space(inner[0]),
        !is_space(inner.last()),
    ensures
        trimmed(before + inner + after) == inner,
{
    let text = before + inner + after;
    let (from, to) = law_trimming_takes_off_white_space_alone(text);
    let start = before.len() as int;
    let stop = start + inner.len();
    assert(text[start] == inner[0]);
    assert(text[stop - 1] == inner.last());
    assert(from <= start < to);
    assert(from <= stop - 1 < to);
    if from < start {
        assert(text[from] == before[from]);
    }
    if to > stop {
        assert(text[to - 1] == after[to - 1 - stop]);
    }
    assert(text.subrange(start, stop) =~= inner);
}

/// A statement is recognised as an average exactly where its words are `SELECT`, `AVG(` a column and
/// `)`, `FROM` and a table, but for case, and both names are plain.
pub proof fn law_an_average_is_its_four_words(sql: Seq<char>, table: Seq<char>, column: Seq<char>)
    ensures
        average_in(sql) == Some((table, column)) <==> ({
            let w = statement_words(sql);
            &&& w.len() == 4
            &&& same_but_case(w[0], "select"@)
            &&& w[1].len() == column.len() + 5
            &&& same_but_case(w[1].subrange(0, 4), "avg("@)
            &&& w[1].subrange(4, w[1].len() - 1) == column
            &&& w[1].last() == ')'
            &&& same_but_case(w[2], "from"@)
            &&& w[3] == table
            &&& is_plain_name(table)
            &&& is_plain_name(column)
        }),
{
    reveal_strlit("avg(");
    reveal_strlit(")");
    let w = statement_words(sql);
    if w.len() == 4 {
        lemma_tail(w[1], ')');
    }
}

/// The last character of a word, as the text of it.
proof fn lemma_tail(word: Seq<char>, c: char)
    ensures
        word.len() > 0 ==> (word.subrange(word.len() - 1, word.len() as int) == seq![c] <==> word.last()
            == c),
        ")"@ == seq![')'],
        ","@ == seq![','],
        "),"@ == seq![')', ','],
        ""@ == Seq::<char>::empty(),
{
    reveal_strlit(")");
    reveal_strlit(",");
    reveal_strlit("),");
    reveal_strlit("");
    assert(")"@ =~= seq![')']);
    assert(","@ =~= seq![',']);
    assert("),"@ =~= seq![')', ',']);
    assert(""@ =~= Seq::<char>::empty());
    if word.len() > 0 {
        let tail = word.subrange(word.len() - 1, word.len() as int);
        if word.last() == c {
            assert(tail =~= seq![c]);
        }
        if tail == seq![c] {
            assert(tail[0] == c);
        }
    }
}

proof fn lemma_tail_of_two(word: Seq<char>)
    ensures
        word.len() > 1 ==> (word.subrange(word.len() - 2, word.len() as int) == seq![')', ',']
            <==> word[word.len() - 2] == ')' && word.last() == ','),
        word.subrange(0, 0) == Seq::<char>::empty(),
{
    assert(word.subrange(0, 0) =~= Seq::<char>::empty());
    if word.len() > 1 {
        let tail = word.subrange(word.len() - 2, word.len() as int);
        if word[word.len() - 2] == ')' && word.last() == ',' {
            assert(tail =~= seq![')', ',']);
        }
        if tail == seq![')', ','] {
            assert(tail[0] == ')' && tail[1] == ',');
        }
    }
}

/// A statement is recognised as a filtered count exactly where its words are `SELECT`, `COUNT(*)`,
/// `FROM`, a table, `WHERE`, a column, `<>` and `0`, but for case, and both names are plain.
pub proof fn law_a_filtered_count_is_its_eight_words(
    sql: Seq<char>,
    table: Seq<char>,
    column: Seq<char>,
)
    ensures
        nonzero_in(sql) == Some((table, column)) <==> ({
            let w = statement_words(sql);
            &&& w.len() == 8
            &&& same_but_case(w[0], "select"@)
            &&& same_but_case(w[1], "count(*)"@)
            &&& same_but_case(w[2], "from"@)
            &&& w[3] == table
            &&& same_but_case(w[4], "where"@)
            &&& w[5] == column
            &&& w[6] == "<>"@
            &&& w[7] == "0"@
            &&& is_plain_name(table)
            &&& is_plain_name(column)
        }),
{
}

/// A statement is recognised as a count of distinct values exactly where its words are `SELECT`,
/// `COUNT(DISTINCT`, a column and `)`, `FROM` and a table, but for case, and both names are plain.
pub proof fn law_a_distinct_count_is_its_five_words(
    sql: Seq<char>,
    table: Seq<char>,
    column: Seq<char>,
)
    ensures
        distinct_in(sql) == Some((table, column)) <==> ({
            let w = statement_words(sql);
            &&& w.len() == 5
            &&& same_but_case(w[0], "select"@)
            &&& same_but_case(w[1], "count(distinct"@)
            &&& w[2].len() == column.len() + 1
            &&& w[2].subrange(0, w[2].len() - 1) == column
            &&& w[2].last() == ')'
            &&& same_but_case(w[3], "from"@)
            &&& w[4] == table
            &&& is_plain_name(table)
            &&& is_plain_name(column)
        }),
{
    let w = statement_words(sql);
    if w.len() == 5 {
        lemma_tail(w[2], ')');
        lemma_tail_of_two(w[2]);
    }
}

/// A statement is recognised as the two ends of a column exactly where its words are `SELECT`,
/// `MIN(` a column and `),`, `MAX(` the same column and `)`, `FROM` and a table, but for case, and
/// both names are plain. The column of the answer is as the first of the two is written.
pub proof fn law_two_ends_are_their_five_words(sql: Seq<char>, table: Seq<char>, column: Seq<char>)
    ensures
        extrema_in(sql) == Some((table, column)) <==> ({
            let w = statement_words(sql);
            &&& w.len() == 5
            &&& same_but_case(w[0], "select"@)
            &&& w[1].len() == column.len() + 6
            &&& same_but_case(w[1].subrange(0, 4), "min("@)
            &&& w[1].subrange(4, w[1].len() - 2) == column
            &&& w[1][w[1].len() - 2] == ')'
            &&& w[1].last() == ','
            &&& w[2].len() == column.len() + 5
            &&& same_but_case(w[2].subrange(0, 4), "max("@)
            &&& same_but_case(column, w[2].subrange(4, w[2].len() - 1))
            &&& w[2].last() == ')'
            &&& same_but_case(w[3], "from"@)
            &&& w[4] == table
            &&& is_plain_name(table)
            &&& is_plain_name(column)
        }),
{
    reveal_strlit("min(");
    reveal_strlit("max(");
    let w = statement_words(sql);
    if w.len() == 5 {
        lemma_tail(w[2], ')');
        lemma_tail_of_two(w[1]);
        if w[2].len() >= 5 {
            crate::scan::law_only_letters_have_a_case(column, w[2].subrange(4, w[2].len() - 1));
        }
    }
}

/// A statement is recognised as a sum, a row count and an average exactly where its words are
/// `SELECT`, `SUM(` a column and `),`, `COUNT(*),`, `AVG(` a column and `)`, `FROM` and a table, but
/// for case, its names are plain, and the grammar keeps none of them for itself.
pub proof fn law_a_sum_a_count_and_an_average_are_their_six_words(
    sql: Seq<char>,
    reserved: bool,
    table: Seq<char>,
    summed: Seq<char>,
    averaged: Seq<char>,
)
    ensures
        three_in(sql, reserved) == Some((table, summed, averaged)) <==> ({
            let w = statement_words(sql);
            &&& !reserved
            &&& w.len() == 6
            &&& same_but_case(w[0], "select"@)
            &&& w[1].len() == summed.len() + 6
            &&& same_but_case(w[1].subrange(0, 4), "sum("@)
            &&& w[1].subrange(4, w[1].len() - 2) == summed
            &&& w[1][w[1].len() - 2] == ')'
            &&& w[1].last() == ','
            &&& same_but_case(w[2], "count(*),"@)
            &&& w[3].len() == averaged.len() + 5
            &&& same_but_case(w[3].subrange(0, 4), "avg("@)
            &&& w[3].subrange(4, w[3].len() - 1) == averaged
            &&& w[3].last() == ')'
            &&& same_but_case(w[4], "from"@)
            &&& w[5] == table
            &&& is_plain_name(table)
            &&& is_plain_name(summed)
            &&& is_plain_name(averaged)
        }),
        three_names_in(sql) == three_in(sql, false),
{
    reveal_strlit("sum(");
    reveal_strlit("avg(");
    let w = statement_words(sql);
    if w.len() == 6 {
        lemma_tail(w[3], ')');
        lemma_tail_of_two(w[1]);
    }
}

/// A statement is recognised as a count by value exactly where its words are `SELECT`, the key and a
/// comma, `COUNT(*)`, `FROM`, a table, `WHERE`, the key, `<>`, `0`, `GROUP`, `BY`, the key, `ORDER`,
/// `BY`, `COUNT(*)` and `DESC`, but for case, with the same key in all three places, its names are
/// plain, and the grammar keeps neither of them for itself.
pub proof fn law_a_count_by_value_is_its_sixteen_words(
    sql: Seq<char>,
    reserved: bool,
    table: Seq<char>,
    key: Seq<char>,
)
    ensures
        group_count_in(sql, reserved) == Some((table, key)) <==> ({
            let w = statement_words(sql);
            &&& !reserved
            &&& w.len() == 16
            &&& same_but_case(w[0], "select"@)
            &&& w[1].len() == key.len() + 1
            &&& w[1].subrange(0, w[1].len() - 1) == key
            &&& w[1].last() == ','
            &&& same_but_case(w[2], "count(*)"@)
            &&& same_but_case(w[3], "from"@)
            &&& w[4] == table
            &&& same_but_case(w[5], "where"@)
            &&& same_but_case(w[6], key)
            &&& w[7] == "<>"@
            &&& w[8] == "0"@
            &&& same_but_case(w[9], "group"@)
            &&& same_but_case(w[10], "by"@)
            &&& same_but_case(w[11], key)
            &&& same_but_case(w[12], "order"@)
            &&& same_but_case(w[13], "by"@)
            &&& same_but_case(w[14], "count(*)"@)
            &&& same_but_case(w[15], "desc"@)
            &&& is_plain_name(table)
            &&& is_plain_name(key)
        }),
        group_names_in(sql) == group_count_in(sql, false),
{
    let w = statement_words(sql);
    if w.len() == 16 {
        lemma_tail(w[1], ',');
        lemma_tail_of_two(w[1]);
    }
}

/// No statement is recognised as two of these.
pub proof fn law_a_statement_is_recognised_as_one_thing(sql: Seq<char>)
    ensures
        average_in(sql) is Some ==> nonzero_in(sql) is None && distinct_in(sql) is None && extrema_in(
            sql,
        ) is None && three_names_in(sql) is None && group_names_in(sql) is None,
        nonzero_in(sql) is Some ==> distinct_in(sql) is None && extrema_in(sql) is None
            && three_names_in(sql) is None && group_names_in(sql) is None,
        distinct_in(sql) is Some ==> extrema_in(sql) is None && three_names_in(sql) is None
            && group_names_in(sql) is None,
        extrema_in(sql) is Some ==> three_names_in(sql) is None && group_names_in(sql) is None,
        three_names_in(sql) is Some ==> group_names_in(sql) is None,
{
    let w = statement_words(sql);
    if distinct_in(sql) is Some && extrema_in(sql) is Some {
        reveal_strlit("count(distinct");
        reveal_strlit("min(");
        assert(lowered(w[1]).len() == lowered("count(distinct"@).len());
        assert(lowered(w[1])[0] == lowered("count(distinct"@)[0]);
        assert(lowered(w[1].subrange(0, 4))[0] == lowered("min("@)[0]);
        assert(w[1].subrange(0, 4)[0] == w[1][0]);
    }
}

} // verus!
