//! Recognising, in a parsed statement, the aggregates a stored synopsis answers exactly.
//!
//! Every clause a shape does not understand belongs to the regular binder, so each is strict.

use crate::scan::{equal_but_case, same_but_case};
use crate::types::same_text;
use vstd::prelude::*;
use vstd::string::*;

verus! {

/// What was parsed: the statements, in order.
#[derive(Debug)]
pub struct Ast {
    pub statements: Vec<Statement>,
}

#[derive(Debug)]
pub enum Statement {
    Query(Query),
    Other,
}

/// A query and what stands round its body. Clauses nothing here reads into are counted or flagged.
#[derive(Debug)]
pub struct Query {
    pub ctes: usize,
    pub order_by: usize,
    pub order_by_all: bool,
    pub limit: bool,
    pub offset: bool,
    pub limit_percent: bool,
    pub body: QueryBody,
}

#[derive(Debug)]
pub enum QueryBody {
    Select(Select),
    Other,
}

#[derive(Debug, Clone, Copy, PartialEq, Eq, Structural)]
pub enum Distinct {
    No,
    Rows,
    On,
}

#[derive(Debug)]
pub struct Select {
    pub distinct: Distinct,
    pub targets: Vec<Target>,
    pub from: Vec<Source>,
    pub filter: Option<Expr>,
    pub group_by: usize,
    pub group_by_all: bool,
    pub having: bool,
}

#[derive(Debug)]
pub struct Target {
    pub expr: Expr,
    pub alias: Option<String>,
}

#[derive(Debug)]
pub enum Source {
    Table { name: Vec<String>, alias: bool, columns: usize },
    Other,
}

#[derive(Debug, Clone, Copy, PartialEq, Eq, Structural)]
pub enum LiteralKind {
    Number,
    Text,
    Other,
}

#[derive(Debug, Clone, Copy, PartialEq, Eq, Structural)]
pub enum BinaryOp {
    NotEq,
    Other,
}

#[derive(Debug)]
pub enum Expr {
    Function { name: Vec<String>, args: Vec<Expr>, distinct: bool, filter: bool },
    Column { name: Vec<String> },
    Star { qualifier: usize, replacements: usize },
    Literal { kind: LiteralKind, text: String },
    Binary { op: BinaryOp, left: Box<Expr>, right: Box<Expr> },
    Other,
}

/// The select of a lone statement that is a query of it and nothing else: no common tables, no
/// order, no limit, no distinct rows and no groups.
pub open spec fn lone_select(ast: Ast) -> Option<Select> {
    if ast.statements@.len() != 1 {
        None
    } else {
        match ast.statements@[0] {
            Statement::Query(query) => match query.body {
                QueryBody::Select(select) => if query.ctes == 0 && query.order_by == 0
                    && !query.order_by_all && !query.limit && !query.offset && !query.limit_percent
                    && select.distinct is No && select.group_by == 0 && !select.group_by_all
                    && !select.having {
                    Some(select)
                } else {
                    None
                },
                QueryBody::Other => None,
            },
            Statement::Other => None,
        }
    }
}

/// The one table a select reads, named by one name and no other.
pub open spec fn lone_table(select: Select) -> Option<Seq<char>> {
    if select.from@.len() != 1 {
        None
    } else {
        match select.from@[0] {
            Source::Table { name, alias, columns } => if !alias && columns == 0 && name@.len()
                == 1 {
                Some(name@[0]@)
            } else {
                None
            },
            Source::Other => None,
        }
    }
}

/// The name of a column named by one name.
pub open spec fn column_named(expr: Expr) -> Option<Seq<char>> {
    match expr {
        Expr::Column { name } => if name@.len() == 1 {
            Some(name@[0]@)
        } else {
            None
        },
        _ => None,
    }
}

/// The arguments of an unfiltered call of a function of that name.
pub open spec fn call_of(expr: Expr, function: Seq<char>, of_distinct: bool) -> Option<Seq<Expr>> {
    match expr {
        Expr::Function { name, args, distinct, filter } => if distinct == of_distinct && !filter
            && name@.len() == 1 && same_but_case(name@[0]@, function) {
            Some(args@)
        } else {
            None
        },
        _ => None,
    }
}

/// The column of an aggregate of one column.
pub open spec fn aggregated(expr: Expr, function: Seq<char>, of_distinct: bool) -> Option<
    Seq<char>,
> {
    match call_of(expr, function, of_distinct) {
        Some(args) => if args.len() == 1 {
            column_named(args[0])
        } else {
            None
        },
        None => None,
    }
}

/// Whether an expression counts rows: `count(*)` with nothing qualified or replaced.
pub open spec fn counts_rows(expr: Expr) -> bool {
    call_of(expr, "count"@, false) matches Some(args) && args.len() == 1 && (
    args[0] matches Expr::Star { qualifier, replacements } && qualifier == 0 && replacements == 0)
}

/// What a target's column is called: its alias, or a title of its own.
pub open spec fn titled(target: Target, title: Seq<char>) -> Seq<char> {
    match target.alias {
        Some(alias) => alias@,
        None => title,
    }
}

/// The column a filter compares with zero, from whichever side it is written.
pub open spec fn nonzero_filter(filter: Expr) -> Option<Seq<char>> {
    match filter {
        Expr::Binary { op, left, right } => if op is NotEq {
            match (*left, *right) {
                (Expr::Column { .. }, Expr::Literal { kind, text }) => if kind is Number && text@
                    == "0"@ {
                    column_named(*left)
                } else {
                    None
                },
                (Expr::Literal { kind, text }, Expr::Column { .. }) => if kind is Number && text@
                    == "0"@ {
                    column_named(*right)
                } else {
                    None
                },
                _ => None,
            }
        } else {
            None
        },
        _ => None,
    }
}

/// `SELECT count(*) FROM table WHERE column <> 0`: the table, the column and the title.
pub open spec fn nonzero_shape(ast: Ast) -> Option<(Seq<char>, Seq<char>, Seq<char>)> {
    match lone_select(ast) {
        Some(select) => match (lone_table(select), select.filter) {
            (Some(table), Some(filter)) => match nonzero_filter(filter) {
                Some(column) => if select.targets@.len() == 1 && counts_rows(
                    select.targets@[0].expr,
                ) {
                    Some((table, column, titled(select.targets@[0], "count_star()"@)))
                } else {
                    None
                },
                None => None,
            },
            _ => None,
        },
        None => None,
    }
}

/// `SELECT sum(a), count(*), avg(b) FROM table`: the table, the two columns and the three titles.
pub open spec fn three_shape(ast: Ast) -> Option<
    (Seq<char>, Seq<char>, Seq<char>, Seq<Seq<char>>),
> {
    match lone_select(ast) {
        Some(select) => if select.filter is None && select.targets@.len() == 3 && counts_rows(
            select.targets@[1].expr,
        ) {
            match (
                lone_table(select),
                aggregated(select.targets@[0].expr, "sum"@, false),
                aggregated(select.targets@[2].expr, "avg"@, false),
            ) {
                (Some(table), Some(summed), Some(averaged)) => Some(
                    (
                        table,
                        summed,
                        averaged,
                        seq![
                            titled(select.targets@[0], "sum("@ + summed + ")"@),
                            titled(select.targets@[1], "count_star()"@),
                            titled(select.targets@[2], "avg("@ + averaged + ")"@),
                        ],
                    ),
                ),
                _ => None,
            }
        } else {
            None
        },
        None => None,
    }
}

/// `SELECT avg(column) FROM table`: the table, the column and the title.
pub open spec fn average_shape(ast: Ast) -> Option<(Seq<char>, Seq<char>, Seq<char>)> {
    match lone_select(ast) {
        Some(select) => if select.filter is None && select.targets@.len() == 1 {
            match (lone_table(select), aggregated(select.targets@[0].expr, "avg"@, false)) {
                (Some(table), Some(column)) => Some(
                    (table, column, titled(select.targets@[0], "avg("@ + column + ")"@)),
                ),
                _ => None,
            }
        } else {
            None
        },
        None => None,
    }
}

/// `SELECT count(DISTINCT column) FROM table`: the table, the column and the title.
pub open spec fn distinct_shape(ast: Ast) -> Option<(Seq<char>, Seq<char>, Seq<char>)> {
    match lone_select(ast) {
        Some(select) => if select.filter is None && select.targets@.len() == 1 {
            match (lone_table(select), aggregated(select.targets@[0].expr, "count"@, true)) {
                (Some(table), Some(column)) => Some(
                    (
                        table,
                        column,
                        titled(select.targets@[0], "count(DISTINCT "@ + column + ")"@),
                    ),
                ),
                _ => None,
            }
        } else {
            None
        },
        None => None,
    }
}

/// `SELECT min(column), max(column) FROM table`: the table, the column and the two titles.
pub open spec fn extrema_shape(ast: Ast) -> Option<(Seq<char>, Seq<char>, Seq<Seq<char>>)> {
    match lone_select(ast) {
        Some(select) => if select.filter is None && select.targets@.len() == 2 {
            match (
                lone_table(select),
                aggregated(select.targets@[0].expr, "min"@, false),
                aggregated(select.targets@[1].expr, "max"@, false),
            ) {
                (Some(table), Some(column), Some(other)) => if same_but_case(column, other) {
                    Some(
                        (
                            table,
                            column,
                            seq![
                                titled(select.targets@[0], "min("@ + column + ")"@),
                                titled(select.targets@[1], "max("@ + column + ")"@),
                            ],
                        ),
                    )
                } else {
                    None
                },
                _ => None,
            }
        } else {
            None
        },
        None => None,
    }
}

/// No statement has two of these shapes.
pub proof fn law_one_shape_at_most(ast: Ast)
    ensures
        nonzero_shape(ast) is Some ==> three_shape(ast) is None && average_shape(ast) is None
            && distinct_shape(ast) is None && extrema_shape(ast) is None,
        three_shape(ast) is Some ==> average_shape(ast) is None && distinct_shape(ast) is None
            && extrema_shape(ast) is None,
        average_shape(ast) is Some ==> distinct_shape(ast) is None && extrema_shape(ast) is None,
        distinct_shape(ast) is Some ==> extrema_shape(ast) is None,
{
}

fn select_of(ast: &Ast) -> (select: Option<&Select>)
    ensures
        match select {
            Some(select) => lone_select(*ast) == Some(*select),
            None => lone_select(*ast) is None,
        },
{
    if ast.statements.len() != 1 {
        return None;
    }
    match &ast.statements[0] {
        Statement::Query(query) => {
            if query.ctes != 0 || query.order_by != 0 || query.order_by_all || query.limit
                || query.offset || query.limit_percent {
                return None;
            }
            match &query.body {
                QueryBody::Select(select) => {
                    if !matches!(select.distinct, Distinct::No) || select.group_by != 0
                        || select.group_by_all || select.having {
                        return None;
                    }
                    Some(select)
                },
                QueryBody::Other => None,
            }
        },
        Statement::Other => None,
    }
}

fn table_of(select: &Select) -> (table: Option<&str>)
    ensures
        match table {
            Some(table) => lone_table(*select) == Some(table@),
            None => lone_table(*select) is None,
        },
{
    if select.from.len() != 1 {
        return None;
    }
    match &select.from[0] {
        Source::Table { name, alias, columns } => {
            if *alias || *columns != 0 || name.len() != 1 {
                return None;
            }
            Some(name[0].as_str())
        },
        Source::Other => None,
    }
}

fn column_of(expr: &Expr) -> (column: Option<&str>)
    ensures
        match column {
            Some(column) => column_named(*expr) == Some(column@),
            None => column_named(*expr) is None,
        },
{
    match expr {
        Expr::Column { name } => if name.len() == 1 {
            Some(name[0].as_str())
        } else {
            None
        },
        _ => None,
    }
}

fn arguments<'a>(expr: &'a Expr, function: &str, of_distinct: bool) -> (args: Option<
    &'a Vec<Expr>,
>)
    ensures
        match args {
            Some(args) => call_of(*expr, function@, of_distinct) == Some(args@),
            None => call_of(*expr, function@, of_distinct) is None,
        },
{
    match expr {
        Expr::Function { name, args, distinct, filter } => {
            if *distinct != of_distinct || *filter || name.len() != 1 || !equal_but_case(
                name[0].as_str(),
                function,
            ) {
                return None;
            }
            Some(args)
        },
        _ => None,
    }
}

/// The column of an aggregate of one column.
pub fn native_column_aggregate<'a>(
    expr: &'a Expr,
    function: &str,
    of_distinct: bool,
) -> (column: Option<&'a str>)
    ensures
        match column {
            Some(column) => aggregated(*expr, function@, of_distinct) == Some(column@),
            None => aggregated(*expr, function@, of_distinct) is None,
        },
{
    match arguments(expr, function, of_distinct) {
        Some(args) => if args.len() == 1 {
            column_of(&args[0])
        } else {
            None
        },
        None => None,
    }
}

fn is_row_count(expr: &Expr) -> (yes: bool)
    ensures
        yes == counts_rows(*expr),
{
    match arguments(expr, "count", false) {
        Some(args) => args.len() == 1 && match &args[0] {
            Expr::Star { qualifier, replacements } => *qualifier == 0 && *replacements == 0,
            _ => false,
        },
        None => false,
    }
}

fn title_of(target: &Target, title: &str) -> (text: String)
    ensures
        text@ == titled(*target, title@),
{
    match &target.alias {
        Some(alias) => alias.clone(),
        None => title.to_owned(),
    }
}

fn call_title(target: &Target, head: &str, column: &str) -> (text: String)
    ensures
        text@ == titled(*target, head@ + column@ + ")"@),
{
    let mut title = head.to_owned();
    title.append(column);
    title.append(")");
    title_of(target, title.as_str())
}

fn nonzero_column(filter: &Expr) -> (column: Option<&str>)
    ensures
        match column {
            Some(column) => nonzero_filter(*filter) == Some(column@),
            None => nonzero_filter(*filter) is None,
        },
{
    match filter {
        Expr::Binary { op, left, right } => {
            if !matches!(op, BinaryOp::NotEq) {
                return None;
            }
            match (&**left, &**right) {
                (Expr::Column { .. }, Expr::Literal { kind, text }) => {
                    if matches!(kind, LiteralKind::Number) && same_text(text.as_str(), "0") {
                        column_of(left)
                    } else {
                        None
                    }
                },
                (Expr::Literal { kind, text }, Expr::Column { .. }) => {
                    if matches!(kind, LiteralKind::Number) && same_text(text.as_str(), "0") {
                        column_of(right)
                    } else {
                        None
                    }
                },
                _ => None,
            }
        },
        _ => None,
    }
}

/// The table, the column and the title of a count filtered by a nonzero column.
pub fn native_nonzero_shape(ast: &Ast) -> (found: Option<(&str, &str, String)>)
    ensures
        match found {
            Some((table, column, title)) => nonzero_shape(*ast) == Some(
                (table@, column@, title@),
            ),
            None => nonzero_shape(*ast) is None,
        },
{
    let select = match select_of(ast) {
        Some(select) => select,
        None => return None,
    };
    if select.targets.len() != 1 || !is_row_count(&select.targets[0].expr) {
        return None;
    }
    match (table_of(select), &select.filter) {
        (Some(table), Some(filter)) => match nonzero_column(filter) {
            Some(column) => Some((table, column, title_of(&select.targets[0], "count_star()"))),
            None => None,
        },
        _ => None,
    }
}

/// The table, the two columns and the three titles of a sum, a count and an average.
pub fn native_three_aggregate_shape(ast: &Ast) -> (found: Option<
    (&str, &str, &str, [String; 3]),
>)
    ensures
        match found {
            Some((table, summed, averaged, titles)) => three_shape(*ast) matches Some(
                (t, s, a, names),
            ) && table@ == t && summed@ == s && averaged@ == a && titles[0]@ == names[0]
                && titles[1]@ == names[1] && titles[2]@ == names[2],
            None => three_shape(*ast) is None,
        },
{
    let select = match select_of(ast) {
        Some(select) => select,
        None => return None,
    };
    if select.filter.is_some() || select.targets.len() != 3 || !is_row_count(
        &select.targets[1].expr,
    ) {
        return None;
    }
    match (
        table_of(select),
        native_column_aggregate(&select.targets[0].expr, "sum", false),
        native_column_aggregate(&select.targets[2].expr, "avg", false),
    ) {
        (Some(table), Some(summed), Some(averaged)) => {
            let titles = [
                call_title(&select.targets[0], "sum(", summed),
                title_of(&select.targets[1], "count_star()"),
                call_title(&select.targets[2], "avg(", averaged),
            ];
            Some((table, summed, averaged, titles))
        },
        _ => None,
    }
}

/// The table, the column and the title of a lone average.
pub fn native_single_average_shape(ast: &Ast) -> (found: Option<(&str, &str, String)>)
    ensures
        match found {
            Some((table, column, title)) => average_shape(*ast) == Some(
                (table@, column@, title@),
            ),
            None => average_shape(*ast) is None,
        },
{
    let select = match select_of(ast) {
        Some(select) => select,
        None => return None,
    };
    if select.filter.is_some() || select.targets.len() != 1 {
        return None;
    }
    match (
        table_of(select),
        native_column_aggregate(&select.targets[0].expr, "avg", false),
    ) {
        (Some(table), Some(column)) => Some(
            (table, column, call_title(&select.targets[0], "avg(", column)),
        ),
        _ => None,
    }
}

/// The table, the column and the title of a lone count of distinct values.
pub fn native_single_distinct_shape(ast: &Ast) -> (found: Option<(&str, &str, String)>)
    ensures
        match found {
            Some((table, column, title)) => distinct_shape(*ast) == Some(
                (table@, column@, title@),
            ),
            None => distinct_shape(*ast) is None,
        },
{
    let select = match select_of(ast) {
        Some(select) => select,
        None => return None,
    };
    if select.filter.is_some() || select.targets.len() != 1 {
        return None;
    }
    match (
        table_of(select),
        native_column_aggregate(&select.targets[0].expr, "count", true),
    ) {
        (Some(table), Some(column)) => Some(
            (table, column, call_title(&select.targets[0], "count(DISTINCT ", column)),
        ),
        _ => None,
    }
}

/// The table, the column and the two titles of a minimum and a maximum of one column.
pub fn native_extrema_shape(ast: &Ast) -> (found: Option<(&str, &str, [String; 2])>)
    ensures
        match found {
            Some((table, column, titles)) => extrema_shape(*ast) matches Some((t, c, names))
                && table@ == t && column@ == c && titles[0]@ == names[0] && titles[1]@ == names[1],
            None => extrema_shape(*ast) is None,
        },
{
    let select = match select_of(ast) {
        Some(select) => select,
        None => return None,
    };
    if select.filter.is_some() || select.targets.len() != 2 {
        return None;
    }
    match (
        table_of(select),
        native_column_aggregate(&select.targets[0].expr, "min", false),
        native_column_aggregate(&select.targets[1].expr, "max", false),
    ) {
        (Some(table), Some(column), Some(other)) => {
            if !equal_but_case(column, other) {
                return None;
            }
            let titles = [
                call_title(&select.targets[0], "min(", column),
                call_title(&select.targets[1], "max(", column),
            ];
            Some((table, column, titles))
        },
        _ => None,
    }
}

/// Whether a statement is a plain select of one table whose filter, as written, compares a column
/// with a number, so that nothing in it changes from one run to the next.
pub open spec fn literal_filter(ast: Ast) -> bool {
    ast.statements@.len() == 1 && (ast.statements@[0] matches Statement::Query(query)
        && query.ctes == 0 && query.order_by == 0 && !query.order_by_all && !query.limit
        && !query.offset && (query.body matches QueryBody::Select(select)
        && select.distinct is No && select.group_by == 0 && !select.group_by_all && !select.having
        && select.from@.len() == 1 && select.from@[0] is Table && (select.filter matches Some(
        Expr::Binary { op, left, right },
    ) && op is NotEq && *left is Column && (*right matches Expr::Literal { kind, .. }
        && kind is Number))))
}

/// Whether the written filter of a statement is a column compared with a number.
pub fn simple_literal_filter(ast: &Ast) -> (yes: bool)
    ensures
        yes == literal_filter(*ast),
{
    if ast.statements.len() != 1 {
        return false;
    }
    let query = match &ast.statements[0] {
        Statement::Query(query) => query,
        Statement::Other => return false,
    };
    if query.ctes != 0 || query.order_by != 0 || query.order_by_all || query.limit
        || query.offset {
        return false;
    }
    let select = match &query.body {
        QueryBody::Select(select) => select,
        QueryBody::Other => return false,
    };
    if !matches!(select.distinct, Distinct::No) || select.group_by != 0 || select.group_by_all
        || select.having || select.from.len() != 1 {
        return false;
    }
    if !matches!(select.from[0], Source::Table { .. }) {
        return false;
    }
    match &select.filter {
        Some(Expr::Binary { op, left, right }) => matches!(op, BinaryOp::NotEq) && matches!(
            **left,
            Expr::Column { .. }
        ) && match &**right {
            Expr::Literal { kind, .. } => matches!(kind, LiteralKind::Number),
            _ => false,
        },
        _ => false,
    }
}

/// A filter is fixed by the statement where the statement is one plain select of one table, without
/// groups, an order, a limit or anything distinct, and tells a column from a number written in it.
pub proof fn law_a_fixed_filter_tells_a_column_from_a_number(ast: &Ast, yes: bool)
    requires
        call_ensures(simple_literal_filter, (ast,), yes),
    ensures
        yes ==> ast.statements@.len() == 1 && ast.statements@[0] is Query,
        yes ==> ({
            let query = ast.statements@[0]->Query_0;
            &&& query.ctes == 0 && query.order_by == 0 && !query.order_by_all && !query.limit
                && !query.offset
            &&& query.body is Select
            &&& query.body->Select_0.from@.len() == 1 && query.body->Select_0.from@[0] is Table
            &&& query.body->Select_0.group_by == 0 && !query.body->Select_0.group_by_all
                && !query.body->Select_0.having && query.body->Select_0.distinct is No
            &&& query.body->Select_0.filter is Some
            &&& query.body->Select_0.filter->Some_0 is Binary
            &&& (query.body->Select_0.filter->Some_0)->op is NotEq
            &&& *(query.body->Select_0.filter->Some_0)->left is Column
            &&& *(query.body->Select_0.filter->Some_0)->right is Literal
            &&& (*(query.body->Select_0.filter->Some_0)->right)->kind is Number
        }),
{
}

} // verus!
