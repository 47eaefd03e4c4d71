use rudb::shape::{
    native_column_aggregate, native_extrema_shape, native_nonzero_shape,
    native_single_average_shape, native_single_distinct_shape, native_three_aggregate_shape,
    simple_literal_filter, Ast, BinaryOp, Distinct, Expr, LiteralKind, Query, QueryBody, Select,
    Source, Statement, Target,
};
use rudb::{
    native_simple_average_statement, native_simple_distinct_statement,
    native_simple_extrema_statement, native_simple_group_count_names,
    native_simple_group_count_statement, native_simple_identifier, native_simple_nonzero_statement,
    native_simple_three_names, native_simple_three_statement, native_simple_unquoted_identifier,
};

fn column(name: &str) -> Expr {
    Expr::Column { name: vec![name.to_string()] }
}

fn call(name: &str, args: Vec<Expr>, distinct: bool) -> Expr {
    Expr::Function { name: vec![name.to_string()], args, distinct, filter: false }
}

fn of(name: &str, of: &str) -> Expr {
    call(name, vec![column(of)], false)
}

fn count_star() -> Expr {
    call("COUNT", vec![Expr::Star { qualifier: 0, replacements: 0 }], false)
}

fn number(text: &str) -> Expr {
    Expr::Literal { kind: LiteralKind::Number, text: text.to_string() }
}

fn plus_one(name: &str) -> Expr {
    Expr::Binary {
        op: BinaryOp::Other,
        left: Box::new(column(name)),
        right: Box::new(number("1")),
    }
}

fn differs(name: &str, text: &str) -> Expr {
    Expr::Binary {
        op: BinaryOp::NotEq,
        left: Box::new(column(name)),
        right: Box::new(number(text)),
    }
}

fn select(targets: Vec<Expr>) -> Select {
    Select {
        distinct: Distinct::No,
        targets: targets.into_iter().map(|expr| Target { expr, alias: None }).collect(),
        from: vec![Source::Table { name: vec!["hits".to_string()], alias: false, columns: 0 }],
        filter: None,
        group_by: 0,
        group_by_all: false,
        having: false,
    }
}

fn parsed(select: Select) -> Ast {
    Ast {
        statements: vec![Statement::Query(Query {
            ctes: 0,
            order_by: 0,
            order_by_all: false,
            limit: false,
            offset: false,
            limit_percent: false,
            body: QueryBody::Select(select),
        })],
    }
}

fn where_more(targets: Vec<Expr>) -> Ast {
    let mut body = select(targets);
    body.filter = Some(Expr::Binary {
        op: BinaryOp::Other,
        left: Box::new(column("EventDate")),
        right: Box::new(number("0")),
    });
    parsed(body)
}

fn limited(targets: Vec<Expr>) -> Ast {
    let mut ast = parsed(select(targets));
    if let Statement::Query(query) = &mut ast.statements[0] {
        query.limit = true;
    }
    ast
}

fn grouped(targets: Vec<Expr>) -> Ast {
    let mut body = select(targets);
    body.group_by = 1;
    parsed(body)
}

#[test]
fn cold_extrema_shape_accepts_only_direct_bounds() {
    let direct = || vec![of("MIN", "EventDate"), of("MAX", "EventDate")];
    let ast = parsed(select(direct()));
    assert_eq!(
        native_extrema_shape(&ast),
        Some(("hits", "EventDate", ["min(EventDate)".into(), "max(EventDate)".into()]))
    );
    let others = [
        where_more(direct()),
        limited(direct()),
        parsed(select(vec![
            call("MIN", vec![plus_one("EventDate")], false),
            of("MAX", "EventDate"),
        ])),
        parsed(select(vec![of("MIN", "EventDate"), of("MAX", "OtherDate")])),
        parsed(select(vec![
            call("MIN", vec![column("EventDate")], true),
            of("MAX", "EventDate"),
        ])),
    ];
    for (at, ast) in others.iter().enumerate() {
        assert_eq!(native_extrema_shape(ast), None, "statement {at}");
    }
}

#[test]
fn simple_extrema_statement_rejects_other_sql() {
    assert_eq!(
        native_simple_extrema_statement(" SELECT MIN(EventDate), MAX(EventDate) FROM hits; "),
        Some(("hits", "EventDate"))
    );
    for sql in [
        "SELECT MIN(EventDate), MAX(EventDate) FROM hits WHERE EventDate > 0",
        "SELECT MIN(EventDate), MAX(OtherDate) FROM hits",
        "SELECT MIN(EventDate + 1), MAX(EventDate) FROM hits",
        "SELECT MIN(EventDate), MAX(EventDate) FROM hits; SELECT 1",
        "SELECT MIN(EventDate), MAX(EventDate) FROM hits GROUP BY RegionID",
    ] {
        assert_eq!(native_simple_extrema_statement(sql), None, "{sql}");
    }
}

#[test]
fn cold_distinct_shape_accepts_only_a_direct_count() {
    let direct = || vec![call("COUNT", vec![column("UserID")], true)];
    let ast = parsed(select(direct()));
    assert_eq!(
        native_single_distinct_shape(&ast),
        Some(("hits", "UserID", "count(DISTINCT UserID)".into()))
    );
    let others = [
        where_more(direct()),
        parsed(select(vec![call("COUNT", vec![plus_one("UserID")], true)])),
        parsed(select(vec![of("COUNT", "UserID")])),
        limited(direct()),
        grouped(direct()),
    ];
    for (at, ast) in others.iter().enumerate() {
        assert_eq!(native_single_distinct_shape(ast), None, "statement {at}");
    }
}

#[test]
fn simple_distinct_statement_rejects_other_sql() {
    assert_eq!(
        native_simple_distinct_statement(" SELECT COUNT(DISTINCT UserID) FROM hits; "),
        Some(("hits", "UserID"))
    );
    for sql in [
        "SELECT COUNT(DISTINCT UserID) FROM hits WHERE UserID > 0",
        "SELECT COUNT(DISTINCT UserID + 1) FROM hits",
        "SELECT COUNT(UserID) FROM hits",
        "SELECT COUNT(DISTINCT UserID) FROM hits; SELECT 1",
        "SELECT COUNT(DISTINCT UserID) FROM hits GROUP BY RegionID",
        "SELECT COUNT(DISTINCT UserID) FROM hits; ;",
    ] {
        assert_eq!(native_simple_distinct_statement(sql), None, "{sql}");
    }
}

#[test]
fn cold_average_shape_accepts_only_a_direct_aggregate() {
    let direct = || vec![of("AVG", "UserID")];
    let ast = parsed(select(direct()));
    assert_eq!(
        native_single_average_shape(&ast),
        Some(("hits", "UserID", "avg(UserID)".into()))
    );
    let mut aliased = select(direct());
    aliased.targets[0].alias = Some("mean_user".to_string());
    assert_eq!(
        native_single_average_shape(&parsed(aliased)),
        Some(("hits", "UserID", "mean_user".into()))
    );
    let others = [
        where_more(direct()),
        parsed(select(vec![call("AVG", vec![column("UserID")], true)])),
        parsed(select(vec![call("AVG", vec![plus_one("UserID")], false)])),
        limited(direct()),
        grouped(direct()),
    ];
    for (at, ast) in others.iter().enumerate() {
        assert_eq!(native_single_average_shape(ast), None, "statement {at}");
    }
}

#[test]
fn simple_average_statement_rejects_other_sql() {
    assert_eq!(
        native_simple_average_statement(" SELECT AVG(UserID) FROM hits; "),
        Some(("hits", "UserID"))
    );
    for sql in [
        "SELECT AVG(UserID) FROM hits WHERE UserID > 0",
        "SELECT AVG(DISTINCT UserID) FROM hits",
        "SELECT AVG(UserID + 1) FROM hits",
        "SELECT AVG(UserID) FROM hits; SELECT 1",
        "SELECT AVG(UserID) FROM hits GROUP BY RegionID",
        "SELECT AVG(UserID) FROM hits -- comment",
        "SELECT AVG(UserID) FROM hits; ;",
    ] {
        assert_eq!(native_simple_average_statement(sql), None, "{sql}");
    }
}

#[test]
fn cold_three_aggregate_shape_accepts_only_the_certified_query() {
    let direct = || vec![of("SUM", "AdvEngineID"), count_star(), of("AVG", "ResolutionWidth")];
    let ast = parsed(select(direct()));
    assert_eq!(
        native_three_aggregate_shape(&ast),
        Some((
            "hits",
            "AdvEngineID",
            "ResolutionWidth",
            ["sum(AdvEngineID)".into(), "count_star()".into(), "avg(ResolutionWidth)".into()]
        ))
    );
    let others = [
        where_more(direct()),
        limited(direct()),
        parsed(select(vec![
            call("SUM", vec![column("AdvEngineID")], true),
            count_star(),
            of("AVG", "ResolutionWidth"),
        ])),
        grouped(direct()),
    ];
    for (at, ast) in others.iter().enumerate() {
        assert_eq!(native_three_aggregate_shape(ast), None, "statement {at}");
    }
}

/// A grammar that keeps a few words for itself.
fn reserved(word: &str) -> bool {
    ["select", "from", "where", "group"].contains(&word.to_lowercase().as_str())
}

fn three(sql: &str) -> Option<(&str, &str, &str)> {
    let kept = native_simple_three_names(sql)
        .is_some_and(|names| reserved(names.0) || reserved(names.1) || reserved(names.2));
    native_simple_three_statement(sql, kept)
}

fn group_count(sql: &str) -> Option<(&str, &str)> {
    let kept = native_simple_group_count_names(sql)
        .is_some_and(|names| reserved(names.0) || reserved(names.1));
    native_simple_group_count_statement(sql, kept)
}

#[test]
fn simple_three_statement_uses_requested_columns_and_rejects_other_clauses() {
    assert_eq!(
        three(" SELECT SUM(Points), COUNT(*), AVG(Width) FROM measurements; "),
        Some(("measurements", "Points", "Width"))
    );
    for sql in [
        "SELECT SUM(Points), COUNT(*), AVG(Width) FROM measurements WHERE Points > 0",
        "SELECT SUM(DISTINCT Points), COUNT(*), AVG(Width) FROM measurements",
        "SELECT SUM(Points), COUNT(*), AVG(Width) FROM measurements GROUP BY Width",
        "SELECT SUM(Points), COUNT(*), AVG(Width) FROM measurements LIMIT 1",
        "SELECT SUM(Points), COUNT(*), AVG(Width) FROM measurements; SELECT 1",
        "SELECT SUM(Points), COUNT(*), AVG(Width + 1) FROM measurements",
        "SELECT SUM(select), COUNT(*), AVG(Width) FROM measurements",
        "SELECT SUM(Points), COUNT(*), AVG(Width) FROM from",
    ] {
        assert_eq!(three(sql), None, "{sql}");
    }
}

#[test]
fn cold_count_shape_accepts_only_the_certified_query() {
    let counted = |filter: Expr| {
        let mut body = select(vec![count_star()]);
        body.filter = Some(filter);
        body
    };
    let ast = parsed(counted(differs("AdvEngineID", "0")));
    assert_eq!(
        native_nonzero_shape(&ast),
        Some(("hits", "AdvEngineID", "count_star()".to_string()))
    );
    let mut one_row = parsed(counted(differs("AdvEngineID", "0")));
    if let Statement::Query(query) = &mut one_row.statements[0] {
        query.limit = true;
    }
    let mut distinct = select(vec![call("COUNT", vec![column("AdvEngineID")], true)]);
    distinct.filter = Some(differs("AdvEngineID", "0"));
    let both = Expr::Binary {
        op: BinaryOp::Other,
        left: Box::new(differs("AdvEngineID", "0")),
        right: Box::new(plus_one("RegionID")),
    };
    let others = [
        parsed(counted(differs("AdvEngineID", "1"))),
        one_row,
        parsed(counted(both)),
        parsed(distinct),
    ];
    for (at, ast) in others.iter().enumerate() {
        assert_eq!(native_nonzero_shape(ast), None, "statement {at}");
    }
}

#[test]
fn a_direct_aggregate_names_its_column() {
    assert_eq!(native_column_aggregate(&of("Sum", "Points"), "sum", false), Some("Points"));
    assert_eq!(native_column_aggregate(&of("Sum", "Points"), "avg", false), None);
    assert_eq!(native_column_aggregate(&of("Sum", "Points"), "sum", true), None);
    assert_eq!(native_column_aggregate(&plus_one("Points"), "sum", false), None);
}

#[test]
fn a_filter_is_plain_when_a_column_differs_from_a_number() {
    let mut body = select(vec![count_star()]);
    body.filter = Some(differs("AdvEngineID", "7"));
    assert!(simple_literal_filter(&parsed(body)));
    assert!(!simple_literal_filter(&where_more(vec![count_star()])));
    assert!(!simple_literal_filter(&parsed(select(vec![count_star()]))));
}

#[test]
fn a_nonzero_count_is_recognised_by_its_words() {
    assert_eq!(
        native_simple_nonzero_statement("SELECT COUNT(*) FROM hits WHERE AdvEngineID <> 0;"),
        Some(("hits", "AdvEngineID"))
    );
    for sql in [
        "SELECT COUNT(*) FROM hits WHERE AdvEngineID <> 1",
        "SELECT COUNT(*) FROM hits WHERE AdvEngineID = 0",
        "SELECT COUNT(*) FROM hits",
    ] {
        assert_eq!(native_simple_nonzero_statement(sql), None, "{sql}");
    }
}

#[test]
fn a_grouped_count_is_recognised_by_its_words() {
    let sql = "SELECT AdvEngineID, COUNT(*) FROM hits WHERE AdvEngineID <> 0 \
               GROUP BY AdvEngineID ORDER BY COUNT(*) DESC";
    assert_eq!(group_count(sql), Some(("hits", "AdvEngineID")));
    assert_eq!(group_count("SELECT AdvEngineID, COUNT(*) FROM hits"), None);
    let kept = sql.replace("hits", "group");
    assert_eq!(native_simple_group_count_names(&kept), Some(("group", "AdvEngineID")));
    assert_eq!(group_count(&kept), None, "a word the grammar keeps for itself");
}

#[test]
fn a_plain_name_is_letters_digits_and_underscores() {
    assert!(native_simple_identifier("user_id2"));
    assert!(!native_simple_identifier("2user"));
    assert!(!native_simple_identifier(""));
    assert!(!native_simple_identifier("user-id"));
    assert!(native_simple_unquoted_identifier("user_id2", reserved("user_id2")));
    assert!(!native_simple_unquoted_identifier("2user", false));
    assert!(
        !native_simple_unquoted_identifier("select", reserved("select")),
        "a reserved word needs quotes"
    );
}
