use std::collections::HashSet;

use rudb::database::{ColumnFacts, Database, Part, StoredTable};
use rudb::native::IntegerExtremes;
use rudb::shape::{
    Ast, BinaryOp, Distinct, Expr, LiteralKind, Query, QueryBody, Select, Source, Statement, Target,
};
use rudb::{Data, Field, LogicalType, NativeExtremaValues, QueryResult, Value, Vector};

/// What a file keeps of a column of those rows.
fn kept(rows: &[Option<i128>]) -> ColumnFacts {
    let values: Vec<i128> = rows.iter().flatten().copied().collect();
    let sum: i128 = values.iter().sum();
    let ends = match (values.iter().min(), values.iter().max()) {
        (Some(low), Some(high)) => IntegerExtremes::Values { low: *low, high: *high },
        _ => IntegerExtremes::Null,
    };
    ColumnFacts {
        nonzero: Some(values.iter().filter(|value| **value != 0).count() as u64),
        distinct: Some(values.iter().collect::<HashSet<_>>().len() as u64),
        ends: Some(ends),
        sum: Some((sum, values.len() as u64)),
        quotient: (sum as f64 / values.len() as f64).to_bits(),
    }
}

fn table(name: &str, columns: &[(&str, LogicalType, &[Option<i128>])]) -> StoredTable {
    StoredTable {
        name: name.to_string(),
        rows: columns[0].2.len() as u64,
        fields: columns
            .iter()
            .map(|column| Field::new(column.0.to_string(), column.1.dup()))
            .collect(),
        columns: columns.iter().map(|column| kept(column.2)).collect(),
    }
}

fn of(function: &str, distinct: bool, column: &str) -> Expr {
    Expr::Function {
        name: vec![function.to_string()],
        args: vec![Expr::Column { name: vec![column.to_string()] }],
        distinct,
        filter: false,
    }
}

fn count_star() -> Expr {
    Expr::Function {
        name: vec!["COUNT".to_string()],
        args: vec![Expr::Star { qualifier: 0, replacements: 0 }],
        distinct: false,
        filter: false,
    }
}

fn asked(targets: Vec<Expr>, table: &str, filter: Option<Expr>) -> Ast {
    Ast {
        statements: vec![Statement::Query(Query {
            ctes: 0,
            order_by: 0,
            order_by_all: false,
            limit: false,
            offset: false,
            limit_percent: false,
            body: QueryBody::Select(Select {
                distinct: Distinct::No,
                targets: targets.into_iter().map(|expr| Target { expr, alias: None }).collect(),
                from: vec![Source::Table {
                    name: vec![table.to_string()],
                    alias: false,
                    columns: 0,
                }],
                filter,
                group_by: 0,
                group_by_all: false,
                having: false,
            }),
        })],
    }
}

fn only_row(result: &QueryResult) -> Vec<Value> {
    assert_eq!(result.chunks.len(), 1);
    assert_eq!(result.chunks[0].len(), 1);
    (0..result.names.len()).map(|column| result.chunks[0].value_at(0, column)).collect()
}

fn answer(database: &Database, ast: &Ast) -> Vec<Value> {
    only_row(&database.query_native_once(ast).unwrap().unwrap())
}

#[test]
fn grouped_counts_read_rows_instead_of_returning_a_saved_frequency_list() {
    let database = Database {
        tables: vec![
            table(
                "events",
                &[(
                    "source_id",
                    LogicalType::SmallInt,
                    &[Some(2), Some(2), Some(3), Some(0), None],
                )],
            ),
            table(
                "wide_events",
                &[(
                    "source_id",
                    LogicalType::BigInt,
                    &[Some(-10000), Some(-10000), Some(10000), Some(0), None],
                )],
            ),
        ],
    };
    let small: Vec<Value> = vec![
        Value::SmallInt(2),
        Value::SmallInt(2),
        Value::SmallInt(3),
        Value::SmallInt(0),
        Value::Null,
    ];
    let events = || {
        vec![Part::Column(Vector::from_values(LogicalType::SmallInt, &small).unwrap())]
    };
    let wide: Vec<Value> = vec![
        Value::BigInt(-10000),
        Value::BigInt(-10000),
        Value::BigInt(10000),
        Value::BigInt(0),
        Value::Null,
    ];
    let wide = vec![Part::Column(Vector::from_values(LogicalType::BigInt, &wide).unwrap())];

    let sql = "SELECT source_id, COUNT(*) FROM events WHERE source_id <> 0 GROUP BY source_id ORDER BY COUNT(*) DESC";
    let mut ast = asked(
        vec![Expr::Column { name: vec!["source_id".to_string()] }, count_star()],
        "events",
        Some(Expr::Binary {
            op: BinaryOp::NotEq,
            left: Box::new(Expr::Column { name: vec!["source_id".to_string()] }),
            right: Box::new(Expr::Literal { kind: LiteralKind::Number, text: "0".to_string() }),
        }),
    );
    if let Statement::Query(query) = &mut ast.statements[0] {
        query.order_by = 1;
        if let QueryBody::Select(select) = &mut query.body {
            select.group_by = 1;
        }
    }
    assert!(database.query_native_once(&ast).unwrap().is_none());
    assert_eq!(
        database.query_native_group_count_once(sql, false, &events()).unwrap(),
        Some(vec![(2, 2), (3, 1)])
    );
    assert_eq!(
        database
            .query_native_group_count_once(
                "SELECT source_id, COUNT(*) FROM wide_events WHERE source_id <> 0 GROUP BY source_id ORDER BY COUNT(*) DESC",
                false,
                &wide
            )
            .unwrap(),
        Some(vec![(-10000, 2), (10000, 1)])
    );
    assert!(
        database
            .query_native_group_count_once("SELECT COUNT(*) FROM events", false, &events())
            .unwrap()
            .is_none()
    );
    for changed_sql in [
        "SELECT source_id, COUNT(*) FROM events WHERE source_id <> 1 GROUP BY source_id ORDER BY COUNT(*) DESC",
        "SELECT source_id, COUNT(*) FROM events WHERE source_id <> 0 GROUP BY source_id ORDER BY source_id DESC",
        "SELECT source_id, COUNT(*) FROM events WHERE source_id <> 0 GROUP BY source_id ORDER BY COUNT(*) DESC LIMIT 1",
    ] {
        assert!(database.query_native_group_count_once(changed_sql, false, &events()).unwrap().is_none());
    }
}

#[test]
fn cold_extrema_matches_regular_execution_for_dates_and_nulls() {
    let database = Database {
        tables: vec![
            table("hits", &[("EventDate", LogicalType::Date, &[Some(15917), None, Some(15888)])]),
            table(
                "small_hits",
                &[("EventDate", LogicalType::USmallInt, &[Some(15917), Some(15888), None])],
            ),
            table("empty_hits", &[("EventDate", LogicalType::Date, &[])]),
            table("null_hits", &[("EventDate", LogicalType::Date, &[None])]),
        ],
    };
    let ends = |table: &str| {
        asked(vec![of("MIN", false, "EventDate"), of("MAX", false, "EventDate")], table, None)
    };
    let cases = [
        ("hits", vec![Value::Date(15888), Value::Date(15917)]),
        ("small_hits", vec![Value::USmallInt(15888), Value::USmallInt(15917)]),
        ("empty_hits", vec![Value::Null, Value::Null]),
        ("null_hits", vec![Value::Null, Value::Null]),
    ];
    for (table, expected) in cases {
        assert_eq!(answer(&database, &ends(table)), expected, "{table}");
    }
    assert_eq!(
        database
            .query_native_extrema_values_once("SELECT MIN(EventDate), MAX(EventDate) FROM hits"),
        Some(NativeExtremaValues::Date { low: 15888, high: 15917 })
    );
    assert_eq!(
        database.query_native_extrema_values_once(
            "SELECT MIN(EventDate), MAX(EventDate) FROM small_hits"
        ),
        Some(NativeExtremaValues::Integer { low: 15888, high: 15917 })
    );
    for table in ["empty_hits", "null_hits"] {
        let sql = format!("SELECT MIN(EventDate), MAX(EventDate) FROM {table}");
        assert_eq!(database.query_native_extrema_values_once(&sql), None);
    }
}

#[test]
fn cold_distinct_matches_regular_execution_with_nulls() {
    let database = Database {
        tables: vec![
            table("hits", &[("UserID", LogicalType::BigInt, &[Some(1), Some(2), Some(1), None])]),
            table("empty_hits", &[("UserID", LogicalType::BigInt, &[])]),
            table("null_hits", &[("UserID", LogicalType::BigInt, &[None])]),
        ],
    };
    for (table, expected) in [("hits", 2), ("empty_hits", 0), ("null_hits", 0)] {
        let ast = asked(vec![of("COUNT", true, "UserID")], table, None);
        assert_eq!(answer(&database, &ast), vec![Value::BigInt(expected)], "{table}");
    }
    assert_eq!(
        database.query_native_distinct_value_once("SELECT COUNT(DISTINCT UserID) FROM hits"),
        Some(2)
    );
    for sql in [
        "SELECT COUNT(DISTINCT UserID) FROM empty_hits",
        "SELECT COUNT(DISTINCT UserID) FROM null_hits",
    ] {
        assert_eq!(database.query_native_distinct_value_once(sql), Some(0));
    }
}

#[test]
fn cold_average_matches_regular_execution_for_bigints_and_nulls() {
    let database = Database {
        tables: vec![
            table(
                "hits",
                &[(
                    "UserID",
                    LogicalType::BigInt,
                    &[Some(2414420660257356000), Some(2534231104689841000), None],
                )],
            ),
            table("empty_hits", &[("UserID", LogicalType::BigInt, &[])]),
            table("null_hits", &[("UserID", LogicalType::BigInt, &[None])]),
        ],
    };
    let mean = (2414420660257356000_i128 + 2534231104689841000_i128) as f64 / 2.0;
    let cases = [
        ("hits", Value::Double(mean.to_bits())),
        ("empty_hits", Value::Null),
        ("null_hits", Value::Null),
    ];
    for (table, expected) in cases {
        let ast = asked(vec![of("AVG", false, "UserID")], table, None);
        assert_eq!(answer(&database, &ast), vec![expected], "{table}");
    }
    assert_eq!(
        database.query_native_average_value_once("SELECT AVG(UserID) FROM hits"),
        Some(mean.to_bits())
    );
    for sql in ["SELECT AVG(UserID) FROM empty_hits", "SELECT AVG(UserID) FROM null_hits"] {
        assert_eq!(database.query_native_average_value_once(sql), None);
    }
}

#[test]
fn cold_three_aggregate_answers_from_native_catalog() {
    let pair = |name: &str, first: &[Option<i128>], second: &[Option<i128>]| {
        table(
            name,
            &[
                ("AdvEngineID", LogicalType::SmallInt, first),
                ("ResolutionWidth", LogicalType::SmallInt, second),
            ],
        )
    };
    let database = Database {
        tables: vec![
            pair("hits", &[Some(1), None, Some(3)], &[Some(100), Some(200), None]),
            pair("empty_hits", &[], &[]),
            pair("null_hits", &[None], &[None]),
            table(
                "measurements",
                &[
                    ("Points", LogicalType::SmallInt, &[Some(2), Some(5)]),
                    ("Width", LogicalType::SmallInt, &[Some(10), Some(20)]),
                ],
            ),
        ],
    };
    let three = |table: &str| {
        asked(
            vec![of("SUM", false, "AdvEngineID"), count_star(), of("AVG", false, "ResolutionWidth")],
            table,
            None,
        )
    };
    assert_eq!(
        answer(&database, &three("hits")),
        vec![Value::HugeInt(4), Value::BigInt(3), Value::Double(150.0f64.to_bits())]
    );
    assert_eq!(
        database.query_native_three_values_once(
            "SELECT SUM(AdvEngineID), COUNT(*), AVG(ResolutionWidth) FROM hits",
            false
        ),
        Some((4, 3, 150.0f64.to_bits()))
    );
    assert_eq!(
        database.query_native_three_values_once(
            "SELECT SUM(Points), COUNT(*), AVG(Width) FROM measurements",
            false
        ),
        Some((7, 2, 15.0f64.to_bits()))
    );
    assert_eq!(
        database.query_native_three_values_once(
            "SELECT SUM(AdvEngineID), COUNT(*), AVG(ResolutionWidth) FROM hits; SELECT 1",
            false
        ),
        None
    );
    for (table, count) in [("empty_hits", 0), ("null_hits", 1)] {
        assert_eq!(
            answer(&database, &three(table)),
            vec![Value::Null, Value::BigInt(count), Value::Null]
        );
    }
}

#[test]
fn cold_nonzero_csv_count_uses_column_statistics() {
    let database = Database {
        tables: vec![
            table(
                "hits",
                &[(
                    "AdvEngineID",
                    LogicalType::SmallInt,
                    &[Some(0), Some(0), None, Some(2), Some(-3)],
                )],
            ),
            table("events", &[("engine", LogicalType::Integer, &[Some(0), Some(8), None])]),
        ],
    };
    let sql = "SELECT COUNT(*) FROM hits WHERE AdvEngineID <> 0";
    assert_eq!(database.query_native_nonzero_value_once(sql), Some(2));
    assert_eq!(
        database.query_native_nonzero_value_once("select count(*) from events where engine <> 0;"),
        Some(1)
    );
    assert_eq!(
        database
            .query_native_nonzero_value_once("SELECT COUNT(*) FROM hits WHERE AdvEngineID <> 1"),
        None
    );
}

#[test]
fn a_part_of_nulls_alone_counts_nothing() {
    let database = Database {
        tables: vec![table("events", &[("source_id", LogicalType::Integer, &[Some(4), None])])],
    };
    let sql = "SELECT source_id, COUNT(*) FROM events WHERE source_id <> 0 GROUP BY source_id ORDER BY COUNT(*) DESC";
    let nulls = || Part::Column(Vector::constant(LogicalType::Integer, Value::Null, 3));
    assert_eq!(database.grouped_column(sql, false), Some((0, 0)));
    assert_eq!(database.grouped_column("SELECT 1", false), None);
    let counted = |parts| database.query_native_group_count_once(sql, false, &parts).unwrap();
    assert_eq!(counted(vec![nulls()]), Some(vec![]));
    let four = Vector::flat(LogicalType::Integer, Data::Int32(vec![4])).unwrap();
    assert_eq!(counted(vec![nulls(), Part::Column(four)]), Some(vec![(4, 1)]));
}

#[test]
fn the_first_part_that_does_not_count_decides() {
    let database = Database {
        tables: vec![table("events", &[("source_id", LogicalType::Integer, &[Some(4), None])])],
    };
    let sql = "SELECT source_id, COUNT(*) FROM events WHERE source_id <> 0 GROUP BY source_id ORDER BY COUNT(*) DESC";
    let four = || {
        Part::Column(Vector::flat(LogicalType::Integer, Data::Int32(vec![4])).unwrap())
    };
    let words = || {
        let text = Value::Varchar("a".to_string());
        Part::Column(Vector::from_values(LogicalType::Varchar, &[text]).unwrap())
    };
    let refused = || {
        Part::Column(Vector::constant(LogicalType::Integer, Value::Boolean(true), 1))
    };
    let counted = |parts| database.query_native_group_count_once(sql, false, &parts);
    assert_eq!(counted(vec![four(), words(), refused()]).unwrap(), None);
    let error = counted(vec![four(), refused(), words()]).unwrap_err();
    assert_eq!(error.message, "{} is not a 32 bit value");
    assert_eq!(database.query_native_group_count_once(sql, true, &vec![four()]).unwrap(), None);
}
