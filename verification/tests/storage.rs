use std::sync::Arc;

use rudb::data::packing_base;
use rudb::database::{ColumnFacts, Database, Part, StoredTable};
use rudb::execute::{Bound, Move, Under};
use rudb::native::IntegerExtremes;
use rudb::route::{Insert, Load, Target};
use rudb::shape::{
    Ast, Distinct, Expr, Query, QueryBody, Select, Source, Statement, Target as Column,
};
use rudb::strings::not_text_error;
use rudb::text::equal;
use rudb::types::Subject;
use rudb::transaction::{Ledger, Transaction};
use rudb::vector::size::share;
use rudb::{
    search_below, Data, Error, ErrorCode, Field, Form, LogicalType, NativeExtremaValues, Packed,
    Standing, StringColumn, StringView, SymbolTable, TextRows, TextSource, Validity, Value, Vector,
};

fn pages(rows: &[&str]) -> Vec<Result<Vec<u8>, Error>> {
    rows.iter().map(|row| Ok(row.as_bytes().to_vec())).collect()
}

fn damaged() -> Error {
    Error::new(ErrorCode::Io, "page 1 is damaged")
}

fn broken() -> Vec<Result<Vec<u8>, Error>> {
    vec![Ok(b"alpha".to_vec()), Err(damaged()), Ok(b"gamma".to_vec())]
}

fn stored(rows: Vec<Result<Vec<u8>, Error>>) -> Vector {
    let source: Box<dyn TextSource> = Box::new(TextRows::new(rows));
    Vector::external_text(LogicalType::Varchar, Arc::new(source)).unwrap()
}

fn text(text: &str) -> Value {
    Value::Varchar(text.to_string())
}

#[test]
fn stored_text_reads_where_it_lies() {
    let column = stored(pages(&["red", "", "a string that is too long for a view"]));
    assert_eq!(column.form(), Form::StringView);
    assert_eq!(column.len(), 3);
    assert_eq!(column.value_at(0), text("red"));
    assert_eq!(column.try_value_at(2).unwrap(), text("a string that is too long for a view"));
    assert_eq!(column.try_bytes_at(1).unwrap(), Some(&b""[..]));
    assert_eq!(column.try_text_at(0).unwrap(), Some("red"));
    assert_eq!(column.try_text_at(9).unwrap(), None);
    assert_eq!(column.try_bytes_len_at(0).unwrap(), Some(3));
    assert!(column.validate_external().is_ok());
    assert_eq!(column.flatten().unwrap().form(), Form::Flat);
    assert_eq!(column.slice(1, 2).unwrap().value_at(0), text(""));
}

#[test]
fn a_row_that_cannot_be_read_fails_as_storage_did() {
    let column = stored(broken());
    assert_eq!(column.try_value_at(1).unwrap_err(), damaged());
    assert_eq!(column.value_at(1), Value::Null);
    assert_eq!(column.try_value_at(2).unwrap(), text("gamma"));
    assert_eq!(column.validate_external().unwrap_err(), damaged());
    assert_eq!(column.flatten().err().unwrap(), damaged());
    assert_eq!(column.gather(&[0, 1]).err().unwrap(), damaged());
    assert_eq!(column.gather(&[2, 0]).unwrap().iter(), vec![text("gamma"), text("alpha")]);
    assert_eq!(column.slice(0, 2).err().unwrap(), damaged());
    assert_eq!(column.slice(2, 1).unwrap().iter(), vec![text("gamma")]);
    let gathered = Vector::gathered(Arc::new(stored(broken())), Arc::new(vec![2, 1])).unwrap();
    assert_eq!(gathered.try_value_at(1).unwrap_err(), damaged());
    assert_eq!(gathered.try_value_at(0).unwrap(), text("gamma"));
    assert_eq!(column.try_values_visited(&[0, 2]).unwrap(), vec![text("alpha"), text("gamma")]);
    assert_eq!(column.try_values_visited(&[0, 1]).unwrap_err(), damaged());
}

#[test]
fn a_sweep_hands_over_what_it_read_and_where_it_stopped() {
    let column = stored(broken());
    let (stop, seen) = column.sweep_text(0, 3).unwrap();
    assert_eq!(stop, seen.len());
    assert_eq!(seen[0], b"alpha".to_vec());
    assert_eq!(column.sweep_text(1, 3).unwrap_err(), damaged());
    assert_eq!(column.sweep_text(3, 9).unwrap().0, 3);
    assert!(column.text_block_might_contain(0, b"zz").unwrap(), "nothing rules a block out");
}

#[test]
fn lengths_are_counted_in_bytes_and_in_characters() {
    let column = stored(pages(&["abc", "\u{e9}\u{e9}", ""]));
    let mut lens = vec![9];
    assert!(column.try_bytes_lens(&mut lens).unwrap());
    assert_eq!(lens, vec![3, 4, 0]);
    assert!(column.try_chars_lens(&mut lens).unwrap());
    assert_eq!(lens, vec![3, 2, 0]);
    let coded = Vector::dictionary(vec![1, 1, 0], column).unwrap();
    assert!(coded.try_chars_lens(&mut lens).unwrap());
    assert_eq!(lens, vec![2, 2, 3]);
    let flat = Vector::from_values(LogicalType::Varchar, &[text("abc")]).unwrap();
    assert!(!flat.try_bytes_lens(&mut lens).unwrap(), "nothing is read from a source");
    assert_eq!(stored(broken()).try_bytes_lens(&mut lens).unwrap_err(), damaged());
}

#[test]
fn a_visit_reaches_every_row_the_mask_leaves() {
    let column = stored(broken()).with_validity(Validity::from_run(&[true, false, true]));
    let mut seen = column.try_visit_text().unwrap().unwrap();
    seen.sort();
    assert_eq!(seen, vec![(0, b"alpha".to_vec()), (2, b"gamma".to_vec())]);
    assert_eq!(stored(broken()).try_visit_text().unwrap_err(), damaged());
    let flat = Vector::from_values(LogicalType::Varchar, &[text("abc")]).unwrap();
    assert_eq!(flat.try_visit_text().unwrap(), None);
}

#[test]
fn a_sorted_source_finds_where_a_value_goes() {
    let source = TextRows::sorted_rows(pages(&["pear", "apple", "fig"]));
    assert_eq!(source.ranks(), Some(3));
    assert_eq!(search_below(&source, 3, b"fig").unwrap(), (1, true));
    assert_eq!(search_below(&source, 3, b"grape").unwrap(), (2, false));
    assert_eq!(search_below(&source, 2, b"zoo").unwrap(), (2, false));
    assert_eq!(source.compare_rank(0, b"b").unwrap(), Standing::Less);
    assert_eq!(source.code_at_rank(0).unwrap(), 1);
    let boxed: Box<dyn TextSource> = Box::new(source);
    let column = Vector::external_text(LogicalType::Varchar, Arc::new(boxed)).unwrap();
    assert_eq!(column.ranks(), Some(3));
    assert_eq!(column.below(3, b"zebra").unwrap(), (3, false));
    assert_eq!(column.compare_rank(2, b"pear").unwrap(), Standing::Equal);
    assert_eq!(column.code_at_rank(2).unwrap(), 0);
    assert!(column.code_ranks().is_none());
    let plain = stored(pages(&["a"]));
    assert_eq!(plain.ranks(), None);
    assert!(plain.below(1, b"a").is_err());
    assert_eq!(plain.below(0, b"a").unwrap(), (0, false));
    let flat = Vector::sequence(0, 1, 3);
    assert_eq!(
        flat.compare_rank(0, b"a").unwrap_err().message,
        "a vector without a sorted order was asked to compare a rank"
    );
    assert_eq!(
        flat.below(0, b"a").unwrap_err().message,
        "a vector without a sorted order was asked for a boundary"
    );
    assert_eq!(
        flat.code_at_rank(0).unwrap_err().message,
        "a vector without a sorted order was asked for a rank"
    );
}

#[test]
fn two_sources_are_equal_when_they_read_the_same() {
    let left = TextRows::new(pages(&["a", "b"]));
    assert!(equal(&left, &TextRows::new(pages(&["a", "b"]))));
    assert!(!equal(&left, &TextRows::new(pages(&["a", "c"]))));
    assert!(!equal(&left, &TextRows::new(pages(&["a"]))));
    assert!(!equal(&TextRows::new(broken()), &TextRows::new(broken())));
}

#[test]
fn text_that_is_not_text_is_a_conversion_failure() {
    let mut bytes = StringColumn::new();
    bytes.push_bytes(b"a\xffb");
    let column = Vector::flat(LogicalType::Varchar, Data::Varlen(bytes)).unwrap();
    assert_eq!(column.text_at(0), None);
    let error = column.try_text_at(0).unwrap_err();
    assert_eq!(error.code(), ErrorCode::Conversion);
    let complaint = std::str::from_utf8(b"a\xffb").unwrap_err().to_string();
    assert_eq!(error.message, format!("invalid UTF-8 in VARCHAR: {complaint}"));
    assert_eq!(not_text_error("why").message, "invalid UTF-8 in VARCHAR: why");
    assert_eq!(column.bytes_at(0), Some(&b"a\xffb"[..]));
    assert!(Vector::external_text(
        LogicalType::Integer,
        Arc::new(Box::new(TextRows::new(pages(&["a"]))) as Box<dyn TextSource>)
    )
    .is_err());
}

#[test]
fn what_is_compressed_decompresses_to_what_it_was() {
    let mut table = SymbolTable::empty();
    assert!(table.add_symbol(b"http://"));
    assert!(table.add_symbol(b"www."));
    assert!(!table.add_symbol(b"www."), "a symbol is held once");
    assert!(!table.add_symbol(b"longer than eight"));
    assert!(!table.add_symbol(b""));
    let mut codes = Vec::new();
    table.compress(b"http://www.x", &mut codes);
    assert_eq!(codes, vec![0, 1, 255, b'x']);
    let mut back = Vec::new();
    table.decompress(&codes, &mut back).unwrap();
    assert_eq!(back, b"http://www.x".to_vec());
    assert!(table.decompress(&[255], &mut back).is_err(), "an escape with nothing behind it");
    assert!(table.decompress(&[9], &mut back).is_err(), "a code no symbol has");
}

#[test]
fn codes_that_do_not_decompress_stop_a_flatten() {
    let table = Arc::new(SymbolTable::empty());
    let codes = Arc::new(vec![255, b'a', 7]);
    let column =
        Vector::coded(LogicalType::Varchar, codes, vec![(0, 2), (2, 3)], table).unwrap();
    assert_eq!(column.value_at(0), text("a"));
    assert_eq!(column.flatten().err().unwrap().code(), ErrorCode::Internal);
    assert_eq!(column.slice(0, 1).unwrap().flatten().unwrap().value_at(0), text("a"));
}

#[test]
fn a_string_of_twelve_bytes_is_held_in_its_view() {
    assert!(StringView::over(b"twelve bytes", 0).is_inline());
    assert!(!StringView::over(b"thirteen bytes", 0).is_inline());
    assert_eq!(StringView::inline("red").bytes_in(&[]), Some(&b"red"[..]));
    assert_eq!(StringView::empty().len(), 0);
    let mut column = StringColumn::new();
    column.push("red");
    column.push("a string well past twelve bytes");
    assert_eq!(column.get(1), Some("a string well past twelve bytes"));
    assert_eq!(column.bytes(2), None);
    assert_eq!(column.arena().len(), 31);
}

/// An error as something that prints types, layouts and values its own way shows it.
fn shown(error: &Error) -> String {
    let ty = |ty: &LogicalType| match ty {
        LogicalType::Varchar => "varchar".to_string(),
        LogicalType::TinyInt => "tinyint".to_string(),
        LogicalType::Integer => "integer".to_string(),
        LogicalType::Decimal { .. } => "decimal".to_string(),
        LogicalType::Struct(_) => "struct".to_string(),
        _ => "other".to_string(),
    };
    let printed = match &error.about {
        Subject::Nothing => vec![],
        Subject::Type(named) => vec![ty(named)],
        Subject::Layout(layout) => vec![format!("{layout:?}")],
        Subject::TypeAndLayout(named, layout) => vec![ty(named), format!("{layout:?}")],
        Subject::Held(Value::Varchar(text)) => vec![format!("'{text}'")],
        Subject::Held(value) => vec![format!("{value:?}")],
    };
    error.text(&printed)
}

#[test]
fn each_refusal_of_a_vector_says_what_was_wrong() {
    let three = || Vector::sequence(0, 1, 3);
    let message = |result: Result<Vector, Error>| shown(&result.err().unwrap());
    assert_eq!(message(three().slice(2, 2)), "rows 2 to 4 of a vector of 3");
    assert_eq!(message(three().slice(1, usize::MAX)), "a slice that wraps");
    assert_eq!(
        message(Vector::dictionary(vec![0, 7, 3], three())),
        "dictionary code 7 is past the end of a 3 value dictionary"
    );
    let ids = Arc::new(vec![0, 5]);
    assert_eq!(
        message(Vector::gathered(Arc::new(three()), ids.clone())),
        "a gathered row id is past the 3 rows of its source"
    );
    assert_eq!(
        message(Vector::gathered_from(Arc::new(three()), ids.clone(), 1, 4)),
        "rows 1 to 5 of a gather over 2 ids"
    );
    assert_eq!(
        message(Vector::gathered_from(Arc::new(three()), ids, 1, usize::MAX)),
        "a gather that wraps"
    );
    assert_eq!(
        message(Vector::runs(vec![4], three())),
        "1 runs and 3 values to put in them"
    );
    assert_eq!(
        message(Vector::packed(LogicalType::Integer, vec![0], 8, 0, 9)),
        "1 words for 9 values of 8 bits, which needs 2"
    );
    assert_eq!(
        message(Vector::packed(LogicalType::Integer, vec![0], 64, 0, 1)),
        "a packed width of 64, which is outside 1 to 63"
    );
    assert_eq!(
        message(Vector::packed(LogicalType::Integer, vec![], 8, 0, 1 << 61)),
        "0 words for 2305843009213693952 values of 8 bits, which needs 288230376151711744"
    );
    assert_eq!(
        message(Vector::packed(LogicalType::Varchar, vec![0], 8, 0, 1)),
        "a varchar vector has no integer layout to pack"
    );
    assert_eq!(
        message(Vector::packed(LogicalType::TinyInt, vec![0], 8, -128, 1)
            .and(Vector::packed(LogicalType::TinyInt, vec![0], 8, -127, 1))),
        "packed values from -127 to 128, which a tinyint cannot hold"
    );
    assert_eq!(
        message(Vector::flat(LogicalType::decimal(9, 2), Data::Int64(vec![1]))),
        "a decimal vector cannot hold Int64 data"
    );
    let arena = Arc::new(Vec::new());
    assert_eq!(
        message(Vector::string_views(LogicalType::Integer, Vec::new(), arena)),
        "a integer vector cannot hold string views"
    );
    let text_in = |ty| Vector::from_values(ty, &[Value::Null, text("x")]);
    assert_eq!(
        message(text_in(LogicalType::List(Arc::new(LogicalType::Integer)))),
        "'x' does not belong in a list vector"
    );
    assert_eq!(message(text_in(LogicalType::Integer)), "'x' is not a 32 bit value");
    assert_eq!(message(text_in(LogicalType::Double)), "'x' does not belong in this vector");
    let pair = vec![
        Field::new("a".to_string(), LogicalType::Integer),
        Field::new("b".to_string(), LogicalType::List(Arc::new(LogicalType::Varchar))),
    ];
    let whole = LogicalType::Struct(Arc::new(pair));
    assert_eq!(
        message(Vector::flat(whole.dup(), Data::Bool(vec![true]))),
        "a struct vector cannot hold Bool data"
    );
    assert_eq!(message(text_in(whole)), "'x' does not belong in a struct vector");
    let missing = Value::Struct(vec![("a".to_string(), Value::Integer(1))]);
    let named = |name: &str| Arc::new(vec![Field::new(name.to_string(), LogicalType::Integer)]);
    assert_eq!(
        message(Vector::from_values(LogicalType::Struct(named("z")), &[missing])),
        "a struct row with no z field in it"
    );
    let array = LogicalType::Array(Arc::new(LogicalType::Integer), 3);
    assert_eq!(
        message(Vector::from_values(array, &[])),
        "a flat vector of Array data, which arrives with the storage layer"
    );
    assert_eq!(
        message(Vector::list(vec![(0, 2), (1, 9)], three())),
        "a list entry of 9 at 1 in a child of 3"
    );
    let fields = vec![("a".to_string(), three()), ("b".to_string(), Vector::sequence(0, 1, 2))];
    assert_eq!(message(Vector::structure(fields)), "a b field of 2 rows beside a struct of 3");
    let wide = Value::Decimal { unscaled: -1_000_000, width: 4, scale: 1 };
    assert_eq!(
        message(Vector::from_values(LogicalType::decimal(4, 1), &[wide])),
        "an unscaled decimal of -1000000 does not fit the run its precision chose"
    );
}

fn facts() -> ColumnFacts {
    ColumnFacts {
        nonzero: Some(7),
        distinct: Some(3),
        ends: Some(IntegerExtremes::Values { low: -2, high: 9 }),
        sum: Some((30, 8)),
        quotient: 3.75f64.to_bits(),
    }
}

fn database() -> Database {
    let none = ColumnFacts { nonzero: None, distinct: None, ends: None, sum: None, quotient: 0 };
    Database {
        tables: vec![StoredTable {
            name: "hits".to_string(),
            rows: 10,
            fields: vec![
                Field::new("AdvEngineID".to_string(), LogicalType::Integer),
                Field::new("Title".to_string(), LogicalType::Varchar),
            ],
            columns: vec![facts(), none],
        }],
    }
}

#[test]
fn a_file_answers_a_plain_statement_from_what_it_keeps() {
    let file = database();
    let nonzero = "SELECT COUNT(*) FROM HITS WHERE advengineid <> 0";
    assert_eq!(file.query_native_nonzero_value_once(nonzero), Some(7));
    let average = "SELECT AVG(AdvEngineID) FROM hits";
    assert_eq!(file.query_native_average_value_once(average), Some(3.75f64.to_bits()));
    let distinct = "SELECT COUNT(DISTINCT AdvEngineID) FROM hits";
    assert_eq!(file.query_native_distinct_value_once(distinct), Some(3));
    let extrema = "SELECT MIN(AdvEngineID), MAX(AdvEngineID) FROM hits";
    assert_eq!(
        file.query_native_extrema_values_once(extrema),
        Some(NativeExtremaValues::Integer { low: -2, high: 9 })
    );
    let three = "SELECT SUM(AdvEngineID), COUNT(*), AVG(AdvEngineID) FROM hits";
    assert_eq!(file.query_native_three_values_once(three, false), Some((30, 10, 3.75f64.to_bits())));
    assert_eq!(file.query_native_average_value_once("SELECT AVG(Title) FROM hits"), None);
    assert_eq!(file.query_native_average_value_once("SELECT AVG(Other) FROM hits"), None);
    assert_eq!(file.query_native_average_value_once("SELECT AVG(Title) FROM misses"), None);
    let titled = "SELECT COUNT(*) FROM hits WHERE Title <> 0";
    assert_eq!(file.query_native_nonzero_value_once(titled), None, "not a column of integers");
}

fn parsed(expr: Expr) -> Ast {
    Ast {
        statements: vec![Statement::Query(Query {
            ctes: 0,
            order_by: 0,
            order_by_all: false,
            limit: false,
            offset: false,
            limit_percent: false,
            body: QueryBody::Select(Select {
                distinct: Distinct::No,
                targets: vec![Column { expr, alias: None }],
                from: vec![Source::Table {
                    name: vec!["hits".to_string()],
                    alias: false,
                    columns: 0,
                }],
                filter: None,
                group_by: 0,
                group_by_all: false,
                having: false,
            }),
        })],
    }
}

#[test]
fn a_file_answers_a_parsed_statement_in_one_row() {
    let call = |name: &str, distinct: bool, column: &str| Expr::Function {
        name: vec![name.to_string()],
        args: vec![Expr::Column { name: vec![column.to_string()] }],
        distinct,
        filter: false,
    };
    let file = database();
    let mean = parsed(call("avg", false, "AdvEngineID"));
    let answer = file.query_native_once(&mean).unwrap().unwrap();
    assert_eq!(answer.names, vec!["avg(AdvEngineID)".to_string()]);
    assert_eq!(answer.chunks[0].value_at(0, 0), Value::Double(3.75f64.to_bits()));
    let count = parsed(call("count", true, "AdvEngineID"));
    let answer = file.query_native_once(&count).unwrap().unwrap();
    assert_eq!(answer.chunks[0].value_at(0, 0), Value::BigInt(3));
    assert!(file.query_native_once(&parsed(call("avg", false, "Title"))).unwrap().is_none());
    assert!(file.query_native_once(&parsed(Expr::Other)).unwrap().is_none());
    assert!(file.query_native_once(&Ast { statements: Vec::new() }).unwrap().is_none());
}

#[test]
fn groups_are_counted_out_of_the_parts_of_a_column() {
    let sql = "SELECT AdvEngineID, COUNT(*) FROM hits WHERE AdvEngineID <> 0 \
               GROUP BY AdvEngineID ORDER BY COUNT(*) DESC";
    let column = Vector::flat(LogicalType::Integer, Data::Int32(vec![4, 0, 9, 4])).unwrap();
    let coded = Vector::dictionary(vec![0, 1, 1], column.clone()).unwrap();
    let parts = vec![
        Part::Tallied(vec![(9, 5), (0, 100), (-2, 1)]),
        Part::Column(column),
        Part::Column(coded),
    ];
    let groups = database().query_native_group_count_once(sql, false, &parts).unwrap().unwrap();
    assert_eq!(groups, vec![(9, 6), (4, 3), (-2, 1)]);
    let other = database().query_native_group_count_once("SELECT 1", false, &parts).unwrap();
    assert!(other.is_none());
    let words = Vector::from_values(LogicalType::Varchar, &[text("a")]).unwrap();
    let mixed = vec![Part::Column(words)];
    assert!(database().query_native_group_count_once(sql, false, &mixed).unwrap().is_none());
    let many = vec![Part::Tallied(vec![(1, u64::MAX)])];
    let error = database().query_native_group_count_once(sql, false, &many).unwrap_err();
    assert_eq!(error.message, "grouped count exceeds BIGINT");
}

#[test]
fn a_statement_goes_the_way_its_transaction_and_its_file_allow() {
    let mut ledger = Ledger::new(Arc::new(0));
    ledger.transaction(Transaction::Begin { read_only: true }).unwrap();
    let declined = vec![("bad".to_string(), false)];
    let target = Target {
        has_path: true,
        writable: true,
        path_exists: false,
        transacting: true,
        stored_tables: 1,
        temporary: false,
    };
    let under = |target: Target| Under {
        ledger: &ledger,
        database: "memory",
        target,
        mirrors: true,
        least_rows: 10,
        declined: &declined,
        parameters: false,
    };
    let query = Bound::Query { asked: vec![("big".to_string(), true, 50)] };
    match under(target).execute_move(&query, true) {
        Ok(Move::Rebind(wanted)) => assert_eq!(wanted, vec![("big".to_string(), true)]),
        _ => panic!("a mirror is wanted"),
    }
    assert!(matches!(
        under(target).execute_move(&query, false),
        Ok(Move::Query { remember: true })
    ));
    let refused = under(target).execute_move(&Bound::DropTable, true).err().unwrap();
    assert_eq!(refused.code(), ErrorCode::Transaction);
    assert!(matches!(
        under(target).execute_move(&Bound::Checkpoint, true),
        Ok(Move::Checkpoint { persist: true })
    ));
    assert!(matches!(
        under(target).execute_move(&Bound::Setting { pragma: true }, true),
        Ok(Move::Toggle)
    ));
    assert!(matches!(
        under(target).query_move(&Bound::Explain { analyze: true, statistics: true }, true),
        Ok(Move::Explain { analyze: true, statistics: true })
    ));
    assert!(under(target).query_move(&Bound::Checkpoint, true).is_err());
    let free = Ledger::new(Arc::new(0));
    let insert = Insert {
        appends: true,
        returning: false,
        checks: false,
        found: true,
        keys: false,
        foreign: false,
        empty: true,
    };
    let open = Under {
        ledger: &free,
        database: "memory",
        target: Target { transacting: false, ..target },
        mirrors: false,
        least_rows: 0,
        declined: &declined,
        parameters: true,
    };
    assert!(matches!(
        open.execute_move(&Bound::Insert(insert), true),
        Ok(Move::Insert(Load::FreshFile))
    ));
    assert!(matches!(open.execute_move(&query, true), Ok(Move::Query { remember: false })));
}

#[test]
fn a_cut_of_a_cut_and_a_gather_of_a_gather_read_the_first_vector() {
    let values: Vec<i32> = (0..40).map(|row| row * row).collect();
    let flat = Vector::flat(LogicalType::Integer, Data::Int32(values)).unwrap();
    for vector in [
        flat.clone(),
        Vector::dictionary((0..40).rev().collect(), flat.clone()).unwrap(),
        Vector::gathered(Arc::new(flat.clone()), Arc::new((0..40).rev().collect())).unwrap(),
        flat.bit_packed().unwrap(),
    ] {
        let again = vector.slice(10, 20).unwrap().slice(5, 7).unwrap();
        assert_eq!(again.iter(), vector.slice(15, 7).unwrap().iter(), "{:?}", vector.form());
        let picked = vector.gather(&[3, 30, 9]).unwrap().gather(&[2, 0]).unwrap();
        assert_eq!(picked.iter(), vector.gather(&[9, 3]).unwrap().iter(), "{:?}", vector.form());
    }
}

#[test]
fn a_row_read_as_bytes_and_a_row_read_as_a_value_are_the_same_row() {
    let words: Vec<Value> = ["red", "", "a string well past twelve bytes"].map(text).to_vec();
    let flat = Vector::from_values(LogicalType::Varchar, &words).unwrap();
    for vector in [
        flat.clone(),
        flat.clone().shared_text().unwrap(),
        Vector::runs(vec![2, 3, 9], flat.clone()).unwrap(),
        Vector::dictionary(vec![2, 2, 0, 1], flat).unwrap(),
    ] {
        for row in 0..vector.len() {
            let bytes = vector.try_bytes_at(row).unwrap().unwrap();
            assert_eq!(vector.value_of(bytes), vector.value_at(row));
            assert_eq!(vector.text_at(row).map(str::as_bytes), Some(bytes));
        }
    }
}

#[test]
fn a_value_that_repeats_is_written_out_with_nulls_beside_it() {
    let list = Value::List { element: LogicalType::Integer, values: vec![Value::Integer(1)] };
    let constant = Vector::constant(LogicalType::list(LogicalType::Integer), list.clone(), 3);
    let picked = constant.gather(&[0, 9]).unwrap();
    assert_eq!(picked.iter(), vec![list, Value::Null]);
    let plain = Vector::constant(LogicalType::Integer, Value::Integer(5), 3);
    assert_eq!(plain.gather(&[9]).unwrap().iter(), vec![Value::Null]);
    assert_eq!(plain.flatten().unwrap().form(), Form::Flat);
}

#[test]
fn a_table_is_trained_to_the_blocks_of_its_rows_and_then_to_their_bytes() {
    let table = SymbolTable::train(&vec![b"abcdefghab".to_vec(), b"abcdefghz".to_vec()]);
    assert_eq!(table.len(), 10, "one block, eight bytes of it and one more");
    let mut codes = Vec::new();
    table.compress(b"abcdefghabz?", &mut codes);
    assert_eq!(codes, vec![0, 1, 2, 9, 255, b'?']);
}

#[test]
fn a_share_of_something_is_never_nothing() {
    assert_eq!(share(100, 4), 25);
    assert_eq!(share(3, 1000), 1);
    assert_eq!(share(0, 7), 0);
    assert_eq!(share(9, 0), 9);
}

#[test]
fn a_packed_column_reads_as_zero_past_its_words() {
    let words = vec![0xffff_ffff_ffff_ffff];
    let packed = Packed::new(&words, 4, 0, 0);
    assert_eq!(packed.code(15), 15);
    assert_eq!(packed.code(16), 0);
    assert_eq!(packed.code(1 << 62), 0);
    let mut out = vec![7; 3];
    packed.unpack(usize::MAX - 1, &mut out);
    assert_eq!(out, vec![0, 0, 0]);
    assert_eq!(packed.codes_at(|row| [15, 1 << 62][row], 2), vec![15, 0]);
}

#[test]
fn packed_values_that_may_not_fit_are_no_block() {
    let top = i64::MAX as i128;
    let packed = |base| Vector::packed(LogicalType::UBigInt, vec![1], 1, base, 1).unwrap();
    let mut out = vec![3];
    assert!(!packed(top).signed_block(&mut out));
    assert!(out.is_empty());
    assert!(packed(top - 1).signed_block(&mut out));
    assert_eq!(out, vec![i64::MAX]);
}

#[test]
fn a_base_is_as_large_as_the_type_lets_it_be() {
    let base = |low, high, width| packing_base(&LogicalType::TinyInt, low, high, width);
    assert_eq!(base(5, 8, 3), Some(5));
    assert_eq!(base(125, 127, 3), Some(120));
    assert_eq!(base(-128, 127, 8), Some(-128));
    assert_eq!(base(-1000, 5, 3), None, "below the type");
    assert_eq!(base(120, 1000, 3), None, "past the type");
    assert_eq!(base(0, 100, 3), None, "wider than the codes");
    assert_eq!(packing_base(&LogicalType::Varchar, 0, 1, 1), None);
}

#[test]
fn a_cut_keeps_what_its_form_points_into() {
    let packed = Vector::packed(LogicalType::Integer, vec![0x4321], 4, 10, 4).unwrap();
    let cut = packed.slice(1, 2).unwrap();
    let held = cut.packed_parts().unwrap();
    assert_eq!((held.offset(), held.width(), held.base()), (1, 4, 10));
    assert_eq!(held.words(), &[0x4321]);
    let runs = Vector::runs(vec![2], Vector::sequence(5, 1, 1)).unwrap();
    assert_eq!(runs.slice(1, 0).unwrap().len(), 0);
    let array = LogicalType::Array(Arc::new(LogicalType::Integer), 3);
    let odd = Vector::runs(vec![2], Vector::constant(array, Value::Null, 1)).unwrap();
    assert_eq!(odd.slice(1, 0).unwrap().len(), 0, "with nothing to write out");
}

#[test]
fn a_vector_no_other_vector_shares_weighs_everything_it_reaches() {
    let flat = Vector::flat(LogicalType::Integer, Data::Int32(vec![7; 1000])).unwrap();
    assert_eq!(flat.footprint(), 96 + 4000);
    let coded = Vector::dictionary(vec![0; 10], flat).unwrap();
    assert_eq!(coded.footprint(), 96 + 40 + 4096);
    let again = coded.clone();
    assert_eq!(coded.footprint(), 96 + 20 + 2048, "the codes and the values have two holders");
    drop(again);
    assert_eq!(coded.footprint(), 96 + 40 + 4096);
}
