use std::sync::Arc;

use rudb::appender::default_sql;
use rudb::cache::{
    binds_again, cached_native_aggregate, estimates, facts, measured, mirrored, relationships,
    remember_native_aggregate, wanted_mirrors, CachedNativeAggregate, Provenance, Related,
    RowsPlace, TableMeasure,
};
use rudb::checkpoint::{
    appendable, plan_checkpoint, same_views, Checkpoint, Held, QualifiedName, TableState, ViewEntry,
};
use rudb::execute::{settings_revision, Move};
use rudb::links::{
    edges_of, index, related, stored_edge, table_named, Edge, LinkState, Relationship, Side,
    TableShape,
};
use rudb::meter::{collected, elapsed_ns, Planning, Rows};
use rudb::naming::{in_memory, name_parts, table_sql, ColumnText};
use rudb::native::{
    answer_average, answer_count, answer_extrema, answer_three, count_value, counted_type,
    explained, extrema_values, find_column, find_table, native_integer_value, three_values,
    IntegerExtremes,
};
use rudb::plan::{is_native_summary_aggregate, Node, PlanExpr};
use rudb::route::{creates, creates_view, Create, Insert, Kind, Load, Target};
use rudb::rows::{check, split};
use rudb::shape::Ast;
use rudb::sink::NativePlace;
use rudb::steps::{
    changed_wanted, create_steps, load_steps, next_step, update_steps, write_answer, write_steps,
    Answer, Step, Write,
};
use rudb::tally::GroupCounts;
use rudb::transaction::{Ledger, Transaction};
use rudb::upsert::{upsert, Arrival, ConflictAction, Stored};
use rudb::{
    directory_of, single, Appender, Chunk, Data, Error, ErrorCode, Field, Form, LogicalType,
    NativeExtremaValues, QueryResult, Subject, Validity, Value, Vector, NO_ROW, VECTOR_SIZE,
    WAITING,
};

fn name(table: &str) -> QualifiedName {
    QualifiedName {
        catalog: "memory".to_string(),
        schema: "main".to_string(),
        table: table.to_string(),
    }
}

fn integers(values: &[i32]) -> Vector {
    Vector::flat(LogicalType::Integer, Data::Int32(values.to_vec())).unwrap()
}

fn flags(values: &[Option<bool>]) -> Vector {
    let values: Vec<Value> =
        values.iter().map(|flag| flag.map_or(Value::Null, Value::Boolean)).collect();
    Vector::from_values(LogicalType::Boolean, &values).unwrap()
}

fn chunk(columns: Vec<Vector>) -> Chunk {
    Chunk::new(columns).unwrap()
}

fn column_of(chunks: &[Chunk], column: usize) -> Vec<Value> {
    let mut values = Vec::new();
    for chunk in chunks {
        for row in 0..chunk.len() {
            values.push(chunk.value_at(row, column));
        }
    }
    values
}

fn numbers(values: &[i32]) -> Vec<Value> {
    values.iter().map(|&value| Value::Integer(value)).collect()
}

#[test]
fn a_bare_file_name_lives_in_the_current_directory() {
    assert_eq!(directory_of("db"), ".");
    assert_eq!(directory_of("/data/db"), "/data");
    assert_eq!(directory_of("a/db"), "a");
}

#[test]
fn a_directory_is_found_past_what_says_nothing() {
    assert_eq!(directory_of("/db"), "/");
    assert_eq!(directory_of("/"), ".");
    assert_eq!(directory_of(""), ".");
    assert_eq!(directory_of("a//b/./c/"), "a//b");
    assert_eq!(directory_of("./db"), ".");
    assert_eq!(directory_of("../db"), "..");
    assert_eq!(directory_of("a/b/."), "a");
}

#[test]
fn two_names_are_a_database_in_memory() {
    assert!(in_memory(""));
    assert!(in_memory(":memory:"));
    assert!(!in_memory("memory"));
}

#[test]
fn a_name_comes_apart_at_its_dots() {
    assert_eq!(name_parts("t"), vec!["t"]);
    assert_eq!(name_parts("c.s.t"), vec!["c", "s", "t"]);
    assert_eq!(name_parts("a."), vec!["a", ""]);
    assert_eq!(name_parts(""), vec![""]);
}

#[test]
fn a_table_is_written_as_the_statement_that_creates_it() {
    let columns = vec![
        ColumnText { name: "a".to_string(), ty: "INTEGER".to_string(), not_null: true },
        ColumnText { name: "b".to_string(), ty: "VARCHAR".to_string(), not_null: false },
    ];
    assert_eq!(table_sql("t", &columns), "CREATE TABLE t(a INTEGER NOT NULL, b VARCHAR);");
    assert_eq!(table_sql("t", &Vec::new()), "CREATE TABLE t();");
}

#[test]
fn rolling_back_puts_the_catalog_back() {
    let mut ledger = Ledger::new(Arc::new(1));
    assert!(!ledger.transacting());
    ledger.transaction(Transaction::Begin { read_only: false }).unwrap();
    assert!(ledger.transacting());
    ledger.change(Arc::new(2));
    assert_eq!(*ledger.last(), 1, "what an open transaction changed never committed");
    ledger.transaction(Transaction::Rollback).unwrap();
    assert_eq!(*ledger.catalog, 1);
    ledger.transaction(Transaction::Begin { read_only: false }).unwrap();
    ledger.change(Arc::new(3));
    ledger.transaction(Transaction::Commit).unwrap();
    assert_eq!(*ledger.catalog, 3);
    assert_eq!(*ledger.last(), 3);
}

#[test]
fn a_failed_statement_aborts_its_transaction_and_a_misspelled_one_does_not() {
    let mut ledger = Ledger::new(Arc::new(1));
    ledger.transaction(Transaction::Begin { read_only: false }).unwrap();
    ledger.settle(Some(ErrorCode::Parser));
    ledger.settle(Some(ErrorCode::NotImplemented));
    ledger.settle(None);
    assert!(ledger.may_run(false).is_ok());
    ledger.change(Arc::new(2));
    ledger.settle(Some(ErrorCode::Conversion));
    let refused = ledger.may_run(false).unwrap_err();
    assert_eq!(refused.code(), ErrorCode::Transaction);
    assert_eq!(refused.message, "Current transaction is aborted (please ROLLBACK)");
    assert!(ledger.may_run(true).is_ok());
    ledger.transaction(Transaction::Commit).unwrap();
    assert_eq!(*ledger.catalog, 1, "committing it rolls it back");
}

#[test]
fn a_transaction_is_opened_once_and_closed_once() {
    let mut ledger = Ledger::new(Arc::new(1));
    let error = ledger.transaction(Transaction::Commit).unwrap_err();
    assert_eq!(error.message, "cannot commit - no transaction is active");
    let error = ledger.transaction(Transaction::Rollback).unwrap_err();
    assert_eq!(error.message, "cannot rollback - no transaction is active");
    ledger.transaction(Transaction::Begin { read_only: true }).unwrap();
    let error = ledger.transaction(Transaction::Begin { read_only: false }).unwrap_err();
    assert_eq!(error.message, "cannot start a transaction within a transaction");
    assert!(ledger.may_write(false, "memory").is_ok());
    let error = ledger.may_write(true, "memory").unwrap_err();
    assert_eq!(
        error.message,
        "Cannot write to database \"\"memory\"\" - transaction is launched in read-only mode"
    );
}

fn stored(table: &str, native: bool, declared: bool) -> TableState {
    TableState { name: name(table), native, declared }
}

fn view(called: &str, sql: &str, columns: &[&str]) -> ViewEntry {
    ViewEntry {
        name: called.to_string(),
        sql: sql.to_string(),
        statement: sql.to_string(),
        aliases: Vec::new(),
        columns: columns.iter().map(|column| column.to_string()).collect(),
    }
}

fn held(tables: &[&str], views: Vec<ViewEntry>) -> Held {
    Held { tables: tables.iter().map(|table| table.to_string()).collect(), views }
}

#[test]
fn a_checkpoint_writes_what_changed_and_no_more() {
    let clean = vec![stored("a", true, true), stored("b", true, true)];
    let none = Vec::new();
    let file = held(&["b", "a"], Vec::new());
    assert!(matches!(plan_checkpoint(&clean, &none, Some(&file)), Checkpoint::Nothing));
    let views = vec![view("v", "SELECT 1", &[])];
    assert!(matches!(plan_checkpoint(&clean, &views, Some(&file)), Checkpoint::Restate));
    assert!(matches!(plan_checkpoint(&clean, &none, None), Checkpoint::Rewrite));
    let grown = vec![stored("a", true, true), stored("b", true, true), stored("c", false, true)];
    match plan_checkpoint(&grown, &none, Some(&file)) {
        Checkpoint::Append(dirty) => assert_eq!(dirty, vec![2]),
        other => panic!("{other:?}"),
    }
    let dropped = held(&["a", "b", "gone"], Vec::new());
    assert!(matches!(plan_checkpoint(&clean, &none, Some(&dropped)), Checkpoint::Rewrite));
    assert!(matches!(plan_checkpoint(&grown, &none, Some(&dropped)), Checkpoint::Rewrite));
    let declared = vec![stored("a", true, false), stored("b", true, true)];
    assert!(matches!(plan_checkpoint(&declared, &none, Some(&file)), Checkpoint::Rewrite));
    assert!(matches!(plan_checkpoint(&Vec::new(), &none, Some(&file)), Checkpoint::WriteEmpty));
    let empty = held(&[], Vec::new());
    assert!(matches!(plan_checkpoint(&Vec::new(), &none, Some(&empty)), Checkpoint::Nothing));
}

#[test]
fn views_are_compared_by_what_they_are_and_not_by_their_columns() {
    let one = vec![view("v", "SELECT a", &[])];
    let same = vec![view("v", "SELECT a", &["a"])];
    let other = vec![view("v", "SELECT b", &[])];
    assert!(same_views(&one, &same));
    assert!(!same_views(&one, &other));
    assert!(!same_views(&one, &Vec::new()));
}

#[test]
fn a_table_is_appended_where_the_file_and_the_catalog_agree_about_the_others() {
    let tables = vec![stored("a", true, true), stored("t", false, true)];
    let target = name("t");
    let rows = |pairs: &[(&str, u64)]| -> Vec<(String, u64)> {
        pairs.iter().map(|&(table, rows)| (table.to_string(), rows)).collect()
    };
    assert!(appendable(Some(&rows(&[("a", 5)])), &tables, &target));
    assert!(appendable(Some(&rows(&[("a", 5), ("t", 0)])), &tables, &target));
    assert!(!appendable(Some(&rows(&[("a", 5), ("t", 1)])), &tables, &target), "rows in the way");
    assert!(!appendable(Some(&rows(&[("a", 5), ("b", 1)])), &tables, &target), "dropped since");
    assert!(!appendable(Some(&rows(&[])), &tables, &target), "not carried");
    assert!(!appendable(None, &tables, &target));
    let dirty = vec![stored("a", false, true), stored("t", false, true)];
    assert!(!appendable(Some(&rows(&[("a", 5)])), &dirty, &target));
}

fn shape(table: &str, columns: &[&str], native: bool) -> TableShape {
    TableShape {
        name: name(table),
        columns: columns
            .iter()
            .map(|column| Field::new(column.to_string(), LogicalType::Integer))
            .collect(),
        native,
    }
}

fn side(table: &str, columns: &[&str]) -> Side {
    Side {
        table: table.to_string(),
        columns: columns.iter().map(|column| column.to_string()).collect(),
    }
}

fn link(child: Side, parent: Side) -> Relationship {
    Relationship { child, parent }
}

#[test]
fn a_declared_relationship_becomes_key_maps_and_edges() {
    let tables = vec![
        shape("orders", &["o_custkey"], true),
        shape("customer", &["c_name", "c_custkey"], true),
        shape("visits", &["v_zone"], false),
    ];
    let declared = vec![
        link(side("ORDERS", &["o_custkey"]), side("Customer", &["C_CUSTKEY"])),
        link(side("visits", &["v_zone"]), side("customer", &["c_custkey"])),
        link(side("visits", &["v_zone"]), side("nowhere", &["z"])),
        link(side("orders", &["a", "b"]), side("customer", &["c_name", "c_custkey"])),
    ];
    assert_eq!(table_named(&tables, "CUSTOMER"), Some(1));
    assert_eq!(table_named(&tables, "nowhere"), None);
    let edges = vec![
        Edge { child: 0, child_column: 0, parent: 1, parent_column: 1 },
        Edge { child: 2, child_column: 0, parent: 1, parent_column: 1 },
    ];
    assert_eq!(edges_of(&tables, &declared), edges);
    let plan = index(&tables, &declared);
    assert_eq!(plan.key_maps, vec![(1, vec![1])]);
    assert_eq!(plan.edges, edges);
    assert_eq!(plan.rebind, vec![1, 0, 2]);
    assert_eq!(stored_edge(&tables, &declared[0]), Some(edges[0]));
    assert_eq!(stored_edge(&tables, &declared[1]), None, "visits is not in the file");
    let nothing = index(&tables, &Vec::new());
    assert!(nothing.key_maps.is_empty() && nothing.edges.is_empty() && nothing.rebind.is_empty());
}

#[test]
fn a_relationship_carries_both_certificates_only_when_every_child_row_found_a_parent() {
    let declared = vec![
        link(side("orders", &["o_custkey"]), side("customer", &["c_custkey"])),
        link(side("returns", &["r_custkey"]), side("customer", &["c_custkey"])),
        link(side("visits", &["v_zone"]), side("zones", &["z_key"])),
    ];
    let held = vec![Some((10_000, 10_000)), Some((10_000, 10_001)), None];
    let found = related(&declared, &held);
    let states: Vec<(&str, LinkState)> =
        found.iter().map(|link| (link.child.as_str(), link.state)).collect();
    assert_eq!(
        states,
        vec![
            ("orders", LinkState::Verified),
            ("returns", LinkState::Built),
            ("visits", LinkState::Declared)
        ],
        "one unmatched child row costs the relationship its totality and not its link"
    );
    assert_eq!(found[0].parent_key, "c_custkey");
}

#[test]
fn a_delete_keeps_the_unflagged_rows_and_an_update_keeps_them_all() {
    let chunks = vec![
        chunk(vec![integers(&[1, 2, 3]), flags(&[Some(true), Some(false), None])]),
        chunk(vec![integers(&[4, 5]), flags(&[Some(true), Some(true)])]),
    ];
    let (kept, changed, count) = split(&chunks, true, true).unwrap();
    assert_eq!(count, 3);
    assert_eq!(column_of(&kept, 0), numbers(&[2, 3]));
    assert_eq!(kept.len(), 1, "a chunk with no row left is not kept");
    assert_eq!(kept[0].width(), 1, "the flag is taken off");
    assert_eq!(column_of(&changed, 0), numbers(&[1, 4, 5]));
    let (kept, changed, count) = split(&chunks, false, false).unwrap();
    assert_eq!(count, 3);
    assert_eq!(column_of(&kept, 0), numbers(&[1, 2, 3, 4, 5]));
    assert!(changed.is_empty());
}

#[test]
fn the_first_constraint_a_row_fails_is_the_one_that_is_named() {
    let messages = vec!["first".to_string(), "second".to_string()];
    let answers = vec![
        chunk(vec![flags(&[Some(false), None]), flags(&[Some(true), Some(false)])]),
        chunk(vec![flags(&[Some(false)]), flags(&[Some(false)])]),
    ];
    let error = check(&messages, &answers).unwrap_err();
    assert_eq!(error.code(), ErrorCode::Constraint);
    assert_eq!(error.message, "second");
    let fine = vec![chunk(vec![flags(&[Some(false)]), flags(&[None])])];
    assert!(check(&messages, &fine).is_ok());
    let worse = vec![chunk(vec![flags(&[Some(true)]), flags(&[Some(true)])])];
    assert_eq!(check(&messages, &worse).unwrap_err().message, "first");
}

fn table(rows: &[&[i32]]) -> Vec<Vec<Value>> {
    rows.iter().map(|row| numbers(row)).collect()
}

#[test]
fn an_upsert_replaces_the_columns_it_was_told_to() {
    let held = table(&[&[1, 10, 100], &[2, 20, 200]]);
    let new = table(&[&[2, 21, 201], &[3, 30, 300], &[3, 31, 301]]);
    let arrivals = vec![Arrival::Held(1), Arrival::New, Arrival::Dropped];
    let after = upsert(&held, &new, &arrivals, &ConflictAction::Replace(vec![1]));
    assert_eq!(after.held, table(&[&[1, 10, 100], &[2, 21, 200]]));
    assert_eq!(after.updated, vec![1]);
    assert_eq!(after.added, table(&[&[3, 30, 300]]));
    assert_eq!(after.count(), 2);
    assert_eq!(after.written(), table(&[&[2, 21, 200], &[3, 30, 300]]), "the updated ones first");
    match after.stored() {
        Stored::Replace(rows) => {
            assert_eq!(rows, table(&[&[1, 10, 100], &[2, 21, 200], &[3, 30, 300]]))
        }
        Stored::Append(_) => panic!("a held row changed"),
    }
}

#[test]
fn an_upsert_that_does_nothing_only_adds() {
    let held = table(&[&[1, 10]]);
    let new = table(&[&[1, 11], &[2, 20]]);
    let arrivals = vec![Arrival::Held(0), Arrival::New];
    let after = upsert(&held, &new, &arrivals, &ConflictAction::Nothing);
    assert_eq!(after.held, held);
    assert!(after.updated.is_empty());
    match after.stored() {
        Stored::Append(rows) => assert_eq!(rows, table(&[&[2, 20]])),
        Stored::Replace(_) => panic!("no held row changed"),
    }
}

#[test]
fn an_update_applies_where_its_last_answer_is_true() {
    let held = table(&[&[1, 10], &[2, 20], &[3, 30]]);
    let new = table(&[&[1, 11], &[3, 31]]);
    let arrivals = vec![Arrival::Held(0), Arrival::Held(2)];
    let answers = vec![
        vec![Value::Integer(77), Value::Boolean(true)],
        vec![Value::Integer(88), Value::Boolean(false)],
    ];
    let action = ConflictAction::Update { columns: vec![1], answers };
    let after = upsert(&held, &new, &arrivals, &action);
    assert_eq!(after.held, table(&[&[1, 77], &[2, 20], &[3, 30]]));
    assert_eq!(after.updated, vec![0]);
    assert!(after.added.is_empty());
}

fn appender() -> Appender {
    Appender::new(vec![
        Field::new("a".to_string(), LogicalType::Integer),
        Field::new("b".to_string(), LogicalType::Varchar),
    ])
}

fn text(text: &str) -> Value {
    Value::Varchar(text.to_string())
}

#[test]
fn rows_are_handed_over_at_a_flush_and_not_before() {
    let mut rows = appender();
    assert_eq!(rows.columns().len(), 2);
    assert_eq!(rows.next_field().unwrap().name, "a");
    rows.append(Value::Integer(1), None).unwrap();
    rows.append(text("x"), None).unwrap();
    assert!(rows.next_field().is_none());
    assert!(rows.end_row().unwrap().is_none());
    rows.append(text("2"), Some(Ok(Value::Integer(2)))).unwrap();
    let chunks = rows.flush().unwrap();
    assert_eq!(column_of(&chunks, 0), numbers(&[1]), "the row half built stays where it is");
    rows.append_default(None, None).unwrap();
    rows.end_row().unwrap();
    assert!(rows
        .append_row(vec![(Value::Integer(3), None), (text("z"), None)])
        .unwrap()
        .is_none());
    let chunks = rows.close().unwrap();
    assert_eq!(column_of(&chunks, 0), numbers(&[2, 3]));
    assert_eq!(column_of(&chunks, 1), vec![Value::Null, text("z")]);
    assert!(rows.left_over().is_none(), "a closed one has nothing left to hand over");
}

#[test]
fn a_row_is_as_wide_as_its_table() {
    let mut rows = appender();
    rows.append(Value::Integer(1), None).unwrap();
    let error = rows.end_row().err().unwrap();
    assert_eq!(error.message, "Call to EndRow before all columns have been appended to!");
    let error = rows.close().err().unwrap();
    assert_eq!(error.message, "Failed to close appender: a row was started and not ended");
    assert_eq!(error.code(), ErrorCode::InvalidInput);
    rows.append(text("x"), None).unwrap();
    let error = rows.append(Value::Integer(9), None).unwrap_err();
    assert_eq!(error.message, "Too many appends for chunk!");
    let error = rows.append_default(None, None).unwrap_err();
    assert_eq!(error.message, "Too many appends for chunk!");
    let long = vec![(Value::Integer(9), None)];
    assert_eq!(rows.append_row(long).err().unwrap().message, "Too many appends for chunk!");
}

#[test]
fn a_value_that_does_not_cast_fails_where_it_was_handed_over() {
    let mut rows = appender();
    let failed = || Some(Err(Error::new(ErrorCode::Conversion, "not a number")));
    let error = rows.append(text("x"), failed()).unwrap_err();
    assert_eq!(error.code(), ErrorCode::Conversion);
    assert!(rows.append(Value::Null, failed()).is_ok(), "a null needs no cast");
    let error = rows.append_default(failed(), None).unwrap_err();
    assert_eq!(error.message, "not a number");
}

#[test]
fn a_value_no_column_can_hold_throws_away_the_rows_since_the_last_flush() {
    let mut rows = appender();
    rows.append_row(vec![(Value::Integer(1), None), (text("x"), None)]).unwrap();
    rows.append_row(vec![(text("two"), None), (text("y"), None)]).unwrap();
    assert_eq!(rows.flush().err().unwrap().code(), ErrorCode::Internal);
    assert!(rows.flush().unwrap().is_empty());
}

#[test]
fn a_full_buffer_becomes_a_chunk_and_enough_chunks_are_due() {
    let mut rows = Appender::new(vec![Field::new("a".to_string(), LogicalType::Integer)]);
    let mut due = 0;
    for row in 0..WAITING {
        rows.append(Value::Integer(row as i32), None).unwrap();
        if let Some(chunks) = rows.end_row().unwrap() {
            assert_eq!(row + 1, WAITING);
            assert_eq!(chunks.len(), WAITING / VECTOR_SIZE);
            assert_eq!(chunks[1].value_at(0, 0), Value::Integer(VECTOR_SIZE as i32));
            due += chunks.iter().map(Chunk::len).sum::<usize>();
        }
    }
    assert_eq!(due, WAITING);
    assert!(rows.flush().unwrap().is_empty());
}

#[test]
fn an_appender_that_goes_away_hands_over_what_it_holds() {
    let mut rows = appender();
    rows.append_row(vec![(Value::Integer(1), None), (text("x"), None)]).unwrap();
    assert_eq!(column_of(&rows.left_over().unwrap(), 0), numbers(&[1]));
    rows.append(Value::Integer(2), None).unwrap();
    assert_eq!(column_of(&rows.left_over().unwrap(), 0), Vec::<Value>::new(), "half built");
    rows.append(text("y"), None).unwrap();
    rows.end_row().unwrap();
    rows.append(Value::Integer(3), None).unwrap();
    let chunks = rows.left_over().unwrap();
    assert_eq!(column_of(&chunks, 0), numbers(&[2]), "what is finished, not what is half built");
    assert_eq!(column_of(&chunks, 1), vec![text("y")]);
}

#[test]
fn a_default_is_worked_out_by_a_query() {
    assert_eq!(default_sql("1 + 1", "INTEGER"), "SELECT CAST((1 + 1) AS INTEGER)");
}

#[test]
fn a_stripe_is_a_run_of_one_morsel() {
    let fields = vec![Field::new("a".to_string(), LogicalType::Integer)];
    let mut place = NativePlace::new();
    assert!(place.start());
    assert!(!place.start());
    place.at(7);
    assert!(!place.sink("t", &fields, chunk(vec![integers(&[1, 2])]), 40, 2).unwrap());
    assert!(place.sink("t", &fields, chunk(vec![integers(&[3])]), 20, 2).unwrap(), "full");
    let (parts, holding) = place.hand_over().unwrap();
    assert_eq!(holding, 60);
    let places: Vec<(u64, u64)> = parts.iter().map(|part| part.0).collect();
    assert_eq!(places, vec![(7, 0), (7, 1)]);
    assert!(place.hand_over().is_none());
    place.spent(30, 10);
    assert_eq!(place.combine(100, 5), Some((70, 0, 60, 3)));
    assert_eq!(NativePlace::new().combine(100, 5), None);
}

#[test]
fn a_null_is_refused_where_a_column_may_hold_none() {
    let mut field = Field::new("a".to_string(), LogicalType::Integer);
    field.not_null = true;
    let fields = vec![field];
    let mut place = NativePlace::new();
    let nulls = integers(&[1, 2]).with_validity(Validity::from_run(&[true, false]));
    let coded = Vector::dictionary(vec![1, 0], nulls.clone()).unwrap();
    let source = Arc::new(integers(&[10, 20]));
    let gathered = Vector::gathered(source, Arc::new(vec![1, NO_ROW])).unwrap();
    for column in [nulls.clone(), coded, gathered] {
        let error = place.sink("t", &fields, chunk(vec![column]), 0, 2).unwrap_err();
        assert_eq!(error.code(), ErrorCode::Constraint);
        assert_eq!(error.message, "NOT NULL constraint failed: t.a");
    }
    let unused = Vector::dictionary(vec![0, 0], nulls).unwrap();
    assert!(place.sink("t", &fields, chunk(vec![unused]), 0, 2).is_ok());
    assert!(place.sink("t", &fields, chunk(vec![]), 0, 2).is_err(), "the column is not there");
}

#[test]
fn a_statement_costs_all_of_its_phases() {
    let planning = Planning { parse_ns: 1, bind_ns: 2, optimize_ns: 4 };
    assert_eq!(planning.total_ns(), 7);
    let timing = planning.timing((10, 100), (20, 200), 1000);
    assert_eq!(timing.total_ns, 37);
    assert_eq!(timing.cpu_ns, 1300);
    assert_eq!((timing.physical_ns, timing.execute_ns, timing.build_cpu_ns), (10, 20, 100));
    let long = Planning { parse_ns: u64::MAX, bind_ns: 2, optimize_ns: 0 };
    assert_eq!(long.total_ns(), u64::MAX);
    assert_eq!(elapsed_ns(5), 5);
    assert_eq!(elapsed_ns(1 << 70), u64::MAX);
}

#[test]
fn every_column_of_a_result_reaches_the_caller_flat() {
    let words = Vector::from_values(
        LogicalType::Varchar,
        &[text("a long string that will not fit inline"), text("b")],
    )
    .unwrap();
    let produced = || {
        vec![
            chunk(vec![integers(&[1, 2]), Vector::dictionary(vec![1, 0], words.clone()).unwrap()]),
            chunk(vec![integers(&[]), Vector::dictionary(vec![], words.clone()).unwrap()]),
        ]
    };
    let chunks = collected(produced(), Rows::ForACaller).unwrap();
    assert_eq!(chunks.len(), 1, "a chunk of no rows is left out");
    for (at, column) in chunks[0].columns.iter().enumerate() {
        assert_eq!(column.form(), Form::Flat, "column {at} came out encoded");
    }
    assert_eq!(column_of(&chunks, 1)[0], text("b"));
    let chunks = collected(produced(), Rows::ForATable).unwrap();
    assert_eq!(chunks[0].columns[1].form(), Form::Dictionary, "a table keeps the form");
}

#[test]
fn a_plan_is_kept_while_nothing_it_was_made_under_changed() {
    let mut held: Option<CachedNativeAggregate<i32>> = None;
    assert!(cached_native_aggregate(&held, "q", 1, 1).is_none());
    remember_native_aggregate(&mut held, "q", false, 1, 1, Arc::new(4));
    assert!(held.is_none(), "a plan that cannot be used again is not kept");
    remember_native_aggregate(&mut held, "q", true, 1, 1, Arc::new(5));
    assert_eq!(cached_native_aggregate(&held, "q", 1, 1), Some(Arc::new(5)));
    assert!(cached_native_aggregate(&held, "other", 1, 1).is_none());
    assert!(cached_native_aggregate(&held, "q", 2, 1).is_none());
    assert!(cached_native_aggregate(&held, "q", 1, 2).is_none());
}

#[test]
fn two_statements_over_one_catalog_plan_from_the_same_counts() {
    let tables = |rows: usize| {
        vec![TableMeasure {
            name: name("t"),
            place: RowsPlace::Native,
            rows,
            columns: vec![("a".to_string(), Some(2)), ("b".to_string(), None)],
        }]
    };
    let first = Arc::new(measured(&tables(3), 1));
    let again = facts(&first, &tables(3), 1);
    assert!(Arc::ptr_eq(&first, &again), "nothing changed, so nothing was rebuilt");
    let after = facts(&first, &tables(4), 2);
    assert!(!Arc::ptr_eq(&first, &after), "the catalog changed under it");
    assert!(after.generation > first.generation, "and it says which version it is");
    assert_eq!(first.tables[0].rows, 3);
    assert_eq!(after.tables[0].rows, 4);
    assert_eq!(after.tables[0].distincts[0].1, Some((2, Provenance::Dictionary)));
    assert_eq!(after.tables[0].distincts[1].1, None);
    assert!(Arc::ptr_eq(&estimates(&after, true), &after));
    let bare = estimates(&after, false);
    assert_eq!(bare.tables[0].rows, 4);
    assert_eq!(bare.tables[0].distincts[0].1, None);
}

#[test]
fn relationships_are_found_again_when_the_catalog_or_the_declaration_moves() {
    let links = vec![link(side("a", &["x"]), side("b", &["y"]))];
    let stored = vec![Some((1, 1))];
    let mut held =
        Related { generation: 0, declared: String::new(), found: Arc::new(Vec::new()) };
    assert!(relationships(&mut held, false, "a -> b", 1, &links, &stored).is_empty());
    assert!(relationships(&mut held, true, "", 1, &links, &stored).is_empty());
    let found = relationships(&mut held, true, "a -> b", 1, &links, &stored);
    assert_eq!(found.len(), 1);
    let again = relationships(&mut held, true, "a -> b", 1, &Vec::new(), &Vec::new());
    assert!(Arc::ptr_eq(&found, &again));
    let moved = relationships(&mut held, true, "a -> b", 2, &links, &stored);
    assert!(!Arc::ptr_eq(&found, &moved));
}

#[test]
fn a_file_that_could_not_be_mirrored_is_not_asked_for_again() {
    let asked = vec![
        ("big".to_string(), true, 100),
        ("small".to_string(), false, 3),
        ("bad".to_string(), false, 100),
    ];
    let mut declined = Vec::new();
    mirrored(&mut declined, "big", true, true);
    mirrored(&mut declined, "bad", false, false);
    let wanted = wanted_mirrors(true, true, &asked, 10, &declined);
    assert_eq!(wanted, vec![("big".to_string(), true)]);
    assert!(wanted_mirrors(false, true, &asked, 10, &declined).is_empty());
    assert!(wanted_mirrors(true, false, &asked, 10, &declined).is_empty());
    assert!(binds_again(true, false, 1, true, 3));
    assert!(binds_again(true, true, 0, true, 3));
    assert!(!binds_again(true, false, 0, true, 3));
    assert!(!binds_again(false, true, 1, true, 3), "not a third time");
}

fn summary(aggregates: Vec<PlanExpr>, columns: &[&str]) -> Node {
    let exprs = (0..aggregates.len())
        .map(|at| PlanExpr::Column { table: 5, column: at as u32 })
        .collect();
    let get = Node::Get {
        source: name("hits"),
        index: 3,
        columns: columns.iter().map(|column| column.to_string()).collect(),
    };
    Node::Project {
        input: Box::new(Node::Aggregate {
            input: Box::new(get),
            index: 5,
            groups: Vec::new(),
            aggregates,
        }),
        exprs,
    }
}

fn aggregate(called: &str, arguments: u32) -> PlanExpr {
    PlanExpr::Aggregate {
        name: called.to_string(),
        args: (0..arguments).map(|column| PlanExpr::Column { table: 3, column }).collect(),
        distinct: false,
        filter: false,
    }
}

#[test]
fn a_summary_of_a_stored_table_can_be_kept() {
    let ast = Ast { statements: Vec::new() };
    let native = vec![name("other"), name("hits")];
    let three = || vec![aggregate("sum", 1), aggregate("count_star", 0), aggregate("avg", 1)];
    let count = summary(vec![aggregate("count_star", 0)], &[]);
    assert!(is_native_summary_aggregate(&ast, &count, &native));
    assert!(is_native_summary_aggregate(&ast, &summary(three(), &["a"]), &native));
    assert!(is_native_summary_aggregate(
        &ast,
        &summary(vec![aggregate("avg", 1)], &["a"]),
        &native
    ));
    assert!(!is_native_summary_aggregate(&ast, &count, &vec![name("other")]), "not in the file");
    let counted = summary(vec![aggregate("count_star", 0)], &["a"]);
    assert!(!is_native_summary_aggregate(&ast, &counted, &native), "it reads a column");
    let max = summary(vec![aggregate("max", 1)], &["a"]);
    assert!(!is_native_summary_aggregate(&ast, &max, &native));
    assert!(!is_native_summary_aggregate(&ast, &Node::Other, &native));
}

#[test]
fn a_load_goes_straight_into_the_file_only_where_nothing_is_lost() {
    let target = Target {
        has_path: true,
        writable: true,
        path_exists: false,
        transacting: false,
        stored_tables: 0,
        temporary: false,
    };
    assert!(target.persists());
    assert_eq!(target.create_load(true, false), Load::FreshFile);
    assert_eq!(target.create_load(false, false), Load::ThroughTable);
    assert_eq!(target.create_load(true, true), Load::ThroughTable);
    let there = Target { path_exists: true, ..target };
    assert_eq!(there.create_load(true, false), Load::WhereAppendable);
    let busy = Target { transacting: true, ..target };
    assert_eq!(busy.create_load(true, false), Load::ThroughTable);
    let reading = Target { writable: false, ..target };
    assert!(!reading.persists());
    assert_eq!(reading.create_load(true, false), Load::ThroughTable);
    let insert = Insert {
        appends: true,
        returning: false,
        checks: false,
        found: true,
        keys: false,
        foreign: false,
        empty: true,
    };
    let one = Target { stored_tables: 1, ..target };
    assert_eq!(one.insert_load(&insert), Load::FreshFile);
    assert_eq!(target.insert_load(&insert), Load::WhereAppendable);
    let keyed = Insert { keys: true, ..insert };
    assert_eq!(one.insert_load(&keyed), Load::ThroughTable);
    let full = Insert { empty: false, ..insert };
    assert_eq!(one.insert_load(&full), Load::ThroughTable);
}

#[test]
fn a_statement_that_writes_is_refused_where_only_queries_run() {
    assert!(Kind::Query.reads_only().is_ok());
    assert!(Kind::Explain.reads_only().is_ok());
    let error = Kind::Insert.reads_only().unwrap_err();
    assert_eq!(error.code(), ErrorCode::NotImplemented);
    assert!(Kind::Insert.writes() && Kind::DropTable.writes());
    assert!(!Kind::Checkpoint.writes());
    assert_eq!(creates(true, false, true), Create::Nothing);
    assert_eq!(creates(false, true, true), Create::Replace);
    assert_eq!(creates(true, true, false), Create::Make, "a view has the name");
    assert_eq!(creates_view(true, false, true, false), Create::Nothing, "a table has the name");
    assert_eq!(creates_view(false, true, true, true), Create::Replace);
    assert_eq!(creates_view(false, true, true, false), Create::Make);
}

#[test]
fn a_table_is_replaced_only_after_the_query_that_fills_it_has_run() {
    assert_eq!(
        create_steps(Create::Replace, true, Load::ThroughTable),
        vec![
            Step::OptimizeSource,
            Step::RunSource,
            Step::DropOld,
            Step::MakeTable,
            Step::DescribeTable,
            Step::FillTable
        ]
    );
    assert!(create_steps(Create::Nothing, true, Load::ThroughTable).is_empty());
    assert_eq!(create_steps(Create::Make, true, Load::FreshFile)[1], Step::OpenFresh);
    assert_eq!(load_steps(Load::ThroughTable), vec![Step::OptimizeSource, Step::RunSource]);
    assert_eq!(load_steps(Load::WhereAppendable)[1], Step::OpenAppend);
}

#[test]
fn what_stood_in_is_put_back_whatever_failed() {
    let steps = write_steps(Write::Update, true, 2, true);
    assert_eq!(
        steps,
        vec![
            Step::StandInChecked,
            Step::RunChecks,
            Step::PutBack,
            Step::Judge,
            Step::FindMissing,
            Step::FindLost,
            Step::ReplaceRows,
            Step::StandInWritten,
            Step::RunReturning,
            Step::PutBack
        ]
    );
    assert_eq!(next_step(&steps, 0, None), Some(1));
    assert_eq!(next_step(&steps, 9, None), None);
    assert_eq!(next_step(&steps, 1, Some(1)), Some(2));
    assert_eq!(next_step(&steps, 2, Some(1)), None, "and nothing else runs");
    assert_eq!(next_step(&steps, 3, Some(3)), None, "a refused row stores nothing");
    assert_eq!(next_step(&steps, 8, Some(8)), Some(9));
    assert_eq!(write_steps(Write::Append, true, 0, false).len(), 2, "no row to check");
    let steps = update_steps(3, true);
    assert_eq!(next_step(&steps, 1, Some(1)), Some(5), "the table was not stood in for yet");
    assert_eq!(next_step(&steps, 3, Some(3)), Some(4));
    assert_eq!(next_step(&steps, 4, Some(3)), Some(5));
    assert!(update_steps(0, true).is_empty());
}

#[test]
fn groups_come_out_by_count_and_then_by_value() {
    let ends = IntegerExtremes::Values { low: 0, high: 9 };
    let mut counts = GroupCounts::for_column(Some(4), Some(ends)).unwrap();
    assert!(counts.count_column(&integers(&[3, 0, 5, 3, 9, 0])));
    counts.tally(5, 1);
    assert_eq!(counts.finish().unwrap(), vec![(3, 2), (5, 2), (9, 1)]);
    let mut sparse = GroupCounts::for_column(Some(4), None).unwrap();
    let nulls = integers(&[7, -7, 7]).with_validity(Validity::from_run(&[true, true, false]));
    assert!(sparse.count_column(&nulls));
    assert_eq!(sparse.finish().unwrap(), vec![(-7, 1), (7, 1)]);
    assert!(!sparse.count_column(&Vector::sequence(0, 1, 3)), "not a flat column");
    assert!(GroupCounts::for_column(Some(4097), Some(ends)).is_none());
    assert!(GroupCounts::for_column(None, None).is_none());
    let mut many = GroupCounts::for_column(Some(1), None).unwrap();
    many.tally(1, u64::MAX);
    assert_eq!(many.finish().unwrap_err().message, "grouped count exceeds BIGINT");
}

#[test]
fn a_stored_summary_answers_in_one_row() {
    let result = answer_count("n".to_string(), 12).unwrap().unwrap();
    assert_eq!(single(&result).unwrap(), Value::BigInt(12));
    assert!(answer_count("n".to_string(), u64::MAX).unwrap().is_none());
    let mean = answer_average("m".to_string(), 2, 1.5f64.to_bits()).unwrap();
    assert_eq!(single(&mean).unwrap(), Value::Double(1.5f64.to_bits()));
    let none = answer_average("m".to_string(), 0, 0).unwrap();
    assert_eq!(single(&none).unwrap(), Value::Null);
    let titles = || ["min(d)".to_string(), "max(d)".to_string()];
    let ends = IntegerExtremes::Values { low: 3, high: 9 };
    let dates = answer_extrema(titles(), &LogicalType::Date, ends).unwrap().unwrap();
    assert_eq!(dates.chunks[0].value_at(0, 1), Value::Date(9));
    assert_eq!(dates.names[0], "min(d)");
    let wide = IntegerExtremes::Values { low: 3, high: 300 };
    assert!(answer_extrema(titles(), &LogicalType::TinyInt, wide).unwrap().is_none());
    let empty = answer_extrema(titles(), &LogicalType::Date, IntegerExtremes::Null);
    assert_eq!(empty.unwrap().unwrap().chunks[0].value_at(0, 0), Value::Null);
    let titles = ["s".to_string(), "n".to_string(), "a".to_string()];
    let three = answer_three(titles, 5, (40, 4), 2, 2.5f64.to_bits()).unwrap().unwrap();
    assert_eq!(three.chunks[0].value_at(0, 0), Value::HugeInt(40));
    assert_eq!(three.chunks[0].value_at(0, 1), Value::BigInt(5));
    assert_eq!(three.chunks[0].value_at(0, 2), Value::Double(2.5f64.to_bits()));
    let plan = explained("logical_plan", "GET hits").unwrap();
    assert_eq!(plan.chunks[0].value_at(0, 1), text("GET hits"));
}

#[test]
fn one_cell_is_a_value_and_anything_else_is_not() {
    let error = single(&QueryResult::empty()).unwrap_err();
    assert_eq!(error.message, "expected one row of one column, got 0 rows of 0 columns");
    assert_eq!(error.code(), ErrorCode::InvalidInput);
    assert!(Chunk::new(vec![integers(&[1]), integers(&[1, 2])]).is_err());
}

#[test]
fn the_small_answers_are_exact() {
    assert_eq!(count_value(7), Some(7));
    assert_eq!(count_value(u64::MAX), None);
    assert_eq!(native_integer_value(&LogicalType::SmallInt, -5), Some(Value::SmallInt(-5)));
    assert_eq!(native_integer_value(&LogicalType::SmallInt, 40_000), None);
    assert!(counted_type(&LogicalType::BigInt) && !counted_type(&LogicalType::Varchar));
    let ends = Some(IntegerExtremes::Values { low: 1, high: 2 });
    assert_eq!(
        extrema_values(&LogicalType::Date, ends),
        Some(NativeExtremaValues::Date { low: 1, high: 2 })
    );
    assert_eq!(
        extrema_values(&LogicalType::BigInt, ends),
        Some(NativeExtremaValues::Integer { low: 1, high: 2 })
    );
    assert_eq!(extrema_values(&LogicalType::BigInt, Some(IntegerExtremes::Null)), None);
    assert_eq!(three_values(3, (6, 2), (9, 3)), Some((6, 3, (9, 3))));
    assert_eq!(three_values(3, (6, 0), (9, 3)), None);
    let names = vec!["Hits".to_string(), "hits".to_string()];
    assert_eq!(find_table(&names, "HITS"), Some(0));
    let fields = vec![Field::new("UserID".to_string(), LogicalType::BigInt)];
    assert_eq!(find_column(&fields, "userid"), Some(0));
    assert_eq!(find_column(&fields, "other"), None);
}

#[test]
fn a_gathered_row_with_no_source_is_a_null_a_mask_does_not_show() {
    let source = Arc::new(integers(&[10, 20]));
    let gathered = Vector::gathered(source, Arc::new(vec![1, NO_ROW])).unwrap();
    assert!(gathered.is_null_at(1));
    assert!(!gathered.validity().has_nulls(2));
}

#[test]
fn a_write_answers_with_its_list_or_with_how_many_rows_there_were() {
    assert_eq!(write_answer(Write::Append, false, 3, 1, 2), Answer::Changed(3));
    assert_eq!(write_answer(Write::Update, false, 3, 1, 2), Answer::Changed(1));
    assert_eq!(write_answer(Write::Delete, false, 3, 1, 2), Answer::Changed(1));
    let upsert = Write::Upsert { updated: true };
    assert_eq!(write_answer(upsert, false, 3, 1, 2), Answer::Changed(2));
    assert_eq!(write_answer(Write::Append, true, 3, 1, 2), Answer::Returning);
    assert!(!changed_wanted(false, false, false));
    assert!(changed_wanted(true, false, false));
    assert!(changed_wanted(false, true, false));
    assert!(changed_wanted(false, false, true));
}

#[test]
fn a_setting_makes_another_revision() {
    assert_eq!(settings_revision(4, &Move::Toggle), 5);
    assert_eq!(settings_revision(4, &Move::Apply), 5);
    assert_eq!(settings_revision(u64::MAX, &Move::Apply), 0);
    assert_eq!(settings_revision(4, &Move::DropTable), 4);
    let held = Some(CachedNativeAggregate {
        sql: "q".to_string(),
        catalog_generation: 1,
        settings_revision: 4,
        plan: Arc::new(7),
    });
    assert!(cached_native_aggregate(&held, "q", 1, 4).is_some());
    let after = settings_revision(4, &Move::Apply);
    assert!(cached_native_aggregate(&held, "q", 1, after).is_none());
}

#[test]
fn splitting_and_collecting_keep_the_types_of_columns() {
    let nulls = Vector::constant(LogicalType::Varchar, Value::Null, 2);
    let flags = Vector::from_values(
        LogicalType::Boolean,
        &[Value::Boolean(true), Value::Boolean(false)],
    )
    .unwrap();
    let source = vec![chunk(vec![nulls, flags])];
    let (kept, changed, count) = split(&source, true, true).unwrap();
    assert_eq!(count, 1);
    assert_eq!(kept[0].columns[0].ty, LogicalType::Varchar);
    assert_eq!(changed[0].columns[0].ty, LogicalType::Varchar);
    let chunks = collected(kept, Rows::ForACaller).unwrap();
    assert_eq!(chunks[0].columns[0].ty, LogicalType::Varchar);
}

#[test]
fn the_first_column_that_cannot_be_built_is_the_one_refused() {
    let fields = vec![
        Field::new("a".to_string(), LogicalType::Integer),
        Field::new("b".to_string(), LogicalType::Integer),
    ];
    let mut rows = Appender::new(fields);
    let row = vec![(Value::Boolean(true), None), (text("x"), None)];
    rows.append_row(row).unwrap();
    let error = rows.flush().err().unwrap();
    assert_eq!(error.message, "{} is not a 32 bit value");
    assert_eq!(error.about, Subject::Held(Value::Boolean(true)));
}
