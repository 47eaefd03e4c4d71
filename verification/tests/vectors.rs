use std::sync::Arc;

use rudb::data::packing_base;
use rudb::vector::FSST_PAYS_AT;
use rudb::{
    below, extent, Body, Data, Field, Form, LogicalType, Packed, StringColumn, StringView,
    SymbolTable, Validity, Value, Vector, MAP_KEY, MAP_VALUE, NO_ROW, PACKED_WIDTH_MAX,
    VECTOR_SIZE,
};

fn map_value(key: LogicalType, value: LogicalType, entries: Vec<(Value, Value)>) -> Value {
    Value::Mapping { key, value, entries }
}

fn same(left: &Vector, right: &Vector) -> bool {
    left.logical_type() == right.logical_type()
        && left.form() == right.form()
        && left.validity() == right.validity()
        && left.iter() == right.iter()
}

fn integers(values: &[i32]) -> Vector {
    Vector::flat(LogicalType::Integer, Data::Int32(values.to_vec())).unwrap()
}

#[test]
fn below_agrees_with_the_largest_code_whether_the_or_settles_it_or_not() {
    let cases: [(&[u32], usize); 8] = [
        (&[], 0),
        (&[], 5),
        (&[0, 1, 8191], 8192),
        (&[0, 8192], 8192),
        (&[4, 1], 5),
        (&[4, 5], 5),
        (&[3, 4, 2], 5),
        (&[7], 7),
    ];
    for (codes, len) in cases {
        let expected = codes.iter().all(|&code| (code as usize) < len);
        assert_eq!(below(codes, len), expected, "{codes:?} below {len}");
    }
}

#[test]
fn flattening_a_dictionary_by_its_codes_matches_the_general_copy() {
    let words = Vector::from_values(
        LogicalType::Varchar,
        &["alpha", "a string past the inline length", ""]
            .map(|text| Value::Varchar(text.into())),
    )
    .unwrap();
    let codes = vec![2, 0, 1, 1, 0, 2, 1];
    let cases = [
        Vector::dictionary(codes.clone(), integers(&[7, -3, 40])).unwrap(),
        Vector::dictionary(codes.clone(), words.clone()).unwrap(),
        Vector::dictionary(codes.clone(), words.clone()).unwrap().slice(2, 4).unwrap(),
        Vector::dictionary(codes.clone(), words.clone())
            .unwrap()
            .with_validity(Validity::from_run(&[true, false, true, true, true, true, false])),
        Vector::dictionary(
            vec![0, 1, 1],
            integers(&[1, 2]).with_validity(Validity::from_run(&[true, false])),
        )
        .unwrap(),
    ];
    for (case, vector) in cases.iter().enumerate() {
        let flat = vector.flatten().unwrap();
        let general = vector.copied(&(0..vector.len()).collect::<Vec<usize>>(), false).unwrap();
        assert!(matches!(flat.body, Body::Flat(_)), "case {case}");
        assert_eq!(flat.validity, general.validity, "case {case}");
        for row in 0..vector.len() {
            assert_eq!(flat.value_at(row), general.value_at(row), "case {case} row {row}");
        }
        assert!(same(&flat, &vector.opened().unwrap()), "case {case}");
    }
}

#[test]
fn extent_keeps_the_unsigned_order_across_the_sign_bit() {
    assert_eq!(extent(&[]), None);
    assert_eq!(extent(&[7]), Some((7, 7)));
    let rows = [0x8000_0000, 3, u32::MAX, 0x7fff_ffff, 9];
    assert_eq!(extent(&rows), Some((3, u32::MAX)));
}

#[test]
fn unpacking_in_bulk_reads_what_a_code_at_a_time_reads_at_every_width() {
    let mut state = 0x5eed_0b17_u64;
    let mut next = || {
        state ^= state << 13;
        state ^= state >> 7;
        state ^= state << 17;
        state
    };
    let words: Vec<u64> = (0..700).map(|_| next()).collect();
    for width in 1..=PACKED_WIDTH_MAX {
        for offset in [0, 1, 63, 64, 65] {
            let packed = Packed::new(&words, width, 0, offset);
            for (from, rows) in [(0, 0), (0, 1), (0, 64), (3, 200), (61, 130), (128, 512)] {
                let mut out = vec![u64::MAX; rows];
                packed.unpack(from, &mut out);
                let want: Vec<u64> = (from..from + rows).map(|row| packed.code(row)).collect();
                assert_eq!(out, want, "width {width} offset {offset} from {from}");
            }
            let at = [5_usize, 9, 9, 70, 6, 200, 131];
            let want: Vec<u64> = at.iter().map(|&row| packed.code(row)).collect();
            assert_eq!(packed.codes_at(|index| at[index], at.len()), want);
            let far = [0_usize, 5000];
            let want: Vec<u64> = far.iter().map(|&row| packed.code(row)).collect();
            assert_eq!(packed.codes_at(|index| far[index], far.len()), want);
            for rows in [&[][..], &[5, 9, 9, 70, 6, 200, 131], &[0, 5000], &[3, 4, 5, 6]] {
                let want: Vec<u64> =
                    rows.iter().map(|&row| packed.code(row as usize)).collect();
                assert_eq!(packed.values_at(rows, |code| code), want, "width {width}");
            }
        }
    }
}

fn list(values: &[i32]) -> Value {
    Value::List {
        element: LogicalType::Integer,
        values: values.iter().map(|&v| Value::Integer(v)).collect(),
    }
}

fn list_column(rows: &[Value]) -> Vector {
    Vector::from_values(LogicalType::list(LogicalType::Integer), rows).unwrap()
}

#[test]
fn a_list_column_is_one_child_and_a_range_per_row() {
    let rows = vec![list(&[1, 2, 3]), list(&[]), Value::Null, list(&[4])];
    let column = list_column(&rows);
    assert_eq!(column.form(), Form::List);
    assert_eq!(column.len(), 4);
    assert_eq!(column.logical_type(), &LogicalType::list(LogicalType::Integer));
    let (entries, child) = column.list_parts().expect("a list");
    assert_eq!(entries, [(0, 3), (3, 0), (3, 0), (3, 1)]);
    assert_eq!(child.len(), 4);
    assert_eq!(column.iter(), rows);
}

#[test]
fn an_empty_list_and_a_null_list_have_the_same_entry_and_are_different_rows() {
    let column = list_column(&[list(&[]), Value::Null]);
    let (entries, _) = column.list_parts().expect("a list");
    assert_eq!(entries[0].1, entries[1].1, "both entries are empty");
    assert!(!column.is_null_at(0), "an empty list is not null");
    assert!(column.is_null_at(1), "a null list is null");
    assert_eq!(column.value_at(0), list(&[]));
    assert_eq!(column.value_at(1), Value::Null);
}

#[test]
fn slicing_a_list_column_shares_the_child_rather_than_copying_it() {
    let rows: Vec<Value> = (0..64).map(|row| list(&[row, row + 1, row + 2])).collect();
    let column = list_column(&rows);
    let cut = column.slice(8, 4).unwrap();
    assert_eq!(cut.form(), Form::List);
    assert_eq!(cut.iter(), rows[8..12]);
    let (entries, child) = cut.list_parts().expect("a list");
    assert_eq!(entries[0], (24, 3));
    assert_eq!(child.len(), 192);
}

#[test]
fn gathering_a_list_column_permutes_the_entries_and_leaves_the_child_alone() {
    let rows = vec![list(&[1]), list(&[2, 2]), list(&[3, 3, 3])];
    let column = list_column(&rows);
    let picked = column.gather(&[2, 0, 2]).unwrap();
    assert_eq!(
        picked.iter(),
        [list(&[3, 3, 3]), list(&[1]), list(&[3, 3, 3])]
    );
    assert_eq!(picked.list_parts().expect("a list").1.len(), 6);
}

#[test]
fn a_gather_past_the_end_of_a_list_column_is_null_rather_than_somebody_elses_elements() {
    let column = list_column(&[list(&[1, 2]), list(&[3])]);
    let picked = column.gather(&[1, 9]).unwrap();
    assert_eq!(picked.value_at(0), list(&[3]));
    assert_eq!(picked.value_at(1), Value::Null);
}

#[test]
fn a_list_of_lists_nests_as_far_as_it_is_written() {
    let outer = Value::List {
        element: LogicalType::list(LogicalType::Integer),
        values: vec![list(&[1, 2]), list(&[3])],
    };
    let column = Vector::from_values(
        LogicalType::list(LogicalType::list(LogicalType::Integer)),
        std::slice::from_ref(&outer),
    )
    .unwrap();
    assert_eq!(column.value_at(0), outer);
    assert_eq!(column.list_parts().expect("a list").1.form(), Form::List);
}

#[test]
fn the_scalar_readers_decline_a_list_instead_of_answering_about_its_elements() {
    let column = list_column(&[list(&[7])]);
    assert_eq!(column.signed_at(0), None);
    assert_eq!(column.bytes_at(0), None);
    assert!(column.data().is_none());
}

fn pair(a: i32, b: &str) -> Value {
    Value::Struct(vec![
        ("a".to_string(), Value::Integer(a)),
        ("b".to_string(), Value::Varchar(b.to_string())),
    ])
}

fn pair_type() -> LogicalType {
    LogicalType::structure(vec![
        Field::new("a".to_string(), LogicalType::Integer),
        Field::new("b".to_string(), LogicalType::Varchar),
    ])
}

fn pair_column(rows: &[Value]) -> Vector {
    Vector::from_values(pair_type(), rows).unwrap()
}

#[test]
fn a_struct_column_is_one_child_per_field_as_long_as_the_column() {
    let rows = vec![pair(1, "x"), pair(2, "y"), pair(3, "z")];
    let column = pair_column(&rows);
    assert_eq!(column.form(), Form::Struct);
    assert_eq!(column.len(), 3);
    assert_eq!(column.logical_type(), &pair_type());
    let children = column.struct_parts().expect("a struct");
    assert_eq!(children.len(), 2);
    assert_eq!(children[0].len(), 3);
    assert_eq!(children[1].len(), 3);
    assert_eq!(children[0].logical_type(), &LogicalType::Integer);
    assert_eq!(children[1].logical_type(), &LogicalType::Varchar);
    assert_eq!(column.iter(), rows);
}

#[test]
fn one_field_of_a_struct_column_is_a_column_that_is_already_there() {
    let column = pair_column(&[pair(10, "x"), pair(20, "y")]);
    let field = &column.struct_parts().expect("a struct")[0];
    assert_eq!(field.iter(), [Value::Integer(10), Value::Integer(20)]);
    assert_eq!(field.signed_at(1), Some(20), "the field is a scalar column and reads like one");
}

#[test]
fn a_null_struct_is_the_mask_at_the_top_and_not_a_struct_full_of_nulls() {
    let column = pair_column(&[pair(1, "x"), Value::Null]);
    assert!(!column.is_null_at(0));
    assert!(column.is_null_at(1));
    assert_eq!(column.value_at(1), Value::Null);
    let all_null = pair_column(&[Value::Struct(vec![
        ("a".to_string(), Value::Null),
        ("b".to_string(), Value::Null),
    ])]);
    assert!(!all_null.is_null_at(0), "a struct of nulls is a row that is there");
    assert_ne!(all_null.value_at(0), Value::Null);
}

#[test]
fn slicing_a_struct_column_cuts_every_field_at_the_same_place() {
    let rows: Vec<Value> = (0..64).map(|row| pair(row, "s")).collect();
    let column = pair_column(&rows);
    let cut = column.slice(8, 4).unwrap();
    assert_eq!(cut.form(), Form::Struct);
    assert_eq!(cut.iter(), rows[8..12]);
    for child in cut.struct_parts().expect("a struct") {
        assert_eq!(child.len(), 4);
    }
}

#[test]
fn gathering_a_struct_column_gathers_every_field_at_the_same_positions() {
    let column = pair_column(&[pair(1, "x"), pair(2, "y"), pair(3, "z")]);
    let picked = column.gather(&[2, 0, 2]).unwrap();
    assert_eq!(picked.iter(), [pair(3, "z"), pair(1, "x"), pair(3, "z")]);
    for child in picked.struct_parts().expect("a struct") {
        assert_eq!(child.len(), 3, "a field is as long as the gather, not as the source");
    }
}

#[test]
fn a_gather_past_the_end_of_a_struct_column_is_null_in_every_field_and_at_the_top() {
    let column = pair_column(&[pair(1, "x"), pair(2, "y")]);
    let picked = column.gather(&[1, 9]).unwrap();
    assert_eq!(picked.value_at(0), pair(2, "y"));
    assert_eq!(picked.value_at(1), Value::Null);
    for child in picked.struct_parts().expect("a struct") {
        assert!(child.is_null_at(1), "a row that came from nowhere has no field value either");
    }
}

#[test]
fn the_fields_of_a_struct_value_go_in_by_name_rather_than_by_position() {
    let swapped = Value::Struct(vec![
        ("b".to_string(), Value::Varchar("x".to_string())),
        ("a".to_string(), Value::Integer(1)),
    ]);
    let column = pair_column(&[swapped]);
    assert_eq!(column.value_at(0), pair(1, "x"));
    let wrong = Value::Struct(vec![
        ("a".to_string(), Value::Integer(1)),
        ("c".to_string(), Value::Varchar("x".to_string())),
    ]);
    let failed = Vector::from_values(pair_type(), &[wrong]);
    assert!(failed.is_err(), "a row with no b field is an error rather than a null b");
}

#[test]
fn a_struct_built_from_children_takes_its_field_names_from_the_caller() {
    let column = Vector::structure(vec![
        ("a".to_string(), integers(&[1, 2, 3])),
        ("b".to_string(), integers(&[4, 5, 6])),
    ])
    .expect("two columns of three");
    assert_eq!(column.len(), 3);
    assert_eq!(
        column.logical_type(),
        &LogicalType::structure(vec![
            Field::new("a".to_string(), LogicalType::Integer),
            Field::new("b".to_string(), LogicalType::Integer),
        ])
    );
    assert_eq!(
        column.value_at(1),
        Value::Struct(vec![
            ("a".to_string(), Value::Integer(2)),
            ("b".to_string(), Value::Integer(5)),
        ])
    );
}

#[test]
fn a_struct_of_uneven_children_or_of_no_children_is_refused() {
    let uneven = Vector::structure(vec![
        ("a".to_string(), integers(&[1, 2, 3])),
        ("b".to_string(), integers(&[4, 5])),
    ]);
    assert!(uneven.is_err(), "a field shorter than the struct");
    assert!(Vector::structure(vec![]).is_err(), "no field to take a length from");
}

#[test]
fn a_struct_of_lists_and_a_list_of_structs_both_nest() {
    let ty =
        LogicalType::structure(vec![Field::new("a".to_string(), LogicalType::list(LogicalType::Integer))]);
    let row = Value::Struct(vec![("a".to_string(), list(&[1, 2]))]);
    let column = Vector::from_values(ty, std::slice::from_ref(&row)).unwrap();
    assert_eq!(column.value_at(0), row);
    assert_eq!(column.struct_parts().expect("a struct")[0].form(), Form::List);

    let outer = Value::List { element: pair_type(), values: vec![pair(1, "x"), pair(2, "y")] };
    let lists =
        Vector::from_values(LogicalType::list(pair_type()), std::slice::from_ref(&outer))
            .unwrap();
    assert_eq!(lists.value_at(0), outer);
    assert_eq!(lists.list_parts().expect("a list").1.form(), Form::Struct);
}

fn tags(pairs: &[(&str, &str)]) -> Value {
    map_value(
        LogicalType::Varchar,
        LogicalType::Varchar,
        pairs
            .iter()
            .map(|&(key, value)| {
                (Value::Varchar(key.to_string()), Value::Varchar(value.to_string()))
            })
            .collect(),
    )
}

fn tag_column(rows: &[Value]) -> Vector {
    Vector::from_values(LogicalType::map(LogicalType::Varchar, LogicalType::Varchar), rows)
        .unwrap()
}

#[test]
fn a_map_column_is_a_list_whose_child_is_a_struct_of_keys_and_values() {
    let rows =
        vec![tags(&[("a", "b"), ("c", "d")]), tags(&[]), Value::Null, tags(&[("e", "f")])];
    let column = tag_column(&rows);
    assert_eq!(column.len(), 4);
    assert_eq!(
        column.logical_type(),
        &LogicalType::map(LogicalType::Varchar, LogicalType::Varchar)
    );
    assert_eq!(column.form(), Form::List);
    let (entries, child) = column.list_parts().expect("the layout of a list");
    assert_eq!(entries, [(0, 2), (2, 0), (2, 0), (2, 1)]);
    assert_eq!(child.form(), Form::Struct);
    assert_eq!(
        child.logical_type(),
        &LogicalType::structure(vec![
            Field::new(MAP_KEY.to_string(), LogicalType::Varchar),
            Field::new(MAP_VALUE.to_string(), LogicalType::Varchar),
        ])
    );
    let (entries, keys, values) = column.map_parts().expect("a map");
    assert_eq!(entries.len(), 4);
    assert_eq!(keys.text_at(0), Some("a"));
    assert_eq!(values.text_at(0), Some("b"));
    assert_eq!(column.iter(), rows);
}

#[test]
fn an_empty_map_and_a_null_map_are_different_rows() {
    let column = tag_column(&[tags(&[]), Value::Null]);
    assert!(!column.is_null_at(0), "an empty map is a row that is there");
    assert!(column.is_null_at(1));
    assert_eq!(column.value_at(0), tags(&[]));
    assert_eq!(column.value_at(1), Value::Null);
}

#[test]
fn cutting_and_gathering_a_map_keeps_it_a_map() {
    let rows: Vec<Value> =
        (0..16).map(|row| tags(&[("k", if row % 2 == 0 { "e" } else { "o" })])).collect();
    let column = tag_column(&rows);

    let cut = column.slice(4, 3).unwrap();
    assert!(matches!(cut.logical_type(), LogicalType::Mapping(_, _)), "still a map after a cut");
    assert_eq!(cut.iter(), rows[4..7]);
    assert_eq!(cut.map_parts().expect("a map").1.len(), 16);

    let picked = column.gather(&[3, 0, 3]).unwrap();
    assert!(matches!(picked.logical_type(), LogicalType::Mapping(_, _)));
    assert_eq!(
        picked.iter(),
        [rows[3].clone(), rows[0].clone(), rows[3].clone()]
    );
    let past = column.gather(&[0, 99]).unwrap();
    assert_eq!(past.value_at(1), Value::Null);
}

#[test]
fn a_map_built_from_two_columns_pairs_them_by_position() {
    let keys = Vector::from_values(
        LogicalType::Varchar,
        &[Value::Varchar("a".to_string()), Value::Varchar("c".to_string())],
    )
    .unwrap();
    let values = Vector::from_values(
        LogicalType::Varchar,
        &[Value::Varchar("b".to_string()), Value::Varchar("d".to_string())],
    )
    .unwrap();
    let column = Vector::map(vec![(0, 2), (2, 0)], keys, values).expect("two rows");
    assert_eq!(column.len(), 2);
    assert_eq!(
        column.logical_type(),
        &LogicalType::map(LogicalType::Varchar, LogicalType::Varchar)
    );
    assert_eq!(column.value_at(0), tags(&[("a", "b"), ("c", "d")]));
    assert_eq!(column.value_at(1), tags(&[]));
    let short =
        Vector::from_values(LogicalType::Varchar, &[Value::Varchar("a".to_string())]).unwrap();
    let other =
        Vector::from_values(LogicalType::Varchar, &[Value::Varchar("b".to_string())]).unwrap();
    assert!(Vector::map(vec![(0, 9)], short, other).is_err(), "an entry past the end");
}

#[test]
fn a_list_is_not_a_map_however_much_its_child_looks_like_one() {
    let pairs = Value::List { element: pair_type(), values: vec![pair(1, "x")] };
    let column =
        Vector::from_values(LogicalType::list(pair_type()), std::slice::from_ref(&pairs))
            .unwrap();
    assert!(column.map_parts().is_none(), "a list of structs is a list");
    assert!(column.list_parts().is_some());
    let map = tag_column(&[tags(&[("a", "b")])]);
    assert!(map.map_parts().is_some());
    assert!(map.list_parts().is_some(), "a map has a list's layout and says so");
}

#[test]
fn the_scalar_readers_decline_a_struct_of_one_integer_field() {
    let ty = LogicalType::structure(vec![Field::new("a".to_string(), LogicalType::Integer)]);
    let row = Value::Struct(vec![("a".to_string(), Value::Integer(7))]);
    let column = Vector::from_values(ty, &[row]).unwrap();
    assert_eq!(column.signed_at(0), None);
    assert_eq!(column.bytes_at(0), None);
    assert!(column.data().is_none());
}

#[test]
fn a_clustered_column_becomes_runs_and_reads_back_the_same() {
    let mut values = Vec::new();
    for (value, times) in [(7, 400), (8, 300), (7, 324)] {
        values.extend(std::iter::repeat_n(value, times));
    }
    let flat = integers(&values);
    let runs = flat.run_encoded().unwrap();
    assert_eq!(runs.form(), Form::Rle);
    assert_eq!(runs.run_parts().expect("runs").0, [400, 700, 1024]);
    assert_eq!(runs.len(), flat.len());
    assert_eq!(runs.iter(), flat.iter());
    assert!(
        runs.footprint() * 10 < flat.footprint(),
        "three runs against a thousand rows: {} against {}",
        runs.footprint(),
        flat.footprint()
    );
}

#[test]
fn a_column_that_does_not_repeat_is_left_flat() {
    let flat = integers(&(0..1024).collect::<Vec<i32>>());
    assert_eq!(flat.run_encoded().unwrap().form(), Form::Flat);
    assert_eq!(integers(&[1, 1, 2, 2]).run_encoded().unwrap().form(), Form::Flat);
    assert_eq!(integers(&[1, 1, 1, 2, 2]).run_encoded().unwrap().form(), Form::Rle);
}

#[test]
fn two_nulls_beside_each_other_are_one_run_and_a_null_between_two_equals_is_a_break() {
    let mut values = vec![Value::Integer(4), Value::Integer(4)];
    values.extend([Value::Null, Value::Null, Value::Null]);
    values.extend(std::iter::repeat_n(Value::Integer(4), 5));
    let flat = Vector::from_values(LogicalType::Integer, &values).unwrap();
    let runs = flat.run_encoded().unwrap();
    assert_eq!(runs.run_parts().expect("runs").0, [2, 5, 10]);
    assert_eq!(runs.iter(), values);
}

#[test]
fn slicing_runs_keeps_them_runs_and_cuts_the_first_and_last_one_back() {
    let flat = integers(&[1, 1, 1, 1, 2, 2, 2, 2, 3, 3, 3, 3]);
    let runs = flat.run_encoded().unwrap();
    let piece = runs.slice(3, 6).unwrap();
    assert_eq!(piece.form(), Form::Rle, "the form is the whole point");
    assert_eq!(piece.run_parts().expect("runs").0, [1, 5, 6]);
    assert_eq!(
        piece.iter(),
        flat.slice(3, 6).unwrap().iter()
    );
    assert_eq!(runs.slice(0, 0).unwrap().len(), 0);
    assert_eq!(runs.slice(0, 12).unwrap().form(), Form::Rle);
}

#[test]
fn gathering_out_of_runs_walks_to_the_values_the_way_it_walks_a_dictionary() {
    let mut values = vec![Value::Varchar("red".into()); 4];
    values.extend([Value::Null, Value::Null, Value::Null]);
    values.extend(vec![Value::Varchar("blue".into()); 4]);
    let runs =
        Vector::from_values(LogicalType::Varchar, &values).unwrap().run_encoded().unwrap();
    assert_eq!(runs.form(), Form::Rle);
    let picked = runs.gather(&[8, 0, 5, 2]).unwrap();
    assert_eq!(picked.form(), Form::Flat, "a gather copies, whatever it gathered from");
    assert_eq!(
        picked.iter(),
        [values[8].clone(), values[0].clone(), Value::Null, values[2].clone()]
    );
    assert_eq!(runs.text_at(1), Some("red"));
    assert_eq!(runs.text_at(5), None, "a null has no text");
    assert_eq!(runs.flatten().unwrap().iter(), values);
}

#[test]
fn runs_of_runs_are_refused_and_runs_of_a_dictionary_are_not() {
    let inner = integers(&[1, 1, 1, 1, 2]).run_encoded().unwrap();
    assert_eq!(inner.form(), Form::Rle);
    let error = Vector::runs(vec![2, 8], inner).err().unwrap();
    assert!(error.message.contains("runs of runs"), "{error:?}");

    let words = Vector::from_values(
        LogicalType::Varchar,
        &[Value::Varchar("red".into()), Value::Varchar("blue".into())],
    )
    .unwrap();
    let dictionary = Vector::dictionary(vec![1, 0], words).unwrap();
    let stacked = Vector::runs(vec![4, 9], dictionary).unwrap();
    assert_eq!(stacked.len(), 9);
    assert_eq!(stacked.value_at(3), Value::Varchar("blue".into()));
    assert_eq!(stacked.value_at(4), Value::Varchar("red".into()));
}

#[test]
fn run_ends_have_to_increase_and_there_is_one_value_for_each_of_them() {
    let values = integers(&[1, 2]);
    assert!(Vector::runs(vec![4], values.clone()).is_err(), "two values and one run");
    assert!(Vector::runs(vec![4, 4], values.clone()).is_err(), "an end that repeats");
    assert!(Vector::runs(vec![4, 2], values.clone()).is_err(), "an end that goes backwards");
    assert!(Vector::runs(vec![0, 2], values.clone()).is_err(), "a first run holding no rows");
    assert_eq!(Vector::runs(vec![4, 9], values).unwrap().len(), 9);
}

#[test]
fn a_form_that_is_already_compact_is_left_where_it_is() {
    let constant = Vector::constant(LogicalType::Integer, Value::Integer(1), 1000);
    assert_eq!(constant.run_encoded().unwrap().form(), Form::Constant);
    assert_eq!(Vector::sequence(0, 1, 1000).run_encoded().unwrap().form(), Form::Sequence);
}

#[test]
fn both_forms_that_point_somewhere_hand_back_a_position_per_row() {
    let words = Vector::from_values(
        LogicalType::Varchar,
        &[Value::Varchar("red".into()), Value::Varchar("blue".into())],
    )
    .unwrap();
    let runs = Vector::runs(vec![3, 5], words.clone()).unwrap();
    let (at, values) = runs.positions().expect("runs point somewhere");
    assert_eq!(at, [0, 0, 0, 1, 1]);
    assert_eq!(values.value_at(at[3] as usize), runs.value_at(3));

    let dictionary = Vector::dictionary(vec![1, 0, 1], words).unwrap();
    let (at, values) = dictionary.positions().expect("a dictionary points somewhere");
    assert_eq!(at, [1, 0, 1]);
    assert_eq!(values.value_at(at[0] as usize), dictionary.value_at(0));

    assert!(integers(&[1, 2, 3]).positions().is_none(), "a flat vector points at itself");
    assert!(Vector::sequence(0, 1, 4).positions().is_none(), "a sequence stores nothing");
}

#[test]
fn slicing_a_dictionary_keeps_it_a_dictionary_where_gathering_would_not() {
    let values = Vector::from_values(
        LogicalType::Varchar,
        &[Value::Varchar("red".into()), Value::Varchar("blue".into())],
    )
    .unwrap();
    let vector = Vector::dictionary(vec![0, 1, 1, 0, 1], values).unwrap();

    let piece = vector.slice(1, 3).unwrap();
    assert_eq!(piece.form(), Form::Dictionary, "the form is the whole point");
    assert_eq!(piece.len(), 3);
    assert_eq!(
        piece.iter(),
        [
            Value::Varchar("blue".into()),
            Value::Varchar("blue".into()),
            Value::Varchar("red".into())
        ]
    );
    assert_eq!(vector.gather(&[1, 2, 3]).unwrap().form(), Form::Flat, "which a gather loses");
}

#[test]
fn slicing_a_dictionary_shares_the_dictionary_rather_than_copying_it() {
    let values = Vector::from_values(
        LogicalType::Varchar,
        &[Value::Varchar("red".into()), Value::Varchar("blue".into())],
    )
    .unwrap();
    let vector = Vector::dictionary(vec![0, 1, 1, 0, 1], values).unwrap();
    let Body::Dictionary { values: whole, .. } = &vector.body else {
        panic!("a dictionary vector holds a dictionary");
    };

    let piece = vector.slice(1, 3).unwrap();
    let Body::Dictionary { codes, values: cut, .. } = &piece.body else {
        panic!("a slice of a dictionary is a dictionary");
    };
    assert!(Arc::ptr_eq(whole, cut), "the cut copied the dictionary");
    assert_eq!(codes.as_slice(), &[1, 1, 0], "the codes are the part that is cut");

    let again = piece.slice(1, 2).unwrap();
    let Body::Dictionary { values: cut, .. } = &again.body else {
        panic!("a slice of a slice of a dictionary is a dictionary");
    };
    assert!(Arc::ptr_eq(whole, cut), "the second cut copied the dictionary");
    assert_eq!(
        again.iter(),
        [Value::Varchar("blue".into()), Value::Varchar("red".into())]
    );
}

#[test]
fn a_slice_carries_the_nulls_that_were_in_its_range_and_not_the_others() {
    let vector =
        integers(&[1, 2, 3, 4]).with_validity(Validity::from_run(&[false, true, false, true]));
    let piece = vector.slice(1, 2).unwrap();
    assert!(piece.validity().is_valid(0));
    assert!(!piece.validity().is_valid(1));
    assert_eq!(piece.value_at(1), Value::Null);
}

#[test]
fn slicing_a_sequence_moves_its_start_rather_than_writing_the_values_out() {
    let vector = Vector::sequence(100, 5, 10);
    let piece = vector.slice(3, 4).unwrap();
    assert_eq!(piece.form(), Form::Sequence);
    assert_eq!(
        piece.iter(),
        [Value::BigInt(115), Value::BigInt(120), Value::BigInt(125), Value::BigInt(130)]
    );
}

#[test]
fn slicing_a_constant_is_a_shorter_constant() {
    let vector = Vector::constant(LogicalType::Integer, Value::Integer(9), 8);
    let piece = vector.slice(2, 3).unwrap();
    assert_eq!(piece.form(), Form::Constant);
    assert_eq!(piece.len(), 3);
    assert_eq!(piece.value_at(2), Value::Integer(9));
}

#[test]
fn slicing_the_whole_vector_hands_it_back_as_it_was() {
    let vector = integers(&[1, 2, 3]);
    assert_eq!(
        vector.slice(0, 3).unwrap().iter(),
        [Value::Integer(1), Value::Integer(2), Value::Integer(3)]
    );
}

#[test]
fn a_gather_off_a_flat_run_with_no_nulls_answers_what_the_general_copy_does() {
    let rows: Vec<i32> = (0..50).map(|row| row * 3 - 20).collect();
    let vector = integers(&rows);
    let positions: Vec<u32> = [49, 0, 7, 7, 31, 2].into_iter().collect();
    let gathered = vector.gather(&positions).unwrap();
    assert_eq!(gathered.form(), Form::Flat);
    assert_eq!(
        gathered.iter(),
        positions.iter().map(|&at| Value::Integer(rows[at as usize])).collect::<Vec<_>>()
    );
    let past = vector.gather(&[3, 50]).unwrap();
    assert_eq!(past.iter(), [Value::Integer(-11), Value::Null]);
}

#[test]
fn cutting_a_flat_body_answers_what_gathering_the_same_rows_answers() {
    let rows: Vec<i32> = (0..70).collect();
    let valid: Vec<bool> = (0..70).map(|row| row % 7 != 0 && row % 11 != 3).collect();
    let vector = integers(&rows).with_validity(Validity::from_run(&valid));
    for at in 0..70usize {
        for len in 0..=(70 - at) {
            let cut = vector.slice(at, len).unwrap();
            let positions: Vec<u32> = (at..at + len).map(|row| row as u32).collect();
            let gathered = vector.gather(&positions).unwrap();
            assert_eq!(cut.len(), len, "rows {at} to {}", at + len);
            assert_eq!(
                cut.iter(),
                gathered.iter(),
                "rows {at} to {}",
                at + len
            );
        }
    }
}

#[test]
fn putting_a_vector_on_pages_does_not_change_any_other_form() {
    let dictionary = Vector::dictionary(
        vec![0, 1, 0, 1],
        Vector::from_values(
            LogicalType::Varchar,
            &[Value::Varchar("a".into()), Value::Varchar("b".into())],
        )
        .unwrap(),
    )
    .unwrap();
    let cases = [
        Vector::constant(LogicalType::Integer, Value::Integer(9), 4),
        Vector::sequence(4, 0, 1),
        dictionary,
    ];
    for vector in cases {
        let form = vector.form();
        let paged = vector.clone().into_pages();
        assert_eq!(paged.form(), form, "{form:?} changed form");
        assert_eq!(paged.iter(), vector.iter());
    }
}

#[test]
fn cutting_a_flat_string_column_answers_what_gathering_it_answers() {
    let rows: Vec<String> =
        (0..40).map(|row| "x".repeat(row % 30) + &row.to_string()).collect();
    let values: Vec<Value> = rows.iter().map(|row| Value::Varchar(row.clone())).collect();
    let vector = Vector::from_values(LogicalType::Varchar, &values).unwrap().flatten().unwrap();
    assert_eq!(vector.form(), Form::Flat, "the cut under test is the flat one");
    for at in 0..40usize {
        for len in 0..=(40 - at) {
            let cut = vector.slice(at, len).unwrap();
            let positions: Vec<u32> = (at..at + len).map(|row| row as u32).collect();
            let gathered = vector.gather(&positions).unwrap();
            assert_eq!(
                cut.iter(),
                gathered.iter(),
                "rows {at} to {}",
                at + len
            );
        }
    }
}

#[test]
fn a_slice_past_the_end_is_an_error_rather_than_a_short_vector() {
    let error = integers(&[1, 2, 3]).slice(2, 2).err().unwrap();
    assert!(error.message.contains("of a vector of 3"), "{error:?}");
}

#[test]
fn the_vector_size_is_the_one_the_design_is_built_around() {
    assert_eq!(VECTOR_SIZE, 8192);
    assert_eq!(VECTOR_SIZE % 1024, 0);
    assert_eq!(VECTOR_SIZE % 64, 0);
    assert_eq!(VECTOR_SIZE / 64, 128, "the words in a validity mask");
}

#[test]
fn a_flat_vector_reads_back_what_was_put_in_it() {
    let vector = integers(&[1, 2, 3]);
    assert_eq!(vector.form(), Form::Flat);
    assert_eq!(vector.len(), 3);
    assert_eq!(vector.value_at(1), Value::Integer(2));
    assert_eq!(
        vector.iter(),
        vec![Value::Integer(1), Value::Integer(2), Value::Integer(3)]
    );
}

#[test]
fn a_vector_built_from_values_reads_the_same_values_back() {
    let vector = Vector::from_values(
        LogicalType::Varchar,
        &[
            Value::Varchar("a".to_string()),
            Value::Null,
            Value::Varchar("a string too long to sit inside a view".to_string()),
        ],
    )
    .expect("strings and a null");
    assert_eq!(vector.len(), 3);
    assert_eq!(vector.value_at(0), Value::Varchar("a".to_string()));
    assert_eq!(vector.value_at(1), Value::Null);
    assert_eq!(
        vector.value_at(2),
        Value::Varchar("a string too long to sit inside a view".to_string())
    );
}

#[test]
fn a_null_in_the_middle_does_not_move_the_values_after_it() {
    let vector = Vector::from_values(
        LogicalType::Integer,
        &[Value::Integer(1), Value::Null, Value::Integer(3)],
    )
    .expect("integers and a null");
    assert_eq!(vector.value_at(2), Value::Integer(3));
    assert!(vector.validity().has_nulls(3), "the middle one is null");
}

#[test]
fn a_value_the_type_cannot_hold_is_refused() {
    let wrong = Vector::from_values(LogicalType::Integer, &[Value::Varchar("x".to_string())]);
    assert!(wrong.is_err(), "a string is not an integer");
}

#[test]
fn a_type_that_does_not_match_its_layout_is_refused_at_construction() {
    let wrong = Vector::flat(LogicalType::Varchar, Data::Int32(vec![1]));
    assert!(wrong.is_err());
    let right = Vector::flat(LogicalType::Date, Data::Int32(vec![1]));
    assert!(right.is_ok(), "a date is stored in an i32 and that has to be allowed");
}

#[test]
fn a_constant_vector_costs_one_value_whatever_its_length() {
    let vector = Vector::constant(LogicalType::Integer, Value::Integer(7), VECTOR_SIZE);
    assert_eq!(vector.form(), Form::Constant);
    assert_eq!(vector.len(), VECTOR_SIZE);
    assert_eq!(vector.value_at(0), Value::Integer(7));
    assert_eq!(vector.value_at(VECTOR_SIZE - 1), Value::Integer(7));
    assert_eq!(vector.value_at(VECTOR_SIZE), Value::Null, "past the end is null, not a panic");
}

#[test]
fn a_constant_null_is_all_invalid_without_being_told() {
    let vector = Vector::constant(LogicalType::Integer, Value::Null, 8);
    assert_eq!(vector.validity(), &Validity::AllInvalid);
    assert_eq!(vector.value_at(3), Value::Null);
}

#[test]
fn a_sequence_vector_is_sixteen_bytes_of_row_identifiers() {
    let vector = Vector::sequence(100, 1, VECTOR_SIZE);
    assert_eq!(vector.form(), Form::Sequence);
    assert_eq!(vector.value_at(0), Value::BigInt(100));
    assert_eq!(vector.value_at(923), Value::BigInt(1023));
    let stepped = Vector::sequence(0, 5, 4);
    assert_eq!(
        stepped.iter(),
        vec![Value::BigInt(0), Value::BigInt(5), Value::BigInt(10), Value::BigInt(15)]
    );
}

#[test]
fn a_dictionary_vector_reads_through_its_codes() {
    let mut column = StringColumn::new();
    column.push("red");
    column.push("green");
    let values = Vector::flat(LogicalType::Varchar, Data::Varlen(column)).unwrap();
    let vector = Vector::dictionary(vec![0, 1, 1, 0], values).unwrap();
    assert_eq!(vector.form(), Form::Dictionary);
    assert_eq!(vector.logical_type(), &LogicalType::Varchar);
    assert_eq!(vector.value_at(2), Value::Varchar("green".into()));
    assert_eq!(vector.len(), 4);
}

#[test]
fn text_is_read_where_it_already_is_for_the_forms_that_store_it() {
    let mut column = StringColumn::new();
    column.push("red");
    column.push("green");
    column.push("");
    let flat = Vector::flat(LogicalType::Varchar, Data::Varlen(column)).unwrap();
    for index in 0..flat.len() {
        assert_eq!(flat.text_at(index).map(str::to_string), text_of(&flat.value_at(index)));
    }
    let dictionary = Vector::dictionary(vec![1, 0, 1, 2], flat).unwrap();
    for index in 0..dictionary.len() {
        assert_eq!(
            dictionary.text_at(index).map(str::to_string),
            text_of(&dictionary.value_at(index))
        );
    }
    assert_eq!(dictionary.text_at(4), None, "past the end");
}

#[test]
fn text_is_refused_where_it_is_not_stored_as_itself() {
    let nulls =
        Vector::from_values(LogicalType::Varchar, &[Value::Varchar("red".into()), Value::Null])
            .unwrap();
    assert_eq!(nulls.text_at(0), Some("red"));
    assert_eq!(nulls.text_at(1), None, "a null has no text");
    let constant = Vector::constant(LogicalType::Varchar, Value::Varchar("red".into()), 3);
    assert_eq!(constant.text_at(0), None, "a constant is not stored per position");
    assert_eq!(integers(&[1, 2]).text_at(0), None, "an integer is not text");
    let mut bytes = StringColumn::new();
    bytes.push("red");
    let blob = Vector::flat(LogicalType::Blob, Data::Varlen(bytes)).unwrap();
    assert_eq!(blob.text_at(0), None, "a blob is not a varchar");
}

#[test]
fn a_signed_integer_is_read_where_it_already_is_for_the_forms_that_store_it() {
    let flat = integers(&[7, -3, 0, 2]);
    for index in 0..flat.len() {
        assert_eq!(flat.signed_at(index), signed_of(&flat.value_at(index)), "flat {index}");
    }
    let dictionary = Vector::dictionary(vec![1, 0, 3, 2], flat).unwrap();
    for index in 0..dictionary.len() {
        assert_eq!(
            dictionary.signed_at(index),
            signed_of(&dictionary.value_at(index)),
            "dictionary {index}"
        );
    }
    assert_eq!(dictionary.signed_at(4), None, "past the end");

    let runs = Vector::runs(vec![2, 5], integers(&[4, 9])).unwrap();
    for index in 0..runs.len() {
        assert_eq!(runs.signed_at(index), signed_of(&runs.value_at(index)), "run {index}");
    }
    let constant = Vector::constant(LogicalType::BigInt, Value::BigInt(11), 3);
    assert_eq!(constant.signed_at(2), Some(11));
    let sequence = Vector::sequence(100, 5, 4);
    for index in 0..sequence.len() {
        assert_eq!(
            sequence.signed_at(index),
            signed_of(&sequence.value_at(index)),
            "sequence {index}"
        );
    }
}

#[test]
fn a_window_of_a_page_packs_the_way_the_same_rows_owned_do() {
    let wide: Vec<i32> = (0..122_880)
        .map(|at| if at % 2 == 0 { i32::MIN + 5 + at } else { i32::MAX - 9 - at })
        .collect();
    let narrow: Vec<i32> = (0..122_880).map(|at| 1_000 + at % 200).collect();
    for values in [wide, narrow] {
        let page = integers(&values).into_pages();
        let window = page.slice(0, 8_192).unwrap();
        let owned = integers(&values[..8_192]);
        let packed_window = window.bit_packed().unwrap();
        let packed_owned = owned.bit_packed().unwrap();
        assert_eq!(
            packed_window.packed_parts().is_some(),
            packed_owned.packed_parts().is_some()
        );
        for at in [0, 1, 4_095, 8_191] {
            assert_eq!(packed_window.value_at(at), owned.value_at(at));
        }
    }
}

#[test]
fn a_signed_integer_is_refused_where_it_is_not_stored_as_itself() {
    let nulls =
        Vector::from_values(LogicalType::BigInt, &[Value::BigInt(4), Value::Null]).unwrap();
    assert_eq!(nulls.signed_at(0), Some(4));
    assert_eq!(nulls.signed_at(1), None, "a null is not a number");
    let packed = integers(&[1, 2, 3, 1]).bit_packed().unwrap();
    assert_eq!(packed.signed_at(0), Some(1), "a packed integer is read in code space");
    let mut bytes = StringColumn::new();
    bytes.push("red");
    let text = Vector::flat(LogicalType::Varchar, Data::Varlen(bytes)).unwrap();
    assert_eq!(text.signed_at(0), None, "a string is not a number");
    let double = Vector::flat(LogicalType::Double, Data::Float64(vec![1.5f64.to_bits()])).unwrap();
    assert_eq!(double.signed_at(0), None, "a double is not a signed integer");
}

#[test]
fn a_block_of_signed_integers_holds_what_the_row_at_a_time_accessor_hands_back() {
    let mut out = Vec::new();
    let shapes = [
        integers(&[7, -3, 0, 2]),
        Vector::flat(LogicalType::Integer, Data::Int32(vec![5, -6, 7])).unwrap(),
        Vector::flat(LogicalType::SmallInt, Data::Int16(vec![1, -2])).unwrap(),
        Vector::flat(LogicalType::TinyInt, Data::Int8(vec![-128, 127])).unwrap(),
        Vector::constant(LogicalType::BigInt, Value::BigInt(11), 3),
        Vector::sequence(100, 5, 4),
        integers(&[1, 2, 3, 1]).bit_packed().unwrap(),
        Vector::dictionary(vec![1, 0, 1, 3], integers(&[7, -3, 0, 2])).unwrap(),
        Vector::dictionary(
            vec![2, 2, 0],
            Vector::flat(LogicalType::SmallInt, Data::Int16(vec![9, -9, 4])).unwrap(),
        )
        .unwrap(),
    ];
    for column in &shapes {
        assert!(column.signed_block(&mut out), "{:?} hands over a block", column.form());
        assert_eq!(out.len(), column.len(), "{:?} filled the whole chunk", column.form());
        for (index, &held) in out.iter().enumerate() {
            assert_eq!(
                Some(i128::from(held)),
                column.signed_at(index),
                "{:?} at {index}",
                column.form()
            );
        }
    }
}

#[test]
fn a_gather_of_signed_integers_holds_what_the_row_at_a_time_accessor_hands_back() {
    let mut out = Vec::new();
    let at = [0, 2, 2, 3];
    let shapes = [
        integers(&[7, -3, 0, 2]),
        Vector::flat(LogicalType::Integer, Data::Int32(vec![5, -6, 7, -8])).unwrap(),
        Vector::flat(LogicalType::TinyInt, Data::Int8(vec![-128, 127, 1, 0])).unwrap(),
    ];
    for column in &shapes {
        assert!(column.signed_gather(&at, &mut out), "{:?} is gathered", column.logical_type());
        let wanted: Vec<i64> = at
            .iter()
            .map(|&row| i64::try_from(column.signed_at(row as usize).unwrap()).unwrap())
            .collect();
        assert_eq!(out, wanted);
    }
    let short = integers(&[1, 2, 3]);
    assert!(!short.signed_gather(&at, &mut out), "row 3 is past the end");
    assert!(out.is_empty());
    assert!(!Vector::sequence(100, 5, 4).signed_gather(&at, &mut out));
    assert!(integers(&[1]).signed_gather(&[], &mut out) && out.is_empty());
}

#[test]
fn a_block_is_refused_for_the_shapes_it_would_have_to_gather_or_widen() {
    let mut out = Vec::new();
    let nulled =
        Vector::from_values(LogicalType::BigInt, &[Value::BigInt(4), Value::Null]).unwrap();
    assert!(
        !Vector::dictionary(vec![1, 0], nulled).unwrap().signed_block(&mut out),
        "a dictionary with a null entry would hand its row over as a number"
    );
    assert!(!Vector::runs(vec![2, 5], integers(&[4, 9])).unwrap().signed_block(&mut out));
    let wide = Vector::flat(LogicalType::HugeInt, Data::Int128(vec![1, 2])).unwrap();
    assert!(!wide.signed_block(&mut out), "a hugeint does not fit sixty four bits");
    let double = Vector::flat(LogicalType::Double, Data::Float64(vec![1.5f64.to_bits()])).unwrap();
    assert!(!double.signed_block(&mut out), "a double is not a signed integer");
    assert!(out.is_empty(), "a refusal leaves the buffer empty");

    let nulls =
        Vector::from_values(LogicalType::BigInt, &[Value::BigInt(4), Value::Null]).unwrap();
    assert!(nulls.signed_block(&mut out), "a flat column with nulls still hands over");
    assert_eq!(out[0], 4);
}

#[test]
fn a_vector_says_whether_it_holds_any_null_at_all() {
    let flat = integers(&[7, -3, 0, 2]);
    assert!(flat.none_null());
    let nulls =
        Vector::from_values(LogicalType::BigInt, &[Value::BigInt(4), Value::Null]).unwrap();
    assert!(!nulls.none_null());
    assert!(Vector::dictionary(vec![1, 0], flat.clone()).unwrap().none_null());
    let holed = Vector::dictionary(vec![0, 0], nulls.clone()).unwrap();
    assert!(!holed.none_null(), "a dictionary is read through to its values");
    assert!(!holed.is_null_at(0), "and no code points at the null it holds");
    assert!(Vector::runs(vec![2, 5], integers(&[4, 9])).unwrap().none_null());
    assert!(!Vector::runs(vec![1, 2], nulls).unwrap().none_null());
    assert!(Vector::constant(LogicalType::BigInt, Value::BigInt(11), 3).none_null());
    assert!(!Vector::constant(LogicalType::BigInt, Value::Null, 3).none_null());
}

fn signed_of(value: &Value) -> Option<i128> {
    match value {
        Value::TinyInt(x) => Some(i128::from(*x)),
        Value::SmallInt(x) => Some(i128::from(*x)),
        Value::Integer(x) | Value::Date(x) => Some(i128::from(*x)),
        Value::BigInt(x) | Value::Time(x) | Value::Timestamp(x) => Some(i128::from(*x)),
        Value::HugeInt(x) | Value::Decimal { unscaled: x, .. } => Some(*x),
        _ => None,
    }
}

fn text_of(value: &Value) -> Option<String> {
    match value {
        Value::Varchar(text) => Some(text.clone()),
        _ => None,
    }
}

#[test]
fn a_dictionary_code_past_the_end_is_refused() {
    let values = integers(&[1, 2]);
    assert!(Vector::dictionary(vec![0, 2], values).is_err());
    let empty = Vector::dictionary(Vec::new(), integers(&[])).expect("no codes, no values");
    assert_eq!(empty.len(), 0);
    assert!(Vector::dictionary(vec![0], integers(&[])).is_err());
}

#[test]
fn every_form_flattens_to_the_same_values_it_reads_out() {
    let mut column = StringColumn::new();
    column.push("alpha");
    column.push("beta");
    let dictionary = Vector::dictionary(
        vec![1, 0, 1],
        Vector::flat(LogicalType::Varchar, Data::Varlen(column)).unwrap(),
    )
    .unwrap();
    let cases = [
        Vector::constant(LogicalType::Integer, Value::Integer(3), 5),
        Vector::sequence(7, -2, 5),
        dictionary,
    ];
    for vector in cases {
        let flat = vector.flatten().unwrap();
        assert_eq!(flat.form(), Form::Flat);
        assert_eq!(flat.len(), vector.len());
        for index in 0..vector.len() {
            assert_eq!(flat.value_at(index), vector.value_at(index), "at {index}");
        }
    }
}

#[test]
fn a_null_still_occupies_a_position_after_flattening() {
    let vector = Vector::sequence(0, 1, 4).with_validity(Validity::from_iter(4, |i| i != 1));
    let flat = vector.flatten().unwrap();
    assert_eq!(flat.value_at(0), Value::BigInt(0));
    assert_eq!(flat.value_at(1), Value::Null);
    assert_eq!(flat.value_at(2), Value::BigInt(2));
    assert_eq!(flat.value_at(3), Value::BigInt(3));
}

#[test]
fn a_null_behind_a_dictionary_survives_flattening() {
    let values =
        Vector::from_values(LogicalType::Integer, &[Value::Integer(3), Value::Null]).unwrap();
    let dictionary = Vector::dictionary(vec![1, 0, 1], values).unwrap();
    let flat = dictionary.flatten().unwrap();
    assert_eq!(flat.value_at(0), Value::Null);
    assert_eq!(flat.value_at(1), Value::Integer(3));
    assert_eq!(flat.value_at(2), Value::Null);
}

#[test]
fn gathering_reads_what_reading_one_position_at_a_time_reads() {
    let mut column = StringColumn::new();
    column.push("alpha");
    column.push("beta");
    column.push("gamma");
    let cases = [
        integers(&[10, 20, 30, 40]),
        integers(&[10, 20, 30, 40]).with_validity(Validity::from_iter(4, |i| i != 2)),
        Vector::constant(LogicalType::Integer, Value::Integer(9), 4),
        Vector::sequence(100, -7, 4),
        Vector::sequence(100, -7, 4).with_validity(Validity::from_iter(4, |i| i % 2 == 0)),
        Vector::dictionary(
            vec![2, 0, 1, 2],
            Vector::flat(LogicalType::Varchar, Data::Varlen(column)).unwrap(),
        )
        .unwrap(),
        Vector::dictionary(
            vec![1, 0, 1, 0],
            Vector::from_values(LogicalType::Integer, &[Value::Integer(5), Value::Null])
                .unwrap(),
        )
        .unwrap(),
    ];
    let wanted = [3_u32, 0, 2, 2, 1];
    for vector in cases {
        let gathered = vector.gather(&wanted).unwrap();
        assert_eq!(gathered.len(), wanted.len());
        assert_eq!(gathered.logical_type(), vector.logical_type());
        for (slot, &index) in wanted.iter().enumerate() {
            assert_eq!(
                gathered.value_at(slot),
                vector.value_at(index as usize),
                "slot {slot} of {:?}",
                vector.form()
            );
        }
    }
}

#[test]
fn gathering_a_position_that_is_not_there_is_a_null_and_not_a_wrong_value() {
    let vector = integers(&[1, 2, 3]);
    let gathered = vector.gather(&[2, 9]).unwrap();
    assert_eq!(gathered.value_at(0), Value::Integer(3));
    assert_eq!(gathered.value_at(1), Value::Null);
}

#[test]
fn gathering_from_a_vector_of_no_values_is_that_many_nulls() {
    let vector = Vector::flat(LogicalType::Null, Data::Empty).unwrap();
    let gathered = vector.gather(&[0, 1, 2]).unwrap();
    assert_eq!(gathered.len(), 3);
    assert_eq!(gathered.value_at(0), Value::Null);
    assert_eq!(gathered.value_at(2), Value::Null);
}

#[test]
fn gathering_a_constant_stays_a_constant() {
    let vector = Vector::constant(LogicalType::Integer, Value::Integer(4), 100);
    let gathered = vector.gather(&[7, 7, 99]).unwrap();
    assert_eq!(gathered.form(), Form::Constant);
    assert_eq!(gathered.len(), 3);
    assert_eq!(gathered.value_at(2), Value::Integer(4));
}

#[test]
fn gathering_walks_a_dictionary_over_a_dictionary_to_the_values() {
    let inner = Vector::dictionary(vec![2, 1, 0], integers(&[7, 8, 9]))
        .unwrap()
        .with_validity(Validity::from_iter(3, |index| index != 2));
    let outer = Vector::dictionary(vec![1, 2], inner).unwrap();
    let gathered = outer.gather(&[0, 1]).unwrap();
    assert_eq!(gathered.form(), Form::Flat);
    assert_eq!(gathered.value_at(0), Value::Integer(8));
    assert_eq!(gathered.value_at(1), Value::Null);
}

#[test]
fn a_dictionary_over_a_dictionary_is_composed_into_one_level() {
    let inner = Vector::dictionary(vec![2, 1, 0], integers(&[7, 8, 9])).unwrap();
    let outer = Vector::dictionary(vec![1, 2], inner).unwrap();
    let (codes, values) = outer.dictionary_parts().unwrap();
    assert_eq!(codes, [1, 0]);
    assert_eq!(values.form(), Form::Flat);
    assert_eq!(outer.value_at(0), Value::Integer(8));
    assert_eq!(outer.value_at(1), Value::Integer(7));
}

#[test]
fn stacking_dictionaries_does_not_make_them_deeper() {
    let mut vector = integers(&[10, 20, 30, 40]);
    for _ in 0..4 {
        vector = Vector::dictionary(vec![3, 2, 1, 0], vector).unwrap();
    }
    let (codes, values) = vector.dictionary_parts().unwrap();
    assert_eq!(values.form(), Form::Flat);
    assert_eq!(codes, [0, 1, 2, 3]);
    assert_eq!(
        vector.iter(),
        integers(&[10, 20, 30, 40]).iter()
    );
}

#[test]
fn composing_a_dictionary_keeps_the_nulls_its_values_hold() {
    let values =
        Vector::from_values(LogicalType::Integer, &[Value::Integer(3), Value::Null]).unwrap();
    let inner = Vector::dictionary(vec![1, 0, 1], values).unwrap();
    let outer = Vector::dictionary(vec![0, 1], inner).unwrap();
    assert_eq!(outer.dictionary_parts().unwrap().1.form(), Form::Flat);
    assert_eq!(outer.value_at(0), Value::Null);
    assert_eq!(outer.value_at(1), Value::Integer(3));
}

#[test]
fn a_dictionary_holding_its_own_nulls_is_not_composed_past() {
    let inner = Vector::dictionary(vec![0, 1, 2], integers(&[1, 2, 3]))
        .unwrap()
        .with_validity(Validity::from_iter(3, |index| index != 1));
    let outer = Vector::dictionary(vec![1, 2, 0], inner).unwrap();
    assert_eq!(outer.dictionary_parts().unwrap().1.form(), Form::Dictionary);
    assert_eq!(outer.value_at(0), Value::Null);
    assert_eq!(outer.value_at(1), Value::Integer(3));
    assert_eq!(outer.value_at(2), Value::Integer(1));
}

#[test]
fn a_null_behind_a_dictionary_reads_as_null_even_though_the_mask_says_otherwise() {
    let values = Vector::flat(LogicalType::Integer, Data::Int32(vec![0, 7]))
        .unwrap()
        .with_validity(Validity::from_iter(2, |index| index != 0));
    let vector = Vector::dictionary(vec![0, 1, 0], values).unwrap();
    assert!(vector.validity().is_valid(0), "the mask at this level says present");
    assert!(vector.is_null_at(0));
    assert!(!vector.is_null_at(1));
    assert!(vector.is_null_at(2));
    assert!(vector.is_null_at(3), "a row past the end is null");
}

#[test]
fn a_null_inside_a_run_reads_as_null_even_though_the_mask_says_otherwise() {
    let values = Vector::flat(LogicalType::Integer, Data::Int32(vec![0, 7]))
        .unwrap()
        .with_validity(Validity::from_iter(2, |index| index != 0));
    let vector = Vector::runs(vec![2, 3], values).unwrap();
    assert!(vector.validity().is_valid(0));
    assert!(vector.is_null_at(0));
    assert!(vector.is_null_at(1));
    assert!(!vector.is_null_at(2));
}

#[test]
fn the_forms_that_hold_their_own_nulls_answer_the_same_either_way() {
    let flat = Vector::flat(LogicalType::Integer, Data::Int32(vec![0, 7]))
        .unwrap()
        .with_validity(Validity::from_iter(2, |index| index != 0));
    let constant = Vector::constant(LogicalType::Integer, Value::Null, 2);
    let sequence = Vector::sequence(10, 2, 2);
    for vector in [flat, constant, sequence] {
        for row in 0..vector.len() {
            assert_eq!(vector.is_null_at(row), !vector.validity().is_valid(row));
        }
    }
}

#[test]
fn flattening_a_flat_vector_is_the_same_vector() {
    let vector = integers(&[1, 2, 3]);
    assert!(same(&vector.flatten().unwrap(), &vector));
}

#[test]
fn flattening_a_vector_that_owns_its_values_moves_them_rather_than_copying_them() {
    let vector = integers(&[1, 2, 3, 4]);
    let address = |vector: &Vector| match vector.data() {
        Some(Data::Int32(values)) => values.as_slice().as_ptr() as usize,
        _ => panic!("the layout changed under the test"),
    };
    let stored = address(&vector);
    let flat = vector.into_flat().unwrap();
    assert_eq!(address(&flat), stored, "the values moved");
    assert_eq!(
        flat.iter(),
        (1..=4).map(Value::Integer).collect::<Vec<_>>()
    );
    let dictionary = Vector::dictionary(vec![1, 0, 1], integers(&[7, 8])).unwrap();
    let flat = dictionary.clone().into_flat().unwrap();
    assert_eq!(flat.form(), Form::Flat);
    assert_eq!(flat.iter(), dictionary.iter());
}

#[test]
fn a_decimal_reads_its_width_and_scale_from_the_type_and_not_the_data() {
    let ty = LogicalType::decimal(9, 2);
    let vector = Vector::flat(ty, Data::Int32(vec![1234])).unwrap();
    assert_eq!(vector.value_at(0), Value::Decimal { unscaled: 1234, width: 9, scale: 2 });
}

#[test]
fn a_decimal_writes_into_whichever_of_the_four_runs_its_precision_chose() {
    for (width, scale, unscaled) in
        [(4u8, 1u8, 25i128), (9, 2, 1234), (18, 3, 123_456), (38, 4, 1_234_567)]
    {
        let ty = LogicalType::decimal(width, scale);
        let value = Value::Decimal { unscaled, width, scale };
        let vector = Vector::from_values(ty, &[value.clone(), Value::Null]).unwrap();
        assert_eq!(vector.value_at(0), value, "a decimal of width {width}");
        assert_eq!(vector.value_at(1), Value::Null, "a null decimal of width {width}");
    }
}

#[test]
fn a_blob_holds_bytes_that_are_not_text() {
    let bytes = |raw: &[u8]| Value::Blob(raw.to_vec());
    let values = [
        bytes(b"a\xffb"),
        bytes(b"\x00\x01\x02"),
        Value::Null,
        bytes(b"\xed\xa0\x80 and long enough to leave the view"),
        bytes(b""),
    ];
    let vector = Vector::from_values(LogicalType::Blob, &values).unwrap();
    for (index, value) in values.iter().enumerate() {
        assert_eq!(&vector.value_at(index), value, "row {index}");
    }
}

#[test]
fn a_decimal_too_wide_for_the_run_its_type_chose_is_an_error_and_not_a_wrong_number() {
    let ty = LogicalType::decimal(4, 1);
    let value = Value::Decimal { unscaled: 1_000_000, width: 4, scale: 1 };
    let error = Vector::from_values(ty, &[value]).err().unwrap();
    assert!(error.message.contains("does not fit"), "{error:?}");
}

#[test]
fn a_flat_vector_costs_its_values_and_a_constant_costs_one() {
    let flat = integers(&[1; 1000]);
    assert!(
        flat.footprint() >= 4000,
        "a thousand i32 are four thousand bytes: {}",
        flat.footprint()
    );
    let constant = Vector::constant(LogicalType::Integer, Value::Integer(1), 1_000_000);
    assert!(constant.footprint() < 200, "a constant is one value: {}", constant.footprint());
    let sequence = Vector::sequence(0, 1, 1_000_000);
    assert!(sequence.footprint() < 200, "a sequence is two numbers: {}", sequence.footprint());
}

#[test]
fn a_gather_off_a_dictionary_answers_the_same_nulls_either_way_round() {
    let words = [Value::Varchar("north".into()), Value::Null, Value::Varchar("south".into())];
    let plain: Vec<Value> =
        ["north", "east", "south"].iter().map(|word| Value::Varchar((*word).into())).collect();
    let clean = Arc::new(Vector::from_values(LogicalType::Varchar, &plain).unwrap());
    let dirty = Arc::new(Vector::from_values(LogicalType::Varchar, &words).unwrap());
    let codes = vec![0, 1, 2, 0, 1, 2];
    let sources = [
        Vector::stable_dictionary(codes.clone(), Arc::clone(&clean)).unwrap(),
        Vector::stable_dictionary(codes.clone(), Arc::clone(&dirty)).unwrap(),
        Vector::stable_dictionary(codes, Arc::clone(&clean))
            .unwrap()
            .with_validity(Validity::from_run(&[true, true, false, true, true, true])),
    ];
    for source in &sources {
        let picks: Vec<u32> = vec![5, 0, 3, 2, 1, 99, 4];
        let taken = source.gather(&picks).unwrap();
        for (row, &pick) in picks.iter().enumerate() {
            assert_eq!(
                taken.is_null_at(row),
                source.is_null_at(pick as usize),
                "row {row} of a gather of {picks:?}"
            );
        }
    }
}

#[test]
fn a_dictionary_read_by_many_cuts_is_counted_about_once_between_them() {
    let strings: Vec<Value> = (0..2000)
        .map(|at| Value::Varchar(format!("a value well past the inline limit, number {at}")))
        .collect();
    let values = Arc::new(Vector::from_values(LogicalType::Varchar, &strings).unwrap());
    let dictionary = values.footprint();
    let cuts: Vec<Vector> = (0..500)
        .map(|_| Vector::stable_dictionary(vec![0; 8], Arc::clone(&values)).unwrap())
        .collect();
    let together: usize = cuts.iter().map(Vector::footprint).sum();
    assert!(
        together < dictionary * 2,
        "five hundred cuts are not five hundred dictionaries: {together} against {dictionary}"
    );
    assert!(
        together > dictionary / 2,
        "the dictionary is still counted: {together} against {dictionary}"
    );
}

#[test]
fn a_string_vector_costs_the_bytes_of_its_long_strings() {
    let short =
        Vector::from_values(LogicalType::Varchar, &[Value::Varchar("red".into())]).unwrap();
    let long = "a string well past the sixteen bytes a view holds inline".to_string();
    let spilled =
        Vector::from_values(LogicalType::Varchar, &[Value::Varchar(long.clone())]).unwrap();
    assert!(
        spilled.footprint() >= short.footprint() + long.len(),
        "the arena is counted: {} against {}",
        spilled.footprint(),
        short.footprint()
    );
}

#[test]
fn a_narrow_column_packs_and_reads_back_the_same_at_every_width() {
    for width in 1..=20u32 {
        let span = (1i64 << width) - 1;
        let values: Vec<i64> =
            (0..1000).map(|row| 1_000_000 + (row * 7919) % (span + 1)).collect();
        let flat =
            Vector::flat(LogicalType::BigInt, Data::Int64(values.clone())).unwrap();
        let packed = flat.bit_packed().unwrap();
        assert_eq!(packed.len(), flat.len());
        assert_eq!(
            packed.iter(),
            flat.iter(),
            "width {width} read back differently"
        );
    }
}

#[test]
fn the_width_is_the_bits_the_range_needs_and_not_the_bits_the_type_has() {
    let values: Vec<i32> = (0..1024).map(|row| 40 + (row * 2560) / 1023).collect();
    let flat = Vector::flat(LogicalType::Integer, Data::Int32(values)).unwrap();
    let packed = flat.bit_packed().unwrap();
    assert_eq!(packed.form(), Form::BitPacked);
    let parts = packed.packed_parts().expect("packed");
    assert_eq!(parts.width(), 12, "0 to 2560 is twelve bits");
    assert_eq!(parts.base(), 40);
    assert!(
        packed.footprint() * 2 < flat.footprint(),
        "twelve bits against thirty two: {} against {}",
        packed.footprint(),
        flat.footprint()
    );
}

#[test]
fn a_column_that_uses_its_whole_type_is_left_flat() {
    let values: Vec<i32> = (0..1024).map(|row| row * 2_000_000 - 1_000_000_000).collect();
    let flat = Vector::flat(LogicalType::Integer, Data::Int32(values)).unwrap();
    assert_eq!(flat.bit_packed().unwrap().form(), Form::Flat);
}

#[test]
fn a_column_against_the_top_of_its_type_packs_rather_than_being_refused() {
    let values: Vec<i32> = (0..4096).map(|row| i32::MAX - (row % 1000)).collect();
    let flat = Vector::flat(LogicalType::Integer, Data::Int32(values.clone())).unwrap();
    let packed = flat.bit_packed().unwrap();
    assert_eq!(packed.form(), Form::BitPacked);
    let parts = packed.packed_parts().expect("packed");
    assert_eq!(parts.width(), 10, "a thousand values apart is ten bits");
    assert_eq!(
        parts.base() + i128::from(u64::MAX >> (64 - parts.width())),
        i128::from(i32::MAX),
        "the widest code the width allows is the largest value the type holds"
    );
    assert_eq!(
        packed.iter(),
        flat.iter(),
        "the values came back different"
    );
}

#[test]
fn a_column_that_reaches_both_ends_of_its_type_bases_at_the_bottom_of_it() {
    let values: Vec<i32> = (0..4096)
        .map(|row| if row % 2 == 0 { i32::MIN + row } else { i32::MAX - row })
        .collect();
    let flat = Vector::flat(LogicalType::Integer, Data::Int32(values.clone())).unwrap();
    assert_eq!(flat.bit_packed().unwrap().form(), Form::Flat);
    assert_eq!(
        packing_base(&LogicalType::Integer, i128::from(i32::MIN), i128::from(i32::MAX), 32),
        Some(i128::from(i32::MIN))
    );
}

#[test]
fn a_column_of_one_value_is_left_to_the_run_length_form() {
    let flat = integers(&[9; 1024]);
    assert_eq!(flat.bit_packed().unwrap().form(), Form::Flat);
    assert_eq!(flat.run_encoded().unwrap().form(), Form::Rle);
}

#[test]
fn a_string_column_has_no_range_to_pack() {
    let text = Vector::from_values(
        LogicalType::Varchar,
        &[Value::Varchar("red".into()), Value::Varchar("blue".into())],
    )
    .unwrap();
    assert_eq!(text.bit_packed().unwrap().form(), Form::Flat);
}

#[test]
fn a_cut_of_a_packed_column_stays_packed_and_shares_its_bits() {
    let values: Vec<i32> = (0..1024).map(|row| 100 + row % 300).collect();
    let flat = Vector::flat(LogicalType::Integer, Data::Int32(values)).unwrap();
    let packed = flat.bit_packed().unwrap();
    let cut = packed.slice(500, 24).unwrap();
    assert_eq!(cut.form(), Form::BitPacked);
    assert_eq!(cut.len(), 24);
    assert_eq!(
        cut.iter(),
        flat.slice(500, 24).unwrap().iter()
    );
    assert!(
        cut.footprint() >= packed.footprint(),
        "a cut shares the words rather than copying a piece of them"
    );
}

#[test]
fn a_gather_of_a_packed_column_comes_out_flat_and_keeps_the_nulls() {
    let values: Vec<i32> = (0..64).map(|row| 10 + row).collect();
    let flat = Vector::flat(LogicalType::Integer, Data::Int32(values)).unwrap();
    let packed =
        flat.bit_packed().unwrap().with_validity(Validity::from_iter(64, |row| row % 3 != 0));
    let taken = packed.gather(&[0, 1, 2, 3, 62]).unwrap();
    assert_eq!(taken.form(), Form::Flat);
    assert_eq!(
        taken.iter(),
        vec![
            Value::Null,
            Value::Integer(11),
            Value::Integer(12),
            Value::Null,
            Value::Integer(72)
        ]
    );
}

#[test]
fn a_literal_outside_the_packed_range_has_no_code() {
    let values: Vec<i32> = (0..256).map(|row| 1000 + row).collect();
    let flat = Vector::flat(LogicalType::Integer, Data::Int32(values)).unwrap();
    let packed = flat.bit_packed().unwrap();
    let parts = packed.packed_parts().expect("packed");
    assert_eq!(parts.code_of(1000), Some(0));
    assert_eq!(parts.code_of(1100), Some(100));
    assert_eq!(parts.code_of(999), None);
    assert!(parts.ceiling() >= 1255);
    assert_eq!(parts.code_of(parts.ceiling() + 1), None);
}

#[test]
fn packed_bits_can_be_handed_in_without_a_flat_vector_to_start_from() {
    let packed = Vector::packed(LogicalType::SmallInt, vec![0x0000_0000_0000_4321], 4, 7, 4)
        .expect("four codes of four bits");
    assert_eq!(
        packed.iter(),
        vec![Value::SmallInt(8), Value::SmallInt(9), Value::SmallInt(10), Value::SmallInt(11)]
    );
}

#[test]
fn packed_bits_that_could_not_hold_what_they_claim_are_refused() {
    assert!(Vector::packed(LogicalType::Varchar, vec![0], 4, 0, 4).is_err(), "not an integer");
    assert!(Vector::packed(LogicalType::Integer, vec![0], 0, 0, 4).is_err(), "no width");
    assert!(Vector::packed(LogicalType::Integer, vec![0], 64, 0, 4).is_err(), "too wide");
    assert!(Vector::packed(LogicalType::Integer, vec![0], 8, 0, 9).is_err(), "too few words");
    assert!(Vector::packed(LogicalType::TinyInt, vec![0], 8, 100, 8).is_err(), "would not fit");
}

fn long_strings(count: usize) -> Vector {
    let values: Vec<Value> = (0..count)
        .map(|row| {
            Value::Varchar(format!("a string too long to sit inside a view, number {row}"))
        })
        .collect();
    Vector::from_values(LogicalType::Varchar, &values).unwrap()
}

#[test]
fn a_string_column_in_view_form_reads_back_the_same_strings() {
    let flat = long_strings(40);
    let shared = flat.clone().shared_text().unwrap();
    assert_eq!(shared.form(), Form::StringView);
    assert_eq!(shared.len(), 40);
    for row in 0..40 {
        assert_eq!(shared.value_at(row), flat.value_at(row), "row {row}");
        assert_eq!(shared.text_at(row), flat.text_at(row), "row {row}");
    }
}

#[test]
fn a_short_string_is_read_out_of_its_view_and_never_out_of_the_arena() {
    let flat = Vector::from_values(
        LogicalType::Varchar,
        &[Value::Varchar("red".into()), Value::Varchar("green".into()), Value::Null],
    )
    .unwrap();
    let shared = flat.shared_text().unwrap();
    let (views, arena) = shared.text_parts().unwrap();
    assert!(arena.is_empty(), "three short strings need no arena");
    assert_eq!(views[0].bytes_in(arena), Some(&b"red"[..]));
    assert_eq!(shared.value_at(1), Value::Varchar("green".into()));
    assert_eq!(shared.value_at(2), Value::Null, "the validity came across");
}

#[test]
fn a_cut_of_a_view_column_shares_the_arena_rather_than_copying_the_bytes() {
    let shared = long_strings(64).shared_text().unwrap();
    let cut = shared.slice(16, 8).unwrap();
    assert_eq!(cut.form(), Form::StringView, "a cut of views is views");
    assert_eq!(cut.len(), 8);
    assert_eq!(cut.value_at(0), shared.value_at(16));
    assert_eq!(cut.value_at(7), shared.value_at(23));
    let (_, whole) = shared.text_parts().unwrap();
    let (_, piece) = cut.text_parts().unwrap();
    assert_eq!(piece.as_ptr(), whole.as_ptr(), "the cut shares the page");
    assert_eq!(piece.len(), whole.len());
}

#[test]
fn a_flat_string_column_has_to_copy_the_bytes_its_cut_keeps() {
    let flat = long_strings(64);
    let cut = flat.slice(16, 8).unwrap();
    assert_eq!(cut.form(), Form::Flat);
    let (_, whole) = flat.text_parts().unwrap();
    let (_, piece) = cut.text_parts().unwrap();
    assert!(piece.len() < whole.len(), "the flat cut carries only what it kept");
}

#[test]
fn a_gather_of_a_view_column_keeps_the_form_and_a_flatten_copies_out_of_it() {
    let shared = long_strings(32).shared_text().unwrap();
    let picked: Vec<u32> = (0..32).step_by(3).collect();
    let gathered = shared.gather(&picked).unwrap();
    assert_eq!(gathered.form(), Form::StringView, "selecting rows moves views, not bytes");
    assert_eq!(gathered.len(), picked.len());
    for (row, &from) in picked.iter().enumerate() {
        assert_eq!(gathered.value_at(row), shared.value_at(from as usize), "row {row}");
    }
    let flattened = gathered.flatten().unwrap();
    assert_eq!(flattened.form(), Form::Flat);
    assert_eq!(flattened.iter(), gathered.iter());
    let (_, narrowed) = flattened.text_parts().unwrap();
    let (_, whole) = shared.text_parts().unwrap();
    assert!(narrowed.len() < whole.len(), "flattening lets the page go");
}

#[test]
fn a_null_in_a_view_column_survives_being_gathered_and_flattened() {
    let shared = long_strings(8)
        .with_validity(Validity::from_iter(8, |row| row % 3 != 0))
        .shared_text()
        .unwrap();
    let gathered = shared.gather(&[0, 1, 2, 3, 4]).unwrap();
    let expected =
        [Value::Null, shared.value_at(1), shared.value_at(2), Value::Null, shared.value_at(4)];
    assert_eq!(gathered.iter(), expected);
    assert_eq!(gathered.flatten().unwrap().iter(), expected);
}

#[test]
fn both_string_forms_hand_a_kernel_the_same_views_and_the_same_bytes() {
    let flat = long_strings(6);
    let shared = flat.clone().shared_text().unwrap();
    let (flat_views, flat_arena) = flat.text_parts().unwrap();
    let (shared_views, shared_arena) = shared.text_parts().unwrap();
    assert_eq!(flat_views.len(), shared_views.len());
    for row in 0..6 {
        assert_eq!(
            flat_views[row].bytes_in(flat_arena),
            shared_views[row].bytes_in(shared_arena),
            "row {row}"
        );
    }
    assert!(Vector::sequence(0, 1, 4).text_parts().is_none());
    assert!(integers(&[1, 2, 3]).text_parts().is_none());
}

#[test]
fn a_column_that_is_not_strings_cannot_be_held_as_views() {
    let views = vec![StringView::inline("red")];
    let arena = Arc::new(Vec::new());
    let wrong = Vector::string_views(LogicalType::Integer, views, arena);
    assert!(wrong.is_err(), "an integer column has no views");
    assert_eq!(integers(&[1, 2]).shared_text().unwrap().form(), Form::Flat, "left alone");
}

fn sentences(count: usize) -> Vector {
    let values: Vec<Value> = (0..count)
        .map(|row| {
            Value::Varchar(format!(
                "http://example.test/catalogue/section/{}/item/{row}",
                row % 7
            ))
        })
        .collect();
    Vector::from_values(LogicalType::Varchar, &values).unwrap()
}

#[test]
fn a_compressed_column_reads_back_the_strings_that_went_into_it() {
    let flat = sentences(64);
    let coded = flat.clone().compressed().unwrap();
    assert_eq!(coded.form(), Form::Fsst, "a text column compresses");
    assert_eq!(coded.len(), 64);
    for row in 0..64 {
        assert_eq!(coded.value_at(row), flat.value_at(row), "row {row}");
    }
    assert!(same(&coded.flatten().unwrap(), &flat), "flattening is the column it came from");
}

#[test]
fn compressing_halves_the_bytes_or_the_column_is_left_flat() {
    let flat = sentences(200);
    let coded = flat.clone().compressed().unwrap();
    let parts = coded.coded_parts().expect("compressed");
    assert_eq!(coded.text_at(0), None, "nothing to borrow until it is flattened");
    let plain: usize = (0..200).map(|row| flat.text_at(row).map_or(0, str::len)).sum();
    let codes: usize = (0..200).map(|row| parts.row(row).map_or(0, <[u8]>::len)).sum();
    assert!(codes * FSST_PAYS_AT <= plain, "{codes} codes against {plain} bytes");
    let mut seed = 0x2545_f491_4f6c_dd1du64;
    let values: Vec<Value> = (0..256)
        .map(|_| {
            let mut text = String::new();
            while text.len() < 12 {
                seed = seed.wrapping_mul(6_364_136_223_846_793_005).wrapping_add(1);
                text.push(char::from(b'!' + ((seed >> 33) % 90) as u8));
            }
            Value::Varchar(text)
        })
        .collect();
    let noise = Vector::from_values(LogicalType::Varchar, &values).unwrap();
    assert_eq!(noise.compressed().unwrap().form(), Form::Flat);
}

#[test]
fn a_cut_of_a_compressed_column_shares_the_codes_and_the_table() {
    let coded = sentences(64).compressed().unwrap();
    let cut = coded.slice(8, 16).unwrap();
    assert_eq!(cut.form(), Form::Fsst);
    assert_eq!(cut.len(), 16);
    for row in 0..16 {
        assert_eq!(cut.value_at(row), coded.value_at(8 + row), "row {row}");
    }
    let (whole, piece) = (coded.coded_parts().unwrap(), cut.coded_parts().unwrap());
    assert_eq!(piece.row(0), whole.row(8), "the spans point into the same codes");
}

#[test]
fn a_gather_of_a_compressed_column_stays_compressed_and_keeps_the_nulls() {
    let coded = sentences(32)
        .with_validity(Validity::from_iter(32, |row| row % 5 != 2))
        .compressed()
        .unwrap();
    let picked: Vec<u32> = (0..32).step_by(2).collect();
    let gathered = coded.gather(&picked).unwrap();
    assert_eq!(gathered.form(), Form::Fsst, "selecting rows moves spans, not bytes");
    for (row, &from) in picked.iter().enumerate() {
        assert_eq!(gathered.value_at(row), coded.value_at(from as usize), "row {row}");
    }
    assert_eq!(
        gathered.flatten().unwrap().iter(),
        gathered.iter()
    );
}

#[test]
fn a_literal_lands_in_the_same_codes_the_row_holding_it_does() {
    let coded = sentences(40).compressed().unwrap();
    let parts = coded.coded_parts().expect("compressed");
    let text = coded.value_at(11);
    let Value::Varchar(text) = text else { panic!("a string column reads back strings") };
    assert_eq!(parts.encode(text.as_bytes()), parts.row(11).expect("row 11"));
    assert_ne!(parts.encode(b"something else entirely"), parts.row(11).unwrap());
}

#[test]
fn codes_that_run_past_what_is_there_are_refused() {
    let table = Arc::new(SymbolTable::empty());
    let codes = Arc::new(vec![1u8, 2, 3, 4]);
    let good = vec![(0u32, 2u32), (2, 4)];
    assert!(
        Vector::coded(LogicalType::Varchar, Arc::clone(&codes), good, Arc::clone(&table))
            .is_ok()
    );
    let past = vec![(0u32, 9u32)];
    assert!(
        Vector::coded(LogicalType::Varchar, Arc::clone(&codes), past, Arc::clone(&table))
            .is_err(),
        "a span past the end of the codes"
    );
    let backwards = vec![(3u32, 1u32)];
    assert!(
        Vector::coded(LogicalType::Varchar, Arc::clone(&codes), backwards, Arc::clone(&table))
            .is_err(),
        "a span that ends before it starts"
    );
    let wrong = vec![(0u32, 2u32)];
    assert!(
        Vector::coded(LogicalType::Integer, codes, wrong, table).is_err(),
        "an integer column has no codes"
    );
}

#[test]
fn a_view_pointing_past_its_arena_is_refused_at_construction() {
    let long = "a string too long to sit inside a view";
    let arena: Arc<Vec<u8>> = Arc::new(long.as_bytes().to_vec());
    let good = vec![StringView::over(long.as_bytes(), 0)];
    assert!(Vector::string_views(LogicalType::Varchar, good, Arc::clone(&arena)).is_ok());
    let bad = vec![StringView::over(long.as_bytes(), 4)];
    assert!(
        Vector::string_views(LogicalType::Varchar, bad, arena).is_err(),
        "four bytes short of what the view claims"
    );
}

#[test]
fn a_gathered_vector_reads_the_source_row_its_id_names() {
    let source = Arc::new(integers(&[10, 20, 30, 40]));
    let vector = Vector::gathered(source, Arc::new(vec![3, 0, 3, 1])).unwrap();
    assert_eq!(vector.form(), Form::Gathered);
    assert_eq!(vector.len(), 4);
    assert_eq!(
        vector.iter(),
        vec![Value::Integer(40), Value::Integer(10), Value::Integer(40), Value::Integer(20)]
    );
}

#[test]
fn a_gathered_row_with_no_source_row_is_null_without_a_mask() {
    let source = Arc::new(integers(&[10, 20]));
    let vector = Vector::gathered(source, Arc::new(vec![1, NO_ROW, 0])).unwrap();
    assert!(!vector.validity().has_nulls(vector.len()), "the mask at this level says nothing");
    assert!(vector.is_null_at(1));
    assert!(!vector.is_null_at(0) && !vector.is_null_at(2));
    assert_eq!(
        vector.iter(),
        vec![Value::Integer(20), Value::Null, Value::Integer(10)]
    );
    assert!(!vector.none_null(), "a sentinel is a null and the bulk answer has to agree");
}

#[test]
fn a_gather_of_a_null_source_row_is_null() {
    let source = Arc::new(
        Vector::from_values(LogicalType::Integer, &[Value::Integer(7), Value::Null]).unwrap(),
    );
    let vector = Vector::gathered(source, Arc::new(vec![1, 0, 1])).unwrap();
    assert!(vector.is_null_at(0) && vector.is_null_at(2));
    assert_eq!(vector.value_at(1), Value::Integer(7));
    assert!(!vector.none_null());
}

#[test]
fn a_gathered_id_past_the_end_of_its_source_is_refused() {
    let source = Arc::new(integers(&[1, 2, 3]));
    assert!(Vector::gathered(Arc::clone(&source), Arc::new(vec![0, 3])).is_err());
    assert!(
        Vector::gathered(source, Arc::new(vec![0, NO_ROW])).is_ok(),
        "the sentinel is not an id past the end, it is the absence of one"
    );
}

#[test]
fn cutting_a_gather_moves_where_it_starts_and_copies_nothing() {
    let source = Arc::new(integers(&[10, 20, 30, 40, 50]));
    let rids = Arc::new(vec![4, 3, 2, 1, 0]);
    let vector = Vector::gathered(Arc::clone(&source), Arc::clone(&rids)).unwrap();
    let held = Arc::strong_count(&rids);
    let cut = vector.slice(1, 3).unwrap();
    assert_eq!(cut.form(), Form::Gathered);
    assert_eq!(
        Arc::strong_count(&rids),
        held + 1,
        "the cut shares the ids rather than copying"
    );
    assert_eq!(
        cut.iter(),
        vec![Value::Integer(40), Value::Integer(30), Value::Integer(20)]
    );
    assert_eq!(cut.gathered_parts().unwrap().1, [3, 2, 1]);
}

#[test]
fn a_gather_of_a_gather_resolves_to_one_walk_over_the_source() {
    let source = Arc::new(integers(&[10, 20, 30, 40]));
    let inner = Vector::gathered(source, Arc::new(vec![3, 2, 1, 0])).unwrap();
    let outer = inner.gather(&[0, 3]).unwrap();
    assert_eq!(outer.iter(), vec![Value::Integer(40), Value::Integer(10)]);
    assert_ne!(outer.form(), Form::Gathered, "the walk stops at what the ids point into");
}

#[test]
fn gathering_through_a_sentinel_keeps_it_null() {
    let source = Arc::new(integers(&[10, 20]));
    let inner = Vector::gathered(source, Arc::new(vec![0, NO_ROW, 1])).unwrap();
    let outer = inner.gather(&[1, 2, 1]).unwrap();
    assert_eq!(
        outer.iter(),
        vec![Value::Null, Value::Integer(20), Value::Null]
    );
}

#[test]
fn folding_over_the_source_is_worth_it_only_when_the_source_is_the_shorter_one() {
    let wide = Arc::new(integers(&(0..64).collect::<Vec<i32>>()));
    let narrow = Arc::new(integers(&[1, 2]));
    let off_wide = Vector::gathered(wide, Arc::new(vec![0, 1, 2])).unwrap();
    let off_narrow = Vector::gathered(narrow, Arc::new(vec![0, 1, 0, 1, 0])).unwrap();
    assert!(!off_wide.fold_over_source(), "sixty four source rows to answer three");
    assert!(off_narrow.fold_over_source(), "two source rows to answer five");
    assert!(!integers(&[1, 2]).fold_over_source(), "and every other form says no");
}

#[test]
fn a_gathered_string_is_read_where_the_source_put_it() {
    let mut column = StringColumn::new();
    column.push("red");
    column.push("a string too long to sit inside a sixteen byte view");
    let source = Arc::new(Vector::flat(LogicalType::Varchar, Data::Varlen(column)).unwrap());
    let vector = Vector::gathered(source, Arc::new(vec![1, 0, NO_ROW])).unwrap();
    assert_eq!(vector.text_at(0), Some("a string too long to sit inside a sixteen byte view"));
    assert_eq!(vector.text_at(1), Some("red"));
    assert_eq!(vector.text_at(2), None);
    assert_eq!(vector.bytes_at(1), Some(b"red".as_slice()));
    assert_eq!(vector.value_at(1), Value::Varchar("red".into()));
}

#[test]
fn the_signed_reader_of_a_gather_agrees_with_the_value_reader() {
    let source = Arc::new(integers(&[10, 20, 30]));
    let vector = Vector::gathered(source, Arc::new(vec![2, NO_ROW, 0, 1])).unwrap();
    for row in 0..vector.len() {
        let signed = vector.signed_at(row);
        match vector.value_at(row) {
            Value::Null => assert_eq!(signed, None),
            Value::Integer(held) => assert_eq!(signed, Some(i128::from(held))),
            other => panic!("an integer column answered {other:?}"),
        }
    }
}

#[test]
fn flattening_a_gather_writes_out_the_rows_it_pointed_at() {
    let source = Arc::new(integers(&[10, 20, 30]));
    let vector = Vector::gathered(source, Arc::new(vec![2, NO_ROW, 0])).unwrap();
    let flat = vector.flatten().unwrap();
    assert_eq!(flat.form(), Form::Flat);
    assert_eq!(
        flat.iter(),
        vec![Value::Integer(30), Value::Null, Value::Integer(10)]
    );
}

#[test]
fn a_parent_gathered_by_many_columns_is_counted_about_once_between_them() {
    let source = Arc::new(integers(&(0..4096).collect::<Vec<i32>>()));
    let rids = Arc::new(vec![0; 64]);
    let alone = Vector::gathered(Arc::clone(&source), Arc::clone(&rids)).unwrap().footprint();
    let many = (0..8)
        .map(|_| Vector::gathered(Arc::clone(&source), Arc::clone(&rids)).unwrap())
        .collect::<Vec<_>>();
    let together = many.iter().map(Vector::footprint).sum::<usize>();
    assert!(
        together < alone * 2,
        "eight gathers off one parent reported {together} against {alone} for one"
    );
}

fn list_of(values: &[i32]) -> Value {
    Value::List {
        element: LogicalType::Integer,
        values: values.iter().map(|&value| Value::Integer(value)).collect(),
    }
}

#[test]
fn a_repeated_list_is_copied_as_its_rows_are_built() {
    let ty = LogicalType::List(Arc::new(LogicalType::Integer));
    let repeated = Vector::constant(ty.dup(), list_of(&[1, 2]), 3);
    let flat = repeated.flatten().unwrap();
    assert_eq!(flat.len(), 3);
    assert_eq!(flat.value_at(2), list_of(&[1, 2]));
    let shorter = repeated.gather(&[0, 2]).unwrap();
    assert_eq!(shorter.form(), Form::Constant, "a gather with no null is a shorter constant");
    let with_null = repeated.gather(&[0, 9]).unwrap();
    assert_eq!(with_null.value_at(0), list_of(&[1, 2]));
    assert_eq!(with_null.value_at(1), Value::Null);
}

#[test]
fn a_repeated_value_of_another_type_reads_as_it_is_and_is_kept_as_its_type_keeps_it() {
    let ty = LogicalType::List(Arc::new(LogicalType::Integer));
    let none = Value::List { element: LogicalType::Null, values: vec![] };
    let repeated = Vector::constant(ty.dup(), none.dup(), 2);
    assert_eq!(repeated.value_at(1), none);
    assert_eq!(repeated.slice(1, 1).unwrap().value_at(0), none);
    assert_eq!(repeated.flatten().unwrap().value_at(0), list_of(&[]));
    let other = Vector::constant(LogicalType::Integer, Value::Boolean(true), 2);
    assert_eq!(other.value_at(0), Value::Boolean(true));
    let error = other.flatten().err().unwrap();
    assert_eq!(error.message, "{} is not a 32 bit value");
    assert!(other.gather(&[1]).is_ok(), "nothing is written out");
    assert!(other.gather(&[1, 7]).is_err(), "a null beside it is");
    let marked = Vector::constant(LogicalType::Integer, Value::Null, 2)
        .with_validity(Validity::AllValid);
    assert_eq!(marked.value_at(0), Value::Null);
    assert_eq!(marked.flatten().unwrap().value_at(0), Value::Null);
}
