use koala_diff::report::{diff, DiffError, DiffReport, StatBody};
use koala_diff::table::{Column, Table};
use koala_diff::value::{CellValue, DType};

fn int_col(name: &str, vals: Vec<Option<i64>>) -> Column {
    Column {
        name: name.to_string(),
        dtype: DType::Int,
        values: vals
            .into_iter()
            .map(|v| match v {
                Some(x) => CellValue::Int(x),
                None => CellValue::Null,
            })
            .collect(),
    }
}

fn str_col(name: &str, vals: Vec<Option<&str>>) -> Column {
    Column {
        name: name.to_string(),
        dtype: DType::Str,
        values: vals
            .into_iter()
            .map(|v| match v {
                Some(x) => CellValue::Str(x.to_string()),
                None => CellValue::Null,
            })
            .collect(),
    }
}

fn bool_col(name: &str, vals: Vec<Option<bool>>) -> Column {
    Column {
        name: name.to_string(),
        dtype: DType::Bool,
        values: vals
            .into_iter()
            .map(|v| match v {
                Some(x) => CellValue::Bool(x),
                None => CellValue::Null,
            })
            .collect(),
    }
}

fn keys(names: &[&str]) -> Vec<String> {
    names.iter().map(|s| s.to_string()).collect()
}

fn run(a: &Table, b: &Table, ks: &[&str]) -> DiffReport {
    assert!(a.is_wf());
    assert!(b.is_wf());
    diff(a, b, &keys(ks)).expect("diff should succeed")
}

#[test]
fn scenario_basic_counts_and_amt_stats() {
    let a = Table {
        columns: vec![
            int_col("id", vec![Some(1), Some(2), Some(3)]),
            int_col("amt", vec![Some(10), Some(20), Some(30)]),
        ],
    };
    let b = Table {
        columns: vec![
            int_col("id", vec![Some(1), Some(2), Some(4)]),
            int_col("amt", vec![Some(10), Some(25), Some(40)]),
        ],
    };
    let r = run(&a, &b, &["id"]);
    assert_eq!(r.total_rows_a, 3);
    assert_eq!(r.total_rows_b, 3);
    assert_eq!(r.joined_count, 2);
    assert_eq!(r.added, 1);
    assert_eq!(r.removed, 1);
    assert_eq!(r.modified_rows_count, 1);
    assert_eq!(r.identical_rows_count, 1);
    // conservation with unique keys
    assert_eq!(r.joined_count + r.removed, r.total_rows_a);
    assert_eq!(r.joined_count + r.added, r.total_rows_b);
    assert_eq!(r.identical_rows_count + r.modified_rows_count, r.joined_count);

    assert_eq!(r.column_stats.len(), 2);
    let id_stat = &r.column_stats[0];
    assert_eq!(id_stat.column_name, "id");
    assert!(id_stat.is_key);
    assert!(id_stat.all_match());
    match &id_stat.body {
        StatBody::Key { total_count, .. } => assert_eq!(*total_count, 2),
        _ => panic!("id must be a key column stat"),
    }

    let amt_stat = &r.column_stats[1];
    assert_eq!(amt_stat.column_name, "amt");
    assert!(!amt_stat.is_key);
    assert!(!amt_stat.all_match());
    match &amt_stat.body {
        StatBody::Compared {
            total_count,
            match_count,
            non_match_count,
            match_rate_hundredths,
            max_value_diff,
            null_count_diff,
            mismatched_sample_keys,
            mismatched_value_samples,
            ..
        } => {
            assert_eq!(*total_count, 2);
            assert_eq!(*match_count, 1);
            assert_eq!(*non_match_count, 1);
            assert_eq!(*match_rate_hundredths, 5000); // 50.00 %
            assert_eq!(*max_value_diff, Some(5));
            assert_eq!(*null_count_diff, 0);
            assert_eq!(mismatched_sample_keys.as_slice(), &["id: 2".to_string()]);
            assert_eq!(mismatched_value_samples.as_slice(), &["20 -> 25".to_string()]);
        }
        _ => panic!("amt must be a compared column stat"),
    }
}

#[test]
fn schema_diff_single_type_conflict() {
    let a = Table {
        columns: vec![
            int_col("id", vec![Some(1)]),
            str_col("status", vec![Some("x")]),
        ],
    };
    let b = Table {
        columns: vec![
            int_col("id", vec![Some(1)]),
            int_col("status", vec![Some(5)]),
        ],
    };
    let r = run(&a, &b, &["id"]);
    assert_eq!(r.schema_diff.len(), 1);
    assert_eq!(r.schema_diff[0].column, "status");
    assert_eq!(r.schema_diff[0].type_a, DType::Str);
    assert_eq!(r.schema_diff[0].type_b, DType::Int);
    // the conflicting column is still compared, and the values differ
    match &r.column_stats[1].body {
        StatBody::Compared { non_match_count, max_value_diff, .. } => {
            assert_eq!(*non_match_count, 1);
            assert_eq!(*max_value_diff, None);
        }
        _ => panic!("status must be compared"),
    }
}

#[test]
fn missing_column_reported_without_counts() {
    let a = Table {
        columns: vec![
            int_col("id", vec![Some(1)]),
            int_col("extra", vec![Some(9)]),
        ],
    };
    let b = Table {
        columns: vec![int_col("id", vec![Some(1)])],
    };
    let r = run(&a, &b, &["id"]);
    let st = &r.column_stats[1];
    assert_eq!(st.column_name, "extra");
    assert!(matches!(st.body, StatBody::Missing));
    assert!(!st.all_match());
    assert!(r.schema_diff.is_empty());
}

#[test]
fn diff_of_table_with_itself_is_clean() {
    let t = Table {
        columns: vec![
            int_col("id", vec![Some(1), Some(2)]),
            str_col("name", vec![Some("a"), None]),
        ],
    };
    let r = run(&t, &t, &["id"]);
    assert_eq!(r.joined_count, 2);
    assert_eq!(r.added, 0);
    assert_eq!(r.removed, 0);
    assert_eq!(r.modified_rows_count, 0);
    assert_eq!(r.identical_rows_count, 2);
    match &r.column_stats[1].body {
        StatBody::Compared {
            non_match_count,
            match_rate_hundredths,
            mismatched_sample_keys,
            ..
        } => {
            assert_eq!(*non_match_count, 0);
            assert_eq!(*match_rate_hundredths, 10000); // 100.00 %
            assert!(mismatched_sample_keys.is_empty());
        }
        _ => panic!("name must be compared"),
    }
}

#[test]
fn swapping_tables_swaps_added_and_removed() {
    let a = Table {
        columns: vec![
            int_col("id", vec![Some(1), Some(2), Some(3)]),
            int_col("amt", vec![None, None, Some(7)]),
        ],
    };
    let b = Table {
        columns: vec![
            int_col("id", vec![Some(1), Some(2)]),
            int_col("amt", vec![Some(1), None]),
        ],
    };
    let r_ab = run(&a, &b, &["id"]);
    let r_ba = run(&b, &a, &["id"]);
    assert_eq!(r_ab.joined_count, r_ba.joined_count);
    assert_eq!(r_ab.added, r_ba.removed);
    assert_eq!(r_ab.removed, r_ba.added);
    let (nm_ab, nd_ab, rate_ab) = match &r_ab.column_stats[1].body {
        StatBody::Compared { non_match_count, null_count_diff, match_rate_hundredths, .. } => {
            (*non_match_count, *null_count_diff, *match_rate_hundredths)
        }
        _ => panic!(),
    };
    let (nm_ba, nd_ba, rate_ba) = match &r_ba.column_stats[1].body {
        StatBody::Compared { non_match_count, null_count_diff, match_rate_hundredths, .. } => {
            (*non_match_count, *null_count_diff, *match_rate_hundredths)
        }
        _ => panic!(),
    };
    assert_eq!(nm_ab, nm_ba);
    assert_eq!(rate_ab, rate_ba);
    assert_eq!(nd_ab, -nd_ba);
    assert_eq!(nd_ab, -1); // b side has one null among joined rows, a side two
}

#[test]
fn samples_are_capped_at_five() {
    let ids: Vec<Option<i64>> = (1..=7).map(Some).collect();
    let a = Table {
        columns: vec![
            int_col("id", ids.clone()),
            int_col("v", (1..=7).map(|x| Some(x * 10)).collect()),
        ],
    };
    let b = Table {
        columns: vec![
            int_col("id", ids),
            int_col("v", (1..=7).map(|x| Some(x * 10 + 1)).collect()),
        ],
    };
    let r = run(&a, &b, &["id"]);
    match &r.column_stats[1].body {
        StatBody::Compared {
            non_match_count,
            mismatched_sample_keys,
            mismatched_value_samples,
            max_value_diff,
            ..
        } => {
            assert_eq!(*non_match_count, 7);
            assert_eq!(mismatched_sample_keys.len(), 5);
            assert_eq!(mismatched_value_samples.len(), 5);
            assert_eq!(mismatched_sample_keys[0], "id: 1");
            assert_eq!(mismatched_value_samples[0], "10 -> 11");
            assert_eq!(*max_value_diff, Some(1));
        }
        _ => panic!(),
    }
}

#[test]
fn disjoint_keys_yield_zero_join_and_sentinel_rate() {
    let a = Table {
        columns: vec![int_col("id", vec![Some(1)]), int_col("v", vec![Some(3)])],
    };
    let b = Table {
        columns: vec![int_col("id", vec![Some(2)]), int_col("v", vec![Some(4)])],
    };
    let r = run(&a, &b, &["id"]);
    assert_eq!(r.joined_count, 0);
    assert_eq!(r.added, 1);
    assert_eq!(r.removed, 1);
    assert_eq!(r.modified_rows_count, 0);
    assert_eq!(r.identical_rows_count, 0);
    match &r.column_stats[1].body {
        StatBody::Compared {
            total_count,
            match_count,
            non_match_count,
            match_rate_hundredths,
            max_value_diff,
            mismatched_sample_keys,
            ..
        } => {
            assert_eq!(*total_count, 0);
            assert_eq!(*match_count, 0);
            assert_eq!(*non_match_count, 0);
            assert_eq!(*match_rate_hundredths, 0); // documented sentinel
            assert_eq!(*max_value_diff, Some(0));
            assert!(mismatched_sample_keys.is_empty());
        }
        _ => panic!(),
    }
}

#[test]
fn null_keys_never_match() {
    let a = Table {
        columns: vec![int_col("id", vec![None]), int_col("v", vec![Some(1)])],
    };
    let b = Table {
        columns: vec![int_col("id", vec![None]), int_col("v", vec![Some(1)])],
    };
    let r = run(&a, &b, &["id"]);
    assert_eq!(r.joined_count, 0);
    assert_eq!(r.added, 1);
    assert_eq!(r.removed, 1);
}

#[test]
fn null_aware_equality_counts_two_nulls_as_match() {
    let a = Table {
        columns: vec![
            int_col("id", vec![Some(1), Some(2)]),
            int_col("v", vec![None, Some(5)]),
        ],
    };
    let b = Table {
        columns: vec![
            int_col("id", vec![Some(1), Some(2)]),
            int_col("v", vec![None, None]),
        ],
    };
    let r = run(&a, &b, &["id"]);
    match &r.column_stats[1].body {
        StatBody::Compared { match_count, non_match_count, null_count_diff, .. } => {
            assert_eq!(*match_count, 1); // null == null
            assert_eq!(*non_match_count, 1); // 5 != null
            assert_eq!(*null_count_diff, 1); // b gained one null
        }
        _ => panic!(),
    }
}

#[test]
fn duplicate_keys_inflate_joined_count() {
    let a = Table {
        columns: vec![int_col("id", vec![Some(1)]), int_col("v", vec![Some(10)])],
    };
    let b = Table {
        columns: vec![
            int_col("id", vec![Some(1), Some(1)]),
            int_col("v", vec![Some(10), Some(11)]),
        ],
    };
    let r = run(&a, &b, &["id"]);
    // documented limitation: no deduplication, the formula is only exact
    // for unique keys
    assert_eq!(r.joined_count, 2);
    assert_eq!(r.removed, 0);
    assert_eq!(r.added, 0);
}

#[test]
fn empty_key_list_is_a_config_error() {
    let a = Table {
        columns: vec![int_col("id", vec![Some(1)])],
    };
    let r = diff(&a, &a, &Vec::new());
    assert!(matches!(r, Err(DiffError::EmptyKeySpec)));
}

#[test]
fn absent_key_column_is_a_config_error() {
    let a = Table {
        columns: vec![int_col("id", vec![Some(1)])],
    };
    let b = Table {
        columns: vec![int_col("other", vec![Some(1)])],
    };
    match diff(&a, &b, &keys(&["id"])) {
        Err(DiffError::KeyColumnMissing(name)) => assert_eq!(name, "id"),
        _ => panic!("expected a missing-key error"),
    }
}

#[test]
fn key_type_conflict_is_a_comparison_error() {
    let a = Table {
        columns: vec![int_col("id", vec![Some(1)])],
    };
    let b = Table {
        columns: vec![str_col("id", vec![Some("1")])],
    };
    match diff(&a, &b, &keys(&["id"])) {
        Err(DiffError::KeyTypeMismatch(name)) => assert_eq!(name, "id"),
        _ => panic!("expected a key-type error"),
    }
}

#[test]
fn sample_text_covers_all_value_shapes() {
    let a = Table {
        columns: vec![
            int_col("id", vec![Some(1), Some(2), Some(3)]),
            int_col("n", vec![Some(-5), None, Some(12)]),
            bool_col("f", vec![Some(true), Some(false), None]),
            str_col("s", vec![Some("ab"), Some("cd"), Some("ef")]),
        ],
    };
    let b = Table {
        columns: vec![
            int_col("id", vec![Some(1), Some(2), Some(3)]),
            int_col("n", vec![Some(3), Some(7), Some(12)]),
            bool_col("f", vec![Some(false), Some(false), Some(true)]),
            str_col("s", vec![Some("ab"), Some("zz"), None]),
        ],
    };
    let r = run(&a, &b, &["id"]);
    match &r.column_stats[1].body {
        StatBody::Compared { mismatched_value_samples, mismatched_sample_keys, .. } => {
            assert_eq!(
                mismatched_value_samples.as_slice(),
                &["-5 -> 3".to_string(), "null -> 7".to_string()]
            );
            assert_eq!(
                mismatched_sample_keys.as_slice(),
                &["id: 1".to_string(), "id: 2".to_string()]
            );
        }
        _ => panic!(),
    }
    match &r.column_stats[2].body {
        StatBody::Compared { mismatched_value_samples, .. } => {
            assert_eq!(
                mismatched_value_samples.as_slice(),
                &["true -> false".to_string(), "null -> true".to_string()]
            );
        }
        _ => panic!(),
    }
    match &r.column_stats[3].body {
        StatBody::Compared { mismatched_value_samples, .. } => {
            assert_eq!(
                mismatched_value_samples.as_slice(),
                &["cd -> zz".to_string(), "ef -> null".to_string()]
            );
        }
        _ => panic!(),
    }
}

#[test]
fn multi_key_sample_representation() {
    let a = Table {
        columns: vec![
            int_col("id", vec![Some(2)]),
            str_col("reg", vec![Some("west")]),
            int_col("v", vec![Some(1)]),
        ],
    };
    let b = Table {
        columns: vec![
            int_col("id", vec![Some(2)]),
            str_col("reg", vec![Some("west")]),
            int_col("v", vec![Some(9)]),
        ],
    };
    let r = run(&a, &b, &["id", "reg"]);
    match &r.column_stats[2].body {
        StatBody::Compared { mismatched_sample_keys, mismatched_value_samples, .. } => {
            assert_eq!(mismatched_sample_keys.as_slice(), &["id: 2 reg: west".to_string()]);
            assert_eq!(mismatched_value_samples.as_slice(), &["1 -> 9".to_string()]);
        }
        _ => panic!(),
    }
}

#[test]
fn modified_rows_counted_once_across_columns() {
    // one row differs in two columns, another in one: two modified rows
    let a = Table {
        columns: vec![
            int_col("id", vec![Some(1), Some(2), Some(3)]),
            int_col("x", vec![Some(1), Some(2), Some(3)]),
            int_col("y", vec![Some(1), Some(2), Some(3)]),
        ],
    };
    let b = Table {
        columns: vec![
            int_col("id", vec![Some(1), Some(2), Some(3)]),
            int_col("x", vec![Some(9), Some(2), Some(8)]),
            int_col("y", vec![Some(9), Some(2), Some(3)]),
        ],
    };
    let r = run(&a, &b, &["id"]);
    assert_eq!(r.modified_rows_count, 2);
    assert_eq!(r.identical_rows_count, 1);
}

#[test]
fn match_rate_stays_within_bounds() {
    let a = Table {
        columns: vec![
            int_col("id", vec![Some(1), Some(2), Some(3)]),
            int_col("v", vec![Some(1), Some(2), Some(3)]),
        ],
    };
    let b = Table {
        columns: vec![
            int_col("id", vec![Some(1), Some(2), Some(3)]),
            int_col("v", vec![Some(1), Some(9), Some(3)]),
        ],
    };
    let r = run(&a, &b, &["id"]);
    match &r.column_stats[1].body {
        StatBody::Compared { match_rate_hundredths, .. } => {
            assert!(*match_rate_hundredths <= 10000);
            assert_eq!(*match_rate_hundredths, 6666); // 2/3, truncated
        }
        _ => panic!(),
    }
}

#[test]
fn well_formedness_checks() {
    let good = Table {
        columns: vec![int_col("id", vec![Some(1)]), str_col("s", vec![None])],
    };
    assert!(good.is_wf());
    let ragged = Table {
        columns: vec![
            int_col("id", vec![Some(1), Some(2)]),
            str_col("s", vec![None]),
        ],
    };
    assert!(!ragged.is_wf());
    let dup_names = Table {
        columns: vec![int_col("id", vec![Some(1)]), int_col("id", vec![Some(2)])],
    };
    assert!(!dup_names.is_wf());
    let wrong_type = Table {
        columns: vec![Column {
            name: "id".to_string(),
            dtype: DType::Int,
            values: vec![CellValue::Str("x".to_string())],
        }],
    };
    assert!(!wrong_type.is_wf());
}

#[test]
fn height_and_find_column() {
    let t = Table {
        columns: vec![int_col("id", vec![Some(1), Some(2)])],
    };
    assert_eq!(t.height(), 2);
    assert_eq!(t.find_column(&"id".to_string()), Some(0));
    assert_eq!(t.find_column(&"nope".to_string()), None);
    let empty = Table { columns: vec![] };
    assert_eq!(empty.height(), 0);
}
