use delta::actions::Action;
use delta::error::DeltaError;
use delta::log::{data_file_name, log_file_name, next_data_index, next_log_version, LogFile};
use delta::schema::DeltaTableType;
use delta::table::{DataFile, DeltaTable, FileRewrite};

fn specs(cols: &[(&str, &str)]) -> Vec<(String, String)> {
    cols.iter().map(|(n, t)| (n.to_string(), t.to_string())).collect()
}

fn sorted(mut v: Vec<String>) -> Vec<String> {
    v.sort();
    v
}

#[test]
fn file_names_are_padded() {
    assert_eq!(log_file_name(0), "00000000000000000000.json");
    assert_eq!(log_file_name(42), "00000000000000000042.json");
    assert_eq!(data_file_name(7), "00000000000000000007.parquet");
}

#[test]
fn create_then_read_restores_metadata() {
    let plan = DeltaTable::create_table("t", specs(&[("foo", "INT"), ("bar", "TEXT")])).unwrap();
    assert_eq!(plan.log.file_name, "00000000000000000000.json");
    assert_eq!(plan.table.base_dir, "tables/t");
    assert_eq!(plan.table.logs_dir, "tables/t/_delta_log");

    let table = DeltaTable::read_table("t", &plan.log.content).unwrap();
    assert_eq!(table.metadata, plan.table.metadata);

    let schema = table.metadata.schema().unwrap();
    assert_eq!(schema.fields.len(), 2);
    assert_eq!(schema.fields[0].name, "foo");
    assert_eq!(schema.fields[0].typ, DeltaTableType::Integer);
    assert_eq!(schema.fields[1].name, "bar");
    assert_eq!(schema.fields[1].typ, DeltaTableType::String);

    // a fresh valid id: hyphenated lower-case hex, 36 characters
    let id = &table.metadata.id;
    assert_eq!(id.len(), 36);
    for (i, c) in id.chars().enumerate() {
        if i == 8 || i == 13 || i == 18 || i == 23 {
            assert_eq!(c, '-');
        } else {
            assert!(c.is_ascii_hexdigit() && !c.is_ascii_uppercase());
        }
    }
}

#[test]
fn create_draws_fresh_ids() {
    let a = DeltaTable::create_table("t", specs(&[("foo", "INT")])).unwrap();
    let b = DeltaTable::create_table("t", specs(&[("foo", "INT")])).unwrap();
    assert_ne!(a.table.metadata.id, b.table.metadata.id);
}

#[test]
fn unknown_type_fails_create() {
    let r = DeltaTable::create_table("t", specs(&[("x", "NOT_A_TYPE")]));
    assert!(matches!(r, Err(DeltaError::InvalidColumnType)));
}

#[test]
fn duplicate_field_names_fail_create() {
    // each name's type resolves on its own, but the pair is rejected
    let r = DeltaTable::create_table("t", specs(&[("a", "INT"), ("a", "TEXT")]));
    assert!(matches!(r, Err(DeltaError::InvalidTable)));
}

#[test]
fn read_table_rejects_non_metadata() {
    assert!(matches!(
        DeltaTable::read_table("t", "garbage"),
        Err(DeltaError::InvalidTable)
    ));
    let add = Action::Add {
        path: "p".to_string(),
        partition_values: Vec::new(),
        size: 1,
        modification_time: 1,
        data_change: true,
    }
    .encode();
    assert!(matches!(DeltaTable::read_table("t", &add), Err(DeltaError::InvalidTable)));
}

#[test]
fn insert_transposes_rows() {
    let plan = DeltaTable::create_table("t", specs(&[("foo", "INT"), ("bar", "TEXT")])).unwrap();
    let rows = vec![
        vec!["1".to_string(), "a".to_string()],
        vec!["2".to_string(), "b".to_string()],
    ];
    let cols = plan.table.insert(&rows).unwrap();
    assert_eq!(cols.len(), 2);
    assert_eq!(cols[0].name, "foo");
    assert_eq!(cols[0].typ, DeltaTableType::Integer);
    assert_eq!(cols[0].values, vec!["1".to_string(), "2".to_string()]);
    assert_eq!(cols[1].name, "bar");
    assert_eq!(cols[1].typ, DeltaTableType::String);
    assert_eq!(cols[1].values, vec!["a".to_string(), "b".to_string()]);
}

#[test]
fn insert_rejects_misshapen_rows() {
    let plan = DeltaTable::create_table("t", specs(&[("foo", "INT"), ("bar", "TEXT")])).unwrap();
    let rows = vec![vec!["1".to_string()]];
    assert!(matches!(plan.table.insert(&rows), Err(DeltaError::RowShapeMismatch)));
}

#[test]
fn insert_commit_appends_one_add() {
    let plan = DeltaTable::create_table("t", specs(&[("foo", "INT"), ("bar", "TEXT")])).unwrap();
    let mut logs = vec![LogFile { name: plan.log.file_name.clone(), content: plan.log.content.clone() }];

    // version and index derived from log content, not directory counts
    assert_eq!(next_log_version(&logs), Some(1));
    let actions = delta::log::load_actions(&logs).unwrap();
    assert_eq!(next_data_index(&actions), Some(0));

    let data = DataFile { name: data_file_name(0), size: 512 };
    let entry = plan.table.insert_commit(&data, 1700000000000, 1);
    assert_eq!(entry.file_name, "00000000000000000001.json");
    logs.push(LogFile { name: entry.file_name.clone(), content: entry.content.clone() });

    // exactly one live path, and replaying just that log yields the same path
    let live = plan.table.get_datafiles(&logs).unwrap();
    assert_eq!(live, vec!["00000000000000000000.parquet".to_string()]);
    let only_that = vec![LogFile { name: entry.file_name.clone(), content: entry.content.clone() }];
    assert_eq!(plan.table.get_datafiles(&only_that).unwrap(), live);

    assert_eq!(next_log_version(&logs), Some(2));
    let actions = delta::log::load_actions(&logs).unwrap();
    assert_eq!(next_data_index(&actions), Some(1));
}

#[test]
fn replay_is_idempotent() {
    let plan = DeltaTable::create_table("t", specs(&[("foo", "INT")])).unwrap();
    let mut logs = vec![LogFile { name: plan.log.file_name.clone(), content: plan.log.content.clone() }];
    let d0 = DataFile { name: data_file_name(0), size: 1 };
    let d1 = DataFile { name: data_file_name(1), size: 2 };
    let e1 = plan.table.insert_commit(&d0, 5, 1);
    let e2 = plan.table.insert_commit(&d1, 6, 2);
    logs.push(LogFile { name: e1.file_name, content: e1.content });
    logs.push(LogFile { name: e2.file_name, content: e2.content });

    let once = sorted(plan.table.get_datafiles(&logs).unwrap());
    let twice = sorted(plan.table.get_datafiles(&logs).unwrap());
    assert_eq!(once, twice);
    assert_eq!(
        once,
        vec![
            "00000000000000000000.parquet".to_string(),
            "00000000000000000001.parquet".to_string(),
        ]
    );
}

#[test]
fn replay_order_is_by_version_not_input_order() {
    let plan = DeltaTable::create_table("t", specs(&[("foo", "INT")])).unwrap();
    let d0 = DataFile { name: data_file_name(0), size: 1 };
    let e1 = plan.table.insert_commit(&d0, 5, 1);
    let d1 = DataFile { name: data_file_name(1), size: 2 };
    let rewrite = FileRewrite {
        old_path: "00000000000000000000.parquet".to_string(),
        new_file: d1,
    };
    let e2 = plan.table.delete(&vec![rewrite], 7, 2).unwrap();

    // hand the files over newest first: replay must still see version 2 first
    let logs = vec![
        LogFile { name: e2.file_name, content: e2.content },
        LogFile { name: e1.file_name, content: e1.content },
        LogFile { name: plan.log.file_name.clone(), content: plan.log.content.clone() },
    ];
    let live = plan.table.get_datafiles(&logs).unwrap();
    assert_eq!(live, vec!["00000000000000000001.parquet".to_string()]);
}

#[test]
fn delete_without_matches_appends_nothing() {
    let plan = DeltaTable::create_table("t", specs(&[("foo", "INT")])).unwrap();
    let logs = vec![LogFile { name: plan.log.file_name.clone(), content: plan.log.content.clone() }];
    let n_before = logs.len();

    // no file had any matching row, so there is nothing to rewrite
    assert!(plan.table.delete(&Vec::new(), 9, 1).is_none());
    assert_eq!(logs.len(), n_before);
    assert!(!DeltaTable::file_modified(3, 3));
    assert!(DeltaTable::file_modified(3, 2));
}

#[test]
fn delete_tombstones_the_old_file() {
    let plan = DeltaTable::create_table("t", specs(&[("foo", "INT")])).unwrap();
    let mut logs = vec![LogFile { name: plan.log.file_name.clone(), content: plan.log.content.clone() }];
    let d0 = DataFile { name: data_file_name(0), size: 10 };
    let e1 = plan.table.insert_commit(&d0, 5, 1);
    logs.push(LogFile { name: e1.file_name, content: e1.content });

    let rewrite = FileRewrite {
        old_path: "00000000000000000000.parquet".to_string(),
        new_file: DataFile { name: data_file_name(1), size: 6 },
    };
    let entry = plan.table.delete(&vec![rewrite], 1700000000001, 2).unwrap();
    assert_eq!(entry.file_name, "00000000000000000002.json");

    // one add line, then one remove line, sharing the modification time
    let lines: Vec<&str> = entry.content.split('\n').collect();
    assert_eq!(lines.len(), 2);
    match Action::decode(lines[0]).unwrap() {
        Action::Add { path, size, modification_time, data_change, .. } => {
            assert_eq!(path, "00000000000000000001.parquet");
            assert_eq!(size, 6);
            assert_eq!(modification_time, 1700000000001);
            assert!(data_change);
        },
        other => panic!("expected an add line, got {:?}", other),
    }
    match Action::decode(lines[1]).unwrap() {
        Action::Remove { path, data_change } => {
            assert_eq!(path, "00000000000000000000.parquet");
            assert!(data_change);
        },
        other => panic!("expected a remove line, got {:?}", other),
    }

    logs.push(LogFile { name: entry.file_name, content: entry.content });
    let live = plan.table.get_datafiles(&logs).unwrap();
    assert!(live.contains(&"00000000000000000001.parquet".to_string()));
    assert!(!live.contains(&"00000000000000000000.parquet".to_string()));
    assert_eq!(live.len(), 1);
}

#[test]
fn query_wraps_predicate() {
    assert_eq!(
        DeltaTable::delete_query("foo = 1"),
        "SELECT * FROM df WHERE NOT (foo = 1);"
    );
}

#[test]
fn counters_ignore_foreign_files() {
    let plan = DeltaTable::create_table("t", specs(&[("foo", "INT")])).unwrap();
    let logs = vec![
        LogFile { name: plan.log.file_name.clone(), content: plan.log.content.clone() },
        LogFile { name: "notes.txt".to_string(), content: "hello".to_string() },
        LogFile { name: "00000000000000000003.json".to_string(), content: plan.log.content.clone() },
    ];
    assert_eq!(next_log_version(&logs), Some(4));
    // replay also skips the foreign file instead of failing on its text
    assert!(plan.table.get_datafiles(&logs).is_ok());
}

#[test]
fn malformed_log_line_fails_replay() {
    let plan = DeltaTable::create_table("t", specs(&[("foo", "INT")])).unwrap();
    let logs = vec![
        LogFile { name: plan.log.file_name.clone(), content: plan.log.content.clone() },
        LogFile { name: log_file_name(1), content: "not an action".to_string() },
    ];
    assert!(matches!(
        plan.table.get_datafiles(&logs),
        Err(DeltaError::SerializationFailure)
    ));
}
