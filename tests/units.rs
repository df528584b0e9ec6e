use plexos2duckdb::datetime::parse_datetime_to_utc;
use plexos2duckdb::model::UtcDateTime;
use plexos2duckdb::naming::{table_name, table_name_parts};
use plexos2duckdb::plan::{
    assign_workers, build_data_table_plans, distribute_data_table_plans, name_less, resolve_data_write_threads,
    DataTableWritePlan, TableGroup,
};
use plexos2duckdb::progress::{on_worker_event, ProgressEvent, WorkerEvent};
use plexos2duckdb::rows::{le_u64_at, plan_key_read, DataError, KeyRead};
use plexos2duckdb::model::KeyIndex;
use plexos2duckdb::sql::{quote_ident, sql_string_literal};
use plexos2duckdb::table::IdTable;
use plexos2duckdb::text::{parse_bool, parse_i64, parse_u64};
use plexos2duckdb::utils::version;
use plexos2duckdb::views::{report_view_sql, timestamp_view_sql};

#[test]
fn integer_fields() {
    assert_eq!(parse_i64("42"), Some(42));
    assert_eq!(parse_i64("+7"), Some(7));
    assert_eq!(parse_i64("-9223372036854775808"), Some(i64::MIN));
    assert_eq!(parse_i64("9223372036854775807"), Some(i64::MAX));
    assert_eq!(parse_i64("9223372036854775808"), None);
    assert_eq!(parse_i64(""), None);
    assert_eq!(parse_i64("-"), None);
    assert_eq!(parse_i64(" 1"), None);
    assert_eq!(parse_u64("18446744073709551615"), Some(u64::MAX));
    assert_eq!(parse_u64("18446744073709551616"), None);
    assert_eq!(parse_u64("-0"), None);
    assert_eq!(parse_bool("true"), Some(true));
    assert_eq!(parse_bool("false"), Some(false));
    assert_eq!(parse_bool("True"), None);
}

#[test]
fn datetimes_are_utc() {
    assert_eq!(parse_datetime_to_utc("2024-01-01T00:00:00"), Some(UtcDateTime { seconds: 1704067200, nanos: 0 }));
    assert_eq!(parse_datetime_to_utc("2024-01-01T01:00:00+01:00"), Some(UtcDateTime { seconds: 1704067200, nanos: 0 }));
    assert_eq!(parse_datetime_to_utc("01/01/2024"), None);
}

#[test]
fn canonical_table_names() {
    assert_eq!(table_name(1, 0, "System_Generators", "Generation"), "LT__Interval__System_Generators__Generation");
    assert_eq!(table_name(4, 7, "Gen-Set_A B", "Net Load"), "ST__Quarter__Gen_Set_A_B__Net_Load");
    assert_eq!(table_name(9, 5, "c", "p"), "Unknown__Unknown__c__p");
    assert_eq!(table_name(2, 6, "c", "p"), "PASA__Hour__c__p");
}

#[test]
fn sql_quoting() {
    assert_eq!(quote_ident("a\"b"), "\"a\"\"b\"");
    assert_eq!(quote_ident("plain"), "\"plain\"");
    assert_eq!(sql_string_literal("it's"), "it''s");
}

#[test]
fn little_endian_values() {
    let b = 1.5f64.to_le_bytes().to_vec();
    assert_eq!(le_u64_at(&b, 0), 1.5f64.to_bits());
    let b = vec![1, 2, 3, 4, 5, 6, 7, 8, 9];
    assert_eq!(le_u64_at(&b, 1), 0x0908070605040302);
}

#[test]
fn key_read_checks() {
    let ki = KeyIndex { key_id: 7, period_type_id: 0, length: 2, position: 16, period_offset: -1 };
    assert_eq!(
        plan_key_read(&ki, true),
        Ok(KeyRead { key_id: 7, period_type_id: 0, position: 16, length: 2, period_offset: -1 })
    );
    assert_eq!(plan_key_read(&ki, false), Err(DataError::UnknownPeriodType { key_id: 7, period_type_id: 0 }));
    let far = KeyIndex { position: u64::MAX - 7, ..ki };
    assert_eq!(plan_key_read(&far, true), Err(DataError::Overflow { key_id: 7 }));
}

fn plan(name: &str, keys: usize, est: u128) -> DataTableWritePlan {
    DataTableWritePlan { table_name: name.to_string(), key_ids: vec![0; keys], estimated_values: est }
}

#[test]
fn longest_processing_time_assignment() {
    assert_eq!(assign_workers(&vec![10, 7, 5, 3], 2), vec![0, 1, 1, 0]);
    assert_eq!(assign_workers(&vec![u128::MAX, 1, 1], 2), vec![0, 1, 1]);
    let plans = vec![plan("a", 1, 10), plan("b", 1, 7), plan("c", 1, 5), plan("d", 1, 3)];
    assert_eq!(distribute_data_table_plans(&plans, 2), vec![vec![0, 3], vec![1, 2]]);
    assert_eq!(distribute_data_table_plans(&plans, 6), vec![vec![0], vec![1], vec![2], vec![3]]);
}

#[test]
fn every_plan_written_once_for_any_writer_count() {
    let plans = vec![plan("a", 1, 4), plan("b", 2, 4), plan("c", 1, 9), plan("d", 3, 0), plan("e", 1, 2)];
    for w in 1..=plans.len() {
        let buckets = distribute_data_table_plans(&plans, w);
        let mut all: Vec<usize> = buckets.iter().flatten().copied().collect();
        all.sort();
        assert_eq!(all, vec![0, 1, 2, 3, 4]);
        assert!(buckets.iter().all(|b| !b.is_empty()));
        assert!(buckets.len() <= w);
    }
}

#[test]
fn writer_counts() {
    assert_eq!(resolve_data_write_threads(5, Some(0), 16), 1);
    assert_eq!(resolve_data_write_threads(5, Some(3), 16), 3);
    assert_eq!(resolve_data_write_threads(2, Some(3), 16), 2);
    assert_eq!(resolve_data_write_threads(20, None, 16), 8);
    assert_eq!(resolve_data_write_threads(20, None, 4), 4);
    assert_eq!(resolve_data_write_threads(3, None, 16), 3);
}

#[test]
fn plans_ordered_by_work_keys_then_name() {
    let mut key_index = IdTable::new();
    for (id, len) in [(1, 5u64), (2, 5), (3, 2), (4, 3), (5, 5)] {
        key_index.insert(id, KeyIndex { key_id: id, period_type_id: 0, length: len, position: 0, period_offset: 0 });
    }
    let groups = vec![
        TableGroup { table_name: "b".to_string(), key_ids: vec![1] },
        TableGroup { table_name: "a".to_string(), key_ids: vec![2] },
        TableGroup { table_name: "c".to_string(), key_ids: vec![3, 4] },
        TableGroup { table_name: "d".to_string(), key_ids: vec![5, 3] },
    ];
    let plans = build_data_table_plans(groups, &key_index).unwrap();
    let order: Vec<(&str, u128)> = plans.iter().map(|p| (p.table_name.as_str(), p.estimated_values)).collect();
    assert_eq!(order, vec![("d", 7), ("c", 5), ("a", 5), ("b", 5)]);
    let missing = vec![TableGroup { table_name: "x".to_string(), key_ids: vec![42] }];
    assert_eq!(build_data_table_plans(missing, &key_index).err(), Some("x".to_string()));
    assert!(name_less("Ab", "Ac"));
    assert!(name_less("A", "AB"));
    assert!(!name_less("b", "B"));
}

#[test]
fn coordinator_passes_on_worker_events() {
    let (n, ev) = on_worker_event(
        0,
        3,
        WorkerEvent::TableStarted { worker_id: 1, index: 1, total: 2, table_name: "t".to_string(), keys: 4 },
    );
    assert_eq!(n, 0);
    assert_eq!(
        ev,
        vec![ProgressEvent::DataWorkerTableStart { worker_id: 1, index: 1, total: 2, table_name: "t".to_string(), keys: 4 }]
    );
    let (n, ev) = on_worker_event(
        1,
        3,
        WorkerEvent::TableCompleted { worker_id: 1, index: 1, total: 2, table_name: "t".to_string(), keys: 4 },
    );
    assert_eq!(n, 2);
    assert_eq!(
        ev,
        vec![
            ProgressEvent::DataWorkerTableEnd { worker_id: 1, index: 1, total: 2 },
            ProgressEvent::DataTableStart { index: 2, total: 3, table_name: "t".to_string(), keys: 4 },
            ProgressEvent::DataTableEnd,
        ]
    );
}

#[test]
fn id_table_keeps_ascending_unique_ids() {
    let mut t = IdTable::new();
    t.insert(5, "five");
    t.insert(1, "one");
    t.insert(5, "FIVE");
    t.insert(3, "three");
    assert_eq!(t.len(), 3);
    let ids: Vec<i64> = (0..t.len()).map(|i| t.id_at(i)).collect();
    assert_eq!(ids, vec![1, 3, 5]);
    assert_eq!(t.get(5), Some(&"FIVE"));
    assert_eq!(t.get(2), None);
}

#[test]
fn version_string() {
    assert_eq!(version(), "0.1.0");
}

#[test]
fn table_names_split_back_into_parts() {
    let name = table_name(3, 4, "Region_Zone-A", "Load Shed");
    assert_eq!(name, "MT__Year__Region_Zone_A__Load_Shed");
    let p = table_name_parts(&name).unwrap();
    assert_eq!(
        (p.phase.as_str(), p.period.as_str(), p.collection.as_str(), p.property.as_str()),
        ("MT", "Year", "Region_Zone_A", "Load_Shed")
    );
    assert!(table_name_parts("LT__Interval__only").is_none());
    let p = table_name_parts("a__b__c__d__e").unwrap();
    assert_eq!(p.property, "d");
}

#[test]
fn view_sql_text() {
    let t = report_view_sql("LT__Interval__System_Generators__Generation").unwrap();
    assert!(t.starts_with("CREATE VIEW report.\"LT__Interval__System_Generators__Generation\" AS SELECT"));
    assert!(t.contains("d.value AS \"Generation\""));
    assert!(t.contains("LEFT JOIN processed.timestamp_block_LT__Interval p ON d.block_id = p.block_id"));
    assert!(report_view_sql("no_parts").is_none());
    let v = timestamp_view_sql("LT__Interval");
    assert!(v.contains("GROUP BY interval_id"));
    let v = timestamp_view_sql("ST__Day");
    assert!(v.contains("ROW_NUMBER() OVER ()"));
    assert!(v.ends_with("FROM raw.timestamp_block_ST__Day;"));
}
