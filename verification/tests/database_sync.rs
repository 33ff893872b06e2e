use ddstats::calendar::{calendar_day, Timestamp};
use ddstats::database_sync::{
    bool_from_int, create_diff, plan_diff_records, sync_order, sync_steps, SyncStep, Batch, CsvRow, DiffRecord, InvalidFlag,
    MapRecord, Type, BATCH_AMOUNT,
};

#[test]
fn flags_read_zero_and_one() {
    assert_eq!(bool_from_int(0), Ok(false));
    assert_eq!(bool_from_int(1), Ok(true));
}

#[test]
fn flags_refuse_other_values() {
    assert_eq!(bool_from_int(2), Err(InvalidFlag { value: 2 }));
    assert_eq!(bool_from_int(255), Err(InvalidFlag { value: 255 }));
}

#[test]
fn flags_round_trip() {
    for b in [false, true] {
        assert_eq!(bool_from_int(b as u8), Ok(b));
    }
}

#[test]
fn plan_puts_deletes_first_then_all_adds() {
    let records = vec![
        DiffRecord::Add(1),
        DiffRecord::Modify { delete: 2, add: 3 },
        DiffRecord::Delete(4),
        DiffRecord::Add(5),
        DiffRecord::Modify { delete: 6, add: 7 },
    ];
    let plan = plan_diff_records(&records);
    assert_eq!(plan.deletes, vec![&2, &4, &6]);
    assert_eq!(plan.adds, vec![&1, &3, &5, &7]);
}

#[test]
fn plan_of_empty_diff_is_empty() {
    let records: Vec<DiffRecord<u32>> = Vec::new();
    let plan = plan_diff_records(&records);
    assert!(plan.deletes.is_empty());
    assert!(plan.adds.is_empty());
}

#[test]
fn sync_order_and_keys() {
    assert_eq!(sync_order(), vec![Type::Maps, Type::Mapinfo, Type::Teamrace, Type::Race]);
    assert_eq!(Type::Maps.primary_key_columns(), vec![0]);
    assert_eq!(Type::Mapinfo.primary_key_columns(), vec![0]);
    assert_eq!(Type::Teamrace.primary_key_columns(), vec![1, 4]);
    assert_eq!(Type::Race.primary_key_columns(), vec![0, 1, 2, 3, 4]);
    assert_eq!(Type::Race.csv_files(), ("race.csv", "race-psql.csv"));
    assert_eq!(Type::Maps.csv_files(), ("maps.csv", "maps-psql.csv"));
}

#[test]
fn map_release_time_reads_timestamp() {
    let mut map = MapRecord {
        map: "Kobra".to_string(),
        server: "Novice".to_string(),
        points: 2,
        stars: 1,
        mapper: "Lady Saavik".to_string(),
        timestamp: "2013-07-18 12:00:01".to_string(),
    };
    let day = calendar_day(2013, 7, 18).unwrap();
    assert_eq!(map.release_time(), Some(Timestamp { day, seconds: 43201, nanos: 0 }));
    map.timestamp = "0000-00-00 00:00:00".to_string();
    assert_eq!(map.release_time(), None);
}

#[test]
fn batches_hand_out_full_batches_in_order() {
    let mut batch = Batch::new();
    let mut handed: Vec<Vec<usize>> = Vec::new();
    for i in 0..(2 * BATCH_AMOUNT + 3) {
        if let Some(full) = batch.push(i) {
            handed.push(full);
        }
    }
    assert_eq!(handed.len(), 2);
    assert!(handed.iter().all(|b| b.len() == BATCH_AMOUNT));
    let rest = batch.finish().unwrap();
    assert_eq!(rest, vec![2 * BATCH_AMOUNT, 2 * BATCH_AMOUNT + 1, 2 * BATCH_AMOUNT + 2]);
    let all: Vec<usize> = handed.into_iter().flatten().chain(rest).collect();
    assert_eq!(all, (0..2 * BATCH_AMOUNT + 3).collect::<Vec<_>>());
}

#[test]
fn empty_batch_finishes_with_nothing() {
    let batch: Batch<u8> = Batch::new();
    assert!(batch.finish().is_none());
}

fn row(fields: &[&str], line: u64) -> CsvRow {
    CsvRow { fields: fields.iter().map(|f| f.as_bytes().to_vec()).collect(), line }
}

fn same_row(a: &CsvRow, b: &CsvRow) -> bool {
    a.fields == b.fields && a.line == b.line
}

#[test]
fn diff_reports_a_modified_record() {
    let target = b"id,name,kind\n1,lemon,fruit\n2,strawberry,fruit";
    let source = b"id,name,kind\n1,lemon,fruit\n2,strawberry,nut";
    let diff = create_diff(source, target, Type::Maps).unwrap();
    assert_eq!(diff.len(), 1);
    match &diff[0] {
        DiffRecord::Modify { delete, add } => {
            assert!(same_row(delete, &row(&["2", "strawberry", "fruit"], 3)));
            assert!(same_row(add, &row(&["2", "strawberry", "nut"], 3)));
        }
        _ => panic!("expected a modified record"),
    }
}

#[test]
fn diff_reports_added_and_deleted_records_in_line_order() {
    let target = b"id,name,kind\n1,lemon,fruit\n2,strawberry,fruit";
    let source = b"id,name,kind\n1,lemon,fruit\n3,cherry,fruit";
    let diff = create_diff(source, target, Type::Maps).unwrap();
    assert_eq!(diff.len(), 2);
    match (&diff[0], &diff[1]) {
        (DiffRecord::Delete(d), DiffRecord::Add(a)) => {
            assert!(same_row(d, &row(&["2", "strawberry", "fruit"], 3)));
            assert!(same_row(a, &row(&["3", "cherry", "fruit"], 3)));
        }
        _ => panic!("expected a delete, then an add"),
    }
    let plan = plan_diff_records(&diff);
    assert_eq!(plan.deletes.len(), 1);
    assert_eq!(plan.adds.len(), 1);
    assert!(same_row(plan.adds[0], &row(&["3", "cherry", "fruit"], 3)));
}

#[test]
fn diff_of_equal_exports_is_empty() {
    let data = b"id,name\n1,lemon\n2,cherry";
    assert_eq!(create_diff(data, data, Type::Mapinfo).unwrap().len(), 0);
}

#[test]
fn diff_of_unreadable_csv_is_none() {
    let good = b"id,name\n1,lemon\n2,cherry";
    let ragged = b"id,name\n1,lemon\n2";
    assert!(create_diff(ragged, good, Type::Maps).is_none());
    assert!(create_diff(good, ragged, Type::Maps).is_none());
}

#[test]
fn sync_runs_every_delete_before_the_insert() {
    let records = vec![
        DiffRecord::Add(1),
        DiffRecord::Modify { delete: 2, add: 3 },
        DiffRecord::Delete(4),
    ];
    let steps = sync_steps(&records);
    assert_eq!(steps.len(), 3);
    assert!(matches!(steps[0], SyncStep::Delete(&2)));
    assert!(matches!(steps[1], SyncStep::Delete(&4)));
    match &steps[2] {
        SyncStep::Insert(adds) => assert_eq!(adds, &vec![&1, &3]),
        _ => panic!("expected the insert last"),
    }
    let empty: Vec<DiffRecord<u8>> = Vec::new();
    let steps = sync_steps(&empty);
    assert_eq!(steps.len(), 1);
    assert!(matches!(&steps[0], SyncStep::Insert(adds) if adds.is_empty()));
}

#[test]
fn diff_matches_records_by_the_export_key_columns() {
    let target = b"map,name,time,timestamp,id\nm1,alice,1.0,t,id1\nm2,bob,2.0,t,id2";
    let source = b"map,name,time,timestamp,id\nm9,alice,1.5,t,id1\nm3,carol,3.0,t,id3";
    let diff = create_diff(source, target, Type::Teamrace).unwrap();
    assert_eq!(diff.len(), 3);
    match (&diff[0], &diff[1], &diff[2]) {
        (DiffRecord::Modify { delete, add }, DiffRecord::Delete(d), DiffRecord::Add(a)) => {
            assert!(same_row(delete, &row(&["m1", "alice", "1.0", "t", "id1"], 2)));
            assert!(same_row(add, &row(&["m9", "alice", "1.5", "t", "id1"], 2)));
            assert!(same_row(d, &row(&["m2", "bob", "2.0", "t", "id2"], 3)));
            assert!(same_row(a, &row(&["m3", "carol", "3.0", "t", "id3"], 3)));
        }
        _ => panic!("expected a modify, a delete and an add"),
    }
}
