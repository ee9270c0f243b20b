use streamdb::hummock::key::{bytes_less, full_key, full_key_less, next_key, user_key};
use streamdb::hummock::level_handler::LevelHandler;
use streamdb::hummock::level_size::scale_level_size;
use streamdb::hummock::min_overlap_compaction_picker::MinOverlappingPicker;
use streamdb::hummock::multi_builder::{CapacitySplitTableBuilder, HummockValue, SSTableBuilder};
use streamdb::hummock::overlap_strategy::{full_key_overlap, OverlapStrategy, RangeOverlapStrategy};
use streamdb::hummock::size_overlap_picker::SizeOverlapPicker;
use streamdb::hummock::sst_id::{
    get_local_sst_id, get_sst_id_hash, is_remote_sst_id, SstableId,
};
use streamdb::hummock::storage::{
    get, lookup_runs, range_scan, reverse_range_scan, seek_key, write_batch, HummockOptions, KeyBound,
    LevelTables, TableMeta,
};
use streamdb::hummock::vacuum::{
    SstableIdInfo, TrackedVacuum, VacuumAction, VacuumTask, VacuumTrigger,
};
use streamdb::hummock::version::{KeyRange, Level, LevelType, SstableInfo};

fn put(v: &[u8]) -> HummockValue {
    HummockValue::Put(v.to_vec())
}

#[test]
fn test_empty() {
    let builder = CapacitySplitTableBuilder::new();
    let results = builder.finish();
    assert!(results.is_empty());
}

#[test]
fn test_lots_of_tables() {
    let mut next_id = 1001;
    let block_size = 1 << 10;
    let table_capacity = 4 * block_size;
    let mut builder = CapacitySplitTableBuilder::new();

    for i in 0..table_capacity {
        let fresh = (next_id, SSTableBuilder::new(table_capacity));
        next_id += 1;
        builder.add_user_key(b"key".to_vec(), put(b"value"), (table_capacity - i) as u64, fresh);
    }

    let results = builder.finish();
    assert!(results.len() > 1);
    let mut ids: Vec<u64> = results.iter().map(|p| p.0).collect();
    ids.sort();
    ids.dedup();
    assert_eq!(ids.len(), results.len());
}

#[test]
fn test_table_seal() {
    let mut next_id = 1001;
    let mut builder = CapacitySplitTableBuilder::new();
    let mut epoch = 100;
    let mut add = |builder: &mut CapacitySplitTableBuilder| {
        epoch -= 1;
        next_id += 1;
        let fresh = (next_id, SSTableBuilder::new(1 << 20));
        builder.add_user_key(b"k".to_vec(), put(b"v"), epoch, fresh);
    };

    assert_eq!(builder.len(), 0);
    builder.seal_current();
    assert_eq!(builder.len(), 0);
    add(&mut builder);
    assert_eq!(builder.len(), 1);
    add(&mut builder);
    assert_eq!(builder.len(), 1);
    builder.seal_current();
    assert_eq!(builder.len(), 1);
    add(&mut builder);
    assert_eq!(builder.len(), 2);
    builder.seal_current();
    assert_eq!(builder.len(), 2);
    builder.seal_current();
    assert_eq!(builder.len(), 2);

    let results = builder.finish();
    assert_eq!(results.len(), 2);
}

#[test]
fn test_initial_not_allowed_split() {
    let mut builder = CapacitySplitTableBuilder::new();
    let fresh = (1001, SSTableBuilder::new(1 << 20));
    builder.add_full_key(full_key(b"k", 233), put(b"v"), false, fresh);
    assert_eq!(builder.len(), 1);
}

#[test]
fn a_full_table_is_split_only_where_allowed() {
    let mut builder = CapacitySplitTableBuilder::new();
    for (i, allow) in [true, false, true].iter().enumerate() {
        let fresh = (i as u64, SSTableBuilder::new(1));
        builder.add_full_key(full_key(b"k", i as u64), put(b"v"), *allow, fresh);
    }
    assert!(builder.new_builder_required(true));
    assert!(!builder.new_builder_required(false));
    let tables: Vec<(u64, usize)> = builder.finish().iter().map(|t| (t.0, t.1.len())).collect();
    assert_eq!(tables, vec![(0, 2), (2, 1)]);
}

fn expect_action(got: VacuumAction, want: &str) {
    assert_eq!(format!("{:?}", got), want);
}

#[test]
fn test_vacuum_tracked_data() {
    // Current state: {v0: []}
    // No tracked data to vacuum.
    let (_, first) = TrackedVacuum::start(vec![0]);
    expect_action(first, "Finish(0)");

    // Current state: {v0: [], v1: [test_tables uncommitted], v2: [test_tables]}
    // Vacuum v0, v1
    let (mut vacuum, first) = TrackedVacuum::start(vec![0, 1, 2]);
    expect_action(first, "GetPinCount(0)");
    expect_action(vacuum.on_pin_count(0), "GetSstsToDelete(0)");
    expect_action(vacuum.on_ssts_to_delete(vec![]), "DeleteVersion(0)");
    expect_action(vacuum.on_version_deleted(), "GetPinCount(1)");
    expect_action(vacuum.on_pin_count(0), "GetSstsToDelete(1)");
    expect_action(vacuum.on_ssts_to_delete(vec![]), "DeleteVersion(1)");
    expect_action(vacuum.on_version_deleted(), "Finish(2)");

    // Vacuum v2. v3 is not vacuumed because no vacuum node is available.
    let (mut vacuum, first) = TrackedVacuum::start(vec![2, 3, 4]);
    expect_action(first, "GetPinCount(2)");
    expect_action(vacuum.on_pin_count(0), "GetSstsToDelete(2)");
    expect_action(vacuum.on_ssts_to_delete(vec![]), "DeleteVersion(2)");
    expect_action(vacuum.on_version_deleted(), "GetPinCount(3)");
    expect_action(vacuum.on_pin_count(0), "GetSstsToDelete(3)");
    expect_action(vacuum.on_ssts_to_delete(vec![1, 2]), "AssignTask([1, 2])");
    expect_action(vacuum.on_assigned(false), "Finish(1)");

    // Vacuum v3
    let (mut vacuum, first) = TrackedVacuum::start(vec![3, 4]);
    expect_action(first, "GetPinCount(3)");
    expect_action(vacuum.on_pin_count(0), "GetSstsToDelete(3)");
    expect_action(vacuum.on_ssts_to_delete(vec![1, 2]), "AssignTask([1, 2])");
    expect_action(vacuum.on_assigned(true), "DeleteVersion(3)");
    expect_action(vacuum.on_version_deleted(), "Finish(1)");
}

#[test]
fn pinned_versions_stay() {
    let (mut vacuum, _) = TrackedVacuum::start(vec![5, 6, 7]);
    expect_action(vacuum.on_pin_count(1), "Finish(0)");
}

fn id_info(id: u64, created: u64) -> SstableIdInfo {
    SstableIdInfo {
        id,
        id_create_timestamp: created,
        meta_create_timestamp: 0,
        meta_delete_timestamp: 0,
    }
}

#[test]
fn test_vacuum_orphan_data() {
    let mut vacuum = VacuumTrigger::new();
    // 1. acquire 2 SST ids.
    let infos = vec![id_info(1, 1000), id_info(2, 1000)];
    // 2. no expired SST id.
    let selected = vacuum.select_orphans(&infos, 1000, 60);
    assert_eq!(VacuumTrigger::vacuum_orphan_data(selected, false).len(), 0);
    assert!(!vacuum.has_pending());
    // 3. 2 expired SST id but no vacuum node.
    let selected = vacuum.select_orphans(&infos, 1000, 0);
    assert_eq!(VacuumTrigger::vacuum_orphan_data(selected, false).len(), 0);
    // 4. 2 expired SST ids.
    let selected = vacuum.select_orphans(&infos, 1000, 0);
    let sst_ids = VacuumTrigger::vacuum_orphan_data(selected, true);
    assert_eq!(sst_ids.len(), 2);
    // 5. got the same 2 expired sst ids because the previous pending SST ids are not
    // reported.
    let selected = vacuum.select_orphans(&infos, 1000, 0);
    let sst_ids_2 = VacuumTrigger::vacuum_orphan_data(selected, true);
    assert_eq!(sst_ids, sst_ids_2);
    // 6. report the previous pending SST ids to indicate their success.
    let mut deleted = vacuum.report_vacuum_task(&VacuumTask::OrphanData { sstable_ids: sst_ids_2 });
    deleted.sort();
    assert_eq!(deleted, vec![1, 2]);
    vacuum.forget(&deleted);
    assert!(!vacuum.has_pending());
    let selected = vacuum.select_orphans(&vec![], 1000, 0);
    assert_eq!(VacuumTrigger::vacuum_orphan_data(selected, true).len(), 0);
}

#[test]
fn keys() {
    let old = full_key(b"k", 1);
    let new = full_key(b"k", 2);
    assert_eq!(old.len(), 9);
    assert_eq!(user_key(&old), b"k".to_vec());
    // newer versions come first
    assert!(full_key_less(&new, &old));
    assert!(!full_key_less(&old, &new));
    assert!(full_key_less(&old, &full_key(b"ka", 9)));
    assert!(bytes_less(b"a", b"ab"));
    assert!(!bytes_less(b"b", b"ab"));
    assert_eq!(next_key(b"ab"), b"ac".to_vec());
    assert_eq!(next_key(&[1, 255]), vec![2]);
    assert_eq!(next_key(&[255, 255]), Vec::<u8>::new());
}

fn sst(id: u64, left: &str, right: &str) -> SstableInfo {
    SstableInfo {
        id,
        key_range: KeyRange::new(full_key(left.as_bytes(), 1), full_key(right.as_bytes(), 1)),
        file_size: 10,
        table_ids: vec![],
    }
}

#[test]
fn overlaps() {
    let strategy = RangeOverlapStrategy::default();
    assert!(strategy.check_overlap(&sst(1, "a", "c"), &sst(2, "c", "d")));
    assert!(!strategy.check_overlap(&sst(1, "a", "b"), &sst(2, "c", "d")));
    let everything = KeyRange { left: vec![], right: vec![], inf: true };
    assert!(full_key_overlap(&everything, &sst(1, "x", "y").key_range));
}

#[test]
fn pending_files() {
    let mut h = LevelHandler::new(3);
    assert_eq!(h.get_level(), 3);
    h.add_pending_task(7, 4, &vec![sst(1, "a", "b"), sst(2, "c", "d")]);
    h.add_pending_task(8, 5, &vec![sst(3, "e", "f")]);
    assert_eq!(h.get_pending_file_count(), 3);
    assert_eq!(h.get_pending_file_size(), 30);
    assert_eq!(h.get_pending_output_file_size(4), 20);
    assert!(h.is_pending_compact(&2));
    h.remove_task(7);
    assert!(!h.is_pending_compact(&2));
    assert!(h.any_table_pending(&vec![sst(3, "e", "f")]));
    assert_eq!(h.get_pending_file_count(), 1);
}

#[test]
fn least_overlap_is_picked() {
    let picker = MinOverlappingPicker::new(0, 1, 2, RangeOverlapStrategy::default());
    let handlers = vec![LevelHandler::new(0), LevelHandler::new(1), LevelHandler::new(2)];
    let select = vec![sst(1, "a", "c"), sst(2, "d", "e")];
    let target = vec![sst(3, "a", "b"), sst(4, "c", "d")];
    let (from, into) = picker.pick_tables(&select, &target, &handlers);
    assert_eq!(from.iter().map(|t| t.id).collect::<Vec<_>>(), vec![2]);
    assert_eq!(into.iter().map(|t| t.id).collect::<Vec<_>>(), vec![4]);
    assert_eq!(picker.check_base_level_overlap(&sst(1, "a", "c"), &target).len(), 2);
    assert_eq!(picker.idle_overlap_size(&sst(1, "a", "c"), &target, &handlers[2]), Some(20));
}

#[test]
fn level_to_level_task() {
    let level = |level_idx, table_infos| Level {
        level_idx,
        level_type: LevelType::Nonoverlapping,
        table_infos,
        total_file_size: 0,
        sub_level_id: 0,
    };
    let levels = vec![
        level(0, vec![]),
        level(1, vec![sst(1, "a", "c")]),
        level(2, vec![sst(2, "b", "d")]),
    ];
    let mut handlers = vec![LevelHandler::new(0), LevelHandler::new(1), LevelHandler::new(2)];
    let picker = SizeOverlapPicker::new(9, 1, RangeOverlapStrategy::default());
    let result = picker.pick_compaction(&levels, &mut handlers).unwrap();
    assert_eq!(result.select_level.table_infos[0].id, 1);
    assert_eq!(result.target_level.table_infos[0].id, 2);
    assert!(handlers[1].is_pending_compact(&1) && handlers[2].is_pending_compact(&2));
    assert!(picker.pick_compaction(&levels, &mut handlers).is_none());

    let large = |id| SstableInfo { file_size: u64::MAX / 3, ..sst(id, "a", "c") };
    let levels = vec![level(1, vec![large(4)]), level(2, vec![large(5), large(6)])];
    let mut handlers = vec![LevelHandler::new(0), LevelHandler::new(1)];
    let picker = SizeOverlapPicker::new(9, 0, RangeOverlapStrategy::default());
    let result = picker.pick_compaction(&levels, &mut handlers).unwrap();
    assert_eq!(result.target_level.table_infos.len(), 2);
}

#[test]
fn table_ids() {
    let id = SstableId { node_id: 3, seq_id: 4 };
    assert_eq!(id.as_int(), (3u128 << 64) | 4);
    assert_eq!(SstableId::from_int(id.as_int()), id);
    assert!(is_remote_sst_id(id.as_int()));
    assert!(!is_remote_sst_id(get_local_sst_id(4)));
    assert_eq!(get_sst_id_hash(id.as_int()), get_sst_id_hash(id.as_int()));
}

#[test]
fn level_sizes_are_rounded_as_doubles() {
    for (size, multiplier) in [(100u64, 5u64), (u64::MAX, 1), ((1 << 53) + 1, 1), (123_456_789, 10)] {
        assert_eq!(scale_level_size(size, multiplier), (size as f64 * multiplier as f64) as u64);
    }
}

fn meta(id: u64, smallest: &str, largest: &str) -> TableMeta {
    TableMeta {
        id,
        smallest_key: full_key(smallest.as_bytes(), 1),
        largest_key: full_key(largest.as_bytes(), 1),
    }
}

#[test]
fn scans_read_the_tables_in_range() {
    let tables = vec![meta(1, "a", "c"), meta(2, "d", "f"), meta(3, "g", "i")];
    let key = |s: &str| s.as_bytes().to_vec();
    assert_eq!(
        range_scan(&tables, &KeyBound::Included(key("c")), &KeyBound::Excluded(key("g"))),
        vec![1, 2]
    );
    assert_eq!(
        range_scan(&tables, &KeyBound::Included(key("d")), &KeyBound::Unbounded),
        vec![2, 3]
    );
    assert!(range_scan(&vec![], &KeyBound::Excluded(key("d")), &KeyBound::Unbounded).is_empty());
    assert_eq!(
        reverse_range_scan(&tables, &KeyBound::Included(key("e")), &KeyBound::Included(key("b"))).len(),
        2
    );
}

#[test]
fn lookups() {
    let runs = lookup_runs(&vec![
        LevelTables { level_type: LevelType::Overlapping, table_ids: vec![1, 2] },
        LevelTables { level_type: LevelType::Nonoverlapping, table_ids: vec![3, 4] },
    ]);
    assert_eq!(runs, vec![vec![1], vec![2], vec![3, 4]]);
    assert_eq!(seek_key(b"k", 7), full_key(b"k", 7));
    assert_eq!(get(b"k", &Some((full_key(b"k", 3), put(b"v")))), Some(b"v".to_vec()));
    assert_eq!(get(b"k", &Some((full_key(b"k2", 3), put(b"v")))), None);
    assert_eq!(get(b"k", &Some((full_key(b"k", 3), HummockValue::Delete))), None);
    assert_eq!(get(b"k", &None), None);
}

#[test]
fn batches_are_split_and_read() {
    let options = HummockOptions::small_for_test();
    assert_eq!((options.sstable_size, options.block_size), (4096, 1024));
    assert_eq!(options.remote_dir, "hummock_001_small");
    assert_eq!(HummockOptions::default_for_test().sstable_size, 256 << 20);

    let empty = write_batch(vec![], 5, &options, &vec![]).unwrap();
    assert!(empty.tables.is_empty() && empty.infos.is_none());

    let batch = || -> Vec<(Vec<u8>, HummockValue)> {
        vec![
            (b"a".to_vec(), put(&[1; 4096])),
            (b"b".to_vec(), HummockValue::Delete),
            (b"c".to_vec(), put(b"x")),
        ]
    };
    assert!(write_batch(batch(), 5, &options, &vec![7]).is_none());
    let written = write_batch(batch(), 5, &options, &vec![7, 8, 9]).unwrap();
    assert_eq!(written.tables.len(), 2);
    assert_eq!((written.tables[0].0, written.tables[1].0), (7, 8));
    assert_eq!(written.tables[0].1.len(), 1);
    let infos = written.infos.unwrap();
    assert_eq!(infos.len(), 2);
    assert_eq!((infos[1].id, infos[1].file_size), (8, 0));
    assert_eq!(infos[1].key_range.left, full_key(b"b", 5));
    assert_eq!(infos[1].key_range.right, full_key(b"c", 5));

    let found = written.tables.into_iter().flat_map(|t| t.1).find(|pair| !full_key_less(&pair.0, &seek_key(b"c", 6)));
    assert_eq!(get(b"c", &found), Some(b"x".to_vec()));
}

#[test]
fn lookups_read_a_snapshot() {
    assert!(full_key_less(&full_key(b"k", 9), &full_key(b"k", 3)));
    assert!(full_key_less(&full_key(b"k", 256), &full_key(b"k", 255)));
    let stored = [(9, b"new"), (3, b"old")];
    let look = |epoch: u64| {
        let found = stored
            .iter()
            .find(|(e, _)| !full_key_less(&full_key(b"k", *e), &seek_key(b"k", epoch)))
            .map(|(e, v)| (full_key(b"k", *e), put(*v)));
        get(b"k", &found)
    };
    assert_eq!(look(10), Some(b"new".to_vec()));
    assert_eq!(look(8), Some(b"old".to_vec()));
    assert_eq!(look(2), None);
}
