use std::ops::Range;
use std::sync::Arc;

use streamdb::hummock::compaction_config::{CompactionConfig, CompactionMode};
use streamdb::hummock::key::full_key;
use streamdb::hummock::level_handler::LevelHandler;
use streamdb::hummock::level_selector::{DynamicLevelSelector, LevelSelector};
use streamdb::hummock::overlap_strategy::RangeOverlapStrategy;
use streamdb::hummock::picker::CompactionPicker;
use streamdb::hummock::tier_compaction_picker::{LevelCompactionPicker, TierCompactionPicker};
use streamdb::hummock::version::{
    CompactionInput, InputLevel, KeyRange, Level, LevelType, Levels, OverlappingLevel, SstableInfo,
};

fn test_key(table_prefix: u64, idx: usize, epoch: u64) -> Vec<u8> {
    full_key(
        format!("{:03}_key_test_{:05}", table_prefix, idx).as_bytes(),
        epoch,
    )
}

fn push_table_level0(levels: &mut Levels, sst: SstableInfo) {
    levels.l0.total_file_size += sst.file_size;
    levels.l0.sub_levels.push(Level {
        level_idx: 0,
        level_type: LevelType::Overlapping,
        total_file_size: sst.file_size,
        sub_level_id: sst.id,
        table_infos: vec![sst],
    });
}

fn push_tables_level0(levels: &mut Levels, table_infos: Vec<SstableInfo>) {
    let total_file_size = table_infos.iter().map(|table| table.file_size).sum::<u64>();
    let sub_level_id = table_infos[0].id;
    levels.l0.total_file_size += total_file_size;
    levels.l0.sub_levels.push(Level {
        level_idx: 0,
        level_type: LevelType::Nonoverlapping,
        total_file_size,
        sub_level_id,
        table_infos,
    });
}

fn generate_table(id: u64, table_prefix: u64, left: usize, right: usize, epoch: u64) -> SstableInfo {
    SstableInfo {
        id,
        key_range: KeyRange {
            left: test_key(table_prefix, left, epoch),
            right: test_key(table_prefix, right, epoch),
            inf: false,
        },
        file_size: (right - left + 1) as u64,
        table_ids: vec![],
    }
}

fn generate_tables(ids: Range<u64>, keys: Range<usize>, epoch: u64, file_size: u64) -> Vec<SstableInfo> {
    let step = (keys.end - keys.start) / (ids.end - ids.start) as usize;
    let mut start = keys.start;
    let mut tables = vec![];
    for id in ids {
        let mut table = generate_table(id, 1, start, start + step - 1, epoch);
        table.file_size = file_size;
        tables.push(table);
        start += step;
    }
    tables
}

fn generate_level(level_idx: u32, table_infos: Vec<SstableInfo>) -> Level {
    let total_file_size = table_infos.iter().map(|sst| sst.file_size).sum();
    Level {
        level_idx,
        level_type: LevelType::Nonoverlapping,
        table_infos,
        total_file_size,
        sub_level_id: 0,
    }
}

fn generate_l0_with_overlap(table_infos: Vec<SstableInfo>) -> OverlappingLevel {
    let total_file_size = table_infos.iter().map(|table| table.file_size).sum::<u64>();
    OverlappingLevel {
        sub_levels: table_infos
            .into_iter()
            .enumerate()
            .map(|(idx, table)| Level {
                level_idx: 0,
                level_type: LevelType::Nonoverlapping,
                total_file_size: table.file_size,
                sub_level_id: idx as u64,
                table_infos: vec![table],
            })
            .collect(),
        total_file_size,
    }
}

fn base_level(table_infos: Vec<SstableInfo>) -> Level {
    Level {
        level_idx: 1,
        level_type: LevelType::Nonoverlapping,
        table_infos,
        total_file_size: 0,
        sub_level_id: 0,
    }
}

fn no_l0() -> OverlappingLevel {
    OverlappingLevel {
        sub_levels: vec![],
        total_file_size: 0,
    }
}

fn two_handlers() -> Vec<LevelHandler> {
    vec![LevelHandler::new(0), LevelHandler::new(1)]
}

fn test_config() -> Arc<CompactionConfig> {
    Arc::new(CompactionConfig {
        level0_tier_compact_file_number: 2,
        ..CompactionConfig::default()
    })
}

fn create_compaction_picker_for_test() -> LevelCompactionPicker<RangeOverlapStrategy> {
    LevelCompactionPicker::new(0, 1, test_config(), RangeOverlapStrategy::default())
}

fn ids(level: &InputLevel) -> Vec<u64> {
    level.table_infos.iter().map(|t| t.id).collect()
}

#[test]
fn test_compact_l0_to_l1() {
    let picker = create_compaction_picker_for_test();
    let l0 = generate_level(
        0,
        vec![
            generate_table(5, 1, 100, 200, 2),
            generate_table(4, 1, 201, 300, 2),
        ],
    );
    let mut levels = Levels {
        l0: OverlappingLevel {
            total_file_size: l0.total_file_size,
            sub_levels: vec![l0],
        },
        levels: vec![generate_level(
            1,
            vec![
                generate_table(3, 1, 0, 100, 1),
                generate_table(2, 1, 111, 200, 1),
                generate_table(1, 1, 222, 300, 1),
                generate_table(0, 1, 301, 400, 1),
            ],
        )],
    };
    let mut levels_handler = two_handlers();
    let ret = picker.pick_compaction(&levels, &mut levels_handler).unwrap();
    assert_eq!(levels_handler[0].get_pending_file_count(), 1);
    assert_eq!(ret.input_levels[0].table_infos[0].id, 4);
    assert_eq!(levels_handler[1].get_pending_file_count(), 1);
    assert_eq!(ret.input_levels[1].table_infos[0].id, 1);

    // no conflict with the last job but we do not allow compact higher level to l1 when there
    // is a pending task.
    push_table_level0(&mut levels, generate_table(6, 1, 100, 200, 2));
    push_table_level0(&mut levels, generate_table(7, 1, 301, 333, 4));
    assert!(picker.pick_compaction(&levels, &mut levels_handler).is_none());
    assert_eq!(levels_handler[0].get_pending_file_count(), 1);
    assert_eq!(levels_handler[1].get_pending_file_count(), 1);

    levels.l0.sub_levels[0].table_infos.retain(|table| table.id != 4);
    levels.l0.total_file_size -= ret.input_levels[0].table_infos[0].file_size;

    levels_handler[0].remove_task(0);
    levels_handler[1].remove_task(0);

    let ret = picker.pick_compaction(&levels, &mut levels_handler).unwrap();
    assert_eq!(ret.input_levels.len(), 4);
    assert_eq!(ret.input_levels[0].table_infos[0].id, 5);
    assert_eq!(ret.input_levels[1].table_infos[0].id, 6);
    assert_eq!(ret.input_levels[2].table_infos[0].id, 7);
    assert_eq!(ret.input_levels[3].table_infos.len(), 4);

    // the first idle table in L0 is table 6 and its confict with the last job so we can not
    // pick table 7.
    let picker = LevelCompactionPicker::new(
        1,
        1,
        Arc::new(CompactionConfig::default()),
        RangeOverlapStrategy::default(),
    );
    push_table_level0(&mut levels, generate_table(8, 1, 199, 233, 3));
    let ret = picker.pick_compaction(&levels, &mut levels_handler);
    assert!(ret.is_none());

    // compact L0 to L0
    let picker = TierCompactionPicker::new(2, test_config(), RangeOverlapStrategy::default());
    push_table_level0(&mut levels, generate_table(9, 1, 100, 400, 3));
    let ret = picker.pick_compaction(&levels, &mut levels_handler).unwrap();
    assert_eq!(ret.input_levels[0].table_infos.len(), 1);
    assert_eq!(ret.input_levels[0].table_infos[0].id, 8);
    assert_eq!(ret.input_levels[1].table_infos[0].id, 9);

    levels_handler[0].remove_task(1);
    levels.l0.sub_levels.retain(|level| level.table_infos[0].id < 7);
    push_tables_level0(
        &mut levels,
        vec![
            generate_table(10, 1, 100, 200, 3),
            generate_table(11, 1, 201, 300, 3),
            generate_table(12, 1, 301, 400, 3),
        ],
    );
    push_table_level0(&mut levels, generate_table(12, 1, 100, 400, 4));
    let ret = picker.pick_compaction(&levels, &mut levels_handler).unwrap();
    assert_eq!(ret.input_levels.len(), 2);
    assert_eq!(ret.input_levels[0].table_infos.len(), 3);
}

#[test]
fn test_selecting_key_range_overlap() {
    // When picking L0->L1, all L1 files overlapped with selecting_key_range should be picked.
    let config = Arc::new(CompactionConfig {
        level0_tier_compact_file_number: 2,
        compaction_mode: CompactionMode::Range,
        ..CompactionConfig::default()
    });
    let picker = LevelCompactionPicker::new(0, 1, config, RangeOverlapStrategy::default());

    let mut levels = Levels {
        levels: vec![base_level(vec![
            generate_table(3, 1, 0, 50, 1),
            generate_table(4, 1, 150, 200, 1),
            generate_table(5, 1, 250, 300, 1),
        ])],
        l0: no_l0(),
    };
    push_tables_level0(&mut levels, vec![generate_table(1, 1, 50, 60, 2)]);
    push_tables_level0(
        &mut levels,
        vec![
            generate_table(7, 1, 200, 250, 2),
            generate_table(8, 1, 400, 500, 2),
        ],
    );

    let mut levels_handler = two_handlers();
    let ret = picker.pick_compaction(&levels, &mut levels_handler).unwrap();

    assert_eq!(levels_handler[0].get_pending_file_count(), 3);
    assert_eq!(levels_handler[1].get_pending_file_count(), 3);

    assert_eq!(ret.input_levels.len(), 3);
    assert_eq!(ids(&ret.input_levels[0]), vec![1]);
    assert_eq!(ids(&ret.input_levels[1]), vec![7, 8]);
}

#[test]
fn test_l0_to_l1_compact_conflict() {
    // When picking L0->L1, L0's selecting_key_range should not be overlapped with L0's
    // compacting_key_range.
    let picker = create_compaction_picker_for_test();
    let mut levels = Levels {
        levels: vec![base_level(vec![])],
        l0: no_l0(),
    };
    push_tables_level0(
        &mut levels,
        vec![
            generate_table(1, 1, 100, 300, 2),
            generate_table(2, 1, 350, 500, 2),
        ],
    );
    let mut levels_handler = two_handlers();

    let _ret = picker.pick_compaction(&levels, &mut levels_handler).unwrap();
    assert_eq!(levels_handler[0].get_pending_file_count(), 2);
    assert_eq!(levels_handler[1].get_pending_file_count(), 0);

    push_tables_level0(&mut levels, vec![generate_table(3, 1, 250, 300, 3)]);
    let picker = TierCompactionPicker::new(1, picker.config.clone(), picker.overlap_strategy);
    assert!(picker.pick_compaction(&levels, &mut levels_handler).is_none());
}

#[test]
fn test_compact_to_l1_concurrently() {
    // When picking L0->L1, L0's selecting_key_range should not be overlapped with any L1 files
    // under compaction.
    let picker = create_compaction_picker_for_test();

    let mut levels = Levels {
        levels: vec![base_level(vec![generate_table(2, 1, 150, 300, 2)])],
        l0: generate_l0_with_overlap(vec![generate_table(1, 1, 200, 250, 2)]),
    };

    let mut levels_handler = two_handlers();
    let _ret = picker.pick_compaction(&levels, &mut levels_handler).unwrap();

    assert_eq!(levels_handler[0].get_pending_file_count(), 1);
    assert_eq!(levels_handler[1].get_pending_file_count(), 1);

    levels.l0.sub_levels[0].table_infos = vec![
        generate_table(3, 1, 100, 140, 3),
        generate_table(1, 1, 200, 250, 2),
        generate_table(4, 1, 400, 500, 3),
    ];

    let ret = picker.pick_compaction(&levels, &mut levels_handler).unwrap();

    // Will be trivial move. The second file can not be picked up because the range of files
    // [3,4] would be overlap with file [0]
    assert!(ret.input_levels[1].table_infos.is_empty());
    assert_eq!(ret.target_level, 1);
    assert_eq!(ids(&ret.input_levels[0]), vec![3]);
}

#[test]
fn test_compacting_key_range_overlap_intra_l0() {
    // When picking L0->L0, L0's selecting_key_range should not be overlapped with L0's
    // compacting_key_range.
    let picker = create_compaction_picker_for_test();

    let mut levels = Levels {
        levels: vec![base_level(vec![generate_table(3, 1, 200, 300, 2)])],
        l0: generate_l0_with_overlap(vec![
            generate_table(1, 1, 100, 210, 2),
            generate_table(2, 1, 200, 250, 2),
        ]),
    };
    let mut levels_handler = two_handlers();

    let _ret = picker.pick_compaction(&levels, &mut levels_handler).unwrap();

    assert_eq!(levels_handler[0].get_pending_file_count(), 1);
    assert_eq!(levels_handler[1].get_pending_file_count(), 1);

    push_table_level0(&mut levels, generate_table(4, 1, 170, 180, 3));
    assert!(picker.pick_compaction(&levels, &mut levels_handler).is_none());
}

// compact the whole level and upper sub-level when the write-amplification is more than 1.5.
#[test]
fn test_compact_with_write_amplification_limit() {
    let picker = create_compaction_picker_for_test();
    let mut levels = Levels {
        levels: vec![base_level(vec![
            generate_table(1, 1, 100, 199, 2),
            generate_table(2, 1, 200, 260, 2),
            generate_table(3, 1, 300, 600, 2),
        ])],
        l0: generate_l0_with_overlap(vec![]),
    };
    push_tables_level0(
        &mut levels,
        vec![
            generate_table(4, 1, 130, 180, 2),
            generate_table(5, 1, 190, 250, 2),
            generate_table(6, 1, 200, 300, 2),
        ],
    );
    push_tables_level0(
        &mut levels,
        vec![
            generate_table(7, 1, 130, 180, 2),
            generate_table(8, 1, 190, 250, 2),
            generate_table(9, 1, 200, 300, 2),
        ],
    );
    let mut levels_handler = two_handlers();
    let ret = picker.pick_compaction(&levels, &mut levels_handler).unwrap();
    assert_eq!(levels_handler[0].get_pending_file_count(), 6);
    assert_eq!(levels_handler[1].get_pending_file_count(), 3);
    assert_eq!(ret.input_levels.len(), 3);
    assert_eq!(ret.input_levels[2].table_infos[0].id, 1);
    assert_eq!(ret.input_levels[2].table_infos[1].id, 2);
    assert_eq!(ret.input_levels[2].table_infos[2].id, 3);
}

#[test]
fn test_compact_with_write_amplification_limit_2() {
    let picker = create_compaction_picker_for_test();
    let mut levels = Levels {
        levels: vec![base_level(vec![
            generate_table(1, 1, 100, 199, 2),
            generate_table(2, 1, 200, 260, 2),
            generate_table(3, 1, 300, 600, 2),
        ])],
        l0: generate_l0_with_overlap(vec![]),
    };
    push_tables_level0(
        &mut levels,
        vec![
            generate_table(4, 1, 100, 180, 2),
            generate_table(5, 1, 190, 250, 2),
            generate_table(6, 1, 200, 300, 2),
        ],
    );
    let mut levels_handler = two_handlers();
    let ret = picker.pick_compaction(&levels, &mut levels_handler).unwrap();
    assert_eq!(levels_handler[0].get_pending_file_count(), 1);
    assert_eq!(levels_handler[1].get_pending_file_count(), 1);
    assert_eq!(ret.input_levels.len(), 2);
    assert_eq!(ret.input_levels[0].table_infos[0].id, 4);
}

fn tree(max_bytes_for_level_base: u64, max_compaction_bytes: u64, trigger: u64, tier: u64, filter_mask: u32) -> CompactionConfig {
    CompactionConfig {
        max_bytes_for_level_base,
        max_level: 4,
        max_bytes_for_level_multiplier: 5,
        max_compaction_bytes,
        level0_trigger_file_number: trigger,
        level0_tier_compact_file_number: tier,
        compaction_mode: CompactionMode::Range,
        compaction_filter_mask: filter_mask,
        ..CompactionConfig::default()
    }
}

fn size_of(level: &Level) -> u64 {
    level.table_infos.iter().map(|sst| sst.file_size).sum::<u64>()
}

#[test]
fn test_dynamic_level() {
    let selector = DynamicLevelSelector::new(
        Arc::new(tree(100, 1, 1, 2, CompactionConfig::default().compaction_filter_mask)),
        RangeOverlapStrategy::default(),
    );
    let levels = vec![
        generate_level(1, vec![]),
        generate_level(2, generate_tables(0..5, 0..1000, 3, 10)),
        generate_level(3, generate_tables(5..10, 0..1000, 2, 50)),
        generate_level(4, generate_tables(10..15, 0..1000, 1, 200)),
    ];
    let mut levels = Levels {
        levels,
        l0: generate_l0_with_overlap(vec![]),
    };
    let ctx = selector.calculate_level_base_size(&levels);
    assert_eq!(ctx.base_level, 2);
    assert_eq!(ctx.level_max_bytes[2], 100);
    assert_eq!(ctx.level_max_bytes[3], 200);
    assert_eq!(ctx.level_max_bytes[4], 1000);

    levels.levels[3]
        .table_infos
        .append(&mut generate_tables(15..20, 2000..3000, 1, 400));
    levels.levels[3].total_file_size = size_of(&levels.levels[3]);

    let ctx = selector.calculate_level_base_size(&levels);
    // data size increase, so we need increase one level to place more data.
    assert_eq!(ctx.base_level, 1);
    assert_eq!(ctx.level_max_bytes[1], 100);
    assert_eq!(ctx.level_max_bytes[2], 120);
    assert_eq!(ctx.level_max_bytes[3], 600);
    assert_eq!(ctx.level_max_bytes[4], 3000);

    // append a large data to L0 but it does not change the base size of LSM tree.
    push_tables_level0(&mut levels, generate_tables(20..26, 0..1000, 1, 100));

    let ctx = selector.calculate_level_base_size(&levels);
    assert_eq!(ctx.base_level, 1);
    assert_eq!(ctx.level_max_bytes[1], 100);
    assert_eq!(ctx.level_max_bytes[2], 120);
    assert_eq!(ctx.level_max_bytes[3], 600);
    assert_eq!(ctx.level_max_bytes[4], 3000);

    levels.l0.sub_levels.clear();
    levels.l0.total_file_size = 0;
    levels.levels[0].table_infos = generate_tables(26..32, 0..1000, 1, 100);
    levels.levels[0].total_file_size = size_of(&levels.levels[0]);

    let ctx = selector.calculate_level_base_size(&levels);
    assert_eq!(ctx.base_level, 1);
    assert_eq!(ctx.level_max_bytes[1], 100);
    assert_eq!(ctx.level_max_bytes[2], 120);
    assert_eq!(ctx.level_max_bytes[3], 600);
    assert_eq!(ctx.level_max_bytes[4], 3000);
}

#[test]
fn test_pick_compaction() {
    let levels = vec![
        generate_level(1, vec![]),
        generate_level(2, generate_tables(0..5, 0..1000, 3, 10)),
        generate_level(3, generate_tables(5..10, 0..1000, 2, 50)),
        generate_level(4, generate_tables(10..15, 0..1000, 1, 200)),
    ];
    let mut levels = Levels {
        levels,
        l0: generate_l0_with_overlap(generate_tables(15..25, 0..600, 3, 10)),
    };

    let selector = DynamicLevelSelector::new(
        Arc::new(tree(200, 10000, 8, 4, CompactionConfig::default().compaction_filter_mask)),
        RangeOverlapStrategy::default(),
    );
    let mut levels_handlers: Vec<LevelHandler> = (0..5).map(LevelHandler::new).collect();
    let compaction = selector
        .pick_compaction(1, &levels, &mut levels_handlers)
        .unwrap();
    // trival move.
    assert_eq!(compaction.input.input_levels[0].level_idx, 0);
    assert!(compaction.input.input_levels[1].table_infos.is_empty());
    assert_eq!(compaction.input.target_level, 0);

    let config = Arc::new(tree(100, 10000, 8, 4, 6));
    let selector = DynamicLevelSelector::new(config.clone(), RangeOverlapStrategy::default());

    levels.l0.sub_levels.clear();
    levels.l0.total_file_size = 0;
    push_tables_level0(&mut levels, generate_tables(15..25, 0..600, 3, 20));
    let mut levels_handlers: Vec<LevelHandler> = (0..5).map(LevelHandler::new).collect();
    let compaction = selector
        .pick_compaction(1, &levels, &mut levels_handlers)
        .unwrap();
    assert_eq!(compaction.input.input_levels[0].level_idx, 0);
    assert_eq!(compaction.input.target_level, 2);
    assert_eq!(compaction.target_file_size, config.target_file_size_base);

    levels_handlers[0].remove_task(1);
    levels_handlers[2].remove_task(1);
    levels.l0.sub_levels.clear();
    levels.levels[1].table_infos = generate_tables(20..30, 0..1000, 3, 10);
    let compaction = selector
        .pick_compaction(2, &levels, &mut levels_handlers)
        .unwrap();
    assert_eq!(compaction.input.input_levels[0].level_idx, 3);
    assert_eq!(compaction.input.target_level, 4);
    assert_eq!(compaction.input.input_levels[0].table_infos.len(), 1);
    assert_eq!(compaction.input.input_levels[1].table_infos.len(), 1);
    assert_eq!(compaction.target_file_size, config.target_file_size_base * 4);
    assert_eq!(compaction.compression_algorithm.as_str(), "Lz4",);
    // no compaction need to be scheduled because we do not calculate the size of pending files
    // to score.
    let compaction = selector.pick_compaction(2, &levels, &mut levels_handlers);
    assert!(compaction.is_none());
}

#[test]
fn parameters_that_are_not_used_may_be_zero() {
    let config = CompactionConfig {
        max_bytes_for_level_multiplier: 0,
        level0_tier_compact_file_number: 0,
        max_sub_compaction: 0,
        ..tree(0, 1, 1, 2, CompactionConfig::default().compaction_filter_mask)
    };
    let selector = DynamicLevelSelector::new(Arc::new(config), RangeOverlapStrategy::default());
    let levels = Levels {
        levels: (1..5).map(|i| generate_level(i, vec![])).collect(),
        l0: no_l0(),
    };
    let ctx = selector.calculate_level_base_size(&levels);
    assert_eq!(ctx.base_level, 4);
    assert_eq!(ctx.level_max_bytes, vec![u64::MAX; 5]);
    let input_levels = vec![InputLevel {
        level_idx: 0,
        level_type: LevelType::Overlapping,
        table_infos: generate_tables(0..3, 0..300, 1, 10),
    }];
    let input = CompactionInput { input_levels, target_level: 4, target_sub_level_id: 0 };
    let task = selector.generate_task_by_compaction_config(input, 4);
    assert!(task.splits.is_empty());
}

#[test]
fn large_tables_move_within_level_0() {
    let mut levels = Levels { levels: vec![], l0: no_l0() };
    let mut large = generate_table(1, 1, 0, 100, 1);
    large.file_size = u64::MAX / 8;
    let mut other = generate_table(2, 1, 200, 300, 1);
    other.file_size = u64::MAX / 8;
    for (sub_level_id, table) in [(1u64, large), (2, other)] {
        levels.l0.sub_levels.push(Level {
            level_idx: 0,
            level_type: LevelType::Nonoverlapping,
            total_file_size: table.file_size,
            table_infos: vec![table],
            sub_level_id,
        });
    }
    let picker = TierCompactionPicker::new(1, test_config(), RangeOverlapStrategy::default());
    let mut handlers = two_handlers();
    let input = picker.pick_compaction(&levels, &mut handlers).unwrap();
    assert_eq!(ids(&input.input_levels[0]), vec![2]);
    assert!(input.input_levels[1].table_infos.is_empty());
}
