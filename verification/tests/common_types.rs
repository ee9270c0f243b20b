use std::collections::hash_map::RandomState;
use std::collections::HashSet;
use std::hash::{BuildHasher, Hash, Hasher};

use streamdb::common::bool_array::{ArrayType, BoolArray, BoolArrayBuilder, CompressionType, HashInput, NULL_VAL_FOR_HASH};
use streamdb::common::config::{
    parse_checksum_algo, BatchConfig, ChecksumAlgorithm, ComputeNodeConfig, FrontendConfig,
    GivenOptions, ServerConfig, StreamingConfig,
};
use streamdb::common::interval::IntervalUnit;
use streamdb::common::string_map::StringMap;
use streamdb::common::text::{decimal_text, hexadecimal_text, signed_decimal_text};

fn helper_test_builder(data: Vec<Option<bool>>) -> BoolArray {
    let mut builder = BoolArrayBuilder::new(data.len()).unwrap();
    for d in data {
        builder.append(d).unwrap();
    }
    builder.finish().unwrap()
}

#[test]
fn test_bool_builder() {
    let v: Vec<Option<bool>> = (0..1000)
        .map(|x| {
            if x % 2 == 0 {
                None
            } else if x % 3 == 0 {
                Some(true)
            } else {
                Some(false)
            }
        })
        .collect();
    let array = helper_test_builder(v.clone());
    let values = array.iter();
    assert_eq!(v.len(), values.len());
    let res = v.iter().zip(values).all(|(a, b)| *a == b);
    assert!(res);
}

#[test]
fn test_bool_array_hash() {
    const ARR_NUM: usize = 2;
    const ARR_LEN: usize = 48;
    let vecs: [Vec<Option<bool>>; ARR_NUM] = [
        (0..ARR_LEN)
            .map(|x| match x % 2 {
                0 => Some(true),
                1 => Some(false),
                _ => unreachable!(),
            })
            .collect(),
        (0..ARR_LEN)
            .map(|x| match x % 3 {
                0 => Some(true),
                1 => Some(false),
                2 => None,
                _ => unreachable!(),
            })
            .collect(),
    ];

    let arrs: Vec<BoolArray> = vecs.iter().map(|v| helper_test_builder(v.clone())).collect();

    let hasher_builder = RandomState::new();
    let mut states: Vec<_> = (0..ARR_LEN).map(|_| hasher_builder.build_hasher()).collect();
    for v in vecs.iter() {
        for (x, state) in v.iter().zip(&mut states) {
            match x {
                Some(inner) => inner.hash(state),
                None => NULL_VAL_FOR_HASH.hash(state),
            }
        }
    }
    let hashes: Vec<u64> = states.iter().map(|s| s.finish()).collect();

    let count = hashes.iter().collect::<HashSet<_>>().len();
    assert_eq!(count, 6);

    let mut states: Vec<_> = (0..ARR_LEN).map(|_| hasher_builder.build_hasher()).collect();
    for arr in &arrs {
        for (i, state) in states.iter_mut().enumerate() {
            match arr.hash_at(i) {
                HashInput::Bool(b) => b.hash(state),
                HashInput::Null(v) => v.hash(state),
            }
        }
    }
    let again: Vec<u64> = states.iter().map(|s| s.finish()).collect();
    assert_eq!(again, hashes);
}

#[test]
fn bool_array_reads_back() {
    let array = BoolArray::from_slice(&[Some(true), None, Some(false)]).unwrap();
    assert_eq!(array.len(), 3);
    assert_eq!(array.value_at(0), Some(true));
    assert_eq!(array.value_at(1), None);
    assert_eq!(array.value_at(2), Some(false));
    assert!(array.is_null(1));
    assert!(!array.is_null(2));
    assert_eq!(array.hash_at(1), HashInput::Null(0xfffffff0));
    let prost = array.to_protobuf();
    assert_eq!(prost.array_type, ArrayType::Bool);
    assert_eq!(prost.null_bitmap, Some(vec![true, false, true]));
    assert_eq!(prost.values.len(), 1);
    assert_eq!(prost.values[0].compression, CompressionType::Uncompressed);
    assert_eq!(prost.values[0].body, vec![1, 0]);
    assert_eq!(array.null_bitmap(), &vec![true, false, true]);
    let mut builder = array.create_builder(1).unwrap();
    builder.append_array(&array).unwrap();
    builder.append(Some(true)).unwrap();
    assert_eq!(
        builder.finish().unwrap().iter(),
        vec![Some(true), None, Some(false), Some(true)]
    );
    let mut array = array;
    array.set_bitmap(vec![false, true, true]);
    assert_eq!(array.iter(), vec![None, Some(false), Some(false)]);
    array.set_bitmap(vec![true, true, false]);
    assert_eq!(array.iter(), vec![Some(true), Some(false), None]);
}

fn given(text: &str) -> GivenOptions {
    let value: toml::Value = toml::from_str(text).unwrap();
    let number = |table: &str, key: &str| -> Option<u32> {
        Some(value.get(table)?.get(key)?.as_integer()? as u32)
    };
    let choice = |key: &str| -> Option<bool> { value.get("storage")?.get(key)?.as_bool() };
    let words =
        |key: &str| -> Option<String> { Some(value.get("storage")?.get(key)?.as_str()?.to_string()) };
    GivenOptions {
        heartbeat_interval: number("server", "heartbeat_interval"),
        batch_chunk_size: number("batch", "chunk_size"),
        streaming_chunk_size: number("streaming", "chunk_size"),
        sstable_size: number("storage", "sstable_size"),
        block_size: number("storage", "block_size"),
        data_directory: words("data_directory"),
        checksum_algo: words("checksum_algo"),
        async_checkpoint_enabled: choice("async_checkpoint_enabled"),
        write_conflict_detection_enabled: choice("write_conflict_detection_enabled"),
    }
}

#[test]
fn test_default() {
    let cfg = ComputeNodeConfig::from_options(given(""), true).unwrap();
    assert_eq!(cfg.server.heartbeat_interval, streamdb::common::config::default::heartbeat_interval());
    assert_eq!(cfg.storage.block_size, streamdb::common::config::default::block_size());

    let partial_toml_str = r#"
        [server]
        heartbeat_interval = 10
        
        [batch]
        chunk_size = 256
        
        [streaming]
        
        [storage]
        sstable_size = 1024
        data_directory = "test"
        async_checkpoint_enabled = false
    "#;
    let cfg = ComputeNodeConfig::from_options(given(partial_toml_str), true).unwrap();
    assert_eq!(cfg.server.heartbeat_interval, 10);
    assert_eq!(cfg.batch.chunk_size, 256);
    assert_eq!(cfg.storage.sstable_size, 1024);
    assert_eq!(cfg.storage.block_size, streamdb::common::config::default::block_size());
    assert_eq!(cfg.storage.data_directory, "test");
    assert_eq!(cfg.storage.checksum_algo, streamdb::common::config::default::checksum_algorithm());
    assert!(!cfg.storage.async_checkpoint_enabled);
}

#[test]
fn config_defaults_and_errors() {
    assert_eq!(ServerConfig::default().heartbeat_interval, 1000);
    assert_eq!(BatchConfig::default().chunk_size, 1024);
    assert_eq!(StreamingConfig::default().chunk_size, 1024);
    assert_eq!(FrontendConfig::default().server.heartbeat_interval, 1000);
    assert_eq!(streamdb::common::config::default::sst_size(), 256 * (1 << 20));
    assert_eq!(streamdb::common::config::default::block_size(), 1 << 16);
    assert_eq!(streamdb::common::config::default::data_directory(), "hummock_001");
    assert!(streamdb::common::config::default::async_checkpoint_enabled());
    assert!(streamdb::common::config::default::write_conflict_detection_enabled(true));
    assert!(!streamdb::common::config::default::write_conflict_detection_enabled(false));
    assert_eq!(parse_checksum_algo("crc32c"), Some(ChecksumAlgorithm::Crc32c));
    assert_eq!(parse_checksum_algo("xxhash64"), Some(ChecksumAlgorithm::XxHash64));
    assert_eq!(parse_checksum_algo("md5"), None);
    let crc = ComputeNodeConfig::from_options(given("[storage]\nchecksum_algo = \"crc32c\""), false).unwrap();
    assert_eq!(crc.storage.checksum_algo, ChecksumAlgorithm::Crc32c);
    assert!(!crc.storage.write_conflict_detection_enabled);
    assert!(ComputeNodeConfig::from_options(given("[storage]\nchecksum_algo = \"md5\""), false).is_err());
}

#[test]
fn interval_parts() {
    let v = IntervalUnit::from_ymd(1, 2, 3);
    assert_eq!(v.get_months(), 14);
    assert_eq!(v.get_years(), 1);
    assert_eq!(v.get_days(), 3);
    assert_eq!(v.get_ms(), 0);
    let n = IntervalUnit::new(1, -2, 3).negative();
    assert_eq!((n.get_months(), n.get_days(), n.get_ms()), (-1, 2, -3));
    assert_eq!(n.negative(), IntervalUnit::new(1, -2, 3));
    assert_eq!(IntervalUnit::from_month(-13).get_years(), -1);
    assert_eq!(IntervalUnit::from_millis(5).get_ms(), 5);
}

#[test]
fn numbers_as_text() {
    assert_eq!(decimal_text(0), "0");
    assert_eq!(decimal_text(u64::MAX), "18446744073709551615");
    assert_eq!(signed_decimal_text(-120), "-120");
    assert_eq!(signed_decimal_text(i64::MIN), "-9223372036854775808");
    assert_eq!(hexadecimal_text(0), "0");
    assert_eq!(hexadecimal_text(0xCAFE10), "CAFE10");
}

#[test]
fn string_map_keeps_one_value_per_key() {
    let mut m: StringMap<u32> = StringMap::new();
    m.insert("b".to_string(), 1);
    m.insert("a".to_string(), 2);
    m.insert("b".to_string(), 3);
    assert_eq!(m.len(), 2);
    assert_eq!(m.get("b"), Some(&3));
    assert_eq!(m.get("c"), None);
    m.remove("b");
    assert!(!m.contains_key("b"));
    assert!(m.contains_key("a"));
}
