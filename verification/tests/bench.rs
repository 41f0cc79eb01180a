use std::time::Duration;

use argus_core::bench::{BenchResult, HostConfig, PayloadSize};
use argus_core::fixture::{
    synthetic_item, synthetic_item_json, synthetic_item_size, synthetic_item_size_for,
    synthetic_item_sized, synthetic_item_with_ids, BASE_PARAGRAPH, ITEM_TITLE,
};
use argus_core::json::{to_json_string, Json};

#[test]
fn bench_result_from_durations() {
    let durations: Vec<u128> = (1..=100).map(|m| Duration::from_micros(m).as_nanos()).collect();
    let result = BenchResult::from_durations("test", &durations);

    assert_eq!(result.name, "test");
    assert_eq!(result.total_calls, 100);
    assert_eq!(result.p50, Duration::from_micros(51).as_nanos());
    assert_eq!(result.p95, Duration::from_micros(96).as_nanos());
    assert_eq!(result.p99, Duration::from_micros(100).as_nanos());
}

#[test]
fn bench_result_of_no_timings_is_all_zero() {
    let result = BenchResult::from_durations("empty", &[]);
    assert_eq!(result.total_calls, 0);
    assert_eq!(result.total_time, 0);
    assert_eq!(result.per_call_avg, 0);
    assert_eq!((result.p50, result.p95, result.p99), (0, 0, 0));
}

#[test]
fn bench_result_average_is_the_integer_mean() {
    let result = BenchResult::from_durations("avg", &[10, 20, 31]);
    assert_eq!(result.total_time, 61);
    assert_eq!(result.per_call_avg, 20);
    assert_eq!(result.p50, 20);
    assert_eq!(result.p95, 31);
    assert_eq!(result.p99, 31);
}

#[test]
fn payload_presets_parse_by_name_initial_and_size() {
    assert_eq!("small".parse::<PayloadSize>(), Ok(PayloadSize::Small));
    assert_eq!("M".parse::<PayloadSize>(), Ok(PayloadSize::Medium));
    assert_eq!("50k".parse::<PayloadSize>(), Ok(PayloadSize::Large));
    assert_eq!("XL".parse::<PayloadSize>(), Ok(PayloadSize::XLarge));
    assert_eq!(
        "huge".parse::<PayloadSize>(),
        Err("Unknown payload size: huge. Use: small, medium, large, xlarge".to_string())
    );
    assert_eq!(PayloadSize::Large.target_bytes(), 50_000);
    assert_eq!(PayloadSize::XLarge.name(), "xlarge (~100KB)");
}

#[test]
fn host_config_defaults() {
    let c = HostConfig::default();
    assert_eq!(c.max_instances, 1000);
    assert_eq!(c.max_memory_pages, 1024);
    assert!(c.async_support);
}

#[test]
fn payload_small_is_approximately_2kb() {
    let size = synthetic_item_size_for(PayloadSize::Small);
    println!("Small payload size: {size} bytes");
    assert!(size > 1_500, "Payload too small: {size} bytes");
    assert!(size < 5_000, "Payload too large: {size} bytes");
}

#[test]
fn payload_medium_is_approximately_10kb() {
    let size = synthetic_item_size_for(PayloadSize::Medium);
    println!("Medium payload size: {size} bytes");
    assert!(size > 8_000, "Payload too small: {size} bytes");
    assert!(size < 15_000, "Payload too large: {size} bytes");
}

#[test]
fn payload_large_is_approximately_50kb() {
    let size = synthetic_item_size_for(PayloadSize::Large);
    println!("Large payload size: {size} bytes");
    assert!(size > 40_000, "Payload too small: {size} bytes");
    assert!(size < 70_000, "Payload too large: {size} bytes");
}

#[test]
fn payload_xlarge_is_approximately_100kb() {
    let size = synthetic_item_size_for(PayloadSize::XLarge);
    println!("XLarge payload size: {size} bytes");
    assert!(size > 80_000, "Payload too small: {size} bytes");
    assert!(size < 130_000, "Payload too large: {size} bytes");
}

#[test]
fn the_default_item_is_the_small_preset() {
    assert_eq!(synthetic_item_size(), synthetic_item_size_for(PayloadSize::Small));
    let item = synthetic_item();
    let text = to_json_string(&item);
    assert_eq!(text.len(), synthetic_item_size());
}

#[test]
fn a_synthetic_item_is_what_serde_json_writes_for_it() {
    for size in [PayloadSize::Small, PayloadSize::Medium, PayloadSize::Large, PayloadSize::XLarge] {
        let text = synthetic_item_json(size);
        let value: serde_json::Value = serde_json::from_str(&text).expect("the item is JSON");
        assert_eq!(serde_json::to_string(&value).unwrap(), text, "{size:?}");
        assert_eq!(value["type"], "blog");
        assert_eq!(value["title"], ITEM_TITLE);
        let id = value["id"].as_str().unwrap();
        assert_eq!(id.len(), 36);
        assert_eq!(&id[14..15], "7", "a version-7 identifier");
        assert!(matches!(&id[19..20], "8" | "9" | "a" | "b"), "the RFC 4122 variant");
        assert_eq!(value["fields"]["field_price"]["value"], 29.99);
    }
}

#[test]
fn the_item_layout_follows_the_preset() {
    let ids: Vec<String> = (0..200).map(|i| format!("{:036}", i)).collect();
    let counts = [(PayloadSize::Small, 2, 3, 2, 0), (PayloadSize::Medium, 15, 10, 5, 5),
        (PayloadSize::Large, 80, 50, 25, 20), (PayloadSize::XLarge, 170, 100, 50, 40)];
    for (size, paragraphs, tags, related, extras) in counts {
        let n = 5 + tags + related + extras;
        let item = synthetic_item_with_ids(size, &ids[..n].to_vec());
        let value: serde_json::Value = serde_json::from_str(&to_json_string(&item)).unwrap();
        let fields = &value["fields"];
        assert_eq!(fields["field_body"]["value"].as_str().unwrap(), BASE_PARAGRAPH.repeat(paragraphs));
        assert_eq!(fields["field_tags"].as_array().unwrap().len(), tags);
        assert_eq!(fields["field_related"].as_array().unwrap().len(), related);
        let extra_names = fields.as_object().unwrap().keys().filter(|k| k.starts_with("field_extra_")).count();
        assert_eq!(extra_names, extras);
        assert_eq!(value["id"], ids[0]);
        assert_eq!(value["author_id"], ids[1]);
        assert_eq!(value["revision_id"], ids[2]);
        assert_eq!(fields["field_tags"][0]["target_id"], ids[3]);
        assert_eq!(fields["field_related"][0]["target_id"], ids[3 + tags]);
        assert_eq!(fields["field_category"]["target_id"], ids[3 + tags + related]);
        assert_eq!(fields["field_image"]["file_id"], ids[4 + tags + related]);
        if extras > 0 {
            assert_eq!(fields["field_extra_0"]["metadata"]["author"], ids[5 + tags + related]);
            assert_eq!(
                fields[format!("field_extra_{}", extras - 1)]["value"],
                format!("Extra field value {} with some additional text to increase payload size", extras - 1)
            );
        }
    }
}

#[test]
fn fresh_items_differ_only_in_their_identifiers() {
    let a = synthetic_item_sized(PayloadSize::Medium);
    let b = synthetic_item_sized(PayloadSize::Medium);
    let (ta, tb) = (to_json_string(&a), to_json_string(&b));
    assert_eq!(ta.len(), tb.len());
    assert_ne!(ta, tb);
    assert!(matches!(a, Json::Object(_)));
}
