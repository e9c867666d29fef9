use feature_flags::errors::FlagError;
use feature_flags::json::JsonNumber;
use feature_flags::model::{FeatureFlag, FeatureFlagList, PropertyType};
use feature_flags::store::{cache_key, CacheRead, FeatureFlagRow};

fn flag_json(id: i32, team_id: i32, name: &str, key: &str, rollout: &str) -> String {
    format!(
        r#"{{"id": {}, "team_id": {}, "name": "{}", "key": "{}", "filters": {{"groups": [{{"properties": [], "rollout_percentage": {}}}]}}, "active": true, "deleted": false}}"#,
        id, team_id, name, key, rollout
    )
}

fn row(id: i32, team_id: i32, name: &str, key: &str, filters: &str, deleted: bool, active: bool) -> FeatureFlagRow {
    FeatureFlagRow {
        id,
        team_id,
        name: Some(name.to_string()),
        key: key.to_string(),
        filters: filters.to_string(),
        deleted,
        active,
        ensure_experience_continuity: false,
        version: Some(1),
    }
}

#[test]
fn test_store_cache_parity() {
    // the same two flags, inserted into the cache as one payload and into
    // the store as rows
    let payload = format!(
        "[{},{}]",
        flag_json(1, 5, "Flag 1", "flag_1", "50"),
        flag_json(2, 5, "Flag 2", "flag_2", "75")
    );
    let from_cache = FeatureFlagList::from_cache_payload(&payload).expect("cache decode");

    let rows = vec![
        row(2, 5, "Flag 2", "flag_2", r#"{"groups": [{"properties": [], "rollout_percentage": 75}]}"#, false, true),
        row(1, 5, "Flag 1", "flag_1", r#"{"groups": [{"properties": [], "rollout_percentage": 50}]}"#, false, true),
    ];
    let from_store = FeatureFlagList::from_rows(&rows).expect("store decode");

    let mut cache_flags = from_cache.flags;
    let mut store_flags = from_store.flags;
    cache_flags.sort_by(|a, b| a.key.cmp(&b.key));
    store_flags.sort_by(|a, b| a.key.cmp(&b.key));

    assert_eq!(cache_flags.len(), store_flags.len(), "Number of flags mismatch");
    for (c, s) in cache_flags.iter().zip(store_flags.iter()) {
        assert_eq!(c.key, s.key, "Flag key mismatch");
        assert_eq!(c.name, s.name, "Flag name mismatch for key: {}", c.key);
        assert_eq!(c.active, s.active, "Flag active status mismatch for key: {}", c.key);
        assert_eq!(c.deleted, s.deleted, "Flag deleted status mismatch for key: {}", c.key);
        assert_eq!(
            c.filters.groups[0].rollout_percentage,
            s.filters.groups[0].rollout_percentage,
            "Flag rollout percentage mismatch for key: {}",
            c.key
        );
    }
}

#[test]
fn test_store_excludes_deleted_and_inactive() {
    let rows = vec![
        row(1, 2, "Deleted Flag", "deleted_flag", r#"{"groups": []}"#, true, true),
        row(2, 2, "Inactive Flag", "inactive_flag", r#"{"groups": []}"#, false, false),
        row(3, 2, "Live Flag", "live_flag", r#"{"groups": []}"#, false, true),
    ];
    let list = FeatureFlagList::from_rows(&rows).expect("store decode");
    assert_eq!(list.flags.len(), 1);
    assert_eq!(list.flags[0].key, "live_flag");

    // the cache is a raw mirror: what was written comes back as written
    let payload = format!(
        r#"[{{"id": 1, "team_id": 2, "name": "Deleted Flag", "key": "deleted_flag", "filters": {{"groups": []}}, "active": true, "deleted": true}}]"#
    );
    let cached = FeatureFlagList::from_cache_payload(&payload).expect("cache decode");
    assert_eq!(cached.flags.len(), 1);
    assert!(cached.flags[0].deleted);
}

#[test]
fn test_store_zero_rows_is_empty_list() {
    let rows: Vec<FeatureFlagRow> = vec![];
    let list = FeatureFlagList::from_rows(&rows).expect("empty fetch");
    assert_eq!(list.flags.len(), 0);
}

#[test]
fn test_store_bad_filters_aborts_whole_fetch() {
    let rows = vec![
        row(1, 2, "Good", "good", r#"{"groups": []}"#, false, true),
        row(2, 2, "Bad", "bad", "not json at all", false, true),
    ];
    match FeatureFlagList::from_rows(&rows) {
        Err(FlagError::DeserializeFiltersError) => (),
        other => panic!("Expected DeserializeFiltersError, got: {:?}", other),
    }
}

#[test]
fn test_cache_miss_and_unavailable_are_distinct() {
    match FeatureFlagList::from_cache_read(CacheRead::Miss) {
        Err(FlagError::TokenValidationError) => (),
        other => panic!("Expected TokenValidationError, got: {:?}", other),
    }
    match FeatureFlagList::from_cache_read(CacheRead::Unavailable) {
        Err(FlagError::RedisUnavailable) => (),
        other => panic!("Expected RedisUnavailable, got: {:?}", other),
    }
}

#[test]
fn test_cache_corrupt_payload_is_hard_error() {
    match FeatureFlagList::from_cache_read(CacheRead::Hit("not a json".to_string())) {
        Err(FlagError::RedisDataParsingError) => (),
        other => panic!("Expected RedisDataParsingError, got: {:?}", other),
    }
}

#[test]
fn test_cache_write_read_round_trip() {
    let payload = format!("[{}]", flag_json(9, 4, "RT", "rt_flag", "33.33"));
    let list = FeatureFlagList::from_cache_payload(&payload).expect("decode");
    let rewritten = list.to_cache_payload();
    let again = FeatureFlagList::from_cache_payload(&rewritten).expect("second decode");
    assert_eq!(list, again);
    assert_eq!(
        again.flags[0].filters.groups[0].rollout_percentage,
        Some(JsonNumber { text: "33.33".to_string() })
    );
}

#[test]
fn test_long_unicode_key_round_trips() {
    // a flag key of 400 multi-byte code points survives both paths
    let key: String = "🚀".repeat(400);
    assert_eq!(key.chars().count(), 400);
    let payload = format!("[{}]", flag_json(1, 2, "Unicode Flag", &key, "100"));
    let cached = FeatureFlagList::from_cache_payload(&payload).expect("cache decode");
    assert_eq!(cached.flags[0].key, key);
    let rewritten = cached.to_cache_payload();
    let again = FeatureFlagList::from_cache_payload(&rewritten).expect("re-decode");
    assert_eq!(again.flags[0].key, key);

    let rows = vec![row(1, 2, "Unicode Flag", &key, r#"{"groups": []}"#, false, true)];
    let list = FeatureFlagList::from_rows(&rows).expect("store decode");
    assert_eq!(list.flags[0].key, key);
}

#[test]
fn test_ascii_key_of_length_400() {
    let key = "a".repeat(400);
    let payload = format!("[{}]", flag_json(2, 2, "Very Long Key Flag", &key, "100"));
    let cached = FeatureFlagList::from_cache_payload(&payload).expect("decode");
    assert_eq!(cached.flags[0].key.len(), 400);
}

#[test]
fn test_cache_key_shape() {
    assert_eq!(cache_key(42), "posthog:1:team_feature_flags_42");
    assert_eq!(cache_key(-3), "posthog:1:team_feature_flags_-3");
}

#[test]
fn test_flags_with_different_property_types_decode() {
    let payload = r#"[{
        "id": 1,
        "team_id": 2,
        "name": "Flag with Different Properties",
        "key": "flag_with_different_properties",
        "filters": {
            "groups": [
                {
                    "properties": [
                        {"key": "email", "value": "test@example.com", "type": "person", "operator": "exact"},
                        {"key": "country", "value": "US", "type": "group", "operator": "exact"},
                        {"key": "cohort", "value": "123", "type": "cohort", "operator": "exact"}
                    ],
                    "rollout_percentage": 100
                }
            ]
        },
        "active": true,
        "deleted": false
    }]"#;
    let list = FeatureFlagList::from_cache_payload(payload).expect("decode");
    let props = list.flags[0].filters.groups[0].properties.as_ref().unwrap();
    assert_eq!(props.len(), 3);
    assert_eq!(props[0].prop_type, PropertyType::Person);
    assert_eq!(props[1].prop_type, PropertyType::Group);
    assert_eq!(props[2].prop_type, PropertyType::Cohort);
}

fn make_flag(key: &str) -> FeatureFlag {
    let payload = flag_json(1, 2, "n", key, "100");
    let list = FeatureFlagList::from_cache_payload(&format!("[{}]", payload)).unwrap();
    list.flags.into_iter().next().unwrap()
}

#[test]
fn test_super_groups_survive_both_paths() {
    let filters = r#"{"groups": [{"properties": [], "rollout_percentage": 50}], "super_groups": [{"properties": [{"key": "country", "value": "US", "type": "person", "operator": "exact"}], "rollout_percentage": 100}]}"#;
    let rows = vec![row(1, 2, "Flag with Super Groups", "flag_with_super_groups", filters, false, true)];
    let list = FeatureFlagList::from_rows(&rows).expect("decode");
    let f = &list.flags[0];
    assert!(f.filters.super_groups.is_some());
    assert_eq!(f.filters.super_groups.as_ref().unwrap().len(), 1);

    let rewritten = list.to_cache_payload();
    let again = FeatureFlagList::from_cache_payload(&rewritten).expect("re-decode");
    assert_eq!(again.flags[0].filters.super_groups.as_ref().unwrap().len(), 1);
    let _ = make_flag("x");
}

#[test]
fn test_rollout_percentage_edge_values() {
    let payload = format!(
        "[{},{},{}]",
        flag_json(1, 2, "0% Rollout", "zero_percent", "0"),
        flag_json(2, 2, "100% Rollout", "hundred_percent", "100"),
        flag_json(3, 2, "Fractional Rollout", "fractional_percent", "33.33")
    );
    let list = FeatureFlagList::from_cache_payload(&payload).expect("decode");
    let get = |key: &str| {
        list.flags
            .iter()
            .find(|f| f.key == key)
            .unwrap()
            .filters
            .groups[0]
            .rollout_percentage
            .clone()
            .unwrap()
            .text
    };
    assert_eq!(get("zero_percent"), "0");
    assert_eq!(get("hundred_percent"), "100");
    assert_eq!(get("fractional_percent"), "33.33");
}

#[test]
fn test_error_kind_names() {
    assert_eq!(FlagError::RedisUnavailable.kind_name(), "redis_unavailable");
    assert_eq!(FlagError::TokenValidationError.kind_name(), "token_validation_error");
    assert_eq!(
        FlagError::Internal("boom".to_string()).kind_name(),
        "internal"
    );
}
