use feature_flags::codec::{filter_from_json, flag_from_json};
use feature_flags::json::{parse_text, render_text, JsonNumber, JsonValue};
use feature_flags::model::{
    FeatureFlag, FlagFilters, FlagPropertyGroup, MultivariateFlagOptions, MultivariateFlagVariant,
    OperatorType, PropertyFilter, PropertyType,
};

fn parse_flag(json_str: &str) -> Option<FeatureFlag> {
    match parse_text(json_str) {
        Some(v) => flag_from_json(&v),
        None => None,
    }
}

#[test]
fn test_utf16_property_names_and_values() {
    let json_str = r#"{
        "id": 1,
        "team_id": 2,
        "name": "𝖚𝖙𝖋16_𝖙𝖊𝖘𝖙_𝖋𝖑𝖆𝖌",
        "key": "𝖚𝖙𝖋16_𝖙𝖊𝖘𝖙_𝖋𝖑𝖆𝖌",
        "filters": {
            "groups": [
                {
                    "properties": [
                        {
                            "key": "𝖕𝖗𝖔𝖕𝖊𝖗𝖙𝖞",
                            "value": "𝓿𝓪𝓵𝓾𝓮",
                            "type": "person"
                        }
                    ]
                }
            ]
        }
    }"#;

    let flag = parse_flag(json_str).expect("Failed to deserialize");

    assert_eq!(flag.key, "𝖚𝖙𝖋16_𝖙𝖊𝖘𝖙_𝖋𝖑𝖆𝖌");
    let groups = &flag.filters.groups;
    let property = &groups[0].properties.as_ref().unwrap()[0];
    assert_eq!(property.key, "𝖕𝖗𝖔𝖕𝖊𝖗𝖙𝖞");
    assert_eq!(property.value, Some(JsonValue::Str("𝓿𝓪𝓵𝓾𝓮".to_string())));
}

#[test]
fn test_deserialize_complex_flag() {
    let json_str = r#"{
        "id": 1,
        "team_id": 2,
        "name": "Complex Flag",
        "key": "complex_flag",
        "filters": {
            "groups": [
                {
                    "properties": [
                        {
                            "key": "email",
                            "value": "test@example.com",
                            "operator": "exact",
                            "type": "person"
                        }
                    ],
                    "rollout_percentage": 50
                }
            ],
            "multivariate": {
                "variants": [
                    {
                        "key": "control",
                        "name": "Control Group",
                        "rollout_percentage": 33.33
                    },
                    {
                        "key": "test",
                        "name": "Test Group",
                        "rollout_percentage": 66.67
                    }
                ]
            },
            "aggregation_group_type_index": 0,
            "payloads": {"test": {"type": "json", "value": {"key": "value"}}}
        },
        "deleted": false,
        "active": true,
        "ensure_experience_continuity": false
    }"#;

    let flag = parse_flag(json_str).expect("Failed to deserialize");

    assert_eq!(flag.id, 1);
    assert_eq!(flag.team_id, 2);
    assert_eq!(flag.name, Some("Complex Flag".to_string()));
    assert_eq!(flag.key, "complex_flag");
    assert_eq!(flag.filters.groups.len(), 1);
    assert_eq!(flag.filters.groups[0].properties.as_ref().unwrap().len(), 1);
    assert_eq!(
        flag.filters.groups[0].rollout_percentage,
        Some(JsonNumber { text: "50".to_string() })
    );
    assert_eq!(flag.filters.multivariate.as_ref().unwrap().variants.len(), 2);
    assert_eq!(flag.filters.aggregation_group_type_index, Some(0));
    assert!(flag.filters.payloads.is_some());
    assert!(!flag.deleted);
    assert!(flag.active);
    assert!(!flag.ensure_experience_continuity);
}

#[test]
fn test_operator_type_deserialization() {
    let operators = vec![
        ("exact", OperatorType::Exact),
        ("is_not", OperatorType::IsNot),
        ("icontains", OperatorType::Icontains),
        ("not_icontains", OperatorType::NotIcontains),
        ("regex", OperatorType::Regex),
        ("not_regex", OperatorType::NotRegex),
        ("gt", OperatorType::Gt),
        ("lt", OperatorType::Lt),
        ("gte", OperatorType::Gte),
        ("lte", OperatorType::Lte),
        ("is_set", OperatorType::IsSet),
        ("is_not_set", OperatorType::IsNotSet),
        ("is_date_exact", OperatorType::IsDateExact),
        ("is_date_after", OperatorType::IsDateAfter),
        ("is_date_before", OperatorType::IsDateBefore),
    ];

    for (op_str, op_type) in operators {
        let json = format!(
            r#"{{
        "key": "test_key",
        "value": "test_value",
        "operator": "{}",
        "type": "person"
    }}"#,
            op_str
        );
        let doc = parse_text(&json).unwrap();
        let deserialized: PropertyFilter = filter_from_json(&doc).unwrap();
        assert_eq!(deserialized.operator, Some(op_type));
    }
}

#[test]
fn test_empty_filters_deserialization() {
    let empty_filters_json = r#"{
        "id": 1,
        "team_id": 2,
        "name": "Empty Filters Flag",
        "key": "empty_filters",
        "filters": {},
        "deleted": false,
        "active": true
    }"#;

    let flag = parse_flag(empty_filters_json).expect("Should deserialize empty filters");

    assert_eq!(flag.filters.groups.len(), 0);
    assert!(flag.filters.multivariate.is_none());
    assert!(flag.filters.aggregation_group_type_index.is_none());
    assert!(flag.filters.payloads.is_none());
    assert!(flag.filters.super_groups.is_none());
    assert!(flag.filters.holdout_groups.is_none());
}

fn sample_flag() -> FeatureFlag {
    FeatureFlag {
        id: 7,
        team_id: 3,
        name: Some("Sample".to_string()),
        key: "sample_flag".to_string(),
        filters: FlagFilters {
            groups: vec![
                FlagPropertyGroup {
                    properties: Some(vec![
                        PropertyFilter {
                            key: "email".to_string(),
                            value: Some(JsonValue::Str("a@b.com".to_string())),
                            operator: Some(OperatorType::Exact),
                            prop_type: PropertyType::Person,
                            group_type_index: None,
                        },
                        PropertyFilter {
                            key: "id".to_string(),
                            value: Some(JsonValue::Num(JsonNumber { text: "123".to_string() })),
                            operator: None,
                            prop_type: PropertyType::Cohort,
                            group_type_index: None,
                        },
                    ]),
                    rollout_percentage: Some(JsonNumber { text: "33.33".to_string() }),
                },
                FlagPropertyGroup { properties: None, rollout_percentage: None },
            ],
            multivariate: Some(MultivariateFlagOptions {
                variants: vec![MultivariateFlagVariant {
                    key: "control".to_string(),
                    name: Some("Control Group".to_string()),
                    rollout_percentage: JsonNumber { text: "100".to_string() },
                }],
            }),
            aggregation_group_type_index: Some(1),
            payloads: Some(JsonValue::Obj(vec![(
                "control".to_string(),
                JsonValue::Str("payload".to_string()),
            )])),
            super_groups: Some(vec![FlagPropertyGroup {
                properties: Some(vec![]),
                rollout_percentage: Some(JsonNumber { text: "100".to_string() }),
            }]),
            holdout_groups: None,
        },
        deleted: false,
        active: true,
        ensure_experience_continuity: false,
        version: Some(2),
    }
}

#[test]
fn test_flag_round_trip_through_text() {
    let flag = sample_flag();
    let doc = feature_flags::codec::flag_to_json(&flag);
    let text = render_text(&doc);
    let back = parse_flag(&text).expect("round trip decode");
    assert_eq!(back, sample_flag());
}

#[test]
fn test_number_text_survives_round_trip() {
    let doc = parse_text("[33.33, 50, 0, 100, 6.02e23, -12]").unwrap();
    let text = render_text(&doc);
    assert_eq!(text, "[33.33,50,0,100,6.02e23,-12]");
}

#[test]
fn test_string_escapes_round_trip() {
    let doc = parse_text(r#"["line\nbreak", "quote\"backslash\\", "\u0007bell"]"#).unwrap();
    let text = render_text(&doc);
    let doc2 = parse_text(&text).unwrap();
    assert_eq!(doc, doc2);
}

#[test]
fn test_malformed_json_is_rejected() {
    assert!(parse_text("not a json").is_none());
    assert!(parse_text("{\"unterminated\": ").is_none());
    assert!(parse_text("[1,]").is_none());
    assert!(parse_text("05").is_none());
}

#[test]
fn test_unknown_operator_rejected() {
    let json = r#"{"key": "k", "operator": "frobnicates", "type": "person"}"#;
    let doc = parse_text(json).unwrap();
    assert!(filter_from_json(&doc).is_none());
}

#[test]
fn test_payload_lookup() {
    let flag = sample_flag();
    let payload = flag.get_payload("control");
    assert_eq!(payload, Some(JsonValue::Str("payload".to_string())));
    assert!(flag.get_payload("missing").is_none());
}

#[test]
fn test_get_variants_present_and_absent() {
    let flag = sample_flag();
    let variants = flag.get_variants();
    assert_eq!(variants.len(), 1);
    assert_eq!(variants[0].key, "control");
    assert_eq!(variants[0].name, Some("Control Group".to_string()));

    let mut bare = sample_flag();
    bare.filters.multivariate = None;
    assert_eq!(bare.get_variants().len(), 0);
}

#[test]
fn test_json_number_validation() {
    assert!(JsonNumber::new("33.33".to_string()).is_some());
    assert!(JsonNumber::new("0".to_string()).is_some());
    assert!(JsonNumber::new("-12e+4".to_string()).is_some());
    assert!(JsonNumber::new("05".to_string()).is_none());
    assert!(JsonNumber::new("1.".to_string()).is_none());
    assert!(JsonNumber::new("abc".to_string()).is_none());
    assert!(JsonNumber::new("".to_string()).is_none());
}

#[test]
fn test_json_number_as_integer() {
    let n = JsonNumber::new("9223372036854775807".to_string()).unwrap();
    assert_eq!(n.as_i64(), Some(i64::MAX));
    let m = JsonNumber::new("-9223372036854775808".to_string()).unwrap();
    assert_eq!(m.as_i64(), Some(i64::MIN));
    let big = JsonNumber::new("9223372036854775808".to_string()).unwrap();
    assert_eq!(big.as_i64(), None);
    let frac = JsonNumber::new("3.5".to_string()).unwrap();
    assert_eq!(frac.as_i64(), None);
}

#[test]
fn test_flag_id_boundaries() {
    let mk = |key: &str| PropertyFilter {
        key: key.to_string(),
        value: None,
        operator: None,
        prop_type: PropertyType::Flag,
        group_type_index: None,
    };
    assert_eq!(mk("2147483647").get_feature_flag_id(), Some(i32::MAX));
    assert_eq!(mk("-2147483648").get_feature_flag_id(), Some(i32::MIN));
    assert_eq!(mk("2147483648").get_feature_flag_id(), None);
    assert_eq!(mk("+7").get_feature_flag_id(), Some(7));
    assert_eq!(mk("007").get_feature_flag_id(), Some(7));
    assert_eq!(mk("").get_feature_flag_id(), None);
}

#[test]
fn test_trailing_whitespace_accepted() {
    assert!(parse_text("[1, 2]  \n").is_some());
    assert!(parse_text("  [1, 2]").is_some());
    assert!(parse_text("[1, 2] x").is_none());
}
