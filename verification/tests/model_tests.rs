use feature_flags::json::{JsonNumber, JsonValue};
use feature_flags::model::{
    extract_feature_flag_dependency, DependencyProvider, DependencyType, FeatureFlag, FlagFilters,
    FlagPropertyGroup, PropertyFilter, PropertyType,
};

fn filter(key: &str, prop_type: PropertyType, value: Option<JsonValue>) -> PropertyFilter {
    PropertyFilter {
        key: key.to_string(),
        value,
        operator: None,
        prop_type,
        group_type_index: None,
    }
}

fn num(text: &str) -> JsonValue {
    JsonValue::Num(JsonNumber { text: text.to_string() })
}

fn flag_with_filters(id: i32, groups: Vec<FlagPropertyGroup>) -> FeatureFlag {
    FeatureFlag {
        id,
        team_id: 1,
        name: None,
        key: "f".to_string(),
        filters: FlagFilters {
            groups,
            multivariate: None,
            aggregation_group_type_index: None,
            payloads: None,
            super_groups: None,
            holdout_groups: None,
        },
        deleted: false,
        active: true,
        ensure_experience_continuity: false,
        version: None,
    }
}

#[test]
fn test_is_cohort_requires_id_key_and_cohort_type() {
    assert!(filter("id", PropertyType::Cohort, None).is_cohort());
    assert!(!filter("id", PropertyType::Person, None).is_cohort());
    assert!(!filter("email", PropertyType::Cohort, None).is_cohort());
}

#[test]
fn test_cohort_id_extraction() {
    // a numeric value yields the cohort id
    let f = filter("id", PropertyType::Cohort, Some(num("123")));
    assert_eq!(f.get_cohort_id(), Some(123));
    // a string value holding an integer yields the cohort id too
    let s = filter("id", PropertyType::Cohort, Some(JsonValue::Str("123".to_string())));
    assert_eq!(s.get_cohort_id(), Some(123));
    // a non-numeric value yields none, not an error
    let g = filter("id", PropertyType::Cohort, Some(JsonValue::Str("abc".to_string())));
    assert_eq!(g.get_cohort_id(), None);
    // an absent value yields none
    let h = filter("id", PropertyType::Cohort, None);
    assert_eq!(h.get_cohort_id(), None);
    // a fractional value yields none, as a number or as a string
    let i = filter("id", PropertyType::Cohort, Some(num("12.5")));
    assert_eq!(i.get_cohort_id(), None);
    let i2 = filter("id", PropertyType::Cohort, Some(JsonValue::Str("12.5".to_string())));
    assert_eq!(i2.get_cohort_id(), None);
    // a non-cohort filter yields none even with a numeric value
    let j = filter("id", PropertyType::Person, Some(num("123")));
    assert_eq!(j.get_cohort_id(), None);
}

#[test]
fn test_feature_flag_id_extraction() {
    let f = filter("41", PropertyType::Flag, None);
    assert!(f.depends_on_feature_flag());
    assert_eq!(f.get_feature_flag_id(), Some(41));
    assert_eq!(extract_feature_flag_dependency(&f), Some(41));

    let g = filter("not_a_number", PropertyType::Flag, None);
    assert_eq!(g.get_feature_flag_id(), None);

    let h = filter("41", PropertyType::Person, None);
    assert!(!h.depends_on_feature_flag());
    assert_eq!(h.get_feature_flag_id(), None);
    assert_eq!(extract_feature_flag_dependency(&h), None);
}

#[test]
fn test_extract_dependencies_collects_flag_ids() {
    // three flag filters with numeric keys (one repeated), several others
    let groups = vec![
        FlagPropertyGroup {
            properties: Some(vec![
                filter("11", PropertyType::Flag, None),
                filter("22", PropertyType::Flag, None),
                filter("email", PropertyType::Person, None),
                filter("id", PropertyType::Cohort, Some(num("99"))),
            ]),
            rollout_percentage: None,
        },
        FlagPropertyGroup {
            properties: Some(vec![
                filter("11", PropertyType::Flag, None),
                filter("broken", PropertyType::Flag, None),
            ]),
            rollout_percentage: None,
        },
        FlagPropertyGroup { properties: None, rollout_percentage: None },
    ];
    let flag = flag_with_filters(7, groups);
    let deps = flag.extract_dependencies().expect("extraction succeeds");
    assert_eq!(deps.len(), 2);
    assert!(deps.contains(&11));
    assert!(deps.contains(&22));
    // the cohort reference is not a flag dependency
    assert!(!deps.contains(&99));
}

#[test]
fn test_extract_dependencies_empty_for_plain_flag() {
    let flag = flag_with_filters(7, vec![]);
    let deps = flag.extract_dependencies().expect("extraction succeeds");
    assert_eq!(deps.len(), 0);
}

#[test]
fn test_dependency_provider_capability() {
    let flag = flag_with_filters(
        31,
        vec![FlagPropertyGroup {
            properties: Some(vec![filter("12", PropertyType::Flag, None)]),
            rollout_percentage: None,
        }],
    );
    assert_eq!(flag.get_id(), 31);
    let deps = DependencyProvider::extract_dependencies(&flag).expect("capability extraction");
    assert!(deps.contains(&12));
    assert_eq!(
        <FeatureFlag as DependencyProvider>::dependency_type(),
        DependencyType::Flag
    );
}

#[test]
fn test_accessors() {
    let mut flag = flag_with_filters(1, vec![FlagPropertyGroup {
        properties: Some(vec![]),
        rollout_percentage: Some(JsonNumber { text: "50".to_string() }),
    }]);
    flag.filters.aggregation_group_type_index = Some(0);
    assert_eq!(flag.get_group_type_index(), Some(0));
    let conditions = flag.get_conditions();
    assert_eq!(conditions.len(), 1);
    assert_eq!(
        conditions[0].rollout_percentage,
        Some(JsonNumber { text: "50".to_string() })
    );
}
