use feature_flags::index::{
    run_over_table, Directive, FetchOutcome, FilterBuilder, PropertyRow, TrieEntry,
    BATCH_FETCH_SIZE, MAX_BATCH_FETCH_ATTEMPTS, TEAM_PROPDEFS_CAP,
};

fn page(team_id: i64, start: i64, n: i64) -> Vec<PropertyRow> {
    let mut rows = Vec::new();
    let mut i: i64 = 0;
    while i < n {
        rows.push(PropertyRow {
            team_id,
            name: format!("prop_{}", start + i),
            prop_type: 1,
            group_type_index: if (start + i) % 2 == 0 { None } else { Some(3) },
        });
        i += 1;
    }
    rows
}

#[test]
fn test_trie_entry_new_and_from_row() {
    let e = TrieEntry::new("height".to_string(), '1', 'X');
    assert_eq!(e.property_type, '1');
    assert_eq!(e.group_type_index, 'X');
    assert_eq!(e.property_name, "height");

    let r = PropertyRow {
        team_id: 2,
        name: "plan".to_string(),
        prop_type: 2,
        group_type_index: Some(7),
    };
    let e2 = TrieEntry::from_row(r);
    assert_eq!(e2.property_type, '2');
    assert_eq!(e2.group_type_index, '7');
    assert_eq!(e2.property_name, "plan");
    assert_eq!(e2.key_string(), "27plan");

    let r3 = PropertyRow {
        team_id: 2,
        name: "referrer".to_string(),
        prop_type: 0,
        group_type_index: None,
    };
    let e3 = TrieEntry::from_row(r3);
    assert_eq!(e3.key_string(), "0Xreferrer");
}

#[test]
fn test_key_encoding_partitions_types() {
    // the same name under two types gives two distinct keys
    let a = TrieEntry::new("name".to_string(), '1', 'X');
    let b = TrieEntry::new("name".to_string(), '2', 'X');
    assert_ne!(a.key_string(), b.key_string());
    // and the discriminators are fixed width: no concatenation collision
    let c = TrieEntry::new("2name".to_string(), '1', 'X');
    assert_ne!(a.key_string(), c.key_string());
}

#[test]
fn test_complete_run_builds_index() {
    let mut b = FilterBuilder::new(2);
    assert_eq!(b.offset, 0);
    let d = b.on_fetch_outcome(FetchOutcome::Rows(page(2, 0, 3)), 1000);
    match d {
        Directive::FetchPage { offset } => assert_eq!(offset, BATCH_FETCH_SIZE),
        other => panic!("expected a next page fetch, got {:?}", directive_name(&other)),
    }
    assert!(b.contains_key("1Xprop_0"));
    assert!(b.contains_key("13prop_1"));
    assert!(!b.contains_key("1Xprop_7"));
    let d2 = b.on_fetch_outcome(FetchOutcome::Rows(Vec::new()), 2000);
    match d2 {
        Directive::Persist { record } => {
            assert_eq!(record.team_id, 2);
            assert!(!record.blocked);
            assert_eq!(record.definition_count, 3);
            assert_eq!(record.last_updated_at, 2000);
            assert!(record.trie_blob.is_some());
        },
        other => panic!("expected persist, got {:?}", directive_name(&other)),
    }
}

#[test]
fn test_duplicate_names_counted_once() {
    let mut b = FilterBuilder::new(2);
    let mut rows = page(2, 0, 2);
    rows.extend(page(2, 0, 2));
    b.on_fetch_outcome(FetchOutcome::Rows(rows), 0);
    match b.on_fetch_outcome(FetchOutcome::Rows(Vec::new()), 0) {
        Directive::Persist { record } => assert_eq!(record.definition_count, 2),
        other => panic!("expected persist, got {:?}", directive_name(&other)),
    }
}

#[test]
fn test_empty_team_persists_empty_record() {
    let mut b = FilterBuilder::new(9);
    match b.on_fetch_outcome(FetchOutcome::Rows(Vec::new()), 5) {
        Directive::Persist { record } => {
            assert!(!record.blocked);
            assert_eq!(record.definition_count, 0);
            assert!(record.trie_blob.is_none());
        },
        other => panic!("expected persist, got {:?}", directive_name(&other)),
    }
}

#[test]
fn test_cardinality_cap_blocks_team() {
    // a team whose definition count exceeds the cap, scanned in full
    // fixed-size pages, ends blocked with the cap as its count
    let mut b = FilterBuilder::new(3);
    let pages = TEAM_PROPDEFS_CAP / BATCH_FETCH_SIZE;
    let mut p: i64 = 0;
    loop {
        let start = p * BATCH_FETCH_SIZE;
        let d = b.on_fetch_outcome(
            FetchOutcome::Rows(page(3, start, BATCH_FETCH_SIZE)),
            42,
        );
        p += 1;
        if p < pages {
            match d {
                Directive::FetchPage { offset } => assert_eq!(offset, p * BATCH_FETCH_SIZE),
                other => panic!("expected a next page fetch, got {:?}", directive_name(&other)),
            }
        } else {
            match d {
                Directive::Persist { record } => {
                    assert!(record.blocked);
                    assert_eq!(record.definition_count, TEAM_PROPDEFS_CAP as u64);
                    assert_eq!(record.last_updated_at, 42);
                },
                other => panic!("expected a blocked persist, got {:?}", directive_name(&other)),
            }
            break;
        }
    }
}

#[test]
fn test_transient_failures_within_budget_recover() {
    // exactly (attempt budget - 1) transient failures, then success:
    // the run completes normally
    let mut b = FilterBuilder::new(4);
    let mut attempt: u64 = 1;
    while attempt < MAX_BATCH_FETCH_ATTEMPTS {
        match b.on_fetch_outcome(FetchOutcome::TransientError, 0) {
            Directive::RetryAfter { delay_ms } => {
                assert!(delay_ms >= attempt * 100);
                assert!(delay_ms < attempt * 100 + 50);
            },
            other => panic!("expected a retry, got {:?}", directive_name(&other)),
        }
        attempt += 1;
    }
    b.on_fetch_outcome(FetchOutcome::Rows(page(4, 0, 5)), 0);
    match b.on_fetch_outcome(FetchOutcome::Rows(Vec::new()), 0) {
        Directive::Persist { record } => {
            assert!(!record.blocked);
            assert_eq!(record.definition_count, 5);
        },
        other => panic!("expected persist, got {:?}", directive_name(&other)),
    }
}

#[test]
fn test_exhausted_retry_budget_fails_run() {
    // attempt-budget failures in a row: the run fails and nothing is
    // persisted
    let mut b = FilterBuilder::new(4);
    let mut attempt: u64 = 1;
    while attempt < MAX_BATCH_FETCH_ATTEMPTS {
        match b.on_fetch_outcome(FetchOutcome::TransientError, 0) {
            Directive::RetryAfter { delay_ms: _ } => (),
            other => panic!("expected a retry, got {:?}", directive_name(&other)),
        }
        attempt += 1;
    }
    match b.on_fetch_outcome(FetchOutcome::TransientError, 0) {
        Directive::GiveUp => (),
        other => panic!("expected the run to give up, got {:?}", directive_name(&other)),
    }
}

#[test]
fn test_whole_run_over_small_table() {
    let table = page(6, 0, 7);
    match run_over_table(6, &table, 77) {
        Directive::Persist { record } => {
            assert_eq!(record.team_id, 6);
            assert!(!record.blocked);
            assert_eq!(record.definition_count, 7);
            assert_eq!(record.last_updated_at, 77);
        },
        other => panic!("expected persist, got {:?}", directive_name(&other)),
    }
}

#[test]
fn test_whole_run_over_oversized_table_blocks() {
    // a table with more definitions than the cap: the whole run ends
    // blocked with the cap boundary, not the larger true total
    let table = page(6, 0, TEAM_PROPDEFS_CAP + 1);
    match run_over_table(6, &table, 5) {
        Directive::Persist { record } => {
            assert!(record.blocked);
            assert_eq!(record.definition_count, TEAM_PROPDEFS_CAP as u64);
            assert_eq!(record.last_updated_at, 5);
        },
        other => panic!("expected a blocked persist, got {:?}", directive_name(&other)),
    }
}

fn directive_name(d: &Directive) -> &'static str {
    match d {
        Directive::FetchPage { .. } => "fetch_page",
        Directive::RetryAfter { .. } => "retry_after",
        Directive::Persist { .. } => "persist",
        Directive::GiveUp => "give_up",
    }
}
