use stats_refresh::engine::{
    process_page, process_record, Engine, EngineConfig, FetchOutcome, PageAction, PageItem,
    RecordOutcome, SweepAction, DEFAULT_MAX_RATING, DEFAULT_MIN_RATING,
};
use stats_refresh::model::{Bounds, CategoryHistory, Observation, RatingHistory, Record};

fn bits(x: f64) -> u64 {
    x.to_bits()
}

fn default_bounds() -> Bounds {
    Bounds { min: bits(1000.0), max: bits(10000.0) }
}

fn ash_record() -> Record {
    Record {
        key: "ash".to_string(),
        display_name: "Ash".to_string(),
        history: RatingHistory {
            categories: vec![CategoryHistory {
                name: "ou".to_string(),
                observations: vec![Observation { time: 100, value: bits(1500.0) }],
            }],
        },
    }
}

fn found(body: &str) -> FetchOutcome {
    FetchOutcome::Found(body.to_string())
}

#[test]
fn unchanged_value_skips_the_write() {
    let item = PageItem::Ready {
        record: ash_record(),
        fetch: found(r#"{"username":"Ash","ratings":{"ou":{"elo":1500.0}}}"#),
    };
    let out = process_record(item, 200, &default_bounds());
    assert!(matches!(out, RecordOutcome::Unchanged));
}

#[test]
fn changed_value_issues_a_write() {
    let item = PageItem::Ready {
        record: ash_record(),
        fetch: found(r#"{"username":"Ash","ratings":{"ou":{"elo":1620.0}}}"#),
    };
    let out = process_record(item, 200, &default_bounds());
    match out {
        RecordOutcome::Updated(rec) => {
            assert_eq!(rec.key, "ash");
            assert_eq!(rec.display_name, "Ash");
            let obs = &rec.history.categories[0].observations;
            assert_eq!(obs.len(), 2);
            assert_eq!(obs[0], Observation { time: 100, value: bits(1500.0) });
            assert_eq!(obs[1], Observation { time: 200, value: bits(1620.0) });
        },
        other => panic!("expected an update, got {:?}", other),
    }
}

#[test]
fn not_registered_skips_without_error() {
    let item = PageItem::Ready { record: ash_record(), fetch: FetchOutcome::NotRegistered };
    let out = process_record(item, 200, &default_bounds());
    assert!(matches!(out, RecordOutcome::SkippedNotRegistered));
}

#[test]
fn transient_error_skips_without_error() {
    let item = PageItem::Ready { record: ash_record(), fetch: FetchOutcome::TransientError };
    let out = process_record(item, 200, &default_bounds());
    assert!(matches!(out, RecordOutcome::SkippedTransient));
}

#[test]
fn corrupt_payload_is_skipped() {
    let out = process_record(PageItem::Corrupt, 200, &default_bounds());
    assert!(matches!(out, RecordOutcome::SkippedCorrupt));
}

#[test]
fn unusable_response_is_skipped() {
    let item = PageItem::Ready { record: ash_record(), fetch: found("<html>rate limited</html>") };
    let out = process_record(item, 200, &default_bounds());
    assert!(matches!(out, RecordOutcome::SkippedBadResponse));
}

#[test]
fn three_records() {
    // Fault isolation: the middle record's fetch fails transiently; the other
    // two are still processed and the eligible one still reports its update.
    let changed = PageItem::Ready {
        record: ash_record(),
        fetch: found(r#"{"username":"Ash","ratings":{"ou":{"elo":1620.0}}}"#),
    };
    let failing = PageItem::Ready { record: ash_record(), fetch: FetchOutcome::TransientError };
    let same = PageItem::Ready {
        record: ash_record(),
        fetch: found(r#"{"username":"Ash","ratings":{"ou":{"elo":1500.0}}}"#),
    };
    let outcomes = process_page(vec![changed, failing, same], &default_bounds());
    assert_eq!(outcomes.len(), 3);
    assert!(matches!(outcomes[0], RecordOutcome::Updated(_)));
    assert!(matches!(outcomes[1], RecordOutcome::SkippedTransient));
    assert!(matches!(outcomes[2], RecordOutcome::Unchanged));
}

#[test]
fn default_bounds_encode_the_documented_range() {
    assert_eq!(DEFAULT_MIN_RATING, bits(1000.0));
    assert_eq!(DEFAULT_MAX_RATING, bits(10000.0));
    let config = EngineConfig::default();
    assert_eq!(config.page_size, 50);
    assert_eq!(config.min_page_gap_ms, 1000);
    assert_eq!(config.min_sweep_ms, 60000);
    assert_eq!(config.scan_backoff_ms, 3_600_000);
}

#[test]
fn fast_page_is_paced_to_the_minimum_gap() {
    let mut engine: Engine<usize> = Engine::new(EngineConfig::default());
    let action = engine.on_page_ok(Some(7), &vec![], 300);
    assert_eq!(action, PageAction::NextPage { delay_ms: 700 });
    assert_eq!(engine.cursor, Some(7));
}

#[test]
fn slow_page_is_not_delayed() {
    let mut engine: Engine<usize> = Engine::new(EngineConfig::default());
    let action = engine.on_page_ok(Some(7), &vec![], 2500);
    assert_eq!(action, PageAction::NextPage { delay_ms: 0 });
}

#[test]
fn exhausted_table_completes_the_sweep() {
    let mut engine: Engine<usize> = Engine::new(EngineConfig::default());
    let action = engine.on_page_ok(None, &vec![], 300);
    assert_eq!(action, PageAction::SweepComplete);
    assert_eq!(engine.cursor, None);
}

#[test]
fn scan_error_keeps_the_cursor_and_backs_off() {
    let mut engine: Engine<usize> = Engine::new(EngineConfig::default());
    engine.on_page_ok(Some(7), &vec![], 300);
    let delay = engine.on_scan_error();
    assert_eq!(delay, 3_600_000);
    assert_eq!(engine.cursor, Some(7));
}

#[test]
fn fast_sweep_is_paced_to_the_minimum_duration() {
    let mut engine: Engine<usize> = Engine::new(EngineConfig::default());
    let (action, _) = engine.on_sweep_complete(10_000);
    assert_eq!(action, SweepAction::NextSweep { delay_ms: 50_000 });
    assert_eq!(engine.cursor, None);
}

#[test]
fn slow_sweep_starts_the_next_at_once() {
    let mut engine: Engine<usize> = Engine::new(EngineConfig::default());
    let (action, _) = engine.on_sweep_complete(75_000);
    assert_eq!(action, SweepAction::NextSweep { delay_ms: 0 });
}

#[test]
fn stop_request_ends_after_the_current_page() {
    let mut engine: Engine<usize> = Engine::new(EngineConfig::default());
    engine.request_stop();
    let action = engine.on_page_ok(Some(7), &vec![], 300);
    assert_eq!(action, PageAction::Stop);
    let (sweep_action, _) = engine.on_sweep_complete(10);
    assert_eq!(sweep_action, SweepAction::Stop);
}

#[test]
fn sweep_stats_tally_the_outcomes() {
    let mut engine: Engine<usize> = Engine::new(EngineConfig::default());
    let outcomes = vec![
        RecordOutcome::Updated(ash_record()),
        RecordOutcome::Unchanged,
        RecordOutcome::SkippedTransient,
        RecordOutcome::SkippedCorrupt,
        RecordOutcome::Unchanged,
    ];
    engine.on_page_ok(Some(5), &outcomes, 100);
    engine.on_page_ok(None, &vec![RecordOutcome::Unchanged], 100);
    let (_, stats) = engine.on_sweep_complete(1000);
    assert_eq!(stats.pages, 2);
    assert_eq!(stats.processed, 6);
    assert_eq!(stats.updated, 1);
    assert_eq!(stats.unchanged, 3);
    assert_eq!(stats.skipped, 2);
    // the tallies reset for the next sweep
    assert_eq!(engine.stats.processed, 0);
}
