use stats_refresh::engine::{process_record, FetchOutcome, PageItem, RecordOutcome};
use stats_refresh::model::{Bounds, CategoryHistory, Observation, RatingHistory, Record};
use stats_refresh::store::{sweep_keys, MemStore};

fn record(key: &str) -> Record {
    Record {
        key: key.to_string(),
        display_name: key.to_string(),
        history: RatingHistory { categories: vec![] },
    }
}

fn five_records() -> MemStore {
    MemStore {
        records: vec![record("ash"), record("misty"), record("brock"), record("may"), record("dawn")],
    }
}

#[test]
fn sweep_visits_every_key_once_for_any_page_size() {
    let store = five_records();
    let expected = vec!["ash", "misty", "brock", "may", "dawn"];
    for page_size in [1usize, 2, 3, 5, 50] {
        let keys = sweep_keys(&store, page_size);
        assert_eq!(keys, expected, "page size {}", page_size);
    }
}

#[test]
fn sweep_of_an_empty_store_visits_nothing() {
    let store = MemStore::new();
    assert!(sweep_keys(&store, 3).is_empty());
}

#[test]
fn scan_pages_chain_through_cursors() {
    let store = five_records();
    let (page1, cursor1) = store.scan(None, 2);
    assert_eq!(page1.len(), 2);
    assert_eq!(page1[0].key, "ash");
    assert_eq!(page1[1].key, "misty");
    assert_eq!(cursor1, Some(2));
    let (page2, cursor2) = store.scan(cursor1, 2);
    assert_eq!(page2.len(), 2);
    assert_eq!(page2[0].key, "brock");
    assert_eq!(cursor2, Some(4));
    let (page3, cursor3) = store.scan(cursor2, 2);
    assert_eq!(page3.len(), 1);
    assert_eq!(page3[0].key, "dawn");
    assert_eq!(cursor3, None);
}

#[test]
fn get_finds_only_stored_keys() {
    let store = five_records();
    assert_eq!(store.get(&"brock".to_string()).map(|r| r.display_name.as_str()), Some("brock"));
    assert!(store.get(&"giovanni".to_string()).is_none());
}

fn clone_record(r: &Record) -> Record {
    Record {
        key: r.key.clone(),
        display_name: r.display_name.clone(),
        history: RatingHistory {
            categories: r
                .history
                .categories
                .iter()
                .map(|c| CategoryHistory { name: c.name.clone(), observations: c.observations.clone() })
                .collect(),
        },
    }
}

#[test]
fn full_sweep_writes_back_only_changed_records() {
    // Two tracked players; the source reports a new value for one of them.
    let bits = |x: f64| x.to_bits();
    let bounds = Bounds { min: bits(1000.0), max: bits(10000.0) };
    let mut store = MemStore {
        records: vec![
            Record {
                key: "ash".to_string(),
                display_name: "Ash".to_string(),
                history: RatingHistory {
                    categories: vec![CategoryHistory {
                        name: "ou".to_string(),
                        observations: vec![Observation { time: 100, value: bits(1500.0) }],
                    }],
                },
            },
            Record {
                key: "misty".to_string(),
                display_name: "Misty".to_string(),
                history: RatingHistory {
                    categories: vec![CategoryHistory {
                        name: "ou".to_string(),
                        observations: vec![Observation { time: 100, value: bits(1700.0) }],
                    }],
                },
            },
        ],
    };
    let body_for = |key: &str| -> String {
        if key == "ash" {
            r#"{"username":"Ash","ratings":{"ou":{"elo":1620.0}}}"#.to_string()
        } else {
            r#"{"username":"Misty","ratings":{"ou":{"elo":1700.0}}}"#.to_string()
        }
    };

    let mut cursor = None;
    let mut writes = 0;
    loop {
        let mut updates: Vec<Record> = Vec::new();
        let next;
        {
            let (page, n) = store.scan(cursor, 1);
            next = n;
            for stored in page {
                let item = PageItem::Ready {
                    record: clone_record(stored),
                    fetch: FetchOutcome::Found(body_for(&stored.key)),
                };
                if let RecordOutcome::Updated(rec) = process_record(item, 200, &bounds) {
                    updates.push(rec);
                }
            }
        }
        for rec in updates {
            writes += 1;
            store.put(rec);
        }
        match next {
            Some(c) => cursor = Some(c),
            None => break,
        }
    }

    assert_eq!(writes, 1);
    let ash = store.get(&"ash".to_string()).unwrap();
    let obs = &ash.history.categories[0].observations;
    assert_eq!(obs.len(), 2);
    assert_eq!(obs[1], Observation { time: 200, value: bits(1620.0) });
    let misty = store.get(&"misty".to_string()).unwrap();
    assert_eq!(misty.history.categories[0].observations.len(), 1);
}

#[test]
fn put_overwrites_by_key_and_appends_new_keys() {
    let mut store = five_records();
    let mut updated = record("misty");
    updated.display_name = "Misty".to_string();
    store.put(updated);
    assert_eq!(store.records.len(), 5);
    assert_eq!(store.records[1].display_name, "Misty");

    store.put(record("giovanni"));
    assert_eq!(store.records.len(), 6);
    assert_eq!(store.records[5].key, "giovanni");
}
