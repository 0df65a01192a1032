use stats_refresh::merge::{merge, new_record, CategoryValue, Snapshot};
use stats_refresh::model::{Bounds, CategoryHistory, Observation, RatingHistory};

fn bits(x: f64) -> u64 {
    x.to_bits()
}

fn default_bounds() -> Bounds {
    Bounds { min: bits(1000.0), max: bits(10000.0) }
}

fn history_one(name: &str, time: u64, value: u64) -> RatingHistory {
    RatingHistory {
        categories: vec![CategoryHistory {
            name: name.to_string(),
            observations: vec![Observation { time, value }],
        }],
    }
}

fn snapshot_one(display: &str, name: &str, value: u64) -> Snapshot {
    Snapshot {
        display_name: display.to_string(),
        entries: vec![CategoryValue { name: name.to_string(), value }],
    }
}

#[test]
fn same_value_is_no_change() {
    let h = history_one("ou", 100, bits(1500.0));
    let s = snapshot_one("Ash", "ou", bits(1500.0));
    let r = merge(h, &s, 200, &default_bounds());
    assert!(!r.changed);
    assert_eq!(r.history.categories.len(), 1);
    assert_eq!(r.history.categories[0].observations.len(), 1);
    assert_eq!(r.history.categories[0].observations[0], Observation { time: 100, value: bits(1500.0) });
}

#[test]
fn new_value_is_appended() {
    let h = history_one("ou", 100, bits(1500.0));
    let s = snapshot_one("Ash", "ou", bits(1620.0));
    let r = merge(h, &s, 200, &default_bounds());
    assert!(r.changed);
    let obs = &r.history.categories[0].observations;
    assert_eq!(obs.len(), 2);
    assert_eq!(obs[0], Observation { time: 100, value: bits(1500.0) });
    assert_eq!(obs[1], Observation { time: 200, value: bits(1620.0) });
}

#[test]
fn absent_category_is_created() {
    let h = history_one("ou", 100, bits(1500.0));
    let s = snapshot_one("Ash", "uu", bits(1333.0));
    let r = merge(h, &s, 200, &default_bounds());
    assert!(r.changed);
    assert_eq!(r.history.categories.len(), 2);
    assert_eq!(r.history.categories[1].name, "uu");
    assert_eq!(r.history.categories[1].observations.len(), 1);
    assert_eq!(r.history.categories[1].observations[0], Observation { time: 200, value: bits(1333.0) });
    let looked_up = r.history.get(&"uu".to_string()).expect("category was created");
    assert_eq!(looked_up[0], Observation { time: 200, value: bits(1333.0) });
    assert!(r.history.get(&"ru".to_string()).is_none());
}

#[test]
fn merge_is_idempotent() {
    let h = history_one("ou", 100, bits(1500.0));
    let s = Snapshot {
        display_name: "Ash".to_string(),
        entries: vec![
            CategoryValue { name: "ou".to_string(), value: bits(1620.0) },
            CategoryValue { name: "uu".to_string(), value: bits(1333.0) },
        ],
    };
    let first = merge(h, &s, 200, &default_bounds());
    assert!(first.changed);
    let obs_after_first: Vec<Vec<Observation>> =
        first.history.categories.iter().map(|c| c.observations.clone()).collect();
    let second = merge(first.history, &s, 300, &default_bounds());
    assert!(!second.changed);
    let obs_after_second: Vec<Vec<Observation>> =
        second.history.categories.iter().map(|c| c.observations.clone()).collect();
    assert_eq!(obs_after_first, obs_after_second);
}

#[test]
fn out_of_bounds_value_is_rejected() {
    let h = history_one("ou", 100, bits(1500.0));
    let low = snapshot_one("Ash", "ou", bits(999.0));
    let r = merge(h, &low, 200, &default_bounds());
    assert!(!r.changed);
    assert_eq!(r.history.categories[0].observations.len(), 1);

    let h2 = history_one("ou", 100, bits(1500.0));
    let high = snapshot_one("Ash", "ou", bits(10001.0));
    let r2 = merge(h2, &high, 200, &default_bounds());
    assert!(!r2.changed);
    assert_eq!(r2.history.categories[0].observations.len(), 1);
}

#[test]
fn changed_reflects_only_accepted_categories() {
    let h = history_one("ou", 100, bits(1500.0));
    let s = Snapshot {
        display_name: "Ash".to_string(),
        entries: vec![
            CategoryValue { name: "ou".to_string(), value: bits(1500.0) },
            CategoryValue { name: "uu".to_string(), value: bits(30000.0) },
        ],
    };
    let r = merge(h, &s, 200, &default_bounds());
    assert!(!r.changed);
    assert_eq!(r.history.categories.len(), 1);
}

#[test]
fn observations_stay_sorted_over_sweeps() {
    let mut hist = history_one("ou", 100, bits(1500.0));
    let values = [1620.0, 1480.0, 1480.0, 2000.0];
    let mut now = 200;
    for v in values {
        let s = snapshot_one("Ash", "ou", bits(v));
        let r = merge(hist, &s, now, &default_bounds());
        hist = r.history;
        now += 100;
    }
    let obs = &hist.categories[0].observations;
    assert_eq!(obs.len(), 4);
    for w in obs.windows(2) {
        assert!(w[0].time <= w[1].time);
    }
    assert_eq!(obs[3], Observation { time: 500, value: bits(2000.0) });
}

#[test]
fn empty_snapshot_changes_nothing() {
    let h = history_one("ou", 100, bits(1500.0));
    let s = Snapshot { display_name: "Ash".to_string(), entries: vec![] };
    let r = merge(h, &s, 200, &default_bounds());
    assert!(!r.changed);
    assert_eq!(r.history.categories.len(), 1);
}

#[test]
fn new_record_from_first_snapshot() {
    let s = Snapshot {
        display_name: "Ash Ketchum!".to_string(),
        entries: vec![
            CategoryValue { name: "ou".to_string(), value: bits(1500.0) },
            CategoryValue { name: "uu".to_string(), value: bits(99.0) },
        ],
    };
    let r = new_record(&s, 700, &default_bounds());
    assert_eq!(r.key, "ashketchum");
    assert_eq!(r.display_name, "Ash Ketchum!");
    assert_eq!(r.history.categories.len(), 1);
    assert_eq!(r.history.categories[0].name, "ou");
    assert_eq!(r.history.categories[0].observations[0], Observation { time: 700, value: bits(1500.0) });
    assert!(r.history.is_wf());
}
