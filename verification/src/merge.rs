//! Merge policy: the pure decision function that folds a freshly fetched
//! snapshot into a stored rating history, appending an observation per
//! category only when its value changed and lies inside the accepted bounds.

use vstd::prelude::*;

use crate::model::{
    distinct_names, lemma_map_of_dom, lemma_map_of_index, lemma_map_of_push, lemma_map_of_update,
    Bounds, CategoryHistory, Observation, RatingHistory, Record,
};

verus! {

/// One category's freshly fetched value.
#[derive(Debug)]
pub struct CategoryValue {
    pub name: String,
    pub value: u64,
}

/// The freshly fetched, not-yet-merged rating data for one record.
#[derive(Debug)]
pub struct Snapshot {
    /// The human-readable name the source reported.
    pub display_name: String,
    /// Fetched value per category.
    pub entries: Vec<CategoryValue>,
}

impl Snapshot {
    /// The entries as the merge policy sees them: name and value pairs.
    pub open spec fn entries_view(self) -> Seq<(Seq<char>, u64)> {
        self.entries@.map_values(|e: CategoryValue| (e.name@, e.value))
    }

    /// No category is listed twice.
    pub open spec fn wf(self) -> bool {
        forall|i: int, j: int|
            0 <= i < j < self.entries@.len() ==> self.entries@[i].name@ != self.entries@[j].name@
    }
}

/// Whether folding `value` for category `name` into `h` would change it:
/// the value is accepted and the category is absent, empty, or ends on a
/// different value.
pub open spec fn entry_changes(
    h: Map<Seq<char>, Seq<Observation>>,
    name: Seq<char>,
    value: u64,
    bounds: Bounds,
) -> bool {
    bounds.spec_accepts(value) && (!h.dom().contains(name) || h[name].len() == 0
        || h[name].last().value != value)
}

/// Fold one accepted value into the history map.
pub open spec fn merge_one(
    h: Map<Seq<char>, Seq<Observation>>,
    name: Seq<char>,
    value: u64,
    now: u64,
) -> Map<Seq<char>, Seq<Observation>> {
    if !h.dom().contains(name) {
        h.insert(name, seq![Observation { time: now, value }])
    } else if h[name].len() == 0 || h[name].last().value != value {
        h.insert(name, h[name].push(Observation { time: now, value }))
    } else {
        h
    }
}

/// Fold one snapshot entry into the history map: rejected values leave the
/// history untouched.
pub open spec fn merge_entry(
    h: Map<Seq<char>, Seq<Observation>>,
    name: Seq<char>,
    value: u64,
    now: u64,
    bounds: Bounds,
) -> Map<Seq<char>, Seq<Observation>> {
    if bounds.spec_accepts(value) {
        merge_one(h, name, value, now)
    } else {
        h
    }
}

/// Fold a whole snapshot, in entry order, into the history map.
pub open spec fn merge_map(
    h: Map<Seq<char>, Seq<Observation>>,
    entries: Seq<(Seq<char>, u64)>,
    now: u64,
    bounds: Bounds,
) -> Map<Seq<char>, Seq<Observation>>
    decreases entries.len(),
{
    if entries.len() == 0 {
        h
    } else {
        merge_entry(
            merge_map(h, entries.drop_last(), now, bounds),
            entries.last().0,
            entries.last().1,
            now,
            bounds,
        )
    }
}

/// Whether folding the whole snapshot changes the history anywhere.
pub open spec fn merge_changed(
    h: Map<Seq<char>, Seq<Observation>>,
    entries: Seq<(Seq<char>, u64)>,
    now: u64,
    bounds: Bounds,
) -> bool
    decreases entries.len(),
{
    if entries.len() == 0 {
        false
    } else {
        merge_changed(h, entries.drop_last(), now, bounds) || entry_changes(
            merge_map(h, entries.drop_last(), now, bounds),
            entries.last().0,
            entries.last().1,
            bounds,
        )
    }
}

/// The observations key `k` held before the merge: its sequence in `h`, or
/// empty when the key was absent.
pub open spec fn prior_obs(h: Map<Seq<char>, Seq<Observation>>, k: Seq<char>) -> Seq<Observation> {
    if h.dom().contains(k) {
        h[k]
    } else {
        Seq::empty()
    }
}

/// Every observation sequence is sorted by non-decreasing time.
pub open spec fn hist_sorted(h: Map<Seq<char>, Seq<Observation>>) -> bool {
    forall|k: Seq<char>, i: int, j: int|
        h.dom().contains(k) && 0 <= i <= j < h[k].len() ==> #[trigger] h[k][i].time
            <= #[trigger] h[k][j].time
}

/// Every observation is timestamped at or before `t`.
pub open spec fn hist_at_or_before(h: Map<Seq<char>, Seq<Observation>>, t: u64) -> bool {
    forall|k: Seq<char>, i: int|
        h.dom().contains(k) && 0 <= i < h[k].len() ==> #[trigger] h[k][i].time <= t
}

proof fn lemma_prefix_trans(a: Seq<Observation>, b: Seq<Observation>, c: Seq<Observation>)
    requires
        a.is_prefix_of(b),
        b.is_prefix_of(c),
    ensures
        a.is_prefix_of(c),
{
    assert forall|i: int| 0 <= i < a.len() implies a[i] == c[i] by {
        assert(a[i] == b.subrange(0, a.len() as int)[i]);
        assert(b[i] == c.subrange(0, b.len() as int)[i]);
    }
    assert(a =~= c.subrange(0, a.len() as int));
}

/// Folding entries cannot disturb a key that none of them names, nor can an
/// unrelated binding at such a key affect what the fold does elsewhere.
proof fn lemma_merge_frame(
    h: Map<Seq<char>, Seq<Observation>>,
    entries: Seq<(Seq<char>, u64)>,
    now: u64,
    bounds: Bounds,
    k: Seq<char>,
    obs: Seq<Observation>,
)
    requires
        forall|i: int| 0 <= i < entries.len() ==> (#[trigger] entries[i]).0 != k,
    ensures
        merge_map(h.insert(k, obs), entries, now, bounds) == merge_map(
            h,
            entries,
            now,
            bounds,
        ).insert(k, obs),
        merge_changed(h.insert(k, obs), entries, now, bounds) == merge_changed(
            h,
            entries,
            now,
            bounds,
        ),
    decreases entries.len(),
{
    if entries.len() == 0 {
        assert(merge_map(h.insert(k, obs), entries, now, bounds) =~= merge_map(
            h,
            entries,
            now,
            bounds,
        ).insert(k, obs));
    } else {
        let es = entries.drop_last();
        let e = entries.last();
        assert(forall|i: int| 0 <= i < es.len() ==> es[i] == entries[i]);
        lemma_merge_frame(h, es, now, bounds, k, obs);
        let m = merge_map(h, es, now, bounds);
        let mi = m.insert(k, obs);
        assert(e.0 != k);
        assert(mi.dom().contains(e.0) == m.dom().contains(e.0));
        if m.dom().contains(e.0) {
            assert(mi[e.0] == m[e.0]);
        }
        if bounds.spec_accepts(e.1) {
            if !m.dom().contains(e.0) {
                assert(mi.insert(e.0, seq![Observation { time: now, value: e.1 }]) =~= m.insert(
                    e.0,
                    seq![Observation { time: now, value: e.1 }],
                ).insert(k, obs));
            } else if m[e.0].len() == 0 || m[e.0].last().value != e.1 {
                assert(mi.insert(e.0, m[e.0].push(Observation { time: now, value: e.1 }))
                    =~= m.insert(e.0, m[e.0].push(Observation { time: now, value: e.1 })).insert(
                    k,
                    obs,
                ));
            }
        }
    }
}

/// Append-only: merging never removes a category, never drops or rewrites an
/// observation, and everything it appends is an accepted value stamped `now`.
pub proof fn lemma_merge_append_only(
    h: Map<Seq<char>, Seq<Observation>>,
    entries: Seq<(Seq<char>, u64)>,
    now: u64,
    bounds: Bounds,
)
    ensures
        forall|k: Seq<char>|
            h.dom().contains(k) ==> #[trigger] merge_map(h, entries, now, bounds).dom().contains(
                k,
            ),
        forall|k: Seq<char>|
            #[trigger] merge_map(h, entries, now, bounds).dom().contains(k) ==> prior_obs(
                h,
                k,
            ).is_prefix_of(merge_map(h, entries, now, bounds)[k]),
        forall|k: Seq<char>, i: int|
            #![trigger merge_map(h, entries, now, bounds)[k][i]]
            merge_map(h, entries, now, bounds).dom().contains(k) && prior_obs(h, k).len() <= i
                < merge_map(h, entries, now, bounds)[k].len() ==> merge_map(
                h,
                entries,
                now,
                bounds,
            )[k][i].time == now && bounds.spec_accepts(merge_map(h, entries, now, bounds)[k][i].value),
    decreases entries.len(),
{
    if entries.len() == 0 {
        assert forall|k: Seq<char>| #[trigger]
            merge_map(h, entries, now, bounds).dom().contains(k) implies prior_obs(
            h,
            k,
        ).is_prefix_of(merge_map(h, entries, now, bounds)[k]) by {
            assert(prior_obs(h, k) =~= h[k].subrange(0, h[k].len() as int));
        }
    } else {
        let es = entries.drop_last();
        let e = entries.last();
        lemma_merge_append_only(h, es, now, bounds);
        let m = merge_map(h, es, now, bounds);
        let m2 = merge_map(h, entries, now, bounds);
        let fresh = Observation { time: now, value: e.1 };
        if bounds.spec_accepts(e.1) && !m.dom().contains(e.0) {
            assert(m2 == m.insert(e.0, seq![fresh]));
            assert(!h.dom().contains(e.0));
            assert(prior_obs(h, e.0).is_prefix_of(seq![fresh])) by {
                assert(prior_obs(h, e.0) =~= seq![fresh].subrange(0, 0));
            }
        } else if bounds.spec_accepts(e.1) && (m[e.0].len() == 0 || m[e.0].last().value != e.1) {
            assert(m2 == m.insert(e.0, m[e.0].push(fresh)));
            assert(prior_obs(h, e.0).is_prefix_of(m[e.0]));
            assert(m[e.0].is_prefix_of(m[e.0].push(fresh))) by {
                assert(m[e.0] =~= m[e.0].push(fresh).subrange(0, m[e.0].len() as int));
            }
            lemma_prefix_trans(prior_obs(h, e.0), m[e.0], m[e.0].push(fresh));
        } else {
            assert(m2 == m);
        }
    }
}

/// Ordered: when the history is sorted by time and `now` is no earlier than
/// anything recorded, the merged history is sorted too, and still bounded by
/// `now`.
pub proof fn lemma_merge_ordered(
    h: Map<Seq<char>, Seq<Observation>>,
    entries: Seq<(Seq<char>, u64)>,
    now: u64,
    bounds: Bounds,
)
    requires
        hist_sorted(h),
        hist_at_or_before(h, now),
    ensures
        hist_sorted(merge_map(h, entries, now, bounds)),
        hist_at_or_before(merge_map(h, entries, now, bounds), now),
{
    lemma_merge_append_only(h, entries, now, bounds);
    let m2 = merge_map(h, entries, now, bounds);
    assert forall|k: Seq<char>, i: int|
        m2.dom().contains(k) && 0 <= i < m2[k].len() implies #[trigger] m2[k][i].time <= now by {
        let p = prior_obs(h, k);
        assert(p.is_prefix_of(m2[k]));
        if i < p.len() {
            assert(h.dom().contains(k));
            assert(p[i] == m2[k].subrange(0, p.len() as int)[i]);
            assert(m2[k][i] == h[k][i]);
            assert(h[k][i].time <= now);
        } else {
            assert(m2[k][i].time == now);
        }
    }
    assert forall|k: Seq<char>, i: int, j: int|
        m2.dom().contains(k) && 0 <= i <= j < m2[k].len() implies #[trigger] m2[k][i].time
        <= #[trigger] m2[k][j].time by {
        let p = prior_obs(h, k);
        assert(p.is_prefix_of(m2[k]));
        if j < p.len() {
            assert(h.dom().contains(k));
            assert(p[i] == m2[k].subrange(0, p.len() as int)[i]);
            assert(p[j] == m2[k].subrange(0, p.len() as int)[j]);
            assert(m2[k][i] == h[k][i]);
            assert(m2[k][j] == h[k][j]);
            assert(h[k][i].time <= h[k][j].time);
        } else {
            assert(m2[k][j].time == now);
            assert(m2[k][i].time <= now);
        }
    }
}

/// Bounds rejection: an observation of the merged history either already stood
/// in the input history, or holds a value the bounds accept.
pub proof fn lemma_merge_bounds(
    h: Map<Seq<char>, Seq<Observation>>,
    entries: Seq<(Seq<char>, u64)>,
    now: u64,
    bounds: Bounds,
)
    ensures
        forall|k: Seq<char>, i: int|
            #![trigger merge_map(h, entries, now, bounds)[k][i]]
            merge_map(h, entries, now, bounds).dom().contains(k) && 0 <= i < merge_map(
                h,
                entries,
                now,
                bounds,
            )[k].len() ==> (h.dom().contains(k) && i < h[k].len() && merge_map(
                h,
                entries,
                now,
                bounds,
            )[k][i] == h[k][i]) || bounds.spec_accepts(merge_map(h, entries, now, bounds)[k][i].value),
{
    lemma_merge_append_only(h, entries, now, bounds);
    let m2 = merge_map(h, entries, now, bounds);
    assert forall|k: Seq<char>, i: int|
        m2.dom().contains(k) && 0 <= i < m2[k].len() implies (h.dom().contains(k) && i < h[k].len()
        && #[trigger] m2[k][i] == h[k][i]) || bounds.spec_accepts(m2[k][i].value) by {
        let p = prior_obs(h, k);
        assert(p.is_prefix_of(m2[k]));
        if i < p.len() {
            assert(p[i] == m2[k].subrange(0, p.len() as int)[i]);
        }
    }
}

/// Chaining sweeps: a history bounded by one sweep's timestamp is bounded by
/// any later one's, so `lemma_merge_ordered` applies to every sweep of a
/// timestamp-increasing sequence in turn.
pub proof fn lemma_hist_at_or_before_mono(
    h: Map<Seq<char>, Seq<Observation>>,
    t1: u64,
    t2: u64,
)
    requires
        hist_at_or_before(h, t1),
        t1 <= t2,
    ensures
        hist_at_or_before(h, t2),
{
    assert forall|k: Seq<char>, i: int|
        h.dom().contains(k) && 0 <= i < h[k].len() implies #[trigger] h[k][i].time <= t2 by {
        assert(h[k][i].time <= t1);
    }
}

/// A reported change is a real one: when the merge reports `changed`, some
/// category's observation sequence grew.
pub proof fn lemma_changed_means_growth(
    h: Map<Seq<char>, Seq<Observation>>,
    entries: Seq<(Seq<char>, u64)>,
    now: u64,
    bounds: Bounds,
)
    requires
        merge_changed(h, entries, now, bounds),
    ensures
        exists|k: Seq<char>|
            #![trigger merge_map(h, entries, now, bounds)[k]]
            merge_map(h, entries, now, bounds).dom().contains(k) && merge_map(
                h,
                entries,
                now,
                bounds,
            )[k].len() > prior_obs(h, k).len(),
    decreases entries.len(),
{
    let es = entries.drop_last();
    let e = entries.last();
    let m_es = merge_map(h, es, now, bounds);
    let m = merge_map(h, entries, now, bounds);
    if entry_changes(m_es, e.0, e.1, bounds) {
        lemma_merge_append_only(h, es, now, bounds);
        assert(m.dom().contains(e.0));
        if m_es.dom().contains(e.0) {
            assert(m[e.0].len() == m_es[e.0].len() + 1);
            assert(prior_obs(h, e.0).is_prefix_of(m_es[e.0]));
        } else {
            assert(!h.dom().contains(e.0));
            assert(m[e.0].len() == 1);
        }
        assert(m[e.0].len() > prior_obs(h, e.0).len());
    } else {
        lemma_changed_means_growth(h, es, now, bounds);
        let k = choose|k: Seq<char>|
            #![trigger m_es[k]]
            m_es.dom().contains(k) && m_es[k].len() > prior_obs(h, k).len();
        assert(m.dom().contains(k));
        assert(m[k].len() >= m_es[k].len());
    }
}

/// Rejected snapshots are ignored outright: when no entry's value is accepted,
/// the merge neither changes the history nor reports a change.
pub proof fn lemma_merge_rejected_ignored(
    h: Map<Seq<char>, Seq<Observation>>,
    entries: Seq<(Seq<char>, u64)>,
    now: u64,
    bounds: Bounds,
)
    requires
        forall|i: int| 0 <= i < entries.len() ==> !bounds.spec_accepts((#[trigger] entries[i]).1),
    ensures
        merge_map(h, entries, now, bounds) == h,
        !merge_changed(h, entries, now, bounds),
    decreases entries.len(),
{
    if entries.len() > 0 {
        assert(forall|i: int| 0 <= i < entries.drop_last().len() ==> entries.drop_last()[i]
            == entries[i]);
        lemma_merge_rejected_ignored(h, entries.drop_last(), now, bounds);
    }
}

/// No reported change, no write needed: a merge that reports `changed = false`
/// returned the history exactly as it was.
pub proof fn lemma_merge_unchanged(
    h: Map<Seq<char>, Seq<Observation>>,
    entries: Seq<(Seq<char>, u64)>,
    now: u64,
    bounds: Bounds,
)
    requires
        !merge_changed(h, entries, now, bounds),
    ensures
        merge_map(h, entries, now, bounds) == h,
    decreases entries.len(),
{
    if entries.len() > 0 {
        lemma_merge_unchanged(h, entries.drop_last(), now, bounds);
    }
}

/// Per-category characterization: with distinct entry names, the merged
/// history is, category by category, exactly what the rules say. A category
/// no entry names keeps its binding; a named category gets an observation
/// appended exactly when its entry would change it.
pub proof fn lemma_merge_pointwise(
    h: Map<Seq<char>, Seq<Observation>>,
    entries: Seq<(Seq<char>, u64)>,
    now: u64,
    bounds: Bounds,
    k: Seq<char>,
)
    requires
        forall|i: int, j: int|
            0 <= i < j < entries.len() ==> (#[trigger] entries[i]).0 != (#[trigger] entries[j]).0,
    ensures
        (forall|i: int| 0 <= i < entries.len() ==> (#[trigger] entries[i]).0 != k) ==> (merge_map(
            h,
            entries,
            now,
            bounds,
        ).dom().contains(k) == h.dom().contains(k) && (h.dom().contains(k) ==> merge_map(
            h,
            entries,
            now,
            bounds,
        )[k] == h[k])),
        forall|i: int|
            0 <= i < entries.len() && (#[trigger] entries[i]).0 == k ==> {
                let v = entries[i].1;
                if entry_changes(h, k, v, bounds) {
                    merge_map(h, entries, now, bounds).dom().contains(k) && merge_map(
                        h,
                        entries,
                        now,
                        bounds,
                    )[k] == prior_obs(h, k).push(Observation { time: now, value: v })
                } else {
                    merge_map(h, entries, now, bounds).dom().contains(k) == h.dom().contains(k) && (
                    h.dom().contains(k) ==> merge_map(h, entries, now, bounds)[k] == h[k])
                }
            },
    decreases entries.len(),
{
    if entries.len() > 0 {
        let es = entries.drop_last();
        let e = entries.last();
        assert(forall|i: int| 0 <= i < es.len() ==> es[i] == entries[i]);
        lemma_merge_pointwise(h, es, now, bounds, k);
        let m_es = merge_map(h, es, now, bounds);
        let m = merge_map(h, entries, now, bounds);
        if e.0 == k {
            assert(forall|i: int| 0 <= i < es.len() ==> (#[trigger] es[i]).0 != k);
            assert(m_es.dom().contains(k) == h.dom().contains(k));
            if h.dom().contains(k) {
                assert(m_es[k] == h[k]);
            }
            assert(entry_changes(m_es, k, e.1, bounds) == entry_changes(h, k, e.1, bounds));
        } else {
            if m_es.dom().contains(k) {
                assert(m.dom().contains(k) && m[k] == m_es[k]);
            } else {
                assert(!m.dom().contains(k));
            }
        }
    }
}

/// Exact no-op detection: with distinct entry names, the merge reports a
/// change exactly when some entry's accepted value would create its category
/// or extend it with a different value.
pub proof fn lemma_merge_changed_iff(
    h: Map<Seq<char>, Seq<Observation>>,
    entries: Seq<(Seq<char>, u64)>,
    now: u64,
    bounds: Bounds,
)
    requires
        forall|i: int, j: int|
            0 <= i < j < entries.len() ==> (#[trigger] entries[i]).0 != (#[trigger] entries[j]).0,
    ensures
        merge_changed(h, entries, now, bounds) <==> exists|i: int|
            0 <= i < entries.len() && entry_changes(
                h,
                (#[trigger] entries[i]).0,
                entries[i].1,
                bounds,
            ),
    decreases entries.len(),
{
    if entries.len() > 0 {
        let es = entries.drop_last();
        let e = entries.last();
        assert(forall|i: int| 0 <= i < es.len() ==> es[i] == entries[i]);
        lemma_merge_changed_iff(h, es, now, bounds);
        lemma_merge_pointwise(h, es, now, bounds, e.0);
        let m_es = merge_map(h, es, now, bounds);
        assert(forall|i: int| 0 <= i < es.len() ==> (#[trigger] es[i]).0 != e.0);
        assert(entry_changes(m_es, e.0, e.1, bounds) == entry_changes(h, e.0, e.1, bounds));
        if merge_changed(h, entries, now, bounds) {
            if merge_changed(h, es, now, bounds) {
                let i = choose|i: int|
                    0 <= i < es.len() && entry_changes(
                        h,
                        (#[trigger] es[i]).0,
                        es[i].1,
                        bounds,
                    );
                assert(entry_changes(h, entries[i].0, entries[i].1, bounds));
            } else {
                assert(entry_changes(h, entries[entries.len() - 1].0, e.1, bounds));
            }
        } else if exists|i: int|
            0 <= i < entries.len() && entry_changes(
                h,
                (#[trigger] entries[i]).0,
                entries[i].1,
                bounds,
            ) {
            let i = choose|i: int|
                0 <= i < entries.len() && entry_changes(
                    h,
                    (#[trigger] entries[i]).0,
                    entries[i].1,
                    bounds,
                );
            if i < entries.len() - 1 {
                assert(entry_changes(h, es[i].0, es[i].1, bounds));
            }
            assert(false);
        }
    }
}

/// Order independence: the merge is a function of the category-to-value
/// mapping the snapshot denotes, not of the order its entries arrive in. Two
/// distinct-keyed entry sequences holding the same pairs merge alike.
pub proof fn lemma_merge_order_independent(
    h: Map<Seq<char>, Seq<Observation>>,
    e1: Seq<(Seq<char>, u64)>,
    e2: Seq<(Seq<char>, u64)>,
    now: u64,
    bounds: Bounds,
)
    requires
        forall|i: int, j: int|
            0 <= i < j < e1.len() ==> (#[trigger] e1[i]).0 != (#[trigger] e1[j]).0,
        forall|i: int, j: int|
            0 <= i < j < e2.len() ==> (#[trigger] e2[i]).0 != (#[trigger] e2[j]).0,
        forall|i: int| 0 <= i < e1.len() ==> e2.contains(#[trigger] e1[i]),
        forall|i: int| 0 <= i < e2.len() ==> e1.contains(#[trigger] e2[i]),
    ensures
        merge_map(h, e1, now, bounds) == merge_map(h, e2, now, bounds),
        merge_changed(h, e1, now, bounds) == merge_changed(h, e2, now, bounds),
{
    let m1 = merge_map(h, e1, now, bounds);
    let m2 = merge_map(h, e2, now, bounds);
    assert forall|k: Seq<char>|
        #![trigger m1.dom().contains(k), m2.dom().contains(k)]
        true implies m1.dom().contains(k) == m2.dom().contains(k) && (m1.dom().contains(k)
        ==> m1[k] == m2[k]) by {
        lemma_merge_pointwise(h, e1, now, bounds, k);
        lemma_merge_pointwise(h, e2, now, bounds, k);
        if exists|i: int| 0 <= i < e1.len() && (#[trigger] e1[i]).0 == k {
            let i = choose|i: int| 0 <= i < e1.len() && (#[trigger] e1[i]).0 == k;
            assert(e2.contains(e1[i]));
            let j = choose|j: int| 0 <= j < e2.len() && e2[j] == e1[i];
            assert(e2[j].0 == k && e2[j].1 == e1[i].1);
        } else if exists|i: int| 0 <= i < e2.len() && (#[trigger] e2[i]).0 == k {
            let i = choose|i: int| 0 <= i < e2.len() && (#[trigger] e2[i]).0 == k;
            assert(e1.contains(e2[i]));
            let j = choose|j: int| 0 <= j < e1.len() && e1[j] == e2[i];
            assert(false);
        }
    }
    assert(m1 =~= m2);
    lemma_merge_changed_iff(h, e1, now, bounds);
    lemma_merge_changed_iff(h, e2, now, bounds);
    if merge_changed(h, e1, now, bounds) {
        let i = choose|i: int|
            0 <= i < e1.len() && entry_changes(h, (#[trigger] e1[i]).0, e1[i].1, bounds);
        assert(e2.contains(e1[i]));
        let j = choose|j: int| 0 <= j < e2.len() && e2[j] == e1[i];
        assert(entry_changes(h, e2[j].0, e2[j].1, bounds));
    }
    if merge_changed(h, e2, now, bounds) {
        let i = choose|i: int|
            0 <= i < e2.len() && entry_changes(h, (#[trigger] e2[i]).0, e2[i].1, bounds);
        assert(e1.contains(e2[i]));
        let j = choose|j: int| 0 <= j < e1.len() && e1[j] == e2[i];
        assert(entry_changes(h, e1[j].0, e1[j].1, bounds));
    }
}

/// Merge idempotence: merging the same snapshot a second time, at any later
/// (or any other) timestamp, changes nothing and reports no change, provided
/// the snapshot names each category at most once.
pub proof fn lemma_merge_idempotent(
    h: Map<Seq<char>, Seq<Observation>>,
    entries: Seq<(Seq<char>, u64)>,
    t1: u64,
    t2: u64,
    bounds: Bounds,
)
    requires
        forall|i: int, j: int|
            0 <= i < j < entries.len() ==> (#[trigger] entries[i]).0 != (#[trigger] entries[j]).0,
    ensures
        merge_map(merge_map(h, entries, t1, bounds), entries, t2, bounds) == merge_map(
            h,
            entries,
            t1,
            bounds,
        ),
        !merge_changed(merge_map(h, entries, t1, bounds), entries, t2, bounds),
    decreases entries.len(),
{
    if entries.len() > 0 {
        let es = entries.drop_last();
        let e = entries.last();
        assert(forall|i: int| 0 <= i < es.len() ==> es[i] == entries[i]);
        assert(forall|i: int| 0 <= i < es.len() ==> (#[trigger] es[i]).0 != e.0);
        lemma_merge_idempotent(h, es, t1, t2, bounds);
        let h1 = merge_map(h, es, t1, bounds);
        let h1e = merge_map(h, entries, t1, bounds);
        if entry_changes(h1, e.0, e.1, bounds) {
            let x = if !h1.dom().contains(e.0) {
                seq![Observation { time: t1, value: e.1 }]
            } else {
                h1[e.0].push(Observation { time: t1, value: e.1 })
            };
            assert(h1e == h1.insert(e.0, x));
            lemma_merge_frame(h1, es, t2, bounds, e.0, x);
            assert(merge_map(h1e, es, t2, bounds) == merge_map(h1, es, t2, bounds).insert(e.0, x));
            assert(merge_map(h1e, es, t2, bounds) == h1e);
            assert(x.len() > 0 && x.last().value == e.1);
            assert(merge_map(h1e, entries, t2, bounds) == h1e);
            assert(!entry_changes(merge_map(h1e, es, t2, bounds), e.0, e.1, bounds));
            assert(!merge_changed(h1e, es, t2, bounds));
        } else {
            assert(h1e == h1);
            assert(merge_map(h1e, es, t2, bounds) == h1);
            assert(merge_map(h1e, entries, t2, bounds) == h1);
            assert(!merge_changed(h1e, entries, t2, bounds));
        }
    }
}

/// The merged history and whether it differs from the input.
#[derive(Debug)]
pub struct MergeResult {
    pub history: RatingHistory,
    pub changed: bool,
}

/// Fold a fetched snapshot into a rating history.
///
/// For every snapshot entry whose value the bounds accept: a category absent
/// from the history is created with one observation at `now`; a category whose
/// last observation holds a different value gets one appended at `now`; a
/// category already ending on the same value is left alone. Rejected values
/// and categories the snapshot does not mention are left untouched.
pub fn merge(history: RatingHistory, snapshot: &Snapshot, now: u64, bounds: &Bounds) -> (r:
    MergeResult)
    requires
        history.wf(),
    ensures
        r.history.wf(),
        r.history.as_map() == merge_map(history.as_map(), snapshot.entries_view(), now, *bounds),
        r.changed == merge_changed(history.as_map(), snapshot.entries_view(), now, *bounds),
{
    let ghost h0 = history.as_map();
    let ghost ev = snapshot.entries_view();
    let mut hist = history;
    let mut changed = false;
    let n = snapshot.entries.len();
    for idx in 0..n
        invariant
            n == snapshot.entries@.len(),
            ev == snapshot.entries_view(),
            h0 == merge_map(h0, ev.take(0), now, *bounds),
            hist.wf(),
            hist.as_map() == merge_map(h0, ev.take(idx as int), now, *bounds),
            changed == merge_changed(h0, ev.take(idx as int), now, *bounds),
    {
        let entry = &snapshot.entries[idx];
        proof {
            assert(ev.take(idx + 1).drop_last() =~= ev.take(idx as int));
            assert(ev.take(idx + 1).last() == (entry.name@, entry.value));
        }
        if bounds.accepts(entry.value) {
            proof {
                lemma_map_of_dom(hist.categories@, entry.name@);
            }
            match hist.find(&entry.name) {
                Some(i) => {
                    proof {
                        lemma_map_of_index(hist.categories@, i as int);
                    }
                    let obs_len = hist.categories[i].observations.len();
                    if obs_len == 0 || hist.categories[i].observations[obs_len - 1].value
                        != entry.value {
                        let ghost old_cats = hist.categories@;
                        let obs = Observation { time: now, value: entry.value };
                        hist.categories[i].observations.push(obs);
                        changed = true;
                        proof {
                            let cat = hist.categories@[i as int];
                            assert(hist.categories@ =~= old_cats.update(i as int, cat));
                            assert(distinct_names(hist.categories@)) by {
                                assert(forall|k: int|
                                    0 <= k < hist.categories@.len() ==> hist.categories@[k].name@
                                        == old_cats[k].name@);
                            }
                            lemma_map_of_update(old_cats, i as int, cat);
                        }
                    }
                },
                None => {
                    let ghost old_cats = hist.categories@;
                    let mut obs: Vec<Observation> = Vec::new();
                    obs.push(Observation { time: now, value: entry.value });
                    let cat = CategoryHistory { name: entry.name.clone(), observations: obs };
                    proof {
                        assert(cat.observations@ =~= seq![
                            Observation { time: now, value: entry.value },
                        ]);
                    }
                    hist.categories.push(cat);
                    changed = true;
                    proof {
                        assert(hist.categories@ =~= old_cats.push(cat));
                        lemma_map_of_push(old_cats, cat);
                    }
                },
            }
        }
    }
    proof {
        assert(ev.take(n as int) =~= ev);
    }
    MergeResult { history: hist, changed }
}

/// Create the record for a newly tracked player from its first snapshot: the
/// key is the normalized display name, and the history is the snapshot folded
/// into an empty history (so creation obeys the same bounds as every refresh).
pub fn new_record(snapshot: &Snapshot, now: u64, bounds: &Bounds) -> (r: Record)
    ensures
        r.key@ == crate::normalize::normalized(snapshot.display_name@),
        r.display_name@ == snapshot.display_name@,
        r.wf(),
        r.history.as_map() == merge_map(
            Map::<Seq<char>, Seq<Observation>>::empty(),
            snapshot.entries_view(),
            now,
            *bounds,
        ),
{
    let key = crate::normalize::to_id(snapshot.display_name.as_str());
    let result = merge(RatingHistory::new(), snapshot, now, bounds);
    Record { key, display_name: snapshot.display_name.clone(), history: result.history }
}

} // verus!
