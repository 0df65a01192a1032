//! Refresh engine: drives the sweep over the record store page by page,
//! processes every record of a page independently, paces page fetches and
//! whole sweeps to configured minimum durations, backs off without moving the
//! cursor when a scan page fails, and honours cooperative shutdown between
//! pages and sweeps.
//!
//! The engine is a state machine: the surrounding process performs the store
//! scans, fetches and sleeps, and hands the results back through the `on_*`
//! methods, which decide what happens next.

use vstd::prelude::*;

use crate::merge::{merge, merge_changed, merge_map};
use crate::model::{Bounds, Record};
use crate::source::{json_of, obj_member, parse_snapshot, ratings_of, str_of, entries_match};

verus! {

/// Relies on `std::time::SystemTime::now` and `duration_since` against the
/// Unix epoch: seconds since the epoch by the system clock, or 0 should the
/// clock read before the epoch. Nothing can be promised of a clock reading.
#[verifier::external_body]
pub fn get_current_timestamp() -> u64 {
    match std::time::SystemTime::now().duration_since(std::time::SystemTime::UNIX_EPOCH) {
        Ok(d) => d.as_secs(),
        Err(_) => 0,
    }
}

/// Default page size of a store scan.
pub const DEFAULT_PAGE_SIZE: usize = 50;

/// Default minimum gap between page fetches, in milliseconds.
pub const DEFAULT_MIN_PAGE_GAP_MS: u64 = 1000;

/// Default minimum duration of one full sweep, in milliseconds.
pub const DEFAULT_MIN_SWEEP_MS: u64 = 60000;

/// Default backoff after a failed scan page, in milliseconds (one hour).
pub const DEFAULT_SCAN_BACKOFF_MS: u64 = 3600000;

/// Default least accepted rating value: the 64-bit encoding of one thousand.
pub const DEFAULT_MIN_RATING: u64 = 0x408F400000000000;

/// Default greatest accepted rating value: the 64-bit encoding of ten
/// thousand.
pub const DEFAULT_MAX_RATING: u64 = 0x40C3880000000000;

/// Engine configuration: scan page size, pacing minima, scan backoff, and the
/// rating bounds the merge policy enforces.
#[derive(Clone, Copy, PartialEq, Eq, Structural, Debug)]
pub struct EngineConfig {
    pub page_size: usize,
    pub min_page_gap_ms: u64,
    pub min_sweep_ms: u64,
    pub scan_backoff_ms: u64,
    pub bounds: Bounds,
}

impl Default for EngineConfig {
    /// The configuration the refresh engine runs with when nothing overrides
    /// it.
    fn default() -> (r: EngineConfig)
        ensures
            r == (EngineConfig {
                page_size: DEFAULT_PAGE_SIZE,
                min_page_gap_ms: DEFAULT_MIN_PAGE_GAP_MS,
                min_sweep_ms: DEFAULT_MIN_SWEEP_MS,
                scan_backoff_ms: DEFAULT_SCAN_BACKOFF_MS,
                bounds: Bounds { min: DEFAULT_MIN_RATING, max: DEFAULT_MAX_RATING },
            }),
    {
        EngineConfig {
            page_size: DEFAULT_PAGE_SIZE,
            min_page_gap_ms: DEFAULT_MIN_PAGE_GAP_MS,
            min_sweep_ms: DEFAULT_MIN_SWEEP_MS,
            scan_backoff_ms: DEFAULT_SCAN_BACKOFF_MS,
            bounds: Bounds { min: DEFAULT_MIN_RATING, max: DEFAULT_MAX_RATING },
        }
    }
}

/// What a fetch against the stats source came back with.
#[derive(Debug)]
pub enum FetchOutcome {
    /// The source answered with a response body.
    Found(String),
    /// The identifier is not registered with the source.
    NotRegistered,
    /// The source was unreachable, slow, or answered abnormally.
    TransientError,
}

/// One record of a scan page, ready for processing.
#[derive(Debug)]
pub enum PageItem {
    /// The stored payload could not be decoded.
    Corrupt,
    /// The decoded record together with the fetch made for its key.
    Ready { record: Record, fetch: FetchOutcome },
}

/// How processing one record of a page ended.
#[derive(Debug)]
pub enum RecordOutcome {
    /// The merge reported a change: this record must be written back.
    Updated(Record),
    /// Nothing new: the write is skipped.
    Unchanged,
    /// The stored payload could not be decoded; skipped.
    SkippedCorrupt,
    /// The source does not know the identifier; skipped.
    SkippedNotRegistered,
    /// The fetch failed transiently; skipped until the next sweep.
    SkippedTransient,
    /// The source's response was not a usable ratings document; skipped.
    SkippedBadResponse,
}

/// A ready record is well-formed when its decoded history is.
pub open spec fn item_wf(item: PageItem) -> bool {
    item matches PageItem::Ready { record, fetch } ==> record.wf()
}

/// Whether a response body has the shape a snapshot is drawn from: a JSON
/// object with a "username" string and a "ratings" object.
pub open spec fn snapshot_shape_ok(j: Option<crate::source::JsonVal>) -> bool {
    j matches Some(v) && str_of(obj_member(v, "username"@)) is Some && ratings_of(v) is Some
}

/// Whether `entries` is a snapshot drawn from the body's "ratings" object.
pub open spec fn snapshot_matches(
    j: Option<crate::source::JsonVal>,
    entries: Seq<(Seq<char>, u64)>,
) -> bool {
    j matches Some(v) && ratings_of(v) matches Some(rm) && entries_match(entries, rm)
}

/// The outcome owed once a snapshot with these entries was merged: `Updated`
/// with exactly the merged history when the merge reports a change (key and
/// display name kept), `Unchanged` otherwise.
pub open spec fn merged_outcome_ok(
    record: Record,
    entries: Seq<(Seq<char>, u64)>,
    r: RecordOutcome,
    now: u64,
    bounds: Bounds,
) -> bool {
    if merge_changed(record.history.as_map(), entries, now, bounds) {
        r matches RecordOutcome::Updated(rec2) && rec2.key@ == record.key@ && rec2.display_name@
            == record.display_name@ && rec2.wf() && rec2.history.as_map() == merge_map(
            record.history.as_map(),
            entries,
            now,
            bounds,
        )
    } else {
        r is Unchanged
    }
}

/// The outcome owed for a record whose fetch answered with this body.
pub open spec fn found_outcome_ok(
    record: Record,
    body: Seq<char>,
    r: RecordOutcome,
    now: u64,
    bounds: Bounds,
) -> bool {
    if !snapshot_shape_ok(json_of(body)) {
        r is SkippedBadResponse
    } else {
        exists|entries: Seq<(Seq<char>, u64)>|
            #![trigger snapshot_matches(json_of(body), entries)]
            snapshot_matches(json_of(body), entries) && merged_outcome_ok(
                record,
                entries,
                r,
                now,
                bounds,
            )
    }
}

/// The outcome owed for one page item: corrupt payloads and failed or empty
/// fetches are skipped, each with its own reason; a usable response is merged.
pub open spec fn item_outcome_ok(item: PageItem, r: RecordOutcome, now: u64, bounds: Bounds) -> bool {
    match item {
        PageItem::Corrupt => r is SkippedCorrupt,
        PageItem::Ready { record, fetch } => match fetch {
            FetchOutcome::NotRegistered => r is SkippedNotRegistered,
            FetchOutcome::TransientError => r is SkippedTransient,
            FetchOutcome::Found(body) => found_outcome_ok(record, body@, r, now, bounds),
        },
    }
}

/// Process one record of a page: merge the fetched snapshot into its decoded
/// history and report whether a write-back is owed. A failure at any stage
/// only skips this record, with its reason.
///
/// The record's stored key is the source of truth for its identity; the
/// display name the source reports is not applied here.
pub fn process_record(item: PageItem, now: u64, bounds: &Bounds) -> (r: RecordOutcome)
    requires
        item_wf(item),
    ensures
        item_outcome_ok(item, r, now, *bounds),
{
    match item {
        PageItem::Corrupt => RecordOutcome::SkippedCorrupt,
        PageItem::Ready { record, fetch } => match fetch {
            FetchOutcome::NotRegistered => RecordOutcome::SkippedNotRegistered,
            FetchOutcome::TransientError => RecordOutcome::SkippedTransient,
            FetchOutcome::Found(body) => {
                match parse_snapshot(body.as_str()) {
                    Err(_) => RecordOutcome::SkippedBadResponse,
                    Ok(snapshot) => {
                        let ghost entries = snapshot.entries_view();
                        proof {
                            assert(snapshot_matches(json_of(body@), entries));
                        }
                        let result = merge(record.history, &snapshot, now, bounds);
                        if result.changed {
                            RecordOutcome::Updated(
                                Record {
                                    key: record.key,
                                    display_name: record.display_name,
                                    history: result.history,
                                },
                            )
                        } else {
                            RecordOutcome::Unchanged
                        }
                    },
                }
            },
        },
    }
}

/// The outcome owed for one page item, at the (unknown) moment the clock was
/// read for it.
pub open spec fn item_outcome_ok_sometime(item: PageItem, r: RecordOutcome, bounds: Bounds) -> bool {
    exists|now: u64| item_outcome_ok(item, r, now, bounds)
}

/// Process every record of one page, independently: the outcome of each item
/// answers for that item alone, whatever happened to its neighbours. The
/// timestamp of each merge is read from the clock as its record is processed.
#[verifier::loop_isolation(false)]
pub fn process_page(items: Vec<PageItem>, bounds: &Bounds) -> (r: Vec<RecordOutcome>)
    requires
        forall|i: int| 0 <= i < items@.len() ==> item_wf(#[trigger] items@[i]),
    ensures
        r@.len() == items@.len(),
        forall|i: int|
            0 <= i < items@.len() ==> item_outcome_ok_sometime(#[trigger] items@[i], r@[i], *bounds),
{
    let ghost iv = items@;
    let mut remaining = items;
    let mut outcomes: Vec<RecordOutcome> = Vec::new();
    let ghost mut times: Seq<u64> = Seq::empty();
    while remaining.len() > 0
        invariant
            outcomes@.len() + remaining@.len() == iv.len(),
            remaining@ == iv.skip(outcomes@.len() as int),
            times.len() == outcomes@.len(),
            forall|i: int| 0 <= i < iv.len() ==> item_wf(#[trigger] iv[i]),
            forall|i: int|
                0 <= i < outcomes@.len() ==> item_outcome_ok(
                    #[trigger] iv[i],
                    outcomes@[i],
                    times[i],
                    *bounds,
                ),
        decreases remaining@.len(),
    {
        let ghost k = outcomes@.len() as int;
        let item = remaining.remove(0);
        proof {
            assert(item == iv[k]);
            assert(remaining@ =~= iv.skip(k + 1));
        }
        let now = get_current_timestamp();
        let out = process_record(item, now, bounds);
        outcomes.push(out);
        proof {
            times = times.push(now);
        }
    }
    proof {
        assert forall|i: int| 0 <= i < iv.len() implies item_outcome_ok_sometime(
            #[trigger] iv[i],
            outcomes@[i],
            *bounds,
        ) by {
            assert(item_outcome_ok(iv[i], outcomes@[i], times[i], *bounds));
        }
    }
    outcomes
}

/// Fault isolation: the outcome constraint of every record is a condition on
/// that record's own item alone, so replacing one item of a page — say, its
/// fetch coming back a transient error — leaves every other item's outcome
/// answering to exactly the same condition as before.
pub proof fn lemma_fault_isolation(
    items1: Seq<PageItem>,
    items2: Seq<PageItem>,
    rs1: Seq<RecordOutcome>,
    rs2: Seq<RecordOutcome>,
    now: u64,
    bounds: Bounds,
    j: int,
)
    requires
        items1.len() == items2.len(),
        rs1.len() == items1.len(),
        rs2.len() == items2.len(),
        forall|i: int| 0 <= i < items1.len() && i != j ==> items1[i] == items2[i],
        forall|i: int|
            0 <= i < items1.len() ==> item_outcome_ok(#[trigger] items1[i], rs1[i], now, bounds),
        forall|i: int|
            0 <= i < items2.len() ==> item_outcome_ok(#[trigger] items2[i], rs2[i], now, bounds),
    ensures
        forall|i: int|
            0 <= i < items1.len() && i != j ==> item_outcome_ok(
                #[trigger] items1[i],
                rs2[i],
                now,
                bounds,
            ),
{
}

/// Saturating addition, the arithmetic the sweep tallies use.
pub open spec fn sat_add(a: u64, b: u64) -> u64 {
    if a + b <= u64::MAX {
        (a + b) as u64
    } else {
        u64::MAX
    }
}

/// How many outcomes report an update.
pub open spec fn count_updated(rs: Seq<RecordOutcome>) -> nat
    decreases rs.len(),
{
    if rs.len() == 0 {
        0
    } else {
        count_updated(rs.drop_last()) + (if rs.last() is Updated {
            1nat
        } else {
            0nat
        })
    }
}

/// How many outcomes report no change.
pub open spec fn count_unchanged(rs: Seq<RecordOutcome>) -> nat
    decreases rs.len(),
{
    if rs.len() == 0 {
        0
    } else {
        count_unchanged(rs.drop_last()) + (if rs.last() is Unchanged {
            1nat
        } else {
            0nat
        })
    }
}

/// How many outcomes report a skip, of any reason.
pub open spec fn count_skipped(rs: Seq<RecordOutcome>) -> nat
    decreases rs.len(),
{
    if rs.len() == 0 {
        0
    } else {
        count_skipped(rs.drop_last()) + (if rs.last() is Updated || rs.last() is Unchanged {
            0nat
        } else {
            1nat
        })
    }
}

proof fn lemma_counts_le_len(rs: Seq<RecordOutcome>)
    ensures
        count_updated(rs) <= rs.len(),
        count_unchanged(rs) <= rs.len(),
        count_skipped(rs) <= rs.len(),
    decreases rs.len(),
{
    if rs.len() > 0 {
        lemma_counts_le_len(rs.drop_last());
    }
}

/// Per-sweep tallies, for the operator's eyes.
#[derive(Clone, Copy, PartialEq, Eq, Structural, Debug)]
pub struct SweepStats {
    pub pages: u64,
    pub processed: u64,
    pub updated: u64,
    pub unchanged: u64,
    pub skipped: u64,
}

/// All tallies zero: the state a sweep starts in.
pub open spec fn zero_stats() -> SweepStats {
    SweepStats { pages: 0, processed: 0, updated: 0, unchanged: 0, skipped: 0 }
}

fn tally(outcomes: &Vec<RecordOutcome>) -> (r: (u64, u64, u64))
    ensures
        r.0 == count_updated(outcomes@),
        r.1 == count_unchanged(outcomes@),
        r.2 == count_skipped(outcomes@),
{
    let mut updated: u64 = 0;
    let mut unchanged: u64 = 0;
    let mut skipped: u64 = 0;
    let n = outcomes.len();
    let mut i: usize = 0;
    while i < n
        invariant
            i <= n,
            n == outcomes@.len(),
            updated == count_updated(outcomes@.take(i as int)),
            unchanged == count_unchanged(outcomes@.take(i as int)),
            skipped == count_skipped(outcomes@.take(i as int)),
        decreases n - i,
    {
        proof {
            let t = outcomes@.take(i + 1);
            assert(t.drop_last() =~= outcomes@.take(i as int));
            assert(t.last() == outcomes@[i as int]);
            lemma_counts_le_len(outcomes@.take(i as int));
        }
        match &outcomes[i] {
            RecordOutcome::Updated(_) => {
                updated = updated + 1;
            },
            RecordOutcome::Unchanged => {
                unchanged = unchanged + 1;
            },
            _ => {
                skipped = skipped + 1;
            },
        }
        i = i + 1;
    }
    proof {
        assert(outcomes@.take(n as int) =~= outcomes@);
    }
    (updated, unchanged, skipped)
}

/// What to do after a page was handled.
#[derive(Clone, Copy, PartialEq, Eq, Structural, Debug)]
pub enum PageAction {
    /// Sleep this long, then fetch the next page.
    NextPage { delay_ms: u64 },
    /// The table is exhausted: the sweep is complete.
    SweepComplete,
    /// Shutdown was requested: stop without fetching another page.
    Stop,
}

/// What to do after a sweep completed.
#[derive(Clone, Copy, PartialEq, Eq, Structural, Debug)]
pub enum SweepAction {
    /// Sleep this long, then start the next sweep from the top of the table.
    NextSweep { delay_ms: u64 },
    /// Shutdown was requested: stop without starting another sweep.
    Stop,
}

/// The sleep that stretches an elapsed duration to the configured minimum.
pub open spec fn delay_needed(min_ms: u64, elapsed_ms: u64) -> u64 {
    if elapsed_ms < min_ms {
        (min_ms - elapsed_ms) as u64
    } else {
        0
    }
}

/// The refresh engine's sweep state: where the scan stands, whether shutdown
/// was requested, and the running tallies of the current sweep.
///
/// `C` is the store's scan cursor type: an opaque resume token the engine
/// holds between pages and never inspects. `None` means the top of the table.
pub struct Engine<C> {
    pub config: EngineConfig,
    pub cursor: Option<C>,
    pub cancelled: bool,
    pub stats: SweepStats,
}

impl<C> Engine<C> {
    /// A fresh engine: at the top of the table, nothing tallied.
    pub fn new(config: EngineConfig) -> (e: Self)
        ensures
            e.config == config,
            e.cursor is None,
            !e.cancelled,
            e.stats == zero_stats(),
    {
        Engine { config, cursor: None, cancelled: false, stats: zero_stats_exec() }
    }

    /// Request cooperative shutdown: the current page finishes, then the
    /// engine stops instead of fetching the next page or starting a sweep.
    pub fn request_stop(&mut self)
        ensures
            final(self).cancelled,
            final(self).config == old(self).config,
            final(self).cursor == old(self).cursor,
            final(self).stats == old(self).stats,
    {
        self.cancelled = true;
    }

    /// A scan page was fetched and its records processed: advance the cursor
    /// to the page's resume token, add the page's outcomes to the sweep
    /// tallies, and say what comes next. When the page took less than the
    /// configured minimum gap, the action carries the sleep that stretches the
    /// gap to that minimum.
    pub fn on_page_ok(
        &mut self,
        next: Option<C>,
        outcomes: &Vec<RecordOutcome>,
        page_elapsed_ms: u64,
    ) -> (a: PageAction)
        ensures
            final(self).cursor == next,
            final(self).config == old(self).config,
            final(self).cancelled == old(self).cancelled,
            final(self).stats.pages == sat_add(old(self).stats.pages, 1),
            final(self).stats.processed == sat_add(
                old(self).stats.processed,
                outcomes@.len() as u64,
            ),
            final(self).stats.updated == sat_add(
                old(self).stats.updated,
                count_updated(outcomes@) as u64,
            ),
            final(self).stats.unchanged == sat_add(
                old(self).stats.unchanged,
                count_unchanged(outcomes@) as u64,
            ),
            final(self).stats.skipped == sat_add(
                old(self).stats.skipped,
                count_skipped(outcomes@) as u64,
            ),
            a == (if old(self).cancelled {
                PageAction::Stop
            } else if next is Some {
                PageAction::NextPage {
                    delay_ms: delay_needed(old(self).config.min_page_gap_ms, page_elapsed_ms),
                }
            } else {
                PageAction::SweepComplete
            }),
            a matches PageAction::NextPage { delay_ms } ==> page_elapsed_ms + delay_ms >= old(
                self,
            ).config.min_page_gap_ms,
    {
        proof {
            lemma_counts_le_len(outcomes@);
        }
        let (updated, unchanged, skipped) = tally(outcomes);
        let processed = outcomes.len() as u64;
        self.stats.pages = self.stats.pages.saturating_add(1);
        self.stats.processed = self.stats.processed.saturating_add(processed);
        self.stats.updated = self.stats.updated.saturating_add(updated);
        self.stats.unchanged = self.stats.unchanged.saturating_add(unchanged);
        self.stats.skipped = self.stats.skipped.saturating_add(skipped);
        let more = next.is_some();
        self.cursor = next;
        if self.cancelled {
            PageAction::Stop
        } else if more {
            PageAction::NextPage {
                delay_ms: if page_elapsed_ms < self.config.min_page_gap_ms {
                    self.config.min_page_gap_ms - page_elapsed_ms
                } else {
                    0
                },
            }
        } else {
            PageAction::SweepComplete
        }
    }

    /// A scan page failed: the cursor stays exactly where it was, so the sweep
    /// resumes at the same position after the returned backoff.
    pub fn on_scan_error(&self) -> (delay_ms: u64)
        ensures
            delay_ms == self.config.scan_backoff_ms,
    {
        self.config.scan_backoff_ms
    }

    /// The sweep is complete: hand its tallies out, reset to the top of the
    /// table, and say whether to start the next sweep. When the sweep took
    /// less than the configured minimum, the action carries the sleep that
    /// stretches it to that minimum.
    pub fn on_sweep_complete(&mut self, sweep_elapsed_ms: u64) -> (r: (SweepAction, SweepStats))
        ensures
            final(self).cursor is None,
            final(self).stats == zero_stats(),
            final(self).config == old(self).config,
            final(self).cancelled == old(self).cancelled,
            r.1 == old(self).stats,
            r.0 == (if old(self).cancelled {
                SweepAction::Stop
            } else {
                SweepAction::NextSweep {
                    delay_ms: delay_needed(old(self).config.min_sweep_ms, sweep_elapsed_ms),
                }
            }),
            r.0 matches SweepAction::NextSweep { delay_ms } ==> sweep_elapsed_ms + delay_ms >= old(
                self,
            ).config.min_sweep_ms,
    {
        let finished = self.stats;
        self.stats = zero_stats_exec();
        self.cursor = None;
        let action = if self.cancelled {
            SweepAction::Stop
        } else {
            SweepAction::NextSweep {
                delay_ms: if sweep_elapsed_ms < self.config.min_sweep_ms {
                    self.config.min_sweep_ms - sweep_elapsed_ms
                } else {
                    0
                },
            }
        };
        (action, finished)
    }
}

fn zero_stats_exec() -> (r: SweepStats)
    ensures
        r == zero_stats(),
{
    SweepStats { pages: 0, processed: 0, updated: 0, unchanged: 0, skipped: 0 }
}

} // verus!
