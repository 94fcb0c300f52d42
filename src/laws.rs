use vstd::prelude::*;
use crate::extraction::{candidates, ArchiveFile, DirEntry};
use crate::manager::{after_begin, after_finish, after_progress, records_wf};
use crate::monitor::{done_step, poll_step, MonitorAction, MonitorPhase};
use crate::progress::{listed, lists_id, progress_matches, DownloadProgress, EngineTorrent};
use crate::record::{DownloadState, TorrentInfo};
use vstd::arithmetic::mul::{lemma_mul_inequality, lemma_mul_inequality_converse};

verus! {

/// Every download that a progress listing reports has a record, and that
/// record is still downloading or extracting.
pub proof fn lemma_listed_are_active(records: Map<u64, TorrentInfo>, engine: Seq<EngineTorrent>)
    ensures
        forall|i: int|
            0 <= i < listed(records, engine).len() ==> {
                let id = (#[trigger] listed(records, engine)[i]).id;
                records.contains_key(id) && records[id].state.is_active()
            },
    decreases engine.len(),
{
    if engine.len() > 0 {
        lemma_listed_are_active(records, engine.drop_last());
    }
}

/// A progress listing names each download at most once, however often the
/// engine reports it.
pub proof fn lemma_listed_ids_distinct(records: Map<u64, TorrentInfo>, engine: Seq<EngineTorrent>)
    ensures
        forall|i: int, j: int|
            0 <= i < j < listed(records, engine).len() ==> #[trigger] listed(records, engine)[i].id
                != #[trigger] listed(records, engine)[j].id,
    decreases engine.len(),
{
    if engine.len() > 0 {
        lemma_listed_ids_distinct(records, engine.drop_last());
        let rest = listed(records, engine.drop_last());
        let l = listed(records, engine);
        assert forall|i: int, j: int| 0 <= i < j < l.len() implies #[trigger] l[i].id != #[trigger] l[j].id by {
            if j == rest.len() {
                assert(l[i] == rest[i]);
                assert(!lists_id(rest, engine.last().id));
            } else {
                assert(l[i] == rest[i] && l[j] == rest[j]);
            }
        };
    }
}

/// Every entry of a progress listing, as `TorrentManager::list_torrents`
/// returns it, names a download whose record `get_torrent_info` finds, still
/// downloading or extracting.
pub proof fn lemma_listing_ids_are_active(
    records: Map<u64, TorrentInfo>,
    engine: Seq<EngineTorrent>,
    listing: Seq<DownloadProgress>,
)
    requires
        listing.len() == listed(records, engine).len(),
        forall|i: int|
            0 <= i < listing.len() ==> {
                let e = #[trigger] listed(records, engine)[i];
                progress_matches(listing[i], e.id, e.stats, records[e.id])
            },
    ensures
        forall|i: int|
            0 <= i < listing.len() ==> records.contains_key((#[trigger] listing[i]).id) && records[listing[i].id].state.is_active(),
{
    lemma_listed_are_active(records, engine);
    assert forall|i: int| 0 <= i < listing.len() implies records.contains_key((#[trigger] listing[i]).id)
        && records[listing[i].id].state.is_active() by {
        let e = listed(records, engine)[i];
        assert(progress_matches(listing[i], e.id, e.stats, records[e.id]));
    };
}

/// One change of the record store, as the library's operations make them.
pub enum StoreEvent {
    /// A source was registered and its id was not yet known.
    Submit(u64, TorrentInfo),
    Remove(u64),
    BeginExtraction(u64),
    Progress(u64, u64, u64),
    FinishExtraction(u64, Result<(), String>),
}

impl StoreEvent {
    /// The event can happen: progress fractions lie in `[0, 1]` and new
    /// records start out downloading.
    pub open spec fn wf(&self) -> bool {
        match self {
            StoreEvent::Submit(_, info) => info.state is Downloading,
            StoreEvent::Progress(_, done, total) => 0 < *total && *done <= *total,
            _ => true,
        }
    }

    /// A write made by a download's monitor or its extraction run.
    pub open spec fn is_monitor_write(&self) -> bool {
        self is BeginExtraction || self is Progress || self is FinishExtraction
    }
}

/// The store after one event.
pub open spec fn apply(m: Map<u64, TorrentInfo>, ev: StoreEvent) -> Map<u64, TorrentInfo> {
    match ev {
        StoreEvent::Submit(id, info) => if m.contains_key(id) {
            m
        } else {
            m.insert(id, info)
        },
        StoreEvent::Remove(id) => m.remove(id),
        StoreEvent::BeginExtraction(id) => after_begin(m, id),
        StoreEvent::Progress(id, done, total) => after_progress(m, id, done, total),
        StoreEvent::FinishExtraction(id, outcome) => after_finish(m, id, outcome),
    }
}

/// The store after a sequence of events, first to last.
pub open spec fn apply_all(m: Map<u64, TorrentInfo>, evs: Seq<StoreEvent>) -> Map<u64, TorrentInfo>
    decreases evs.len(),
{
    if evs.len() == 0 {
        m
    } else {
        apply_all(apply(m, evs[0]), evs.drop_first())
    }
}

pub proof fn lemma_apply_keeps_wf(m: Map<u64, TorrentInfo>, ev: StoreEvent)
    requires
        records_wf(m),
        ev.wf(),
    ensures
        records_wf(apply(m, ev)),
{
    let m1 = apply(m, ev);
    assert forall|k: u64| #[trigger] m1.contains_key(k) implies m1[k].wf() by {
        if m.contains_key(k) {
            assert(m[k].wf());
        }
    };
}

/// A record's state only moves forward: no event takes it back to an
/// earlier stage, and a running extraction's fraction never decreases.
pub proof fn lemma_event_moves_forward(m: Map<u64, TorrentInfo>, ev: StoreEvent, id: u64)
    requires
        records_wf(m),
        ev.wf(),
        m.contains_key(id),
        apply(m, ev).contains_key(id),
    ensures
        DownloadState::may_follow(m[id].state, apply(m, ev)[id].state),
{
    let s0 = m[id].state;
    let s1 = apply(m, ev)[id].state;
    assert(m[id].wf());
    match s0 {
        DownloadState::Extracting { done, total } => {
            if s1 == s0 {
                assert(done * total <= done * total);
            }
        },
        DownloadState::Failed { error } => {},
        _ => {},
    }
}

proof fn lemma_may_follow_transitive(a: DownloadState, b: DownloadState, c: DownloadState)
    requires
        a.wf(),
        b.wf(),
        c.wf(),
        DownloadState::may_follow(a, b),
        DownloadState::may_follow(b, c),
    ensures
        DownloadState::may_follow(a, c),
{
    match (a, b, c) {
        (
            DownloadState::Extracting { done: d1, total: t1 },
            DownloadState::Extracting { done: d2, total: t2 },
            DownloadState::Extracting { done: d3, total: t3 },
        ) => {
            let (d1, t1, d2, t2, d3, t3) = (d1 as int, t1 as int, d2 as int, t2 as int, d3 as int, t3 as int);
            lemma_mul_inequality(d1 * t2, d2 * t1, t3);
            lemma_mul_inequality(d2 * t3, d3 * t2, t1);
            assert((d2 * t1) * t3 == (d2 * t3) * t1) by (nonlinear_arith);
            assert((d1 * t2) * t3 == (d1 * t3) * t2) by (nonlinear_arith);
            assert((d3 * t2) * t1 == (d3 * t1) * t2) by (nonlinear_arith);
            lemma_mul_inequality_converse(d1 * t3, d3 * t1, t2);
        },
        _ => {},
    }
}

/// Over any history in which the record of `id` stays in the store, every
/// later state may follow every earlier one: the lifecycle never goes back,
/// and the extraction fraction read while extracting never decreases.
pub proof fn lemma_history_moves_forward(m: Map<u64, TorrentInfo>, evs: Seq<StoreEvent>, id: u64)
    requires
        records_wf(m),
        forall|k: int| 0 <= k < evs.len() ==> (#[trigger] evs[k]).wf(),
        forall|k: int| 0 <= k <= evs.len() ==> #[trigger] apply_all(m, evs.take(k)).contains_key(id),
    ensures
        DownloadState::may_follow(m[id].state, apply_all(m, evs)[id].state),
        records_wf(apply_all(m, evs)),
    decreases evs.len(),
{
    assert(evs.take(0) =~= Seq::<StoreEvent>::empty());
    assert(apply_all(m, evs.take(0)).contains_key(id));
    assert(m.contains_key(id));
    if evs.len() == 0 {
        assert(m[id].wf());
        match m[id].state {
            DownloadState::Extracting { done, total } => {
                assert(done * total <= done * total);
            },
            _ => {},
        }
    } else {
        let m1 = apply(m, evs[0]);
        assert(evs[0].wf());
        lemma_apply_keeps_wf(m, evs[0]);
        assert(evs.take(1) =~= seq![evs[0]]);
        assert(apply_all(m1, Seq::<StoreEvent>::empty()) == m1);
        assert(apply_all(m, evs.take(1)) == apply_all(m1, evs.take(1).drop_first()));
        assert(evs.take(1).drop_first() =~= Seq::<StoreEvent>::empty());
        assert(m1.contains_key(id));
        lemma_event_moves_forward(m, evs[0], id);
        let rest = evs.drop_first();
        assert forall|k: int| 0 <= k < rest.len() implies (#[trigger] rest[k]).wf() by {
            assert(rest[k] == evs[k + 1]);
        };
        assert forall|k: int| 0 <= k <= rest.len() implies #[trigger] apply_all(m1, rest.take(k)).contains_key(
            id,
        ) by {
            assert(evs.take(k + 1).drop_first() =~= rest.take(k));
            assert(evs.take(k + 1)[0] == evs[0]);
            assert(apply_all(m, evs.take(k + 1)).contains_key(id));
        };
        lemma_history_moves_forward(m1, rest, id);
        assert(rest.take(rest.len() as int) =~= rest);
        assert(apply_all(m1, rest.take(rest.len() as int)).contains_key(id));
        assert(m[id].wf());
        assert(m1[id].wf());
        assert(apply_all(m1, rest)[id].wf());
        lemma_may_follow_transitive(m[id].state, m1[id].state, apply_all(m1, rest)[id].state);
    }
}

/// A completed download reports its extraction as whole.
pub proof fn lemma_completed_progress_is_one(s: DownloadState)
    requires
        s is Completed,
    ensures
        s.progress() == (1nat, 1nat),
{
}

/// Once a record is removed, nothing its monitor (or any other) writes
/// afterwards brings it back.
pub proof fn lemma_removed_stays_removed(m: Map<u64, TorrentInfo>, id: u64, writes: Seq<StoreEvent>)
    requires
        forall|k: int| 0 <= k < writes.len() ==> (#[trigger] writes[k]).is_monitor_write(),
    ensures
        !apply_all(m.remove(id), writes).contains_key(id),
{
    lemma_absent_stays_absent(m.remove(id), id, writes);
}

proof fn lemma_absent_stays_absent(m: Map<u64, TorrentInfo>, id: u64, writes: Seq<StoreEvent>)
    requires
        !m.contains_key(id),
        forall|k: int| 0 <= k < writes.len() ==> (#[trigger] writes[k]).is_monitor_write(),
    ensures
        !apply_all(m, writes).contains_key(id),
    decreases writes.len(),
{
    if writes.len() > 0 {
        assert(writes[0].is_monitor_write());
        let rest = writes.drop_first();
        assert forall|k: int| 0 <= k < rest.len() implies (#[trigger] rest[k]).is_monitor_write() by {
            assert(rest[k] == writes[k + 1]);
        };
        lemma_absent_stays_absent(apply(m, writes[0]), id, rest);
    }
}

/// A directory without archives gives a run with nothing to extract, so the
/// run ends at once and publishes no progress.
pub proof fn lemma_no_candidates_no_archives(archives: Seq<ArchiveFile>, entries: Seq<DirEntry>)
    requires
        candidates(entries).len() == 0,
        archives.to_multiset() == candidates(entries).to_multiset(),
    ensures
        archives.len() == 0,
{
    archives.to_multiset_ensures();
    candidates(entries).to_multiset_ensures();
}

/// What the caller of an extraction run does with it.
pub enum RunEvent {
    /// Asks for the next archive.
    Next,
    /// Reports how the archive last handed out went.
    Report(Result<(), String>),
}

/// How many archives a run that has handed out `next` of `n`, with
/// `failure` recorded, hands out over `events`, following the contracts of
/// `ExtractionRun::next_archive` and `ExtractionRun::archive_done`.
pub open spec fn archives_handed(next: nat, n: nat, failure: Option<String>, events: Seq<RunEvent>) -> nat
    decreases events.len(),
{
    if events.len() == 0 {
        0
    } else {
        let rest = events.drop_first();
        match events[0] {
            RunEvent::Next => if failure is None && next < n {
                1 + archives_handed(next + 1, n, failure, rest)
            } else {
                archives_handed(next, n, failure, rest)
            },
            RunEvent::Report(outcome) => {
                let f = match failure {
                    Some(e) => Some(e),
                    None => match outcome {
                        Ok(()) => None,
                        Err(e) => Some(e),
                    },
                };
                archives_handed(next, n, f, rest)
            },
        }
    }
}

/// After an archive failed, the run hands out no further archive.
pub proof fn lemma_nothing_after_failure(next: nat, n: nat, error: String, events: Seq<RunEvent>)
    ensures
        archives_handed(next, n, Some(error), events) == 0,
    decreases events.len(),
{
    if events.len() > 0 {
        lemma_nothing_after_failure(next, n, error, events.drop_first());
    }
}

/// Within a run over `n` archives, the store takes each publication: after
/// `k / n` was published (or, before the first, the `0 / 1` extraction
/// starts from), publishing `(k + 1) / n` moves the record to that strictly
/// larger fraction, which stays below one.
pub proof fn lemma_run_progress_increases(m: Map<u64, TorrentInfo>, id: u64, k: u64, n: u64)
    requires
        m.contains_key(id),
        m[id].state == (DownloadState::Extracting { done: k, total: n }) || (k == 0 && m[id].state == (
        DownloadState::Extracting { done: 0, total: 1 })),
        k + 1 < n,
    ensures
        after_progress(m, id, (k + 1) as u64, n)[id].state == (DownloadState::Extracting {
            done: (k + 1) as u64,
            total: n,
        }),
        k * n < (k + 1) * n,
        k + 1 < n,
{
    assert(k * n < (k + 1) * n) by (nonlinear_arith)
        requires
            k + 1 < n,
    ;
    assert(0 * n <= 1 * 1) by (nonlinear_arith);
}

/// What a download's watcher is told over its life.
pub enum MonitorEvent {
    /// A poll of the engine, reporting whether the download finished and
    /// whether the store still holds its record.
    Poll { finished: bool, known: bool },
    /// The extraction run ended.
    ExtractionDone,
}

/// How many times a watcher starting in `phase` is told to run the
/// extraction pipeline over `events`.
pub open spec fn extraction_runs(phase: MonitorPhase, events: Seq<MonitorEvent>) -> nat
    decreases events.len(),
{
    if events.len() == 0 {
        0
    } else {
        match events[0] {
            MonitorEvent::Poll { finished, known } => {
                let (next, action) = poll_step(phase, finished, known);
                (if action == MonitorAction::Extract {
                    1nat
                } else {
                    0nat
                }) + extraction_runs(next, events.drop_first())
            },
            MonitorEvent::ExtractionDone => extraction_runs(done_step(phase), events.drop_first()),
        }
    }
}

/// A watcher runs the extraction pipeline at most once, however many
/// "finished" reports reach it; once past polling, never again.
pub proof fn lemma_at_most_one_extraction(phase: MonitorPhase, events: Seq<MonitorEvent>)
    ensures
        extraction_runs(phase, events) <= 1,
        phase != MonitorPhase::Polling ==> extraction_runs(phase, events) == 0,
    decreases events.len(),
{
    if events.len() > 0 {
        let rest = events.drop_first();
        match events[0] {
            MonitorEvent::Poll { finished, known } => {
                let (next, action) = poll_step(phase, finished, known);
                lemma_at_most_one_extraction(next, rest);
            },
            MonitorEvent::ExtractionDone => {
                lemma_at_most_one_extraction(done_step(phase), rest);
            },
        }
    }
}

} // verus!
