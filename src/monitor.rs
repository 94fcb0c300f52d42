use vstd::prelude::*;
use crate::manager::{after_begin, after_finish, TorrentManager};

verus! {

/// How far the watcher of one download has come.
#[derive(Clone, Copy, PartialEq, Eq, Structural)]
pub enum MonitorPhase {
    /// Waiting for the engine to report the download finished.
    Polling,
    /// The extraction run is under way.
    Extracting,
    /// Extraction ended; the watcher has nothing left to do.
    Finished,
}

/// What the caller driving a watcher does next.
#[derive(Clone, Copy, PartialEq, Eq, Structural)]
pub enum MonitorAction {
    /// Poll again after the interval.
    Wait,
    /// Run the extraction pipeline on the download's directory.
    Extract,
    /// Stop polling for good.
    Stop,
}

/// Phase and action after one poll that reports `finished`, while the store
/// does (`known`) or no longer does hold the download's record.
pub open spec fn poll_step(phase: MonitorPhase, finished: bool, known: bool) -> (MonitorPhase, MonitorAction) {
    match phase {
        MonitorPhase::Polling => if !known {
            (MonitorPhase::Finished, MonitorAction::Stop)
        } else if finished {
            (MonitorPhase::Extracting, MonitorAction::Extract)
        } else {
            (MonitorPhase::Polling, MonitorAction::Wait)
        },
        MonitorPhase::Extracting => (MonitorPhase::Extracting, MonitorAction::Wait),
        MonitorPhase::Finished => (MonitorPhase::Finished, MonitorAction::Stop),
    }
}

/// Phase after the extraction run reports back.
pub open spec fn done_step(phase: MonitorPhase) -> MonitorPhase {
    match phase {
        MonitorPhase::Extracting => MonitorPhase::Finished,
        _ => phase,
    }
}

/// The watcher of one download. The store hands out exactly one per
/// submitted id, and it cannot be copied.
pub struct Monitor {
    id: u64,
    game_dir: String,
    phase: MonitorPhase,
}

impl Monitor {
    pub closed spec fn spec_id(&self) -> u64 {
        self.id
    }

    pub closed spec fn spec_game_dir(&self) -> Seq<char> {
        self.game_dir@
    }

    pub closed spec fn spec_phase(&self) -> MonitorPhase {
        self.phase
    }

    /// A watcher of `id` over directory `dir` that has not polled yet.
    pub open spec fn is_new_for(&self, id: u64, dir: Seq<char>) -> bool {
        &&& self.spec_id() == id
        &&& self.spec_game_dir() == dir
        &&& self.spec_phase() == MonitorPhase::Polling
    }

    pub(crate) fn new(id: u64, game_dir: String) -> (r: Monitor)
        ensures
            r.is_new_for(id, game_dir@),
    {
        Monitor { id, game_dir, phase: MonitorPhase::Polling }
    }

    pub fn id(&self) -> (r: u64)
        ensures
            r == self.spec_id(),
    {
        self.id
    }

    /// The directory the extraction pipeline runs on.
    pub fn game_dir(&self) -> (r: &String)
        ensures
            r@ == self.spec_game_dir(),
    {
        &self.game_dir
    }

    pub fn phase(&self) -> (r: MonitorPhase)
        ensures
            r == self.spec_phase(),
    {
        self.phase
    }

    /// One poll of the engine. On the first report that the download is
    /// finished the record enters extraction and the caller is told to run
    /// the pipeline; never again after that. A watcher whose record was
    /// removed stops.
    pub fn on_poll(&mut self, store: &mut TorrentManager, finished: bool) -> (a: MonitorAction)
        requires
            old(store).wf(),
        ensures
            final(store).wf(),
            final(store).root() == old(store).root(),
            (final(self).spec_phase(), a) == poll_step(
                old(self).spec_phase(),
                finished,
                old(store).records().contains_key(old(self).spec_id()),
            ),
            final(self).spec_id() == old(self).spec_id(),
            final(self).spec_game_dir() == old(self).spec_game_dir(),
            final(store).records() == if a == MonitorAction::Extract {
                after_begin(old(store).records(), old(self).spec_id())
            } else {
                old(store).records()
            },
    {
        match self.phase {
            MonitorPhase::Polling => {
                if !store.has_record(self.id) {
                    self.phase = MonitorPhase::Finished;
                    MonitorAction::Stop
                } else if finished {
                    self.phase = MonitorPhase::Extracting;
                    store.begin_extraction(self.id);
                    MonitorAction::Extract
                } else {
                    MonitorAction::Wait
                }
            },
            MonitorPhase::Extracting => MonitorAction::Wait,
            MonitorPhase::Finished => MonitorAction::Stop,
        }
    }

    /// The extraction run ended with `outcome`: the record is finalised and
    /// the watcher stops.
    pub fn on_extraction_done(&mut self, store: &mut TorrentManager, outcome: Result<(), String>)
        requires
            old(store).wf(),
        ensures
            final(store).wf(),
            final(store).root() == old(store).root(),
            final(self).spec_phase() == done_step(old(self).spec_phase()),
            final(self).spec_id() == old(self).spec_id(),
            final(self).spec_game_dir() == old(self).spec_game_dir(),
            final(store).records() == if old(self).spec_phase() == MonitorPhase::Extracting {
                after_finish(old(store).records(), old(self).spec_id(), outcome)
            } else {
                old(store).records()
            },
    {
        if self.phase == MonitorPhase::Extracting {
            self.phase = MonitorPhase::Finished;
            store.finish_extraction(self.id, outcome);
        }
    }
}

} // verus!
