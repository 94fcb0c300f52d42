use vstd::prelude::*;

verus! {

/// Where one download stands in its lifecycle.
///
/// `Downloading -> Extracting -> Completed | Failed`. While extracting, the
/// progress of the run is the fraction `done / total`.
pub enum DownloadState {
    Downloading,
    Extracting { done: u64, total: u64 },
    Completed,
    Failed { error: String },
}

impl DownloadState {
    /// An extraction fraction lies in `[0, 1]` and has a positive denominator.
    pub open spec fn wf(&self) -> bool {
        match self {
            DownloadState::Extracting { done, total } => 0 < *total && *done <= *total,
            _ => true,
        }
    }

    /// Downloads that still count as active in a progress listing.
    pub open spec fn is_active(&self) -> bool {
        self is Downloading || self is Extracting
    }

    /// Extraction progress as `(numerator, denominator)`: zero before
    /// extraction starts, one once completed.
    pub open spec fn progress(&self) -> (nat, nat) {
        match self {
            DownloadState::Downloading => (0, 1),
            DownloadState::Extracting { done, total } => (*done as nat, *total as nat),
            DownloadState::Completed => (1, 1),
            DownloadState::Failed { .. } => (0, 1),
        }
    }

    /// `b` may come after `a` in one download's history: the lifecycle only
    /// moves forward, a terminal state stays as it is, and within a run the
    /// extraction fraction never goes down.
    pub open spec fn may_follow(a: DownloadState, b: DownloadState) -> bool {
        match (a, b) {
            (DownloadState::Downloading, _) => true,
            (
                DownloadState::Extracting { done: d1, total: t1 },
                DownloadState::Extracting { done: d2, total: t2 },
            ) => d1 * t2 <= d2 * t1,
            (DownloadState::Extracting { .. }, DownloadState::Completed) => true,
            (DownloadState::Extracting { .. }, DownloadState::Failed { .. }) => true,
            (DownloadState::Completed, DownloadState::Completed) => true,
            (DownloadState::Failed { error: e1 }, DownloadState::Failed { error: e2 }) => e1 == e2,
            _ => false,
        }
    }

    pub fn copy_state(&self) -> (r: DownloadState)
        ensures
            r == *self,
    {
        match self {
            DownloadState::Downloading => DownloadState::Downloading,
            DownloadState::Extracting { done, total } => DownloadState::Extracting {
                done: *done,
                total: *total,
            },
            DownloadState::Completed => DownloadState::Completed,
            DownloadState::Failed { error } => DownloadState::Failed { error: error.clone() },
        }
    }

    pub fn is_active_state(&self) -> (r: bool)
        ensures
            r == self.is_active(),
    {
        match self {
            DownloadState::Downloading => true,
            DownloadState::Extracting { .. } => true,
            _ => false,
        }
    }
}

/// The record kept for one download.
pub struct TorrentInfo {
    /// Label given by the caller; names the download's target directory.
    pub game_title: String,
    /// The `.torrent` file the download came from; empty for a magnet link.
    pub torrent_path: String,
    /// Monotonic timestamp of the submission, for diagnostics only.
    pub added_at: u64,
    pub state: DownloadState,
}

impl TorrentInfo {
    pub open spec fn wf(&self) -> bool {
        self.state.wf()
    }

    /// The record with its state replaced.
    pub open spec fn with_state(self, state: DownloadState) -> TorrentInfo {
        TorrentInfo { state, ..self }
    }

    /// A record as it is created at submission.
    pub open spec fn is_fresh(&self, title: Seq<char>, path: Seq<char>, added_at: u64) -> bool {
        &&& self.game_title@ == title
        &&& self.torrent_path@ == path
        &&& self.added_at == added_at
        &&& self.state is Downloading
    }

    pub fn new(game_title: &str, torrent_path: &str, added_at: u64) -> (r: TorrentInfo)
        ensures
            r.is_fresh(game_title@, torrent_path@, added_at),
            r.wf(),
    {
        TorrentInfo {
            game_title: game_title.to_string(),
            torrent_path: torrent_path.to_string(),
            added_at,
            state: DownloadState::Downloading,
        }
    }

    pub fn copy_info(&self) -> (r: TorrentInfo)
        ensures
            r == *self,
    {
        TorrentInfo {
            game_title: self.game_title.clone(),
            torrent_path: self.torrent_path.clone(),
            added_at: self.added_at,
            state: self.state.copy_state(),
        }
    }

    /// Copy of the record in another state.
    pub fn copy_with_state(&self, state: DownloadState) -> (r: TorrentInfo)
        ensures
            r == self.with_state(state),
    {
        TorrentInfo {
            game_title: self.game_title.clone(),
            torrent_path: self.torrent_path.clone(),
            added_at: self.added_at,
            state,
        }
    }

    /// Whether extraction finished successfully.
    pub fn extracted(&self) -> (r: bool)
        ensures
            r == (self.state is Completed),
    {
        match self.state {
            DownloadState::Completed => true,
            _ => false,
        }
    }

    /// Whether the monitor has moved past downloading.
    pub fn extraction_started(&self) -> (r: bool)
        ensures
            r == !(self.state is Downloading),
    {
        match self.state {
            DownloadState::Downloading => false,
            _ => true,
        }
    }

    /// Extraction progress as `(numerator, denominator)`.
    pub fn extract_progress(&self) -> (r: (u64, u64))
        ensures
            (r.0 as nat, r.1 as nat) == self.state.progress(),
    {
        match self.state {
            DownloadState::Downloading => (0, 1),
            DownloadState::Extracting { done, total } => (done, total),
            DownloadState::Completed => (1, 1),
            DownloadState::Failed { .. } => (0, 1),
        }
    }

    /// The cause of a failed extraction.
    pub fn extraction_error(&self) -> (r: Option<String>)
        ensures
            r == match self.state {
                DownloadState::Failed { error } => Some(error),
                _ => None::<String>,
            },
    {
        match &self.state {
            DownloadState::Failed { error } => Some(error.clone()),
            _ => None,
        }
    }
}

} // verus!
