use vstd::prelude::*;
use std::collections::HashMap;
use crate::record::{DownloadState, TorrentInfo};
use crate::progress::{listed, lists_id, progress_matches, torrent_stats_to_progress, DownloadProgress, EngineTorrent};
use crate::monitor::Monitor;
use crate::paths::game_dir;

verus! {

broadcast use vstd::std_specs::hash::group_hash_axioms;

/// What the torrent engine answered when a source was registered.
pub enum Registration {
    /// The engine manages the download under this id.
    Managed(u64),
    /// The engine only listed the torrent's files and cannot drive it.
    ListOnly,
    /// The engine refused the source.
    Rejected(String),
}

pub enum SubmitError {
    Engine(String),
    ListOnly,
    DuplicateId(u64),
}

pub enum RemoveError {
    Engine(String),
}

/// The record store of all downloads, keyed by engine id.
pub struct TorrentManager {
    torrents: HashMap<u64, TorrentInfo>,
    download_dir: String,
}

/// Every record in the store is well formed.
pub open spec fn records_wf(m: Map<u64, TorrentInfo>) -> bool {
    forall|id: u64| #[trigger] m.contains_key(id) ==> m[id].wf()
}

/// The store after the monitor of `id` reports that the download finished.
pub open spec fn after_begin(m: Map<u64, TorrentInfo>, id: u64) -> Map<u64, TorrentInfo> {
    if m.contains_key(id) && m[id].state is Downloading {
        m.insert(id, m[id].with_state(DownloadState::Extracting { done: 0, total: 1 }))
    } else {
        m
    }
}

/// The store after extraction progress `done / total` is published for `id`.
/// Only a running extraction moves, and never backwards.
pub open spec fn after_progress(m: Map<u64, TorrentInfo>, id: u64, done: u64, total: u64) -> Map<
    u64,
    TorrentInfo,
> {
    if m.contains_key(id) {
        match m[id].state {
            DownloadState::Extracting { done: d, total: t } => if d * total <= done * t {
                m.insert(id, m[id].with_state(DownloadState::Extracting { done, total }))
            } else {
                m
            },
            _ => m,
        }
    } else {
        m
    }
}

/// The store after the extraction run of `id` ended with `outcome`.
pub open spec fn after_finish(m: Map<u64, TorrentInfo>, id: u64, outcome: Result<(), String>) -> Map<
    u64,
    TorrentInfo,
> {
    if m.contains_key(id) && m[id].state is Extracting {
        match outcome {
            Ok(()) => m.insert(id, m[id].with_state(DownloadState::Completed)),
            Err(error) => m.insert(id, m[id].with_state(DownloadState::Failed { error })),
        }
    } else {
        m
    }
}

impl TorrentManager {
    pub closed spec fn records(&self) -> Map<u64, TorrentInfo> {
        self.torrents@
    }

    pub closed spec fn root(&self) -> Seq<char> {
        self.download_dir@
    }

    pub open spec fn wf(&self) -> bool {
        records_wf(self.records())
    }

    /// An empty store whose downloads land under `download_dir`.
    pub fn new(download_dir: String) -> (r: TorrentManager)
        ensures
            r.wf(),
            r.records() == Map::<u64, TorrentInfo>::empty(),
            r.root() == download_dir@,
    {
        TorrentManager { torrents: HashMap::new(), download_dir }
    }

    pub fn download_dir(&self) -> (r: &String)
        ensures
            r@ == self.root(),
    {
        &self.download_dir
    }

    /// Records a new download from the engine's answer to a registration and
    /// hands back the one monitor of that download.
    fn register(
        &mut self,
        registration: Registration,
        game_title: &str,
        torrent_path: &str,
        added_at: u64,
    ) -> (r: Result<Monitor, SubmitError>)
        requires
            old(self).wf(),
        ensures
            final(self).wf(),
            final(self).root() == old(self).root(),
            submitted(
                old(self).records(),
                final(self).records(),
                old(self).root(),
                registration,
                game_title@,
                torrent_path@,
                added_at,
                r,
            ),
    {
        match registration {
            Registration::Rejected(e) => Err(SubmitError::Engine(e)),
            Registration::ListOnly => Err(SubmitError::ListOnly),
            Registration::Managed(id) => {
                if self.torrents.contains_key(&id) {
                    Err(SubmitError::DuplicateId(id))
                } else {
                    let info = TorrentInfo::new(game_title, torrent_path, added_at);
                    let ghost m0 = self.torrents@;
                    self.torrents.insert(id, info);
                    assert(self.torrents@.remove(id) =~= m0);
                    let dir = game_dir(self.download_dir.as_str(), game_title);
                    Ok(Monitor::new(id, dir))
                }
            },
        }
    }

    /// Records a download submitted as a magnet link.
    pub fn add_torrent_magnet(&mut self, registration: Registration, game_title: &str, added_at: u64) -> (r:
        Result<Monitor, SubmitError>)
        requires
            old(self).wf(),
        ensures
            final(self).wf(),
            final(self).root() == old(self).root(),
            submitted(
                old(self).records(),
                final(self).records(),
                old(self).root(),
                registration,
                game_title@,
                Seq::<char>::empty(),
                added_at,
                r,
            ),
    {
        proof {
            reveal_strlit("");
        }
        assert(""@ =~= Seq::<char>::empty());
        self.register(registration, game_title, "", added_at)
    }

    /// Records a download submitted as a `.torrent` file.
    pub fn add_torrent(
        &mut self,
        registration: Registration,
        torrent_path: &str,
        game_title: &str,
        added_at: u64,
    ) -> (r: Result<Monitor, SubmitError>)
        requires
            old(self).wf(),
        ensures
            final(self).wf(),
            final(self).root() == old(self).root(),
            submitted(
                old(self).records(),
                final(self).records(),
                old(self).root(),
                registration,
                game_title@,
                torrent_path@,
                added_at,
                r,
            ),
    {
        self.register(registration, game_title, torrent_path, added_at)
    }

    /// Drops the record of `id` once the engine has deleted the download.
    /// A record that is already gone is no error.
    pub fn remove_torrent(&mut self, id: u64, engine_result: Result<(), String>) -> (r: Result<
        (),
        RemoveError,
    >)
        requires
            old(self).wf(),
        ensures
            final(self).wf(),
            final(self).root() == old(self).root(),
            match engine_result {
                Ok(()) => r is Ok && final(self).records() == old(self).records().remove(id),
                Err(e) => r == Err::<(), RemoveError>(RemoveError::Engine(e)) && final(self).records()
                    == old(self).records(),
            },
    {
        match engine_result {
            Ok(()) => {
                self.torrents.remove(&id);
                Ok(())
            },
            Err(e) => Err(RemoveError::Engine(e)),
        }
    }

    /// Whether the store holds a record for `id`.
    pub fn has_record(&self, id: u64) -> (r: bool)
        ensures
            r == self.records().contains_key(id),
    {
        self.torrents.contains_key(&id)
    }

    pub fn get_torrent_info(&self, id: u64) -> (r: Option<TorrentInfo>)
        ensures
            r == (if self.records().contains_key(id) {
                Some(self.records()[id])
            } else {
                None
            }),
    {
        match self.torrents.get(&id) {
            Some(info) => Some(info.copy_info()),
            None => None,
        }
    }

    /// One progress entry for every download the engine reports whose record
    /// is still downloading or extracting, in the engine's order; a download
    /// the engine reports twice is listed once.
    pub fn list_torrents(&self, engine: &Vec<EngineTorrent>) -> (r: Vec<DownloadProgress>)
        requires
            self.wf(),
        ensures
            r@.len() == listed(self.records(), engine@).len(),
            forall|i: int|
                0 <= i < r@.len() ==> {
                    let e = #[trigger] listed(self.records(), engine@)[i];
                    progress_matches(r@[i], e.id, e.stats, self.records()[e.id])
                },
            forall|i: int, j: int| 0 <= i < j < r@.len() ==> #[trigger] r@[i].id != #[trigger] r@[j].id,
    {
        let mut result: Vec<DownloadProgress> = Vec::new();
        let mut i: usize = 0;
        while i < engine.len()
            invariant
                i <= engine@.len(),
                self.wf(),
                result@.len() == listed(self.records(), engine@.take(i as int)).len(),
                forall|k: int|
                    0 <= k < result@.len() ==> #[trigger] result@[k].id == listed(self.records(), engine@.take(i as int))[k].id,
                forall|k: int|
                    0 <= k < result@.len() ==> {
                        let e = #[trigger] listed(self.records(), engine@.take(i as int))[k];
                        progress_matches(result@[k], e.id, e.stats, self.records()[e.id])
                    },
            decreases engine@.len() - i,
        {
            let e = &engine[i];
            assert(engine@.take(i as int + 1).drop_last() =~= engine@.take(i as int));
            assert(engine@.take(i as int + 1).last() == engine@[i as int]);
            let ghost before = listed(self.records(), engine@.take(i as int));
            match self.torrents.get(&e.id) {
                Some(info) => {
                    if info.state.is_active_state() {
                        let mut k: usize = 0;
                        let mut seen = false;
                        while k < result.len()
                            invariant
                                k <= result@.len(),
                                result@.len() == before.len(),
                                forall|t: int|
                                    0 <= t < result@.len() ==> #[trigger] result@[t].id == before[t].id,
                                seen == exists|t: int| 0 <= t < k && (#[trigger] before[t]).id == e.id,
                            decreases result@.len() - k,
                        {
                            if result[k].id == e.id {
                                seen = true;
                            }
                            k = k + 1;
                        }
                        if !seen {
                            let p = torrent_stats_to_progress(&e.stats, info, e.id);
                            result.push(p);
                        }
                    }
                },
                None => {},
            }
            i = i + 1;
        }
        assert(engine@.take(engine@.len() as int) =~= engine@);
        proof {
            crate::laws::lemma_listed_ids_distinct(self.records(), engine@);
        }
        result
    }

    /// The monitor saw the download finish: extraction starts. A record that
    /// was removed, or has moved on already, stays as it is.
    pub fn begin_extraction(&mut self, id: u64)
        requires
            old(self).wf(),
        ensures
            final(self).wf(),
            final(self).root() == old(self).root(),
            final(self).records() == after_begin(old(self).records(), id),
    {
        let updated = match self.torrents.get(&id) {
            Some(info) => match info.state {
                DownloadState::Downloading => Some(
                    info.copy_with_state(DownloadState::Extracting { done: 0, total: 1 }),
                ),
                _ => None,
            },
            None => None,
        };
        if let Some(info) = updated {
            self.torrents.insert(id, info);
        }
    }

    /// Publishes extraction progress `done / total` for `id`.
    pub fn set_extract_progress(&mut self, id: u64, done: u64, total: u64)
        requires
            old(self).wf(),
            0 < total,
            done <= total,
        ensures
            final(self).wf(),
            final(self).root() == old(self).root(),
            final(self).records() == after_progress(old(self).records(), id, done, total),
    {
        let updated = match self.torrents.get(&id) {
            Some(info) => match info.state {
                DownloadState::Extracting { done: d, total: t } => {
                    assert((d as u128) * (total as u128) <= 0xffff_ffff_ffff_ffffu128 * 0xffff_ffff_ffff_ffffu128) by (nonlinear_arith)
                        requires
                            d <= 0xffff_ffff_ffff_ffffu64,
                            total <= 0xffff_ffff_ffff_ffffu64,
                    ;
                    assert((done as u128) * (t as u128) <= 0xffff_ffff_ffff_ffffu128 * 0xffff_ffff_ffff_ffffu128) by (nonlinear_arith)
                        requires
                            done <= 0xffff_ffff_ffff_ffffu64,
                            t <= 0xffff_ffff_ffff_ffffu64,
                    ;
                    if (d as u128) * (total as u128) <= (done as u128) * (t as u128) {
                        Some(info.copy_with_state(DownloadState::Extracting { done, total }))
                    } else {
                        None
                    }
                },
                _ => None,
            },
            None => None,
        };
        if let Some(info) = updated {
            self.torrents.insert(id, info);
        }
    }

    /// The extraction run of `id` ended: the record becomes `Completed` or
    /// `Failed` with the cause.
    pub fn finish_extraction(&mut self, id: u64, outcome: Result<(), String>)
        requires
            old(self).wf(),
        ensures
            final(self).wf(),
            final(self).root() == old(self).root(),
            final(self).records() == after_finish(old(self).records(), id, outcome),
    {
        let updated = match self.torrents.get(&id) {
            Some(info) => match info.state {
                DownloadState::Extracting { .. } => match outcome {
                    Ok(()) => Some(info.copy_with_state(DownloadState::Completed)),
                    Err(error) => Some(info.copy_with_state(DownloadState::Failed { error })),
                },
                _ => None,
            },
            None => None,
        };
        if let Some(info) = updated {
            self.torrents.insert(id, info);
        }
    }
}

/// `r` is the outcome of submitting a source, from store `m0` to store `m1`:
/// a managed id that is not yet known gets a fresh `Downloading` record and
/// its monitor; any other answer changes nothing.
pub open spec fn submitted(
    m0: Map<u64, TorrentInfo>,
    m1: Map<u64, TorrentInfo>,
    root: Seq<char>,
    registration: Registration,
    title: Seq<char>,
    path: Seq<char>,
    added_at: u64,
    r: Result<Monitor, SubmitError>,
) -> bool {
    match registration {
        Registration::Rejected(e) => r == Err::<Monitor, SubmitError>(SubmitError::Engine(e)) && m1
            == m0,
        Registration::ListOnly => r == Err::<Monitor, SubmitError>(SubmitError::ListOnly) && m1 == m0,
        Registration::Managed(id) => if m0.contains_key(id) {
            r == Err::<Monitor, SubmitError>(SubmitError::DuplicateId(id)) && m1 == m0
        } else {
            &&& r matches Ok(mon)
            &&& mon.is_new_for(id, crate::paths::game_dir_of(root, title))
            &&& m1.contains_key(id)
            &&& m1[id].is_fresh(title, path, added_at)
            &&& m1.remove(id) == m0
        },
    }
}

} // verus!
