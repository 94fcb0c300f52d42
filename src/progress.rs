use vstd::prelude::*;
use crate::record::TorrentInfo;

verus! {

/// What the engine reports while a download has live peers.
pub struct LiveStats {
    /// Download rate in bytes per second.
    pub download_rate: u64,
    /// Estimated time left, already rendered for display.
    pub time_remaining: Option<String>,
    pub connected_peers: u32,
}

/// A point-in-time reading of one download's engine statistics.
pub struct TorrentStats {
    pub progress_bytes: u64,
    pub total_bytes: u64,
    pub finished: bool,
    pub live: Option<LiveStats>,
}

/// One download as the engine lists it.
pub struct EngineTorrent {
    pub id: u64,
    pub stats: TorrentStats,
}

/// One entry of the progress listing: live engine statistics joined with the
/// record. Byte progress is `downloaded / total_size`, extraction progress
/// `extract_done / extract_total`.
pub struct DownloadProgress {
    pub id: u64,
    pub name: String,
    pub downloaded: u64,
    pub total_size: u64,
    /// Bytes per second; zero without live statistics.
    pub download_rate: u64,
    pub peers_connected: u32,
    pub extract_done: u64,
    pub extract_total: u64,
    /// Time left, or `N/A` when the engine gives no estimate.
    pub eta: String,
}

pub open spec fn not_available() -> Seq<char> {
    seq!['N', '/', 'A']
}

pub open spec fn eta_text(live: Option<LiveStats>) -> Seq<char> {
    match live {
        Some(l) => match l.time_remaining {
            Some(t) => t@,
            None => not_available(),
        },
        None => not_available(),
    }
}

/// `p` reports download `id` with engine statistics `stats` and record `info`.
pub open spec fn progress_matches(p: DownloadProgress, id: u64, stats: TorrentStats, info: TorrentInfo) -> bool {
    &&& p.id == id
    &&& p.name@ == info.game_title@
    &&& p.downloaded == stats.progress_bytes
    &&& p.total_size == stats.total_bytes
    &&& p.download_rate == match stats.live {
        Some(l) => l.download_rate,
        None => 0,
    }
    &&& p.peers_connected == match stats.live {
        Some(l) => l.connected_peers,
        None => 0,
    }
    &&& (p.extract_done as nat, p.extract_total as nat) == info.state.progress()
    &&& p.eta@ == eta_text(stats.live)
}

/// Some entry of `s` is for download `id`.
pub open spec fn lists_id(s: Seq<EngineTorrent>, id: u64) -> bool {
    exists|k: int| 0 <= k < s.len() && (#[trigger] s[k]).id == id
}

/// The engine's downloads that a progress listing reports: those whose record
/// exists and is still active, in the engine's order, each id once (a
/// repeated engine entry for an id already listed is skipped).
pub open spec fn listed(records: Map<u64, TorrentInfo>, engine: Seq<EngineTorrent>) -> Seq<EngineTorrent>
    decreases engine.len(),
{
    if engine.len() == 0 {
        Seq::empty()
    } else {
        let rest = listed(records, engine.drop_last());
        let e = engine.last();
        if records.contains_key(e.id) && records[e.id].state.is_active() && !lists_id(rest, e.id) {
            rest.push(e)
        } else {
            rest
        }
    }
}

pub fn eta_string(live: &Option<LiveStats>) -> (r: String)
    ensures
        r@ == eta_text(*live),
{
    proof {
        reveal_strlit("N/A");
    }
    assert("N/A"@ =~= not_available());
    match live {
        Some(l) => match &l.time_remaining {
            Some(t) => t.clone(),
            None => "N/A".to_string(),
        },
        None => "N/A".to_string(),
    }
}

/// The listing entry of download `id`.
pub fn torrent_stats_to_progress(stats: &TorrentStats, info: &TorrentInfo, id: u64) -> (r: DownloadProgress)
    ensures
        progress_matches(r, id, *stats, *info),
{
    let (download_rate, peers_connected) = match &stats.live {
        Some(l) => (l.download_rate, l.connected_peers),
        None => (0, 0),
    };
    let (extract_done, extract_total) = info.extract_progress();
    DownloadProgress {
        id,
        name: info.game_title.clone(),
        downloaded: stats.progress_bytes,
        total_size: stats.total_bytes,
        download_rate,
        peers_connected,
        extract_done,
        extract_total,
        eta: eta_string(&stats.live),
    }
}

} // verus!
