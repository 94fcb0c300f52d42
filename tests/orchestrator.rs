use pirateland::extraction::{archive_kind, discover_archives, ArchiveKind, DirEntry, ExtractionRun, ExtractionStep};
use pirateland::manager::{Registration, RemoveError, SubmitError, TorrentManager};
use pirateland::monitor::{Monitor, MonitorAction, MonitorPhase};
use pirateland::paths::{entry_destination, extracted_dir, game_dir};
use pirateland::progress::{torrent_stats_to_progress, EngineTorrent, LiveStats, TorrentStats};
use pirateland::record::{DownloadState, TorrentInfo};

fn file(name: &str) -> DirEntry {
    DirEntry { name: name.to_string(), is_file: true }
}

fn stats(done: u64, total: u64, finished: bool) -> TorrentStats {
    TorrentStats { progress_bytes: done, total_bytes: total, finished, live: None }
}

fn submit(m: &mut TorrentManager, id: u64, title: &str) -> Monitor {
    match m.add_torrent(Registration::Managed(id), "/torrents/game.torrent", title, 5) {
        Ok(mon) => mon,
        Err(_) => panic!("submission refused"),
    }
}

fn state_of(m: &TorrentManager, id: u64) -> Option<DownloadState> {
    m.get_torrent_info(id).map(|i| i.state)
}

fn progress_of(m: &TorrentManager, id: u64) -> (u64, u64) {
    m.get_torrent_info(id).unwrap().extract_progress()
}

fn ids(list: &[pirateland::progress::DownloadProgress]) -> Vec<u64> {
    list.iter().map(|p| p.id).collect()
}

#[test]
fn file_submission_reaches_completed() {
    let mut m = TorrentManager::new("/downloads".to_string());
    let mut mon = submit(&mut m, 7, "Game X");
    assert_eq!(mon.id(), 7);
    assert_eq!(mon.game_dir().as_str(), "/downloads/Game X");
    let info = m.get_torrent_info(7).unwrap();
    assert_eq!(info.game_title, "Game X");
    assert_eq!(info.torrent_path, "/torrents/game.torrent");
    assert!(matches!(info.state, DownloadState::Downloading));
    assert!(!info.extraction_started());

    assert!(mon.on_poll(&mut m, false) == MonitorAction::Wait);
    assert!(matches!(state_of(&m, 7), Some(DownloadState::Downloading)));
    assert!(mon.on_poll(&mut m, true) == MonitorAction::Extract);
    assert!(matches!(state_of(&m, 7), Some(DownloadState::Extracting { .. })));
    assert!(m.get_torrent_info(7).unwrap().extraction_started());

    let mut run = ExtractionRun::new(7, &vec![file("game.part1.rar")]);
    match run.next_archive(&mut m) {
        ExtractionStep::Extract(a) => {
            assert_eq!(a.name, "game.part1.rar");
            assert!(a.kind == ArchiveKind::Rar);
        }
        _ => panic!("expected an archive"),
    }
    assert_eq!(progress_of(&m, 7), (0, 1));
    assert!(matches!(run.next_archive(&mut m), ExtractionStep::Done));
    mon.on_extraction_done(&mut m, Ok(()));
    let info = m.get_torrent_info(7).unwrap();
    assert!(matches!(info.state, DownloadState::Completed));
    assert!(info.extracted());
    assert_eq!(info.extract_progress(), (1, 1));
    assert_eq!(info.extraction_error(), None);
    assert!(mon.phase() == MonitorPhase::Finished);
    assert!(mon.on_poll(&mut m, true) == MonitorAction::Stop);
}

#[test]
fn remove_before_finish_leaves_nothing() {
    let mut m = TorrentManager::new("/downloads".to_string());
    let mut mon = submit(&mut m, 3, "Game Y");
    let engine = vec![EngineTorrent { id: 3, stats: stats(10, 100, false) }];
    assert_eq!(ids(&m.list_torrents(&engine)), vec![3]);
    assert!(m.remove_torrent(3, Ok(())).is_ok());
    assert!(m.get_torrent_info(3).is_none());
    assert!(m.list_torrents(&engine).is_empty());
    // The watcher of a removed download stops, and late writes change nothing.
    assert!(mon.on_poll(&mut m, true) == MonitorAction::Stop);
    assert!(mon.phase() == MonitorPhase::Finished);
    m.begin_extraction(3);
    m.set_extract_progress(3, 1, 2);
    m.finish_extraction(3, Ok(()));
    mon.on_extraction_done(&mut m, Ok(()));
    assert!(m.get_torrent_info(3).is_none());
    assert!(m.list_torrents(&engine).is_empty());
}

#[test]
fn removal_during_extraction_is_not_undone() {
    let mut m = TorrentManager::new("/downloads".to_string());
    let mut mon = submit(&mut m, 12, "Racing");
    assert!(mon.on_poll(&mut m, true) == MonitorAction::Extract);
    let mut run = ExtractionRun::new(12, &vec![file("a.rar"), file("b.rar")]);
    assert!(matches!(run.next_archive(&mut m), ExtractionStep::Extract(_)));
    assert!(m.remove_torrent(12, Ok(())).is_ok());
    assert!(matches!(run.next_archive(&mut m), ExtractionStep::Extract(_)));
    mon.on_extraction_done(&mut m, Ok(()));
    assert!(m.get_torrent_info(12).is_none());
    assert!(mon.on_poll(&mut m, true) == MonitorAction::Stop);
}

#[test]
fn two_finished_reports_extract_once() {
    let mut m = TorrentManager::new("/downloads".to_string());
    let mut mon = submit(&mut m, 1, "Game Z");
    assert!(mon.on_poll(&mut m, true) == MonitorAction::Extract);
    assert!(mon.on_poll(&mut m, true) == MonitorAction::Wait);
    assert!(mon.on_poll(&mut m, true) == MonitorAction::Wait);
    assert!(mon.phase() == MonitorPhase::Extracting);
}

#[test]
fn archives_extract_in_name_order_with_progress() {
    let mut m = TorrentManager::new("/downloads".to_string());
    let mut mon = submit(&mut m, 9, "Ordered");
    assert!(mon.on_poll(&mut m, true) == MonitorAction::Extract);
    let entries = vec![file("b.rar"), file("a.rar")];
    let mut run = ExtractionRun::new(9, &entries);
    assert_eq!(run.archive_count(), 2);
    match run.next_archive(&mut m) {
        ExtractionStep::Extract(a) => assert_eq!(a.name, "a.rar"),
        _ => panic!("expected a.rar"),
    }
    assert_eq!(progress_of(&m, 9), (0, 2));
    match run.next_archive(&mut m) {
        ExtractionStep::Extract(a) => assert_eq!(a.name, "b.rar"),
        _ => panic!("expected b.rar"),
    }
    assert_eq!(progress_of(&m, 9), (1, 2));
    assert!(matches!(run.next_archive(&mut m), ExtractionStep::Done));
    assert_eq!(progress_of(&m, 9), (1, 2));
}

#[test]
fn empty_directory_succeeds_without_progress() {
    let mut m = TorrentManager::new("/downloads".to_string());
    let mut mon = submit(&mut m, 4, "Empty");
    assert!(mon.on_poll(&mut m, true) == MonitorAction::Extract);
    let entries = vec![file("readme.txt"), DirEntry { name: "x.rar".to_string(), is_file: false }];
    let mut run = ExtractionRun::new(4, &entries);
    assert_eq!(run.archive_count(), 0);
    assert!(matches!(run.next_archive(&mut m), ExtractionStep::Done));
    assert_eq!(progress_of(&m, 4), (0, 1));
}

#[test]
fn failed_extraction_records_error() {
    let mut m = TorrentManager::new("/downloads".to_string());
    let mut mon = submit(&mut m, 2, "Broken");
    let engine = vec![EngineTorrent { id: 2, stats: stats(100, 100, true) }];
    assert!(mon.on_poll(&mut m, true) == MonitorAction::Extract);
    mon.on_extraction_done(&mut m, Err("bad archive".to_string()));
    let info = m.get_torrent_info(2).unwrap();
    assert_eq!(info.extraction_error(), Some("bad archive".to_string()));
    assert!(!info.extracted());
    assert!(m.list_torrents(&engine).is_empty());
}

#[test]
fn listing_reports_only_active_records() {
    let mut m = TorrentManager::new("/downloads".to_string());
    let _a = submit(&mut m, 1, "A");
    let mut b = submit(&mut m, 2, "B");
    let mut c = submit(&mut m, 3, "C");
    assert!(b.on_poll(&mut m, true) == MonitorAction::Extract);
    assert!(c.on_poll(&mut m, true) == MonitorAction::Extract);
    c.on_extraction_done(&mut m, Ok(()));
    let engine = vec![
        EngineTorrent { id: 3, stats: stats(5, 5, true) },
        EngineTorrent { id: 2, stats: stats(5, 5, true) },
        EngineTorrent { id: 99, stats: stats(1, 5, false) },
        EngineTorrent { id: 1, stats: stats(1, 5, false) },
    ];
    let list = m.list_torrents(&engine);
    assert_eq!(ids(&list), vec![2, 1]);
    for p in &list {
        let info = m.get_torrent_info(p.id).unwrap();
        assert!(matches!(info.state, DownloadState::Downloading | DownloadState::Extracting { .. }));
    }
    assert_eq!(list[0].name, "B");
    assert_eq!(list[1].downloaded, 1);
    assert_eq!(list[1].total_size, 5);
}

#[test]
fn submission_errors() {
    let mut m = TorrentManager::new("/downloads".to_string());
    assert!(matches!(
        m.add_torrent_magnet(Registration::Rejected("bad magnet".to_string()), "G", 0),
        Err(SubmitError::Engine(e)) if e == "bad magnet"
    ));
    assert!(matches!(m.add_torrent_magnet(Registration::ListOnly, "G", 0), Err(SubmitError::ListOnly)));
    assert!(m.get_torrent_info(0).is_none());
    assert!(m.add_torrent_magnet(Registration::Managed(5), "G", 0).is_ok());
    assert_eq!(m.get_torrent_info(5).unwrap().torrent_path, "");
    assert!(matches!(
        m.add_torrent_magnet(Registration::Managed(5), "H", 1),
        Err(SubmitError::DuplicateId(5))
    ));
    assert_eq!(m.get_torrent_info(5).unwrap().game_title, "G");
}

#[test]
fn engine_refusal_keeps_record() {
    let mut m = TorrentManager::new("/downloads".to_string());
    let _mon = submit(&mut m, 8, "Kept");
    assert!(matches!(
        m.remove_torrent(8, Err("unknown id".to_string())),
        Err(RemoveError::Engine(e)) if e == "unknown id"
    ));
    assert!(m.get_torrent_info(8).is_some());
    assert!(m.remove_torrent(8, Ok(())).is_ok());
    assert!(m.remove_torrent(8, Ok(())).is_ok());
}

#[test]
fn extraction_progress_never_goes_back() {
    let mut m = TorrentManager::new("/downloads".to_string());
    let mut mon = submit(&mut m, 6, "Mono");
    m.set_extract_progress(6, 1, 2);
    assert_eq!(progress_of(&m, 6), (0, 1));
    assert!(mon.on_poll(&mut m, true) == MonitorAction::Extract);
    m.set_extract_progress(6, 2, 3);
    assert_eq!(progress_of(&m, 6), (2, 3));
    m.set_extract_progress(6, 1, 2);
    assert_eq!(progress_of(&m, 6), (2, 3));
    m.set_extract_progress(6, 3, 4);
    assert_eq!(progress_of(&m, 6), (3, 4));
}

#[test]
fn archive_kinds_by_extension() {
    assert!(archive_kind("Game.RAR") == Some(ArchiveKind::Rar));
    assert!(archive_kind("setup.part2.rar") == Some(ArchiveKind::Rar));
    assert!(archive_kind("bonus.Zip") == Some(ArchiveKind::Zip));
    assert!(archive_kind(".rar").is_none());
    assert!(archive_kind("rar").is_none());
    assert!(archive_kind("notes.txt").is_none());
    assert!(archive_kind("data.tar.gz").is_none());
    assert!(archive_kind("..rar") == Some(ArchiveKind::Rar));
}

#[test]
fn discovery_sorts_by_name() {
    let entries = vec![file("c.zip"), file("B.rar"), file("a.rar"), file("info.nfo")];
    let found = discover_archives(&entries);
    let names: Vec<&str> = found.iter().map(|a| a.name.as_str()).collect();
    assert_eq!(names, vec!["B.rar", "a.rar", "c.zip"]);
}

#[test]
fn layout_paths() {
    assert_eq!(game_dir("/downloads", "Game X"), "/downloads/Game X");
    assert_eq!(game_dir("/downloads/", "Game X"), "/downloads/Game X");
    assert_eq!(extracted_dir("/downloads/Game X"), "/downloads/Game X/Extracted");
    assert_eq!(
        entry_destination("/d/G", "Top/sub/file.bin"),
        "/d/G/Extracted/sub/file.bin"
    );
    assert_eq!(entry_destination("/d/G", "Top\\bin\\game.exe"), "/d/G/Extracted/bin\\game.exe");
    assert_eq!(entry_destination("/d/G", "Top"), "/d/G/Extracted");
    assert_eq!(entry_destination("/d/G", "Top/"), "/d/G/Extracted");
}

#[test]
fn progress_entry_from_stats() {
    let info = TorrentInfo::new("Game X", "", 0);
    let live = TorrentStats {
        progress_bytes: 50,
        total_bytes: 200,
        finished: false,
        live: Some(LiveStats { download_rate: 1024, time_remaining: Some("2m 3s".to_string()), connected_peers: 4 }),
    };
    let p = torrent_stats_to_progress(&live, &info, 11);
    assert_eq!(p.id, 11);
    assert_eq!(p.name, "Game X");
    assert_eq!((p.downloaded, p.total_size), (50, 200));
    assert_eq!(p.download_rate, 1024);
    assert_eq!(p.peers_connected, 4);
    assert_eq!((p.extract_done, p.extract_total), (0, 1));
    assert_eq!(p.eta, "2m 3s");
    let q = torrent_stats_to_progress(&stats(0, 0, false), &info, 11);
    assert_eq!(q.eta, "N/A");
    assert_eq!(q.download_rate, 0);
    assert_eq!(q.peers_connected, 0);
}

#[test]
fn repeated_engine_entry_is_listed_once() {
    let mut m = TorrentManager::new("/downloads".to_string());
    let _a = submit(&mut m, 1, "A");
    let _b = submit(&mut m, 2, "B");
    let engine = vec![
        EngineTorrent { id: 1, stats: stats(1, 5, false) },
        EngineTorrent { id: 2, stats: stats(2, 5, false) },
        EngineTorrent { id: 1, stats: stats(3, 5, false) },
    ];
    let list = m.list_torrents(&engine);
    assert_eq!(ids(&list), vec![1, 2]);
    assert_eq!(list[0].downloaded, 1);
}

#[test]
fn failed_archive_ends_the_run() {
    let mut m = TorrentManager::new("/downloads".to_string());
    let mut mon = submit(&mut m, 5, "Three");
    assert!(mon.on_poll(&mut m, true) == MonitorAction::Extract);
    let mut run = ExtractionRun::new(5, &vec![file("c.rar"), file("a.rar"), file("b.rar")]);
    assert!(matches!(run.next_archive(&mut m), ExtractionStep::Extract(a) if a.name == "a.rar"));
    run.archive_done(Ok(()));
    assert!(matches!(run.next_archive(&mut m), ExtractionStep::Extract(a) if a.name == "b.rar"));
    assert_eq!(progress_of(&m, 5), (1, 3));
    run.archive_done(Err("bad header".to_string()));
    assert!(matches!(run.next_archive(&mut m), ExtractionStep::Failed(e) if e == "bad header"));
    run.archive_done(Err("later".to_string()));
    assert!(matches!(run.next_archive(&mut m), ExtractionStep::Failed(e) if e == "bad header"));
    assert_eq!(progress_of(&m, 5), (1, 3));
    mon.on_extraction_done(&mut m, Err("bad header".to_string()));
    assert_eq!(m.get_torrent_info(5).unwrap().extraction_error(), Some("bad header".to_string()));
}
