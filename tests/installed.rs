use pirateland::extraction::DirEntry;
use pirateland::installed::{installed_game, is_game_file};

fn file(name: &str) -> DirEntry {
    DirEntry { name: name.to_string(), is_file: true }
}

#[test]
fn launchable_extensions() {
    assert!(is_game_file("Game.exe"));
    assert!(is_game_file("START.EXE"));
    assert!(is_game_file("libgame.so"));
    assert!(is_game_file("Game.AppImage"));
    assert!(is_game_file("run.sh"));
    assert!(is_game_file("data.bin"));
    assert!(!is_game_file("readme.txt"));
    assert!(!is_game_file("exe"));
    assert!(!is_game_file(".sh"));
    assert!(!is_game_file("archive.exe.zip"));
}

#[test]
fn game_found_in_extracted_folder() {
    let files = vec![file("readme.txt"), file("Game.exe")];
    let g = installed_game("Game X", "/dl/Game X", true, &files).unwrap();
    assert_eq!(g.name, "Game X");
    assert_eq!(g.path, "/dl/Game X/Extracted");
    let h = installed_game("Game X", "/dl/Game X", false, &files).unwrap();
    assert_eq!(h.path, "/dl/Game X");
}

#[test]
fn folder_without_launchable_file_is_no_game() {
    let files = vec![file("readme.txt"), DirEntry { name: "bin.exe".to_string(), is_file: false }];
    assert!(installed_game("Partial", "/dl/Partial", false, &files).is_none());
    assert!(installed_game("Empty", "/dl/Empty", true, &Vec::new()).is_none());
}
