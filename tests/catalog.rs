use pirateland::config::{
    save_game_image_to_config, update_recent_games, AppConfig, GameImage, RecentGameEntry,
};
use pirateland::details::{cached_game_details, remember_header_image, GameDetails};
use pirateland::mirror::{extract_long_string, extract_magnet_link};
use pirateland::steam::{SteamApp, SteamGameStore};
use pirateland::text::{normalize_title, process_string_javascript_style};

fn app(appid: u32, name: &str) -> SteamApp {
    SteamApp { appid, name: name.to_string(), name_lower: name.to_lowercase() }
}

fn entry(name: &str, path: &str) -> RecentGameEntry {
    RecentGameEntry { name: name.to_string(), path: path.to_string() }
}

fn recent(config: &AppConfig) -> Vec<(String, String)> {
    config.recent_games.iter().map(|g| (g.name.clone(), g.path.clone())).collect()
}

#[test]
fn titles_normalize() {
    assert_eq!(normalize_title("The Witcher 3: Wild Hunt (OnlineFix)"), "thewitcher3wildhunt");
    assert_eq!(normalize_title("CRACK Simulator"), "simulator");
    assert_eq!(normalize_title("  Ёлки-2  "), "ёлки2");
    assert_eq!(normalize_title("online-fix crackcrack"), "");
    assert_eq!(normalize_title(""), "");
}

#[test]
fn scrambled_key_is_recovered() {
    assert_eq!(process_string_javascript_style("abcdefghijklmnopqrstuvwxyz0123456789"), "nljhfdbwy02468");
    assert_eq!(process_string_javascript_style("0123456789abcdefghij"), "531egi");
    assert_eq!(process_string_javascript_style("short"), "s");
    assert_eq!(process_string_javascript_style(""), "");
}

#[test]
fn store_finds_exact_names_in_any_case() {
    let mut store = SteamGameStore::new();
    assert_eq!(store.exact_match("Portal 2"), None);
    store.load_games(vec![app(620, "Portal 2"), app(400, "Portal"), app(70, "Half-Life")]);
    assert_eq!(store.exact_match("PORTAL 2"), Some(0));
    assert_eq!(store.exact_match("portal"), Some(1));
    assert_eq!(store.exact_match("half-life"), Some(2));
    assert_eq!(store.exact_match("Port"), None);
    assert_eq!(store.exact_match("Portal 2 Deluxe"), None);
    assert_eq!(store.search_exact("portal 2"), Some(0));
    assert_eq!(store.game_list()[0].appid, 620);
}

#[test]
fn later_duplicate_name_wins() {
    let mut store = SteamGameStore::new();
    store.load_games(vec![app(1, "Doom"), app(2, "DOOM")]);
    assert_eq!(store.exact_match("doom"), Some(1));
}

#[test]
fn reload_keeps_old_names_only_while_in_range() {
    let mut store = SteamGameStore::new();
    store.load_games(vec![app(1, "Alpha"), app(2, "Beta"), app(3, "Gamma")]);
    store.load_games(vec![app(4, "Delta")]);
    assert_eq!(store.exact_match("delta"), Some(0));
    assert_eq!(store.exact_match("alpha"), Some(0));
    assert_eq!(store.exact_match("gamma"), None);
}

#[test]
fn game_image_is_recorded_and_replaced() {
    let mut config = AppConfig::empty();
    save_game_image_to_config(&mut config, "Portal", "https://img/1.jpg");
    save_game_image_to_config(&mut config, "Doom", "https://img/2.jpg");
    save_game_image_to_config(&mut config, "Portal", "https://img/3.jpg");
    assert_eq!(config.game_images.len(), 2);
    assert_eq!(config.game_image("Portal"), Some("https://img/3.jpg".to_string()));
    assert_eq!(config.game_image("Doom"), Some("https://img/2.jpg".to_string()));
    assert_eq!(config.game_image("Quake"), None);
}

#[test]
fn recent_games_dedupe_and_keep_three() {
    let mut config = AppConfig::empty();
    update_recent_games(&mut config, "A".to_string(), "/a".to_string());
    update_recent_games(&mut config, "B".to_string(), "/b".to_string());
    update_recent_games(&mut config, "C".to_string(), "/c".to_string());
    update_recent_games(&mut config, "D".to_string(), "/d".to_string());
    let names: Vec<String> = recent(&config).into_iter().map(|(n, _)| n).collect();
    assert_eq!(names, vec!["D", "C", "B"]);
    update_recent_games(&mut config, "B".to_string(), "/elsewhere".to_string());
    update_recent_games(&mut config, "E".to_string(), "/c".to_string());
    assert_eq!(
        recent(&config),
        vec![
            ("E".to_string(), "/c".to_string()),
            ("B".to_string(), "/elsewhere".to_string()),
            ("D".to_string(), "/d".to_string()),
        ]
    );
}

#[test]
fn legacy_settings_get_placeholder_paths() {
    let mut config = AppConfig::from_legacy(vec!["Old".to_string(), "Older".to_string()]);
    config.recent_games.push(entry("New", "/new"));
    config.fill_missing_paths();
    assert_eq!(
        recent(&config),
        vec![
            ("Old".to_string(), "<unknown-path>".to_string()),
            ("Older".to_string(), "<unknown-path>".to_string()),
            ("New".to_string(), "/new".to_string()),
        ]
    );
    assert!(!config.defender_excluded);
    config.game_images.push(GameImage { game_name: "Old".to_string(), image_url: "u".to_string() });
    assert_eq!(config.game_image("Old"), Some("u".to_string()));
}

#[test]
fn cached_image_gives_details_without_fetching() {
    let mut config = AppConfig::empty();
    assert!(cached_game_details(&config, "Portal").is_none());
    let fetched = GameDetails::with_header_image("https://img/portal.jpg".to_string());
    remember_header_image(&mut config, "Portal", &fetched);
    let cached = cached_game_details(&config, "Portal").unwrap();
    assert_eq!(cached.header_image, Some("https://img/portal.jpg".to_string()));
    assert!(cached.name.is_none());
    let mut bare = GameDetails::with_header_image(String::new());
    bare.header_image = None;
    remember_header_image(&mut config, "Doom", &bare);
    assert!(cached_game_details(&config, "Doom").is_none());
}

#[test]
fn magnet_link_is_found_in_script() {
    let page = r#"<script>var x = 1; let magnetLink = "magnet:?xt=urn:btih:abc123&dn=Game"; go();</script>"#;
    assert_eq!(extract_magnet_link(page), Ok("magnet:?xt=urn:btih:abc123&dn=Game".to_string()));
    assert_eq!(
        extract_magnet_link("<html>nothing here</html>"),
        Err("Magnet link not found in JavaScript".to_string())
    );
}

#[test]
fn long_string_is_found_in_script() {
    let page = "<script>function generateDownloadUrl(){let key='AbC123xyz';return key;}</script>";
    assert_eq!(extract_long_string(page), Ok("AbC123xyz".to_string()));
    assert_eq!(
        extract_long_string("function other(){let key='nope';}"),
        Err("Long string not found in JavaScript".to_string())
    );
}
