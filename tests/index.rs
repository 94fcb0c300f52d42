use pirateland::index::{SteamGame, SteamGameStoreIndex};

fn game(appid: &str, name: &str, recommendations: u32, positive: u32, negative: u32) -> SteamGame {
    SteamGame {
        appid: appid.to_string(),
        name: name.to_string(),
        header_image: format!("https://img/{}.jpg", appid),
        recommendations,
        positive,
        negative,
    }
}

fn sample() -> SteamGameStoreIndex {
    let mut index = SteamGameStoreIndex::new();
    index.load_games(vec![
        game("1", "Alpha Strike", 5, 90, 10),
        game("2", "Beta Racing", 50, 9, 1),
        game("3", "Gamma Quest", 1, 1, 0),
        game("4", "Delta Force", 100, 0, 0),
    ]);
    index
}

fn appids(games: &[SteamGame]) -> Vec<String> {
    games.iter().map(|g| g.appid.clone()).collect()
}

#[test]
fn most_recommended_pages() {
    let index = sample();
    assert_eq!(appids(&index.get_games("most_recommended", 0, 2)), vec!["4", "2"]);
    assert_eq!(appids(&index.get_games("most_recommended", 1, 2)), vec!["1", "3"]);
    assert!(index.get_games("most_recommended", 2, 2).is_empty());
    assert_eq!(appids(&index.get_games("most_recommended", 1, 3)), vec!["3"]);
    assert!(index.get_games("most_recommended", usize::MAX, 2).is_empty());
    assert!(index.get_games("most_recommended", 0, 0).is_empty());
}

#[test]
fn best_reviewed_breaks_ties_by_recommendations() {
    let index = sample();
    assert_eq!(appids(&index.get_games("best_reviewed", 0, 10)), vec!["3", "2", "1", "4"]);
}

#[test]
fn unknown_category_is_empty() {
    let index = sample();
    assert!(index.get_games("newest", 0, 10).is_empty());
}

#[test]
fn best_match_exact_and_fuzzy() {
    let mut index = SteamGameStoreIndex::new();
    index.load_games(vec![
        game("10", "The Witcher 3: Wild Hunt", 1, 1, 1),
        game("20", "Portal 2", 1, 1, 1),
        game("30", "Doom", 1, 1, 1),
    ]);
    assert_eq!(index.find_best_match_sync("PORTAL 2 (OnlineFix)").map(|g| g.appid), Some("20".to_string()));
    assert_eq!(index.find_best_match_sync("Witcher 3").map(|g| g.appid), Some("10".to_string()));
    assert!(index.find_best_match_sync("Doom").is_none());
    assert!(index.find_best_match_sync("Zzzzzzzzzz").is_none());
}
