use vstd::prelude::*;
use crate::config::{save_game_image_to_config, AppConfig};

verus! {

pub struct PriceOverview {
    pub currency: Option<String>,
    pub discount_percent: Option<u32>,
    pub final_: Option<u32>,
    pub final_formatted: Option<String>,
    pub initial: Option<u32>,
    pub initial_formatted: Option<String>,
}

pub struct Screenshot {
    pub id: Option<u32>,
    pub path_full: Option<String>,
    pub path_thumbnail: Option<String>,
}

pub struct Genre {
    pub id: Option<String>,
    pub description: Option<String>,
}

pub struct PCRequirements {
    pub minimum: Option<String>,
    pub recommended: Option<String>,
}

/// What the store reports about one game.
pub struct GameDetails {
    pub name: Option<String>,
    pub short_description: Option<String>,
    pub header_image: Option<String>,
    pub developers: Option<Vec<String>>,
    pub publishers: Option<Vec<String>>,
    pub price_overview: Option<PriceOverview>,
    pub detailed_description: Option<String>,
    pub about_the_game: Option<String>,
    pub screenshots: Option<Vec<Screenshot>>,
    pub genres: Option<Vec<Genre>>,
    pub pc_requirements: Option<PCRequirements>,
}

/// The store's answer for one game id.
pub struct GameDetailsResponse {
    pub data: Option<GameDetails>,
}

impl GameDetails {
    /// Details that carry nothing but a header image.
    pub open spec fn only_image(&self, url: Seq<char>) -> bool {
        &&& self.header_image matches Some(h) && h@ == url
        &&& self.name is None
        &&& self.short_description is None
        &&& self.developers is None
        &&& self.publishers is None
        &&& self.price_overview is None
        &&& self.detailed_description is None
        &&& self.about_the_game is None
        &&& self.screenshots is None
        &&& self.genres is None
        &&& self.pc_requirements is None
    }

    pub fn with_header_image(url: String) -> (r: GameDetails)
        ensures
            r.only_image(url@),
    {
        GameDetails {
            name: None,
            short_description: None,
            header_image: Some(url),
            developers: None,
            publishers: None,
            price_overview: None,
            detailed_description: None,
            about_the_game: None,
            screenshots: None,
            genres: None,
            pc_requirements: None,
        }
    }
}

/// The details to show for a library game whose cover image is cached: the
/// image alone, without asking the store.
pub fn cached_game_details(config: &AppConfig, query: &str) -> (r: Option<GameDetails>)
    requires
        config.wf(),
    ensures
        match config.image_of(query@) {
            Some(url) => r matches Some(d) && d.only_image(url),
            None => r is None,
        },
{
    match config.game_image(query) {
        Some(url) => Some(GameDetails::with_header_image(url)),
        None => None,
    }
}

/// Caches the header image of freshly fetched details under the query that
/// found them; details without an image change nothing.
pub fn remember_header_image(config: &mut AppConfig, query: &str, details: &GameDetails)
    requires
        old(config).wf(),
    ensures
        final(config).wf(),
        match details.header_image {
            Some(h) => {
                &&& final(config).image_of(query@) == Some(h@)
                &&& forall|name: Seq<char>|
                    name != query@ ==> #[trigger] final(config).image_of(name) == old(config).image_of(name)
            },
            None => final(config).game_images == old(config).game_images,
        },
        final(config).recent_games == old(config).recent_games,
        final(config).defender_excluded == old(config).defender_excluded,
{
    match &details.header_image {
        Some(h) => save_game_image_to_config(config, query, h.as_str()),
        None => {},
    }
}

} // verus!
