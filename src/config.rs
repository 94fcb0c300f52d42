use vstd::prelude::*;

verus! {

/// A game the user opened recently.
pub struct RecentGameEntry {
    pub name: String,
    pub path: String,
}

impl RecentGameEntry {
    pub fn copy_entry(&self) -> (r: RecentGameEntry)
        ensures
            r == *self,
    {
        RecentGameEntry { name: self.name.clone(), path: self.path.clone() }
    }
}

/// A cached cover image for a game title.
pub struct GameImage {
    pub game_name: String,
    pub image_url: String,
}

/// The user's settings.
pub struct AppConfig {
    /// Most recent first, at most [`RECENT_GAMES_KEPT`] entries once updated.
    pub recent_games: Vec<RecentGameEntry>,
    pub defender_excluded: bool,
    /// At most one image per game name.
    pub game_images: Vec<GameImage>,
}

/// How many recent games the settings keep.
pub const RECENT_GAMES_KEPT: usize = 3;

/// Path recorded for a recent game whose path was never stored.
pub open spec fn unknown_path() -> Seq<char> {
    seq!['<', 'u', 'n', 'k', 'n', 'o', 'w', 'n', '-', 'p', 'a', 't', 'h', '>']
}

/// The recent games that neither share `name` nor `path`, in order.
pub open spec fn kept_recent(games: Seq<RecentGameEntry>, name: Seq<char>, path: Seq<char>) -> Seq<
    RecentGameEntry,
>
    decreases games.len(),
{
    if games.len() == 0 {
        games
    } else {
        let rest = kept_recent(games.drop_last(), name, path);
        let g = games.last();
        if g.name@ != name && g.path@ != path {
            rest.push(g)
        } else {
            rest
        }
    }
}

/// The recent games after `entry` was opened: it goes first, any entry with
/// its name or its path goes, and only the first three are kept.
pub open spec fn recent_after(games: Seq<RecentGameEntry>, entry: RecentGameEntry) -> Seq<RecentGameEntry> {
    let s = seq![entry] + kept_recent(games, entry.name@, entry.path@);
    if s.len() > RECENT_GAMES_KEPT {
        s.take(RECENT_GAMES_KEPT as int)
    } else {
        s
    }
}

pub open spec fn names_unique(images: Seq<GameImage>) -> bool {
    forall|i: int, j: int|
        0 <= i < images.len() && 0 <= j < images.len() && i != j ==> #[trigger] images[i].game_name@
            != #[trigger] images[j].game_name@
}

/// The image recorded for `name` in `images`, if any.
pub open spec fn image_in(images: Seq<GameImage>, name: Seq<char>) -> Option<Seq<char>> {
    if exists|i: int| 0 <= i < images.len() && #[trigger] images[i].game_name@ == name {
        let i = choose|i: int| 0 <= i < images.len() && #[trigger] images[i].game_name@ == name;
        Some(images[i].image_url@)
    } else {
        None
    }
}

proof fn lemma_image_at(images: Seq<GameImage>, k: int, name: Seq<char>)
    requires
        names_unique(images),
        0 <= k < images.len(),
        images[k].game_name@ == name,
    ensures
        image_in(images, name) == Some(images[k].image_url@),
{
    let i = choose|i: int| 0 <= i < images.len() && #[trigger] images[i].game_name@ == name;
    assert(i == k);
}

proof fn lemma_image_same(before: Seq<GameImage>, after: Seq<GameImage>, name: Seq<char>)
    requires
        names_unique(before),
        names_unique(after),
        forall|k: int|
            0 <= k < after.len() && #[trigger] after[k].game_name@ == name ==> k < before.len()
                && before[k] == after[k],
        forall|k: int|
            0 <= k < before.len() && #[trigger] before[k].game_name@ == name ==> k < after.len()
                && after[k] == before[k],
    ensures
        image_in(before, name) == image_in(after, name),
{
    if exists|i: int| 0 <= i < before.len() && #[trigger] before[i].game_name@ == name {
        let k = choose|i: int| 0 <= i < before.len() && #[trigger] before[i].game_name@ == name;
        lemma_image_at(before, k, name);
        lemma_image_at(after, k, name);
    } else if exists|i: int| 0 <= i < after.len() && #[trigger] after[i].game_name@ == name {
        let k = choose|i: int| 0 <= i < after.len() && #[trigger] after[i].game_name@ == name;
        assert(before[k].game_name@ == name);
    }
}

fn unknown_path_string() -> (r: String)
    ensures
        r@ == unknown_path(),
{
    proof {
        reveal_strlit("<unknown-path>");
    }
    assert("<unknown-path>"@ =~= unknown_path());
    "<unknown-path>".to_string()
}

impl AppConfig {
    /// Game names in the image cache are unique.
    pub open spec fn wf(&self) -> bool {
        names_unique(self.game_images@)
    }

    /// The cached image of `name`, if any.
    pub open spec fn image_of(&self, name: Seq<char>) -> Option<Seq<char>> {
        image_in(self.game_images@, name)
    }

    /// Settings with nothing recorded yet.
    pub fn empty() -> (r: AppConfig)
        ensures
            r.wf(),
            r.recent_games@.len() == 0,
            !r.defender_excluded,
            r.game_images@.len() == 0,
    {
        AppConfig { recent_games: Vec::new(), defender_excluded: false, game_images: Vec::new() }
    }

    /// Settings from the older format, which stored only game names.
    pub fn from_legacy(names: Vec<String>) -> (r: AppConfig)
        ensures
            r.wf(),
            r.recent_games@.len() == names@.len(),
            forall|i: int|
                0 <= i < names@.len() ==> #[trigger] r.recent_games@[i].name == names@[i]
                    && r.recent_games@[i].path@.len() == 0,
            !r.defender_excluded,
            r.game_images@.len() == 0,
    {
        let mut recent_games: Vec<RecentGameEntry> = Vec::new();
        let mut i: usize = 0;
        while i < names.len()
            invariant
                i <= names@.len(),
                recent_games@.len() == i,
                forall|k: int|
                    0 <= k < i ==> #[trigger] recent_games@[k].name == names@[k]
                        && recent_games@[k].path@.len() == 0,
            decreases names@.len() - i,
        {
            recent_games.push(RecentGameEntry { name: names[i].clone(), path: String::new() });
            i = i + 1;
        }
        AppConfig { recent_games, defender_excluded: false, game_images: Vec::new() }
    }

    /// Gives every recent game without a stored path the placeholder path.
    pub fn fill_missing_paths(&mut self)
        requires
            old(self).wf(),
        ensures
            final(self).wf(),
            final(self).defender_excluded == old(self).defender_excluded,
            final(self).game_images == old(self).game_images,
            final(self).recent_games@.len() == old(self).recent_games@.len(),
            forall|i: int|
                0 <= i < old(self).recent_games@.len() ==> {
                    let g = old(self).recent_games@[i];
                    let h = #[trigger] final(self).recent_games@[i];
                    h.name == g.name && if g.path@.len() == 0 {
                        h.path@ == unknown_path()
                    } else {
                        h.path == g.path
                    }
                },
    {
        let n = self.recent_games.len();
        let mut i: usize = 0;
        while i < n
            invariant
                n == old(self).recent_games@.len(),
                i <= n,
                self.recent_games@.len() == n,
                self.defender_excluded == old(self).defender_excluded,
                self.game_images == old(self).game_images,
                forall|k: int|
                    i <= k < n ==> #[trigger] self.recent_games@[k] == old(self).recent_games@[k],
                forall|k: int|
                    0 <= k < i ==> {
                        let g = old(self).recent_games@[k];
                        let h = #[trigger] self.recent_games@[k];
                        h.name == g.name && if g.path@.len() == 0 {
                            h.path@ == unknown_path()
                        } else {
                            h.path == g.path
                        }
                    },
            decreases n - i,
        {
            if self.recent_games[i].path.as_str().unicode_len() == 0 {
                self.recent_games[i].path = unknown_path_string();
            }
            i = i + 1;
        }
    }

    /// The cached image of `game_name`.
    pub fn game_image(&self, game_name: &str) -> (r: Option<String>)
        requires
            self.wf(),
        ensures
            r matches Some(url) ==> self.image_of(game_name@) == Some(url@),
            r is None ==> self.image_of(game_name@) is None,
    {
        let mut i: usize = 0;
        while i < self.game_images.len()
            invariant
                self.wf(),
                i <= self.game_images@.len(),
                forall|k: int| 0 <= k < i ==> #[trigger] self.game_images@[k].game_name@ != game_name@,
            decreases self.game_images@.len() - i,
        {
            if str_eq(self.game_images[i].game_name.as_str(), game_name) {
                proof {
                    lemma_image_at(self.game_images@, i as int, game_name@);
                }
                return Some(self.game_images[i].image_url.clone());
            }
            i = i + 1;
        }
        None
    }
}

/// Whether two strings hold the same characters.
pub(crate) fn str_eq(a: &str, b: &str) -> (r: bool)
    ensures
        r == (a@ == b@),
{
    let n = a.unicode_len();
    if n != b.unicode_len() {
        return false;
    }
    let mut i: usize = 0;
    while i < n
        invariant
            n == a@.len(),
            n == b@.len(),
            i <= n,
            forall|k: int| 0 <= k < i ==> a@[k] == b@[k],
        decreases n - i,
    {
        if a.get_char(i) != b.get_char(i) {
            return false;
        }
        i = i + 1;
    }
    assert(a@ =~= b@);
    true
}

/// Records `image_url` as the cached image of `game_name`, replacing an
/// earlier one.
pub fn save_game_image_to_config(config: &mut AppConfig, game_name: &str, image_url: &str)
    requires
        old(config).wf(),
    ensures
        final(config).wf(),
        final(config).image_of(game_name@) == Some(image_url@),
        forall|name: Seq<char>|
            name != game_name@ ==> #[trigger] final(config).image_of(name) == old(config).image_of(name),
        final(config).recent_games == old(config).recent_games,
        final(config).defender_excluded == old(config).defender_excluded,
{
    let n = config.game_images.len();
    let mut i: usize = 0;
    while i < n
        invariant
            n == config.game_images@.len(),
            i <= n,
            forall|k: int| 0 <= k < i ==> #[trigger] config.game_images@[k].game_name@ != game_name@,
        ensures
            i <= n,
            forall|k: int| 0 <= k < i ==> #[trigger] config.game_images@[k].game_name@ != game_name@,
            i < n ==> config.game_images@[i as int].game_name@ == game_name@,
        decreases n - i,
    {
        if str_eq(config.game_images[i].game_name.as_str(), game_name) {
            break;
        }
        i = i + 1;
    }
    let ghost before = config.game_images@;
    let entry = GameImage { game_name: game_name.to_string(), image_url: image_url.to_string() };
    if i < n {
        config.game_images.set(i, entry);
    } else {
        config.game_images.push(entry);
    }
    proof {
        let after = config.game_images@;
        assert(after.len() >= before.len());
        assert(after[i as int].game_name@ == game_name@);
        assert(after[i as int].image_url@ == image_url@);
        assert forall|k: int| 0 <= k < after.len() && k != i implies after[k] == before[k] by {};
        assert(names_unique(after)) by {
            assert forall|p: int, q: int|
                0 <= p < after.len() && 0 <= q < after.len() && p != q implies #[trigger] after[p].game_name@
                    != #[trigger] after[q].game_name@ by {
                if p != i as int && q != i as int {
                    assert(after[p] == before[p] && after[q] == before[q]);
                } else if p == i as int {
                    assert(after[q] == before[q]);
                    if q > i {
                        assert(before[i as int].game_name@ == game_name@);
                    }
                } else {
                    assert(after[p] == before[p]);
                    if p > i {
                        assert(before[i as int].game_name@ == game_name@);
                    }
                }
            };
        };
        lemma_image_at(after, i as int, game_name@);
        assert forall|name: Seq<char>| name != game_name@ implies #[trigger] image_in(after, name)
            == image_in(before, name) by {
            assert forall|k: int| 0 <= k < after.len() && #[trigger] after[k].game_name@ == name implies k
                < before.len() && before[k] == after[k] by {
                assert(k != i);
            };
            assert forall|k: int| 0 <= k < before.len() && #[trigger] before[k].game_name@ == name implies k
                < after.len() && after[k] == before[k] by {
                if k == i {
                    assert(before[i as int].game_name@ == game_name@);
                }
            };
            lemma_image_same(before, after, name);
        };
    }
}

/// Records that the game `name` at `path` was opened: it goes to the front
/// of the recent games, replacing any entry with the same name or the same
/// path, and only the three most recent are kept.
pub fn update_recent_games(config: &mut AppConfig, name: String, path: String)
    requires
        old(config).wf(),
    ensures
        final(config).wf(),
        final(config).recent_games@ == recent_after(
            old(config).recent_games@,
            RecentGameEntry { name, path },
        ),
        final(config).game_images == old(config).game_images,
        final(config).defender_excluded == old(config).defender_excluded,
{
    let entry = RecentGameEntry { name, path };
    let ghost games = config.recent_games@;
    let mut kept: Vec<RecentGameEntry> = Vec::new();
    kept.push(entry.copy_entry());
    let mut i: usize = 0;
    while i < config.recent_games.len()
        invariant
            games == config.recent_games@,
            i <= games.len(),
            kept@ == seq![entry] + kept_recent(games.take(i as int), entry.name@, entry.path@),
        decreases games.len() - i,
    {
        let g = &config.recent_games[i];
        assert(games.take(i + 1).drop_last() =~= games.take(i as int));
        assert(games.take(i + 1).last() == games[i as int]);
        if !str_eq(g.name.as_str(), entry.name.as_str()) && !str_eq(g.path.as_str(), entry.path.as_str()) {
            kept.push(g.copy_entry());
            assert(kept@ =~= seq![entry] + kept_recent(games.take(i + 1), entry.name@, entry.path@));
        }
        i = i + 1;
    }
    assert(games.take(games.len() as int) =~= games);
    if kept.len() > RECENT_GAMES_KEPT {
        kept.truncate(RECENT_GAMES_KEPT);
    }
    config.recent_games = kept;
}

} // verus!
