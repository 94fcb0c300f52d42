use vstd::prelude::*;
use fuzzy_matcher::skim::SkimMatcherV2;
use fuzzy_matcher::FuzzyMatcher;
use crate::config::str_eq;
use crate::text::{normalize_title, normalized};
use vstd::arithmetic::mul::{
    lemma_mul_inequality, lemma_mul_inequality_converse, lemma_mul_strict_inequality,
    lemma_mul_strict_inequality_converse,
};

verus! {

/// A game of the browsable catalogue.
pub struct SteamGame {
    pub appid: String,
    pub name: String,
    pub header_image: String,
    pub recommendations: u32,
    pub positive: u32,
    pub negative: u32,
}

impl SteamGame {
    pub fn copy_game(&self) -> (r: SteamGame)
        ensures
            r == *self,
    {
        SteamGame {
            appid: self.appid.clone(),
            name: self.name.clone(),
            header_image: self.header_image.clone(),
            recommendations: self.recommendations,
            positive: self.positive,
            negative: self.negative,
        }
    }
}

/// Titles shorter than this many bytes, once normalised, are not indexed.
pub const MIN_INDEXED_TITLE_BYTES: usize = 5;

/// Fuzzy scores must exceed this for a fuzzy match to count.
pub const MIN_FUZZY_SCORE: i64 = 70;

/// Score that `SkimMatcherV2::fuzzy_match` gives `pattern` against `choice`.
pub uninterp spec fn skim_score(choice: Seq<char>, pattern: Seq<char>) -> Option<i64>;

/// Relies on fuzzy_matcher's `SkimMatcherV2` with default settings: the score
/// of `fuzzy_match` depends on the two strings alone.
#[verifier::external_body]
fn fuzzy_score(choice: &str, pattern: &str) -> (r: Option<i64>)
    ensures
        r == skim_score(choice@, pattern@),
{
    SkimMatcherV2::default().fuzzy_match(choice, pattern)
}

/// Bytes a character takes in UTF-8.
pub open spec fn utf8_width(c: char) -> nat {
    let v = c as u32;
    if v < 0x80 {
        1
    } else if v < 0x800 {
        2
    } else if v < 0x10000 {
        3
    } else {
        4
    }
}

/// Bytes a string takes in UTF-8.
pub open spec fn utf8_len(s: Seq<char>) -> nat
    decreases s.len(),
{
    if s.len() == 0 {
        0
    } else {
        utf8_len(s.drop_last()) + utf8_width(s.last())
    }
}

proof fn lemma_utf8_len_prefix(s: Seq<char>, i: int)
    requires
        0 <= i <= s.len(),
    ensures
        utf8_len(s.take(i)) <= utf8_len(s),
    decreases s.len() - i,
{
    if i < s.len() {
        lemma_utf8_len_prefix(s, i + 1);
        assert(s.take(i + 1).drop_last() =~= s.take(i));
        assert(utf8_len(s.take(i + 1)) == utf8_len(s.take(i)) + utf8_width(s.take(i + 1).last()));
    } else {
        assert(s.take(i) =~= s);
    }
}

fn char_width(c: char) -> (r: usize)
    ensures
        r == utf8_width(c),
{
    let v = c as u32;
    if v < 0x80 {
        1
    } else if v < 0x800 {
        2
    } else if v < 0x10000 {
        3
    } else {
        4
    }
}

/// Whether a title is long enough, in UTF-8 bytes, to be indexed.
fn long_enough(s: &str) -> (r: bool)
    ensures
        r == (utf8_len(s@) >= MIN_INDEXED_TITLE_BYTES),
{
    let n = s.unicode_len();
    let mut total: usize = 0;
    let mut i: usize = 0;
    while i < n
        invariant
            n == s@.len(),
            i <= n,
            total == utf8_len(s@.take(i as int)),
            total < MIN_INDEXED_TITLE_BYTES,
        decreases n - i,
    {
        assert(s@.take(i + 1).drop_last() =~= s@.take(i as int));
        total = total + char_width(s.get_char(i));
        i = i + 1;
        if total >= MIN_INDEXED_TITLE_BYTES {
            proof {
                lemma_utf8_len_prefix(s@, i as int);
            }
            return true;
        }
    }
    assert(s@.take(n as int) =~= s@);
    false
}

/// `a` may be listed before `b` among the most recommended.
pub open spec fn recommended_before(a: SteamGame, b: SteamGame) -> bool {
    a.recommendations >= b.recommendations
}

/// Denominator of a game's review score `positive / (positive + negative)`;
/// a game without reviews counts one.
pub open spec fn review_total(g: SteamGame) -> int {
    if g.positive + g.negative == 0 {
        1
    } else {
        g.positive + g.negative
    }
}

/// `a` may be listed before `b` among the best reviewed: its review score is
/// higher, or equal with at least as many recommendations. Scores are
/// compared exactly.
pub open spec fn reviewed_before(a: SteamGame, b: SteamGame) -> bool {
    let l = a.positive * review_total(b);
    let r = b.positive * review_total(a);
    l > r || (l == r && a.recommendations >= b.recommendations)
}

pub open spec fn ranks_before(by_review: bool, a: SteamGame, b: SteamGame) -> bool {
    if by_review {
        reviewed_before(a, b)
    } else {
        recommended_before(a, b)
    }
}

/// `list` orders positions of `games`, each listed game allowed before every
/// later one.
pub open spec fn ranked(by_review: bool, games: Seq<SteamGame>, list: Seq<usize>) -> bool {
    forall|i: int, j: int|
        0 <= i < j < list.len() ==> ranks_before(by_review, games[#[trigger] list[i] as int], games[#[trigger] list[j] as int])
}

/// `list` holds each of the positions `0 .. n` exactly once.
pub open spec fn is_permutation(list: Seq<usize>, n: nat) -> bool {
    &&& list.len() == n
    &&& list.to_set() == Set::new(|v: usize| (v as nat) < n)
}

proof fn lemma_permutation_bounds(list: Seq<usize>, n: nat)
    requires
        is_permutation(list, n),
    ensures
        forall|t: int| 0 <= t < list.len() ==> #[trigger] list[t] < n,
{
    assert forall|t: int| 0 <= t < list.len() implies #[trigger] list[t] < n by {
        assert(list.to_set().contains(list[t]));
    };
}

proof fn lemma_fraction_order(x1: int, y1: int, x2: int, y2: int, x3: int, y3: int)
    requires
        0 < y1,
        0 < y2,
        0 < y3,
        x1 * y2 >= x2 * y1,
        x2 * y3 >= x3 * y2,
    ensures
        x1 * y3 >= x3 * y1,
        (x1 * y2 > x2 * y1 || x2 * y3 > x3 * y2) ==> x1 * y3 > x3 * y1,
{
    assert((x1 * y2) * y3 == (x1 * y3) * y2) by (nonlinear_arith);
    assert((x2 * y1) * y3 == (x2 * y3) * y1) by (nonlinear_arith);
    assert((x3 * y2) * y1 == (x3 * y1) * y2) by (nonlinear_arith);
    lemma_mul_inequality(x2 * y1, x1 * y2, y3);
    lemma_mul_inequality(x3 * y2, x2 * y3, y1);
    lemma_mul_inequality_converse(x3 * y1, x1 * y3, y2);
    if x1 * y2 > x2 * y1 {
        lemma_mul_strict_inequality(x2 * y1, x1 * y2, y3);
        lemma_mul_strict_inequality_converse(x3 * y1, x1 * y3, y2);
    } else if x2 * y3 > x3 * y2 {
        lemma_mul_strict_inequality(x3 * y2, x2 * y3, y1);
        lemma_mul_strict_inequality_converse(x3 * y1, x1 * y3, y2);
    }
}

proof fn lemma_ranks_total(by_review: bool, a: SteamGame, b: SteamGame)
    ensures
        ranks_before(by_review, a, b) || ranks_before(by_review, b, a),
{
}

proof fn lemma_ranks_transitive(by_review: bool, a: SteamGame, b: SteamGame, c: SteamGame)
    requires
        ranks_before(by_review, a, b),
        ranks_before(by_review, b, c),
    ensures
        ranks_before(by_review, a, c),
{
    if by_review {
        lemma_fraction_order(
            a.positive as int,
            review_total(a),
            b.positive as int,
            review_total(b),
            c.positive as int,
            review_total(c),
        );
        assert(a.positive * review_total(b) == (a.positive as int) * review_total(b));
    }
}

fn ranks_before_exec(by_review: bool, a: &SteamGame, b: &SteamGame) -> (r: bool)
    ensures
        r == ranks_before(by_review, *a, *b),
{
    if by_review {
        let ta: u64 = if a.positive as u64 + a.negative as u64 == 0 {
            1
        } else {
            a.positive as u64 + a.negative as u64
        };
        let tb: u64 = if b.positive as u64 + b.negative as u64 == 0 {
            1
        } else {
            b.positive as u64 + b.negative as u64
        };
        assert((a.positive as int) * (tb as int) <= 0xffff_ffff * 0x1_ffff_fffe) by (nonlinear_arith)
            requires
                a.positive <= 0xffff_ffff,
                tb <= 0x1_ffff_fffe,
        ;
        assert((b.positive as int) * (ta as int) <= 0xffff_ffff * 0x1_ffff_fffe) by (nonlinear_arith)
            requires
                b.positive <= 0xffff_ffff,
                ta <= 0x1_ffff_fffe,
        ;
        let l = a.positive as u128 * tb as u128;
        let r = b.positive as u128 * ta as u128;
        l > r || (l == r && a.recommendations >= b.recommendations)
    } else {
        a.recommendations >= b.recommendations
    }
}

/// Inserts position `x` into the ranked `list` after every position that may
/// come before it.
fn insert_ranked(by_review: bool, games: &Vec<SteamGame>, list: &mut Vec<usize>, x: usize)
    requires
        ranked(by_review, games@, old(list)@),
        x < games@.len(),
        forall|i: int| 0 <= i < old(list)@.len() ==> #[trigger] old(list)@[i] < games@.len(),
    ensures
        ranked(by_review, games@, final(list)@),
        final(list)@.len() == old(list)@.len() + 1,
        forall|i: int| 0 <= i < final(list)@.len() ==> #[trigger] final(list)@[i] < games@.len(),
        final(list)@.to_set() == old(list)@.to_set().insert(x),
{
    let mut pos: usize = 0;
    while pos < list.len() && ranks_before_exec(by_review, &games[list[pos]], &games[x])
        invariant
            pos <= list@.len(),
            x < games@.len(),
            ranked(by_review, games@, list@),
            forall|i: int| 0 <= i < list@.len() ==> #[trigger] list@[i] < games@.len(),
            forall|k: int| 0 <= k < pos ==> ranks_before(by_review, games@[#[trigger] list@[k] as int], games@[x as int]),
        decreases list@.len() - pos,
    {
        pos = pos + 1;
    }
    let ghost old_l = list@;
    let ghost gx = games@[x as int];
    proof {
        if pos < old_l.len() {
            lemma_ranks_total(by_review, games@[old_l[pos as int] as int], gx);
            assert forall|j: int| pos <= j < old_l.len() implies ranks_before(
                by_review,
                gx,
                games@[#[trigger] old_l[j] as int],
            ) by {
                if j > pos {
                    lemma_ranks_transitive(by_review, gx, games@[old_l[pos as int] as int], games@[old_l[j] as int]);
                }
            };
        }
    }
    list.insert(pos, x);
    proof {
        let nl = list@;
        assert(nl =~= old_l.insert(pos as int, x));
        assert forall|i: int, j: int| 0 <= i < j < nl.len() implies ranks_before(
            by_review,
            games@[#[trigger] nl[i] as int],
            games@[#[trigger] nl[j] as int],
        ) by {
            if j < pos {
            } else if j == pos {
            } else if i < pos {
                assert(nl[j] == old_l[j - 1]);
                lemma_ranks_transitive(by_review, games@[nl[i] as int], gx, games@[nl[j] as int]);
            } else if i == pos {
                assert(nl[j] == old_l[j - 1]);
            } else {
                assert(nl[i] == old_l[i - 1]);
                assert(nl[j] == old_l[j - 1]);
            }
        };
        assert forall|i: int| 0 <= i < nl.len() implies #[trigger] nl[i] < games@.len() by {
            if i > pos {
                assert(nl[i] == old_l[i - 1]);
            }
        };
        assert(nl.to_set() =~= old_l.to_set().insert(x)) by {
            assert forall|v: usize| nl.contains(v) <==> old_l.contains(v) || v == x by {
                if nl.contains(v) {
                    let i = choose|i: int| 0 <= i < nl.len() && nl[i] == v;
                    if i < pos {
                        assert(old_l[i] == v);
                    } else if i > pos {
                        assert(old_l[i - 1] == v);
                    }
                }
                if old_l.contains(v) {
                    let i = choose|i: int| 0 <= i < old_l.len() && old_l[i] == v;
                    if i < pos {
                        assert(nl[i] == v);
                    } else {
                        assert(nl[i + 1] == v);
                    }
                }
                if v == x {
                    assert(nl[pos as int] == x);
                }
            };
        };
    }
}

/// A normalised title and the position of the game it names.
pub struct TitleEntry {
    pub title: String,
    pub position: usize,
}

pub open spec fn titles_unique(es: Seq<TitleEntry>) -> bool {
    forall|i: int, j: int|
        0 <= i < es.len() && 0 <= j < es.len() && i != j ==> #[trigger] es[i].title@ != #[trigger] es[j].title@
}

/// The position the entries give for title `key`, if any.
pub open spec fn position_of(es: Seq<TitleEntry>, key: Seq<char>) -> Option<usize> {
    if exists|i: int| 0 <= i < es.len() && #[trigger] es[i].title@ == key {
        let i = choose|i: int| 0 <= i < es.len() && #[trigger] es[i].title@ == key;
        Some(es[i].position)
    } else {
        None
    }
}

/// Normalised title to position, over the games long enough to index; a
/// later game wins over an earlier one with the same normalised title.
pub open spec fn title_index(games: Seq<SteamGame>) -> Map<Seq<char>, usize>
    decreases games.len(),
{
    if games.len() == 0 {
        Map::empty()
    } else {
        let m = title_index(games.drop_last());
        let k = normalized(games.last().name@);
        if utf8_len(k) >= MIN_INDEXED_TITLE_BYTES {
            m.insert(k, (games.len() - 1) as usize)
        } else {
            m
        }
    }
}

/// The entries hold exactly the map `m`.
pub open spec fn entries_hold(es: Seq<TitleEntry>, m: Map<Seq<char>, usize>) -> bool {
    forall|k: Seq<char>|
        #[trigger] position_of(es, k) == if m.contains_key(k) {
            Some(m[k])
        } else {
            None
        }
}

/// The best fuzzy match among the entries for `pattern`, as (score,
/// position): the first entry with the highest score above the threshold.
pub open spec fn best_fuzzy(es: Seq<TitleEntry>, pattern: Seq<char>) -> Option<(i64, usize)>
    decreases es.len(),
{
    if es.len() == 0 {
        None
    } else {
        let prev = best_fuzzy(es.drop_last(), pattern);
        let e = es.last();
        match skim_score(e.title@, pattern) {
            Some(score) => if score > MIN_FUZZY_SCORE && match prev {
                Some(b) => score > b.0,
                None => true,
            } {
                Some((score, e.position))
            } else {
                prev
            },
            None => prev,
        }
    }
}

proof fn lemma_position_at(es: Seq<TitleEntry>, k: int, key: Seq<char>)
    requires
        titles_unique(es),
        0 <= k < es.len(),
        es[k].title@ == key,
    ensures
        position_of(es, key) == Some(es[k].position),
{
    let i = choose|i: int| 0 <= i < es.len() && #[trigger] es[i].title@ == key;
    assert(i == k);
}

proof fn lemma_position_same(before: Seq<TitleEntry>, after: Seq<TitleEntry>, key: Seq<char>)
    requires
        titles_unique(before),
        titles_unique(after),
        forall|k: int|
            0 <= k < after.len() && #[trigger] after[k].title@ == key ==> k < before.len() && before[k]
                == after[k],
        forall|k: int|
            0 <= k < before.len() && #[trigger] before[k].title@ == key ==> k < after.len() && after[k]
                == before[k],
    ensures
        position_of(before, key) == position_of(after, key),
{
    if exists|i: int| 0 <= i < before.len() && #[trigger] before[i].title@ == key {
        let k = choose|i: int| 0 <= i < before.len() && #[trigger] before[i].title@ == key;
        lemma_position_at(before, k, key);
        lemma_position_at(after, k, key);
    } else if exists|i: int| 0 <= i < after.len() && #[trigger] after[i].title@ == key {
        let k = choose|i: int| 0 <= i < after.len() && #[trigger] after[i].title@ == key;
        assert(before[k].title@ == key);
    }
}

/// Records `position` for `title`, replacing an earlier entry.
fn upsert_title(es: &mut Vec<TitleEntry>, title: String, position: usize)
    requires
        titles_unique(old(es)@),
    ensures
        titles_unique(final(es)@),
        position_of(final(es)@, title@) == Some(position),
        forall|key: Seq<char>|
            key != title@ ==> #[trigger] position_of(final(es)@, key) == position_of(old(es)@, key),
        forall|i: int|
            0 <= i < final(es)@.len() ==> (#[trigger] final(es)@[i]).position == position || exists|j: int|
                0 <= j < old(es)@.len() && final(es)@[i] == old(es)@[j],
{
    let n = es.len();
    let mut i: usize = 0;
    while i < n
        invariant
            n == es@.len(),
            i <= n,
            forall|k: int| 0 <= k < i ==> #[trigger] es@[k].title@ != title@,
        ensures
            i <= n,
            forall|k: int| 0 <= k < i ==> #[trigger] es@[k].title@ != title@,
            i < n ==> es@[i as int].title@ == title@,
        decreases n - i,
    {
        if str_eq(es[i].title.as_str(), title.as_str()) {
            break;
        }
        i = i + 1;
    }
    let ghost before = es@;
    let ghost key = title@;
    let entry = TitleEntry { title, position };
    if i < n {
        es.set(i, entry);
    } else {
        es.push(entry);
    }
    proof {
        let after = es@;
        assert(after[i as int].title@ == key);
        assert forall|k: int| 0 <= k < after.len() && k != i implies after[k] == before[k] by {};
        assert(titles_unique(after)) by {
            assert forall|p: int, q: int|
                0 <= p < after.len() && 0 <= q < after.len() && p != q implies #[trigger] after[p].title@
                    != #[trigger] after[q].title@ by {
                if p != i as int && q != i as int {
                    assert(after[p] == before[p] && after[q] == before[q]);
                } else if p == i as int {
                    assert(after[q] == before[q]);
                    if q > i {
                        assert(before[i as int].title@ == key);
                    }
                } else {
                    assert(after[p] == before[p]);
                    if p > i {
                        assert(before[i as int].title@ == key);
                    }
                }
            };
        };
        lemma_position_at(after, i as int, key);
        assert forall|k2: Seq<char>| k2 != key implies #[trigger] position_of(after, k2) == position_of(before, k2) by {
            assert forall|k: int| 0 <= k < after.len() && #[trigger] after[k].title@ == k2 implies k < before.len()
                && before[k] == after[k] by {
                assert(k != i);
            };
            assert forall|k: int| 0 <= k < before.len() && #[trigger] before[k].title@ == k2 implies k < after.len()
                && after[k] == before[k] by {
                if k == i {
                    assert(before[i as int].title@ == key);
                }
            };
            lemma_position_same(before, after, k2);
        };
        assert forall|p: int| 0 <= p < after.len() implies (#[trigger] after[p]).position == position || exists|j: int|
            0 <= j < before.len() && after[p] == before[j] by {
            if p != i {
                assert(after[p] == before[p]);
            }
        };
    }
}

/// The browsable catalogue: games in loading order, two rankings of them, and
/// an index from normalised titles to games.
pub struct SteamGameStoreIndex {
    games: Vec<SteamGame>,
    sorted_recommended: Vec<usize>,
    sorted_reviewed: Vec<usize>,
    search_index: Vec<TitleEntry>,
}

/// A page of `list`: the games at its positions `page * size` up to, not
/// including, `(page + 1) * size`.
pub open spec fn page_of(games: Seq<SteamGame>, list: Seq<usize>, page: nat, size: nat) -> Seq<SteamGame> {
    let start = page * size;
    if start >= list.len() {
        Seq::empty()
    } else {
        let end = if start + size <= list.len() {
            start + size
        } else {
            list.len() as nat
        };
        Seq::new((end - start) as nat, |i: int| games[list[start + i] as int])
    }
}

impl SteamGameStoreIndex {
    pub closed spec fn games(&self) -> Seq<SteamGame> {
        self.games@
    }

    /// Positions of the games, most recommended first.
    pub closed spec fn recommended(&self) -> Seq<usize> {
        self.sorted_recommended@
    }

    /// Positions of the games, best reviewed first.
    pub closed spec fn reviewed(&self) -> Seq<usize> {
        self.sorted_reviewed@
    }

    pub closed spec fn titles(&self) -> Seq<TitleEntry> {
        self.search_index@
    }

    pub open spec fn wf(&self) -> bool {
        &&& is_permutation(self.recommended(), self.games().len())
        &&& is_permutation(self.reviewed(), self.games().len())
        &&& ranked(false, self.games(), self.recommended())
        &&& ranked(true, self.games(), self.reviewed())
        &&& titles_unique(self.titles())
        &&& forall|i: int| 0 <= i < self.titles().len() ==> (#[trigger] self.titles()[i]).position < self.games().len()
    }

    /// The list a category names, if it names one.
    pub open spec fn category_list(&self, category: Seq<char>) -> Option<Seq<usize>> {
        if category == "most_recommended"@ {
            Some(self.recommended())
        } else if category == "best_reviewed"@ {
            Some(self.reviewed())
        } else {
            None
        }
    }

    pub fn new() -> (r: SteamGameStoreIndex)
        ensures
            r.wf(),
            r.games().len() == 0,
            r.titles().len() == 0,
    {
        let r = SteamGameStoreIndex {
            games: Vec::new(),
            sorted_recommended: Vec::new(),
            sorted_reviewed: Vec::new(),
            search_index: Vec::new(),
        };
        assert(r.recommended().to_set() =~= Set::new(|v: usize| (v as nat) < 0));
        assert(r.reviewed().to_set() =~= Set::new(|v: usize| (v as nat) < 0));
        r
    }

    /// Replaces the catalogue with `games`, ranks them both ways and indexes
    /// their normalised titles.
    pub fn load_games(&mut self, games: Vec<SteamGame>)
        ensures
            final(self).wf(),
            final(self).games() == games@,
            entries_hold(final(self).titles(), title_index(games@)),
    {
        self.games = games;
        self.sorted_recommended = Vec::new();
        self.sorted_reviewed = Vec::new();
        self.search_index = Vec::new();
        let n = self.games.len();
        let mut i: usize = 0;
        assert(self.games@.take(0) =~= Seq::<SteamGame>::empty());
        assert(self.sorted_recommended@.to_set() =~= Set::new(|v: usize| (v as nat) < 0));
        assert(self.sorted_reviewed@.to_set() =~= Set::new(|v: usize| (v as nat) < 0));
        while i < n
            invariant
                n == self.games@.len(),
                self.games@ == games@,
                i <= n,
                is_permutation(self.sorted_recommended@, i as nat),
                is_permutation(self.sorted_reviewed@, i as nat),
                ranked(false, self.games@, self.sorted_recommended@),
                ranked(true, self.games@, self.sorted_reviewed@),
                forall|k: int| 0 <= k < self.sorted_recommended@.len() ==> #[trigger] self.sorted_recommended@[k] < n,
                forall|k: int| 0 <= k < self.sorted_reviewed@.len() ==> #[trigger] self.sorted_reviewed@[k] < n,
                titles_unique(self.search_index@),
                forall|k: int| 0 <= k < self.search_index@.len() ==> (#[trigger] self.search_index@[k]).position < i,
                entries_hold(self.search_index@, title_index(self.games@.take(i as int))),
            decreases n - i,
        {
            insert_ranked(false, &self.games, &mut self.sorted_recommended, i);
            insert_ranked(true, &self.games, &mut self.sorted_reviewed, i);
            assert(self.sorted_recommended@.to_set() =~= Set::new(|v: usize| (v as nat) < i + 1));
            assert(self.sorted_reviewed@.to_set() =~= Set::new(|v: usize| (v as nat) < i + 1));
            let key = normalize_title(self.games[i].name.as_str());
            let ghost prefix = self.games@.take(i + 1);
            assert(prefix.drop_last() =~= self.games@.take(i as int));
            assert(prefix.last() == self.games@[i as int]);
            if long_enough(key.as_str()) {
                let ghost before = self.search_index@;
                upsert_title(&mut self.search_index, key, i);
                proof {
                    let after = self.search_index@;
                    assert forall|k: int| 0 <= k < after.len() implies (#[trigger] after[k]).position < i + 1 by {
                        if after[k].position != i {
                            let j = choose|j: int| 0 <= j < before.len() && after[k] == before[j];
                            assert(before[j].position < i);
                        }
                    };
                }
            }
            i = i + 1;
        }
        assert(self.games@.take(n as int) =~= self.games@);
    }

    /// One page of a ranking: "most_recommended" or "best_reviewed"; any other
    /// category gives nothing.
    pub fn get_games(&self, category: &str, page: usize, page_size: usize) -> (r: Vec<SteamGame>)
        requires
            self.wf(),
        ensures
            r@ == match self.category_list(category@) {
                Some(list) => page_of(self.games(), list, page as nat, page_size as nat),
                None => Seq::<SteamGame>::empty(),
            },
    {
        let list = if str_eq(category, "most_recommended") {
            &self.sorted_recommended
        } else if str_eq(category, "best_reviewed") {
            &self.sorted_reviewed
        } else {
            return Vec::new();
        };
        let ghost spec_list = list@;
        let len = list.len();
        proof {
            lemma_permutation_bounds(spec_list, self.games@.len());
        }
        let mut out: Vec<SteamGame> = Vec::new();
        let start = match page.checked_mul(page_size) {
            Some(start) => start,
            None => {
                assert(page * page_size >= spec_list.len()) by (nonlinear_arith)
                    requires
                        page * page_size > usize::MAX,
                        spec_list.len() == len,
                        len <= usize::MAX,
                ;
                return out;
            },
        };
        let ghost expected = page_of(self.games@, spec_list, page as nat, page_size as nat);
        let mut k: usize = start;
        while k < list.len() && k - start < page_size
            invariant
                self.wf(),
                list@ == spec_list,
                forall|t: int| 0 <= t < spec_list.len() ==> #[trigger] spec_list[t] < self.games@.len(),
                start == page * page_size,
                start <= k,
                k - start <= page_size,
                k <= spec_list.len() || k == start,
                out@.len() == k - start,
                forall|t: int| 0 <= t < out@.len() ==> #[trigger] out@[t] == self.games@[spec_list[start + t] as int],
            decreases spec_list.len() - k,
        {
            out.push(self.games[list[k]].copy_game());
            k = k + 1;
        }
        assert(out@ =~= expected);
        out
    }

    /// The catalogue game a title names: the one whose normalised title is
    /// the same, else the best fuzzy match above the threshold. Titles too
    /// short once normalised match nothing.
    pub fn find_best_match_sync(&self, title: &str) -> (r: Option<SteamGame>)
        requires
            self.wf(),
        ensures
            ({
                let key = normalized(title@);
                if utf8_len(key) < MIN_INDEXED_TITLE_BYTES {
                    r is None
                } else {
                    match position_of(self.titles(), key) {
                        Some(p) => r == Some(self.games()[p as int]),
                        None => match best_fuzzy(self.titles(), key) {
                            Some(b) => r == Some(self.games()[b.1 as int]),
                            None => r is None,
                        },
                    }
                }
            }),
    {
        let key = normalize_title(title);
        if !long_enough(key.as_str()) {
            return None;
        }
        let n = self.search_index.len();
        let mut i: usize = 0;
        while i < n
            invariant
                self.wf(),
                n == self.search_index@.len(),
                i <= n,
                forall|k: int| 0 <= k < i ==> #[trigger] self.search_index@[k].title@ != key@,
                key@ == normalized(title@),
                utf8_len(key@) >= MIN_INDEXED_TITLE_BYTES,
            decreases n - i,
        {
            if str_eq(self.search_index[i].title.as_str(), key.as_str()) {
                proof {
                    lemma_position_at(self.search_index@, i as int, key@);
                }
                return Some(self.games[self.search_index[i].position].copy_game());
            }
            i = i + 1;
        }
        let mut best: Option<(i64, usize)> = None;
        let mut j: usize = 0;
        assert(self.search_index@.take(0) =~= Seq::<TitleEntry>::empty());
        while j < n
            invariant
                self.wf(),
                n == self.search_index@.len(),
                j <= n,
                best == best_fuzzy(self.search_index@.take(j as int), key@),
                best matches Some(b) ==> b.1 < self.games@.len(),
                key@ == normalized(title@),
                utf8_len(key@) >= MIN_INDEXED_TITLE_BYTES,
                position_of(self.search_index@, key@) is None,
            decreases n - j,
        {
            let e = &self.search_index[j];
            assert(self.search_index@.take(j + 1).drop_last() =~= self.search_index@.take(j as int));
            assert(self.search_index@.take(j + 1).last() == self.search_index@[j as int]);
            match fuzzy_score(e.title.as_str(), key.as_str()) {
                Some(score) => {
                    let better = match best {
                        Some(b) => score > b.0,
                        None => true,
                    };
                    if score > MIN_FUZZY_SCORE && better {
                        best = Some((score, e.position));
                    }
                },
                None => {},
            }
            j = j + 1;
        }
        assert(self.search_index@.take(n as int) =~= self.search_index@);
        match best {
            Some(b) => Some(self.games[b.1].copy_game()),
            None => None,
        }
    }
}

} // verus!
