use vstd::prelude::*;
use crate::text::{lowercase_of, to_lowercase};

verus! {

/// A Steam application as listed in the catalogue.
pub struct SteamApp {
    pub appid: u32,
    pub name: String,
    /// `name` in lower case; the key the exact-match index uses.
    pub name_lower: String,
}

struct TrieNode {
    /// Outgoing edges, at most one per character.
    children: Vec<(char, usize)>,
    /// Index of the game whose lower-cased name ends at this node.
    game_index: Option<usize>,
}

/// Prefix tree from names to game indices, kept as an arena of nodes with the
/// root at index 0.
struct Trie {
    nodes: Vec<TrieNode>,
    /// The names stored, with their game index.
    words: Ghost<Map<Seq<char>, usize>>,
    /// The name spelt by the path from the root to each node.
    labels: Ghost<Seq<Seq<char>>>,
}

spec fn chars_unique(kids: Seq<(char, usize)>) -> bool {
    forall|a: int, b: int|
        0 <= a < kids.len() && 0 <= b < kids.len() && a != b ==> #[trigger] kids[a].0 != #[trigger] kids[b].0
}

/// The node reached from a node with these edges by character `c`.
spec fn child_in(kids: Seq<(char, usize)>, c: char) -> Option<int> {
    if exists|j: int| 0 <= j < kids.len() && #[trigger] kids[j].0 == c {
        let j = choose|j: int| 0 <= j < kids.len() && #[trigger] kids[j].0 == c;
        Some(kids[j].1 as int)
    } else {
        None
    }
}

/// The node reached from the root by spelling `w`.
spec fn walk(nodes: Seq<TrieNode>, w: Seq<char>) -> Option<int>
    decreases w.len(),
{
    if w.len() == 0 {
        Some(0)
    } else {
        match walk(nodes, w.drop_last()) {
            Some(p) => if 0 <= p < nodes.len() {
                child_in(nodes[p].children@, w.last())
            } else {
                None
            },
            None => None,
        }
    }
}

proof fn lemma_child_at(kids: Seq<(char, usize)>, j: int)
    requires
        chars_unique(kids),
        0 <= j < kids.len(),
    ensures
        child_in(kids, kids[j].0) == Some(kids[j].1 as int),
{
    let c = kids[j].0;
    let k = choose|k: int| 0 <= k < kids.len() && #[trigger] kids[k].0 == c;
    assert(k == j);
}

proof fn lemma_child_push(kids: Seq<(char, usize)>, c: char, m: usize, d: char)
    requires
        chars_unique(kids),
        child_in(kids, c) is None,
    ensures
        chars_unique(kids.push((c, m))),
        child_in(kids.push((c, m)), d) == if d == c {
            Some(m as int)
        } else {
            child_in(kids, d)
        },
{
    let nk = kids.push((c, m));
    assert forall|a: int, b: int| 0 <= a < nk.len() && 0 <= b < nk.len() && a != b implies #[trigger] nk[a].0
        != #[trigger] nk[b].0 by {
        if a == kids.len() {
            assert(nk[b] == kids[b]);
        } else if b == kids.len() {
            assert(nk[a] == kids[a]);
        } else {
            assert(nk[a] == kids[a] && nk[b] == kids[b]);
        }
    };
    if d == c {
        lemma_child_at(nk, kids.len() as int);
    } else if exists|j: int| 0 <= j < kids.len() && #[trigger] kids[j].0 == d {
        let j = choose|j: int| 0 <= j < kids.len() && #[trigger] kids[j].0 == d;
        lemma_child_at(kids, j);
        assert(nk[j] == kids[j]);
        lemma_child_at(nk, j);
    } else {
        assert forall|j: int| 0 <= j < nk.len() implies #[trigger] nk[j].0 != d by {
            if j < kids.len() {
                assert(nk[j] == kids[j]);
            }
        };
    }
}

/// Walks that existed still lead to the same nodes once nodes are appended
/// and edges added for new characters.
proof fn lemma_walk_kept(old_nodes: Seq<TrieNode>, new_nodes: Seq<TrieNode>, w: Seq<char>)
    requires
        old_nodes.len() <= new_nodes.len(),
        forall|p: int, c: char|
            0 <= p < old_nodes.len() && (#[trigger] child_in(old_nodes[p].children@, c)) is Some ==> child_in(
                new_nodes[p].children@,
                c,
            ) == child_in(old_nodes[p].children@, c),
        walk(old_nodes, w) is Some,
    ensures
        walk(new_nodes, w) == walk(old_nodes, w),
    decreases w.len(),
{
    if w.len() > 0 {
        lemma_walk_kept(old_nodes, new_nodes, w.drop_last());
    }
}

proof fn lemma_walk_prefix_none(nodes: Seq<TrieNode>, w: Seq<char>, i: int)
    requires
        0 <= i <= w.len(),
        walk(nodes, w.take(i)) is None,
    ensures
        walk(nodes, w) is None,
    decreases w.len(),
{
    if i == w.len() {
        assert(w.take(i) =~= w);
    } else {
        assert(w.drop_last().take(i) =~= w.take(i));
        lemma_walk_prefix_none(nodes, w.drop_last(), i);
    }
}

impl Trie {
    spec fn wf(&self) -> bool {
        let nodes = self.nodes@;
        let labels = self.labels@;
        let words = self.words@;
        &&& nodes.len() >= 1
        &&& labels.len() == nodes.len()
        &&& labels[0] == Seq::<char>::empty()
        &&& forall|n: int, j: int|
            0 <= n < nodes.len() && 0 <= j < nodes[n].children@.len() ==> {
                let (c, m) = #[trigger] nodes[n].children@[j];
                &&& 0 < m < nodes.len()
                &&& labels[m as int] == labels[n].push(c)
            }
        &&& forall|n: int| 0 <= n < nodes.len() ==> chars_unique(#[trigger] nodes[n].children@)
        &&& forall|n: int| 0 <= n < nodes.len() ==> walk(nodes, #[trigger] labels[n]) == Some(n)
        &&& forall|n: int|
            0 <= n < nodes.len() ==> (#[trigger] nodes[n]).game_index == if words.contains_key(labels[n]) {
                Some(words[labels[n]])
            } else {
                None
            }
        &&& forall|w: Seq<char>|
            #[trigger] words.contains_key(w) ==> exists|n: int| 0 <= n < nodes.len() && #[trigger] labels[n] == w
    }

    /// A walk from the root ends at the node labelled with the word walked.
    proof fn lemma_walk_label(&self, w: Seq<char>)
        requires
            self.wf(),
        ensures
            walk(self.nodes@, w) matches Some(n) ==> 0 <= n < self.nodes@.len() && self.labels@[n] == w,
        decreases w.len(),
    {
        if w.len() > 0 {
            self.lemma_walk_label(w.drop_last());
            let nodes = self.nodes@;
            if let Some(p) = walk(nodes, w.drop_last()) {
                let kids = nodes[p].children@;
                if exists|j: int| 0 <= j < kids.len() && #[trigger] kids[j].0 == w.last() {
                    let j = choose|j: int| 0 <= j < kids.len() && #[trigger] kids[j].0 == w.last();
                    let seen = nodes[p].children@[j];
                    assert(w.drop_last().push(w.last()) =~= w);
                }
            }
        }
    }

    fn new() -> (r: Trie)
        ensures
            r.wf(),
            r.words@ == Map::<Seq<char>, usize>::empty(),
    {
        let mut nodes: Vec<TrieNode> = Vec::new();
        nodes.push(TrieNode { children: Vec::new(), game_index: None });
        let r = Trie {
            nodes,
            words: Ghost(Map::empty()),
            labels: Ghost(Seq::<Seq<char>>::empty().push(Seq::<char>::empty())),
        };
        assert(walk(r.nodes@, r.labels@[0]) == Some(0int));
        r
    }

    fn find_child(kids: &Vec<(char, usize)>, c: char) -> (r: Option<usize>)
        requires
            chars_unique(kids@),
        ensures
            match child_in(kids@, c) {
                Some(m) => r == Some(m as usize),
                None => r is None,
            },
    {
        let mut j: usize = 0;
        while j < kids.len()
            invariant
                chars_unique(kids@),
                j <= kids@.len(),
                forall|k: int| 0 <= k < j ==> (#[trigger] kids@[k]).0 != c,
            decreases kids@.len() - j,
        {
            if kids[j].0 == c {
                proof {
                    lemma_child_at(kids@, j as int);
                }
                return Some(kids[j].1);
            }
            j = j + 1;
        }
        None
    }

    /// The game index stored for `word`.
    fn search(&self, word: &str) -> (r: Option<usize>)
        requires
            self.wf(),
        ensures
            r == if self.words@.contains_key(word@) {
                Some(self.words@[word@])
            } else {
                None
            },
    {
        let n = word.unicode_len();
        let mut cur: usize = 0;
        let mut i: usize = 0;
        assert(word@.take(0) =~= Seq::<char>::empty());
        while i < n
            invariant
                self.wf(),
                n == word@.len(),
                i <= n,
                cur < self.nodes@.len(),
                walk(self.nodes@, word@.take(i as int)) == Some(cur as int),
            decreases n - i,
        {
            let c = word.get_char(i);
            assert(word@.take(i + 1).drop_last() =~= word@.take(i as int));
            assert(word@.take(i + 1).last() == c);
            match Trie::find_child(&self.nodes[cur].children, c) {
                Some(m) => {
                    proof {
                        self.lemma_walk_label(word@.take(i + 1));
                    }
                    cur = m;
                },
                None => {
                    proof {
                        lemma_walk_prefix_none(self.nodes@, word@, i + 1);
                        if self.words@.contains_key(word@) {
                            let k = choose|k: int| 0 <= k < self.nodes@.len() && #[trigger] self.labels@[k] == word@;
                            assert(walk(self.nodes@, self.labels@[k]) == Some(k));
                        }
                    }
                    return None;
                },
            }
            i = i + 1;
        }
        proof {
            self.lemma_walk_label(word@.take(i as int));
            assert(word@.take(n as int) =~= word@);
            let seen = self.nodes@[cur as int];
        }
        self.nodes[cur].game_index
    }

    /// Stores `game_index` for `word`, replacing an earlier one.
    fn insert(&mut self, word: &str, game_index: usize)
        requires
            old(self).wf(),
        ensures
            final(self).wf(),
            final(self).words@ == old(self).words@.insert(word@, game_index),
    {
        let n = word.unicode_len();
        let mut cur: usize = 0;
        let mut i: usize = 0;
        assert(word@.take(0) =~= Seq::<char>::empty());
        while i < n
            invariant
                self.wf(),
                self.words@ == old(self).words@,
                n == word@.len(),
                i <= n,
                cur < self.nodes@.len(),
                walk(self.nodes@, word@.take(i as int)) == Some(cur as int),
            decreases n - i,
        {
            let c = word.get_char(i);
            assert(word@.take(i + 1).drop_last() =~= word@.take(i as int));
            assert(word@.take(i + 1).last() == c);
            proof {
                self.lemma_walk_label(word@.take(i as int));
            }
            match Trie::find_child(&self.nodes[cur].children, c) {
                Some(m) => {
                    proof {
                        self.lemma_walk_label(word@.take(i + 1));
                    }
                    cur = m;
                },
                None => {
                    let ghost old_nodes = self.nodes@;
                    let ghost old_labels = self.labels@;
                    let ghost old_kids = old_nodes[cur as int].children@;
                    let m = self.nodes.len();
                    self.nodes.push(TrieNode { children: Vec::new(), game_index: None });
                    self.nodes[cur].children.push((c, m));
                    self.labels = Ghost(old_labels.push(word@.take(i + 1)));
                    proof {
                        let nodes = self.nodes@;
                        let labels = self.labels@;
                        let words = self.words@;
                        assert(nodes[cur as int].children@ == old_kids.push((c, m)));
                        assert forall|k: int| 0 <= k < old_nodes.len() && k != cur implies nodes[k] == old_nodes[k] by {};
                        assert forall|d: char| #[trigger] child_in(nodes[cur as int].children@, d) == if d == c {
                            Some(m as int)
                        } else {
                            child_in(old_kids, d)
                        } by {
                            lemma_child_push(old_kids, c, m, d);
                        };
                        assert forall|p: int, d: char|
                            0 <= p < old_nodes.len() && (#[trigger] child_in(old_nodes[p].children@, d)) is Some implies child_in(
                                nodes[p].children@,
                                d,
                            ) == child_in(old_nodes[p].children@, d) by {
                            if p == cur {
                                lemma_child_push(old_kids, c, m, d);
                            }
                        };
                        // edges keep their labels
                        assert forall|p: int, j: int|
                            0 <= p < nodes.len() && 0 <= j < nodes[p].children@.len() implies {
                                let (e, t) = #[trigger] nodes[p].children@[j];
                                &&& 0 < t < nodes.len()
                                &&& labels[t as int] == labels[p].push(e)
                            } by {
                            if p == cur && j == old_kids.len() {
                                assert(word@.take(i as int).push(c) =~= word@.take(i + 1));
                            } else if p < old_nodes.len() {
                                let seen = old_nodes[p].children@[j];
                            }
                        };
                        assert forall|p: int| 0 <= p < nodes.len() implies chars_unique(
                            #[trigger] nodes[p].children@,
                        ) by {
                            if p == cur {
                                lemma_child_push(old_kids, c, m, c);
                            } else if p < old_nodes.len() {
                                assert(chars_unique(old_nodes[p].children@));
                            } else {
                                assert(nodes[p].children@.len() == 0);
                            }
                        };
                        assert forall|p: int| 0 <= p < nodes.len() implies walk(nodes, #[trigger] labels[p]) == Some(p) by {
                            if p < old_nodes.len() {
                                assert(walk(old_nodes, old_labels[p]) == Some(p));
                                lemma_walk_kept(old_nodes, nodes, old_labels[p]);
                            } else {
                                lemma_walk_kept(old_nodes, nodes, word@.take(i as int));
                                assert(word@.take(i + 1).drop_last() =~= word@.take(i as int));
                            }
                        };
                        assert(!words.contains_key(word@.take(i + 1))) by {
                            if words.contains_key(word@.take(i + 1)) {
                                let k = choose|k: int| 0 <= k < old_nodes.len() && #[trigger] old_labels[k] == word@.take(i + 1);
                                assert(walk(old_nodes, old_labels[k]) == Some(k));
                            }
                        };
                        assert forall|p: int| 0 <= p < nodes.len() implies (#[trigger] nodes[p]).game_index
                            == if words.contains_key(labels[p]) {
                            Some(words[labels[p]])
                        } else {
                            None
                        } by {
                            if p < old_nodes.len() {
                                let seen = old_nodes[p];
                            }
                        };
                        assert forall|w: Seq<char>| #[trigger] words.contains_key(w) implies exists|k: int|
                            0 <= k < nodes.len() && #[trigger] labels[k] == w by {
                            let k = choose|k: int| 0 <= k < old_nodes.len() && #[trigger] old_labels[k] == w;
                            assert(labels[k] == w);
                        };
                        assert(walk(nodes, word@.take(i + 1)) == Some(m as int)) by {
                            lemma_walk_kept(old_nodes, nodes, word@.take(i as int));
                        };
                    }
                    cur = m;
                },
            }
            i = i + 1;
        }
        proof {
            self.lemma_walk_label(word@.take(i as int));
            assert(word@.take(n as int) =~= word@);
        }
        let ghost old_nodes = self.nodes@;
        self.nodes[cur].game_index = Some(game_index);
        self.words = Ghost(self.words@.insert(word@, game_index));
        proof {
            let nodes = self.nodes@;
            let labels = self.labels@;
            let words = self.words@;
            assert forall|k: int| 0 <= k < nodes.len() && k != cur implies nodes[k] == old_nodes[k] by {};
            assert(nodes[cur as int].children == old_nodes[cur as int].children);
            assert forall|p: int, j: int|
                0 <= p < nodes.len() && 0 <= j < nodes[p].children@.len() implies {
                    let (e, t) = #[trigger] nodes[p].children@[j];
                    &&& 0 < t < nodes.len()
                    &&& labels[t as int] == labels[p].push(e)
                } by {
                let seen = old_nodes[p].children@[j];
            };
            assert forall|p: int| 0 <= p < nodes.len() implies chars_unique(#[trigger] nodes[p].children@) by {
                assert(chars_unique(old_nodes[p].children@));
            };
            assert forall|p: int| 0 <= p < nodes.len() implies walk(nodes, #[trigger] labels[p]) == Some(p) by {
                assert(walk(old_nodes, labels[p]) == Some(p));
                lemma_walk_kept(old_nodes, nodes, labels[p]);
            };
            assert forall|p: int| 0 <= p < nodes.len() implies (#[trigger] nodes[p]).game_index == if words.contains_key(
                labels[p],
            ) {
                Some(words[labels[p]])
            } else {
                None
            } by {
                if p != cur {
                    let seen = old_nodes[p];
                    if labels[p] == word@ {
                        assert(walk(old_nodes, labels[p]) == Some(p));
                    }
                }
            };
            assert forall|w: Seq<char>| #[trigger] words.contains_key(w) implies exists|k: int|
                0 <= k < nodes.len() && #[trigger] labels[k] == w by {
                if w == word@ {
                    assert(labels[cur as int] == w);
                } else {
                    let k = choose|k: int| 0 <= k < nodes.len() && #[trigger] labels[k] == w;
                    assert(labels[k] == w);
                }
            };
        }
    }
}

/// The exact-match index after `games` were loaded into `index`: each game's
/// lower-cased name maps to its position, a later game winning over an
/// earlier one with the same name.
pub open spec fn indexed(index: Map<Seq<char>, usize>, games: Seq<SteamApp>) -> Map<Seq<char>, usize>
    decreases games.len(),
{
    if games.len() == 0 {
        index
    } else {
        indexed(index, games.drop_last()).insert(games.last().name_lower@, (games.len() - 1) as usize)
    }
}

/// The Steam catalogue, with an exact-match index over lower-cased names.
pub struct SteamGameStore {
    games: Vec<SteamApp>,
    trie: Trie,
}

impl SteamGameStore {
    pub closed spec fn games(&self) -> Seq<SteamApp> {
        self.games@
    }

    /// Lower-cased name to game position, for every name ever loaded.
    pub closed spec fn index(&self) -> Map<Seq<char>, usize> {
        self.trie.words@
    }

    pub closed spec fn wf(&self) -> bool {
        self.trie.wf()
    }

    /// The position a lower-cased name finds, if it names a loaded game.
    pub open spec fn lookup(&self, name_lower: Seq<char>) -> Option<usize> {
        if self.index().contains_key(name_lower) && self.index()[name_lower] < self.games().len() {
            Some(self.index()[name_lower])
        } else {
            None
        }
    }

    pub fn new() -> (r: SteamGameStore)
        ensures
            r.wf(),
            r.games().len() == 0,
            r.index() == Map::<Seq<char>, usize>::empty(),
    {
        SteamGameStore { games: Vec::new(), trie: Trie::new() }
    }

    /// Replaces the catalogue with `games` and indexes their names. Names
    /// indexed earlier stay in the index.
    pub fn load_games(&mut self, games: Vec<SteamApp>)
        requires
            old(self).wf(),
        ensures
            final(self).wf(),
            final(self).games() == games@,
            final(self).index() == indexed(old(self).index(), games@),
    {
        self.games = games;
        let mut i: usize = 0;
        while i < self.games.len()
            invariant
                self.trie.wf(),
                i <= self.games@.len(),
                self.games@ == games@,
                self.trie.words@ == indexed(old(self).trie.words@, self.games@.take(i as int)),
            decreases self.games@.len() - i,
        {
            assert(self.games@.take(i + 1).drop_last() =~= self.games@.take(i as int));
            self.trie.insert(self.games[i].name_lower.as_str(), i);
            i = i + 1;
        }
        assert(self.games@.take(self.games@.len() as int) =~= self.games@);
    }

    /// The catalogue in loading order.
    pub fn game_list(&self) -> (r: &Vec<SteamApp>)
        ensures
            r@ == self.games(),
    {
        &self.games
    }

    /// The position of the game whose lower-cased name is exactly
    /// `name_lower`.
    pub fn search_exact(&self, name_lower: &str) -> (r: Option<usize>)
        requires
            self.wf(),
        ensures
            r == self.lookup(name_lower@),
    {
        match self.trie.search(name_lower) {
            Some(i) => if i < self.games.len() {
                Some(i)
            } else {
                None
            },
            None => None,
        }
    }

    /// The position of the game whose name, lower-cased, is exactly the
    /// query lower-cased.
    pub fn exact_match(&self, query: &str) -> (r: Option<usize>)
        requires
            self.wf(),
        ensures
            r == self.lookup(lowercase_of(query@)),
    {
        let query_lower = to_lowercase(query);
        self.search_exact(query_lower.as_str())
    }
}

} // verus!
