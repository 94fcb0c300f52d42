use vstd::prelude::*;
use crate::manager::{after_progress, TorrentManager};
use crate::names::{lemma_name_le_total, lemma_name_le_transitive, name_le, name_le_exec};

verus! {

broadcast use vstd::seq_lib::group_to_multiset_ensures;

/// The archive formats the pipeline recognises.
#[derive(Clone, Copy, PartialEq, Eq, Structural)]
pub enum ArchiveKind {
    Rar,
    Zip,
}

/// One entry of a directory listing.
pub struct DirEntry {
    /// The entry's file name, without any directory part.
    pub name: String,
    pub is_file: bool,
}

/// An archive found in a download's directory.
pub struct ArchiveFile {
    pub name: String,
    pub kind: ArchiveKind,
}

impl ArchiveFile {
    pub fn copy_archive(&self) -> (r: ArchiveFile)
        ensures
            r == *self,
    {
        ArchiveFile { name: self.name.clone(), kind: self.kind }
    }
}

/// The index of the last `.` in `name` before position `i`, not counting a
/// `.` that starts the name.
pub open spec fn last_dot_before(name: Seq<char>, i: int) -> Option<int>
    decreases i,
{
    if i <= 1 {
        None
    } else if name[i - 1] == '.' {
        Some(i - 1)
    } else {
        last_dot_before(name, i - 1)
    }
}

/// A file name's extension: what follows its last `.`. A name without a
/// `.`, or whose only `.` is its first character, has none.
pub open spec fn extension_of(name: Seq<char>) -> Option<Seq<char>> {
    match last_dot_before(name, name.len() as int) {
        Some(k) => Some(name.subrange(k + 1, name.len() as int)),
        None => None,
    }
}

pub open spec fn is_rar_extension(e: Seq<char>) -> bool {
    &&& e.len() == 3
    &&& (e[0] == 'r' || e[0] == 'R')
    &&& (e[1] == 'a' || e[1] == 'A')
    &&& (e[2] == 'r' || e[2] == 'R')
}

pub open spec fn is_zip_extension(e: Seq<char>) -> bool {
    &&& e.len() == 3
    &&& (e[0] == 'z' || e[0] == 'Z')
    &&& (e[1] == 'i' || e[1] == 'I')
    &&& (e[2] == 'p' || e[2] == 'P')
}

/// The archive kind a file name names, going by its extension in any case.
pub open spec fn archive_kind_of(name: Seq<char>) -> Option<ArchiveKind> {
    match extension_of(name) {
        Some(e) => if is_rar_extension(e) {
            Some(ArchiveKind::Rar)
        } else if is_zip_extension(e) {
            Some(ArchiveKind::Zip)
        } else {
            None
        },
        None => None,
    }
}

/// The archives among a directory's entries, in listing order.
pub open spec fn candidates(entries: Seq<DirEntry>) -> Seq<ArchiveFile>
    decreases entries.len(),
{
    if entries.len() == 0 {
        Seq::empty()
    } else {
        let rest = candidates(entries.drop_last());
        let e = entries.last();
        if e.is_file {
            match archive_kind_of(e.name@) {
                Some(kind) => rest.push(ArchiveFile { name: e.name, kind }),
                None => rest,
            }
        } else {
            rest
        }
    }
}

pub open spec fn sorted_by_name(s: Seq<ArchiveFile>) -> bool {
    forall|i: int, j: int| 0 <= i < j < s.len() ==> name_le(#[trigger] s[i].name@, #[trigger] s[j].name@)
}

pub(crate) proof fn lemma_last_dot_range(name: Seq<char>, i: int)
    ensures
        last_dot_before(name, i) matches Some(k) ==> 1 <= k < i,
    decreases i,
{
    if i > 1 && name[i - 1] != '.' {
        lemma_last_dot_range(name, i - 1);
    }
}

fn extension_start(name: &str) -> (r: Option<usize>)
    ensures
        match last_dot_before(name@, name@.len() as int) {
            Some(k) => r == Some((k + 1) as usize),
            None => r is None,
        },
{
    let n = name.unicode_len();
    let mut i: usize = n;
    while i > 1
        invariant
            n == name@.len(),
            i <= n,
            last_dot_before(name@, n as int) == last_dot_before(name@, i as int),
        decreases i,
    {
        if name.get_char(i - 1) == '.' {
            return Some(i);
        }
        i = i - 1;
    }
    None
}

fn char_is(c: char, lower: char, upper: char) -> (r: bool)
    ensures
        r == (c == lower || c == upper),
{
    c == lower || c == upper
}

/// The archive kind a file name names, going by its extension in any case.
pub fn archive_kind(name: &str) -> (r: Option<ArchiveKind>)
    ensures
        r == archive_kind_of(name@),
{
    proof {
        lemma_last_dot_range(name@, name@.len() as int);
    }
    match extension_start(name) {
        Some(start) => {
            let n = name.unicode_len();
            let e = name.substring_char(start, n);
            if e.unicode_len() != 3 {
                return None;
            }
            let (c0, c1, c2) = (e.get_char(0), e.get_char(1), e.get_char(2));
            if char_is(c0, 'r', 'R') && char_is(c1, 'a', 'A') && char_is(c2, 'r', 'R') {
                Some(ArchiveKind::Rar)
            } else if char_is(c0, 'z', 'Z') && char_is(c1, 'i', 'I') && char_is(c2, 'p', 'P') {
                Some(ArchiveKind::Zip)
            } else {
                None
            }
        },
        None => None,
    }
}

/// Inserts `x` into the name-sorted `v` after every entry that does not come
/// after it.
fn insert_sorted(v: &mut Vec<ArchiveFile>, x: ArchiveFile)
    requires
        sorted_by_name(old(v)@),
    ensures
        sorted_by_name(final(v)@),
        final(v)@.to_multiset() == old(v)@.to_multiset().insert(x),
{
    let mut pos: usize = 0;
    while pos < v.len() && name_le_exec(v[pos].name.as_str(), x.name.as_str())
        invariant
            pos <= v@.len(),
            sorted_by_name(v@),
            forall|k: int| 0 <= k < pos ==> name_le(#[trigger] v@[k].name@, x.name@),
        decreases v@.len() - pos,
    {
        pos = pos + 1;
    }
    let ghost old_v = v@;
    proof {
        if pos < old_v.len() {
            lemma_name_le_total(old_v[pos as int].name@, x.name@);
            assert forall|j: int| pos <= j < old_v.len() implies name_le(x.name@, #[trigger] old_v[j].name@) by {
                if j > pos {
                    lemma_name_le_transitive(x.name@, old_v[pos as int].name@, old_v[j].name@);
                }
            };
        }
    }
    v.insert(pos, x);
    proof {
        let nv = v@;
        assert(nv =~= old_v.insert(pos as int, x));
        assert forall|i: int, j: int| 0 <= i < j < nv.len() implies name_le(
            #[trigger] nv[i].name@,
            #[trigger] nv[j].name@,
        ) by {
            if j < pos {
            } else if j == pos {
            } else if i < pos {
                lemma_name_le_transitive(nv[i].name@, x.name@, nv[j].name@);
                assert(nv[j] == old_v[j - 1]);
            } else if i == pos {
                assert(nv[j] == old_v[j - 1]);
            } else {
                assert(nv[i] == old_v[i - 1]);
                assert(nv[j] == old_v[j - 1]);
            }
        };
        assert(nv.remove(pos as int) =~= old_v);
        assert(nv.to_multiset() =~= old_v.to_multiset().insert(x));
    }
}

/// The archives among a directory's entries, sorted by name.
pub fn discover_archives(entries: &Vec<DirEntry>) -> (r: Vec<ArchiveFile>)
    ensures
        sorted_by_name(r@),
        r@.to_multiset() == candidates(entries@).to_multiset(),
{
    let mut found: Vec<ArchiveFile> = Vec::new();
    let mut i: usize = 0;
    while i < entries.len()
        invariant
            i <= entries@.len(),
            sorted_by_name(found@),
            found@.to_multiset() == candidates(entries@.take(i as int)).to_multiset(),
        decreases entries@.len() - i,
    {
        let e = &entries[i];
        assert(entries@.take(i as int + 1).drop_last() =~= entries@.take(i as int));
        assert(entries@.take(i as int + 1).last() == entries@[i as int]);
        if e.is_file {
            match archive_kind(e.name.as_str()) {
                Some(kind) => {
                    let a = ArchiveFile { name: e.name.clone(), kind };
                    insert_sorted(&mut found, a);
                },
                None => {},
            }
        }
        i = i + 1;
    }
    assert(entries@.take(entries@.len() as int) =~= entries@);
    found
}

/// What the caller of an extraction run does next.
pub enum ExtractionStep {
    /// Extract this archive, then ask again.
    Extract(ArchiveFile),
    /// Every archive was handed out and extracted: the run succeeded.
    Done,
    /// An archive failed with this error: the run ends, no later archive is
    /// handed out and no more progress is published.
    Failed(String),
}

/// One extraction run over a download's directory: its archives are handed
/// out one at a time in name order, and before archive `i` of `n` the store
/// is told that the download's extraction stands at `i / n`. The caller
/// reports how each archive went; after the first failure the run hands out
/// nothing more.
pub struct ExtractionRun {
    id: u64,
    archives: Vec<ArchiveFile>,
    next: usize,
    failure: Option<String>,
}

impl ExtractionRun {
    pub closed spec fn spec_id(&self) -> u64 {
        self.id
    }

    pub closed spec fn spec_archives(&self) -> Seq<ArchiveFile> {
        self.archives@
    }

    /// How many archives have been handed out.
    pub closed spec fn spec_next(&self) -> nat {
        self.next as nat
    }

    /// The error of the first archive that failed, if one did.
    pub closed spec fn spec_failure(&self) -> Option<String> {
        self.failure
    }

    pub open spec fn wf(&self) -> bool {
        self.spec_next() <= self.spec_archives().len()
    }

    /// A run for download `id` over the entries of its directory.
    pub fn new(id: u64, entries: &Vec<DirEntry>) -> (r: ExtractionRun)
        ensures
            r.wf(),
            r.spec_id() == id,
            r.spec_next() == 0,
            r.spec_failure() is None,
            sorted_by_name(r.spec_archives()),
            r.spec_archives().to_multiset() == candidates(entries@).to_multiset(),
    {
        ExtractionRun { id, archives: discover_archives(entries), next: 0, failure: None }
    }

    pub fn archive_count(&self) -> (r: usize)
        ensures
            r == self.spec_archives().len(),
    {
        self.archives.len()
    }

    /// Records how extracting the archive last handed out went. The first
    /// failure is kept; later reports change nothing.
    pub fn archive_done(&mut self, outcome: Result<(), String>)
        requires
            old(self).wf(),
        ensures
            final(self).wf(),
            final(self).spec_id() == old(self).spec_id(),
            final(self).spec_archives() == old(self).spec_archives(),
            final(self).spec_next() == old(self).spec_next(),
            final(self).spec_failure() == match old(self).spec_failure() {
                Some(e) => Some(e),
                None => match outcome {
                    Ok(()) => None,
                    Err(e) => Some(e),
                },
            },
    {
        if self.failure.is_none() {
            match outcome {
                Ok(()) => {},
                Err(e) => {
                    self.failure = Some(e);
                },
            }
        }
    }

    /// Hands out the next archive after publishing the progress so far: the
    /// fraction `k / n` published before archive `k` lies in `[0, 1)` and
    /// grows by one archive each time. Once an archive failed, reports the
    /// failure; once all were handed out, reports the run done. Neither
    /// publishes anything.
    pub fn next_archive(&mut self, store: &mut TorrentManager) -> (r: ExtractionStep)
        requires
            old(self).wf(),
            old(store).wf(),
        ensures
            final(self).wf(),
            final(store).wf(),
            final(store).root() == old(store).root(),
            final(self).spec_id() == old(self).spec_id(),
            final(self).spec_archives() == old(self).spec_archives(),
            final(self).spec_failure() == old(self).spec_failure(),
            match old(self).spec_failure() {
                Some(e) => {
                    &&& r == ExtractionStep::Failed(e)
                    &&& final(self).spec_next() == old(self).spec_next()
                    &&& final(store).records() == old(store).records()
                },
                None => if old(self).spec_next() < old(self).spec_archives().len() {
                    &&& r == ExtractionStep::Extract(old(self).spec_archives()[old(self).spec_next() as int])
                    &&& final(self).spec_next() == old(self).spec_next() + 1
                    &&& final(store).records() == after_progress(
                        old(store).records(),
                        old(self).spec_id(),
                        old(self).spec_next() as u64,
                        old(self).spec_archives().len() as u64,
                    )
                } else {
                    &&& r == ExtractionStep::Done
                    &&& final(self).spec_next() == old(self).spec_next()
                    &&& final(store).records() == old(store).records()
                },
            },
    {
        match &self.failure {
            Some(e) => {
                return ExtractionStep::Failed(e.clone());
            },
            None => {},
        }
        let n = self.archives.len();
        if self.next < n {
            store.set_extract_progress(self.id, self.next as u64, n as u64);
            let a = self.archives[self.next].copy_archive();
            self.next = self.next + 1;
            ExtractionStep::Extract(a)
        } else {
            ExtractionStep::Done
        }
    }
}

} // verus!
