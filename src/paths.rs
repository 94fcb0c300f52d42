use vstd::prelude::*;

verus! {

/// Separator between path components in the layout this library writes.
pub open spec fn is_separator(c: char) -> bool {
    c == '/' || c == '\\'
}

/// `a` followed by `b`, with one `/` between them unless `a` is empty or
/// already ends in a separator.
pub open spec fn joined(a: Seq<char>, b: Seq<char>) -> Seq<char> {
    if a.len() == 0 || is_separator(a.last()) {
        a + b
    } else {
        a + seq!['/'] + b
    }
}

/// The directory a download with this title is written to.
pub open spec fn game_dir_of(root: Seq<char>, title: Seq<char>) -> Seq<char> {
    joined(root, title)
}

/// The directory archives of a download are extracted to.
pub open spec fn extracted_dir_of(dir: Seq<char>) -> Seq<char> {
    joined(dir, seq!['E', 'x', 't', 'r', 'a', 'c', 't', 'e', 'd'])
}

/// The index of the first separator in `s`, if any.
pub open spec fn first_separator(s: Seq<char>) -> Option<int> {
    if exists|k: int| 0 <= k < s.len() && is_separator(#[trigger] s[k]) {
        let k = choose|k: int|
            0 <= k < s.len() && is_separator(#[trigger] s[k]) && forall|j: int|
                0 <= j < k ==> !is_separator(#[trigger] s[j]);
        Some(k)
    } else {
        None
    }
}

/// An archive entry's path without its top-level component.
pub open spec fn without_first_component(s: Seq<char>) -> Seq<char> {
    match first_separator(s) {
        Some(k) => s.subrange(k + 1, s.len() as int),
        None => Seq::empty(),
    }
}

/// Where an archive entry is written: below `Extracted/` in the download's
/// directory, with the entry's own top-level component dropped.
pub open spec fn entry_destination_of(dir: Seq<char>, entry: Seq<char>) -> Seq<char> {
    let rest = without_first_component(entry);
    if rest.len() == 0 {
        extracted_dir_of(dir)
    } else {
        joined(extracted_dir_of(dir), rest)
    }
}

fn is_separator_char(c: char) -> (r: bool)
    ensures
        r == is_separator(c),
{
    c == '/' || c == '\\'
}

pub fn join(a: &str, b: &str) -> (r: String)
    ensures
        r@ == joined(a@, b@),
{
    let n = a.unicode_len();
    let head = a.to_string();
    if n == 0 {
        head.concat(b)
    } else if is_separator_char(a.get_char(n - 1)) {
        head.concat(b)
    } else {
        proof {
            reveal_strlit("/");
        }
        let r = head.concat("/").concat(b);
        assert(r@ =~= a@ + seq!['/'] + b@);
        r
    }
}

/// The directory a download with this title is written to.
pub fn game_dir(root: &str, title: &str) -> (r: String)
    ensures
        r@ == game_dir_of(root@, title@),
{
    join(root, title)
}

/// The directory archives of a download are extracted to.
pub fn extracted_dir(dir: &str) -> (r: String)
    ensures
        r@ == extracted_dir_of(dir@),
{
    proof {
        reveal_strlit("Extracted");
    }
    let r = join(dir, "Extracted");
    assert("Extracted"@ =~= seq!['E', 'x', 't', 'r', 'a', 'c', 't', 'e', 'd']);
    r
}

/// Where an archive entry named `entry` (a path relative to the archive's
/// root) is written when the download's directory is `dir`.
pub fn entry_destination(dir: &str, entry: &str) -> (r: String)
    ensures
        r@ == entry_destination_of(dir@, entry@),
{
    let n = entry.unicode_len();
    let mut i: usize = 0;
    while i < n
        invariant
            n == entry@.len(),
            i <= n,
            forall|j: int| 0 <= j < i ==> !is_separator(#[trigger] entry@[j]),
        ensures
            i <= n,
            forall|j: int| 0 <= j < i ==> !is_separator(#[trigger] entry@[j]),
            i < n ==> is_separator(entry@[i as int]),
        decreases n - i,
    {
        if is_separator_char(entry.get_char(i)) {
            break;
        }
        i = i + 1;
    }
    let base = extracted_dir(dir);
    if i < n {
        assert(first_separator(entry@) == Some(i as int)) by {
            assert(is_separator(entry@[i as int]));
            assert(exists|k: int|
                0 <= k < entry@.len() && is_separator(#[trigger] entry@[k]) && forall|j: int|
                    0 <= j < k ==> !is_separator(#[trigger] entry@[j]));
            let k = choose|k: int|
                0 <= k < entry@.len() && is_separator(#[trigger] entry@[k]) && forall|j: int|
                    0 <= j < k ==> !is_separator(#[trigger] entry@[j]);
            assert(k == i) by {
                if k < i {
                    assert(!is_separator(entry@[k]));
                } else if k > i {
                    assert(!is_separator(entry@[i as int]));
                }
            };
        };
        let rest = entry.substring_char(i + 1, n);
        if i + 1 == n {
            base
        } else {
            join(base.as_str(), rest)
        }
    } else {
        assert(first_separator(entry@) is None);
        base
    }
}

} // verus!
