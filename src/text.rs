use vstd::prelude::*;

verus! {

/// What `str::to_lowercase` makes of a string.
pub uninterp spec fn lowercase_of(s: Seq<char>) -> Seq<char>;

/// Whether `char::is_alphanumeric` holds of a character.
pub uninterp spec fn alphanumeric(c: char) -> bool;

/// Relies on `str::to_lowercase`: the Unicode lowercase mapping of each
/// character, which depends on the characters alone.
#[verifier::external_body]
pub(crate) fn to_lowercase(s: &str) -> (r: String)
    ensures
        r@ == lowercase_of(s@),
{
    s.to_lowercase()
}

/// Relies on `char::is_alphanumeric`: whether the character is Unicode
/// alphabetic or numeric.
#[verifier::external_body]
fn is_alphanumeric(c: char) -> (r: bool)
    ensures
        r == alphanumeric(c),
{
    c.is_alphanumeric()
}

/// The character at `i` as a one-character sequence, or nothing when `i`
/// lies past the end.
pub open spec fn char_if_present(cs: Seq<char>, i: int) -> Seq<char> {
    if 0 <= i < cs.len() {
        seq![cs[i]]
    } else {
        Seq::empty()
    }
}

/// The characters at `i, i - 2, i - 4, ...`, down to the first index below 2.
pub open spec fn backward_part(cs: Seq<char>, i: int) -> Seq<char>
    decreases i,
{
    if i < 2 {
        char_if_present(cs, i)
    } else {
        char_if_present(cs, i) + backward_part(cs, i - 2)
    }
}

/// The characters at `i, i + 2, i + 4, ...` below `len`.
pub open spec fn forward_part(cs: Seq<char>, i: int, len: int) -> Seq<char>
    decreases len - i,
{
    if i >= len {
        Seq::empty()
    } else if i + 2 >= len {
        char_if_present(cs, i)
    } else {
        char_if_present(cs, i) + forward_part(cs, i + 2, len)
    }
}

/// The download key a mirror page scrambles: with `half = len / 2`, every
/// second character walking back from `half - 5` (or from 0 when `half < 5`),
/// then every second character from `half + 4` up to `len`.
pub open spec fn unscrambled(cs: Seq<char>, len: int) -> Seq<char> {
    let half = len / 2;
    let start = if half >= 5 {
        half - 5
    } else {
        0
    };
    (if start < len {
        backward_part(cs, start)
    } else {
        Seq::empty()
    }) + forward_part(cs, half + 4, len)
}

fn char_if_present_exec(s: &str, n: usize, i: usize) -> (r: String)
    requires
        n == s@.len(),
    ensures
        r@ == char_if_present(s@, i as int),
{
    if i < n {
        let r = s.substring_char(i, i + 1).to_string();
        assert(r@ =~= seq![s@[i as int]]);
        r
    } else {
        String::new()
    }
}

/// Recovers the key scrambled into a mirror page's script. `len` is the
/// string's length in bytes, as the page's script counts it.
pub fn process_string_javascript_style(s: &str) -> (r: String)
    ensures
        r@ == unscrambled(s@, s.len() as int),
{
    let len = s.len();
    let n = s.unicode_len();
    let half = len / 2;
    let mut result = String::new();
    let start: usize = if half >= 5 {
        half - 5
    } else {
        0
    };
    let ghost first: Seq<char> = if start < len {
        backward_part(s@, start as int)
    } else {
        Seq::empty()
    };
    let mut i: usize = start;
    if i < len {
        loop
            invariant_except_break
                result@ + backward_part(s@, i as int) == first,
            invariant
                i <= start,
                n == s@.len(),
            ensures
                result@ == first,
            decreases i,
        {
            let piece = char_if_present_exec(s, n, i);
            result = result.concat(piece.as_str());
            if i < 2 {
                assert(result@ =~= first);
                break;
            }
            assert(result@ + backward_part(s@, i - 2) =~= first);
            i = i - 2;
        }
    } else {
        assert(result@ =~= first);
    }
    let ghost head = result@;
    let mut j: usize = half + 4;
    while j < len
        invariant
            n == s@.len(),
            j >= half + 4,
            result@ + forward_part(s@, j as int, len as int) == head + forward_part(
                s@,
                half + 4,
                len as int,
            ),
        decreases len - j,
    {
        let piece = char_if_present_exec(s, n, j);
        result = result.concat(piece.as_str());
        assert(result@ + forward_part(s@, j + 2, len as int) =~= head + forward_part(
            s@,
            half + 4,
            len as int,
        ));
        if len - j <= 2 {
            j = len;
        } else {
            j = j + 2;
        }
    }
    assert(result@ =~= head + forward_part(s@, half + 4, len as int));
    result
}

/// `s` with every occurrence of the non-empty `pat` taken out, matching left
/// to right without overlaps.
pub open spec fn without_word(s: Seq<char>, pat: Seq<char>) -> Seq<char>
    decreases s.len(),
{
    if pat.len() == 0 || s.len() < pat.len() {
        s
    } else if s.subrange(0, pat.len() as int) == pat {
        without_word(s.subrange(pat.len() as int, s.len() as int), pat)
    } else {
        seq![s[0]] + without_word(s.drop_first(), pat)
    }
}

/// The letters and digits of `s`, in order.
pub open spec fn alphanumerics(s: Seq<char>) -> Seq<char>
    decreases s.len(),
{
    if s.len() == 0 {
        s
    } else {
        let rest = alphanumerics(s.drop_last());
        if alphanumeric(s.last()) {
            rest.push(s.last())
        } else {
            rest
        }
    }
}

pub open spec fn onlinefix() -> Seq<char> {
    seq!['o', 'n', 'l', 'i', 'n', 'e', 'f', 'i', 'x']
}

pub open spec fn crack() -> Seq<char> {
    seq!['c', 'r', 'a', 'c', 'k']
}

/// A title as it is compared with the catalogue: lower case, letters and
/// digits only, release-group words taken out.
pub open spec fn normalized(title: Seq<char>) -> Seq<char> {
    without_word(without_word(alphanumerics(lowercase_of(title)), onlinefix()), crack())
}

fn matches_at(s: &str, n: usize, i: usize, pat: &str, m: usize) -> (r: bool)
    requires
        n == s@.len(),
        m == pat@.len(),
        i <= n,
    ensures
        r == (i + m <= n && s@.subrange(i as int, i + m) == pat@),
{
    if m > n - i {
        return false;
    }
    let mut k: usize = 0;
    while k < m
        invariant
            i + m <= n,
            n == s@.len(),
            m == pat@.len(),
            k <= m,
            forall|t: int| 0 <= t < k ==> s@[i + t] == pat@[t],
        decreases m - k,
    {
        if s.get_char(i + k) != pat.get_char(k) {
            assert(s@.subrange(i as int, i + m)[k as int] != pat@[k as int]);
            return false;
        }
        k = k + 1;
    }
    assert(s@.subrange(i as int, i + m) =~= pat@);
    true
}

proof fn lemma_without_word_step(s: Seq<char>, pat: Seq<char>, i: int)
    requires
        0 < pat.len(),
        0 <= i < s.len(),
    ensures
        without_word(s.subrange(i, s.len() as int), pat) == if i + pat.len() <= s.len() && s.subrange(
            i,
            i + pat.len(),
        ) == pat {
            without_word(s.subrange(i + pat.len(), s.len() as int), pat)
        } else {
            seq![s[i]] + without_word(s.subrange(i + 1, s.len() as int), pat)
        },
{
    let t = s.subrange(i, s.len() as int);
    if i + pat.len() <= s.len() {
        assert(t.subrange(0, pat.len() as int) =~= s.subrange(i, i + pat.len()));
        assert(t.subrange(pat.len() as int, t.len() as int) =~= s.subrange(i + pat.len(), s.len() as int));
    }
    assert(t.drop_first() =~= s.subrange(i + 1, s.len() as int));
}

/// `s` with every occurrence of `pat` taken out, left to right.
fn remove_word(s: &str, pat: &str) -> (r: String)
    requires
        pat@.len() > 0,
    ensures
        r@ == without_word(s@, pat@),
{
    let n = s.unicode_len();
    let m = pat.unicode_len();
    let mut out = String::new();
    let mut i: usize = 0;
    assert(s@.subrange(0, n as int) =~= s@);
    while i < n
        invariant
            n == s@.len(),
            m == pat@.len(),
            m > 0,
            i <= n,
            out@ + without_word(s@.subrange(i as int, n as int), pat@) == without_word(s@, pat@),
        decreases n - i,
    {
        proof {
            lemma_without_word_step(s@, pat@, i as int);
        }
        if matches_at(s, n, i, pat, m) {
            i = i + m;
        } else {
            let piece = s.substring_char(i, i + 1);
            assert(piece@ =~= seq![s@[i as int]]);
            let ghost before = out@;
            out = out.concat(piece);
            assert(out@ + without_word(s@.subrange(i + 1, n as int), pat@) =~= before + (seq![s@[i as int]]
                + without_word(s@.subrange(i + 1, n as int), pat@)));
            i = i + 1;
        }
    }
    assert(s@.subrange(n as int, n as int).len() == 0);
    assert(out@ =~= out@ + without_word(s@.subrange(n as int, n as int), pat@));
    out
}

/// The letters and digits of `s`, in order.
fn keep_alphanumerics(s: &str) -> (r: String)
    ensures
        r@ == alphanumerics(s@),
{
    let n = s.unicode_len();
    let mut out = String::new();
    let mut i: usize = 0;
    while i < n
        invariant
            n == s@.len(),
            i <= n,
            out@ == alphanumerics(s@.take(i as int)),
        decreases n - i,
    {
        let c = s.get_char(i);
        assert(s@.take(i + 1).drop_last() =~= s@.take(i as int));
        if is_alphanumeric(c) {
            let piece = s.substring_char(i, i + 1);
            out = out.concat(piece);
            assert(out@ =~= alphanumerics(s@.take(i as int)).push(c));
        }
        i = i + 1;
    }
    assert(s@.take(n as int) =~= s@);
    out
}

/// A title as it is compared with the catalogue: lower-cased, reduced to its
/// letters and digits, with "onlinefix" and then "crack" taken out. What is
/// left holds letters and digits only, so there is no whitespace to trim.
pub fn normalize_title(title: &str) -> (r: String)
    ensures
        r@ == normalized(title@),
{
    let lower = to_lowercase(title);
    let kept = keep_alphanumerics(lower.as_str());
    proof {
        reveal_strlit("onlinefix");
        reveal_strlit("crack");
    }
    assert("onlinefix"@ =~= onlinefix());
    assert("crack"@ =~= crack());
    let a = remove_word(kept.as_str(), "onlinefix");
    remove_word(a.as_str(), "crack")
}

} // verus!
