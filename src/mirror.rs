use vstd::prelude::*;

verus! {

/// What capture group 1 of the first match of `pattern` in `text` holds, as
/// the `regex` crate finds it; nothing when the pattern does not compile,
/// nothing matches, or the group takes no part in the match.
pub uninterp spec fn first_group(pattern: Seq<char>, text: Seq<char>) -> Option<Seq<char>>;

/// Relies on `regex::Regex::new`, `Regex::captures` and `Captures::get`: the
/// text of group 1 in the leftmost-first match, which depends on the pattern
/// and the text alone.
#[verifier::external_body]
fn capture_first_group(pattern: &str, text: &str) -> (r: Option<String>)
    ensures
        match first_group(pattern@, text@) {
            Some(g) => r matches Some(s) && s@ == g,
            None => r is None,
        },
{
    let re = regex::Regex::new(pattern).ok()?;
    re.captures(text)?.get(1).map(|m| m.as_str().to_string())
}

/// Where a mirror page's script keeps the scrambled download key.
pub open spec fn long_string_pattern() -> Seq<char> {
    r"function generateDownloadUrl\(\)\{[^}]*let [^=]+='([^']+)'"@
}

/// Where the final page's script keeps the magnet link.
pub open spec fn magnet_pattern() -> Seq<char> {
    r#"let magnetLink = "([^"]+)""#@
}

/// The scrambled download key in a mirror page's script.
pub fn extract_long_string(html: &str) -> (r: Result<String, String>)
    ensures
        match first_group(long_string_pattern(), html@) {
            Some(g) => r matches Ok(s) && s@ == g,
            None => r matches Err(e) && e@ == "Long string not found in JavaScript"@,
        },
{
    match capture_first_group(r"function generateDownloadUrl\(\)\{[^}]*let [^=]+='([^']+)'", html) {
        Some(s) => Ok(s),
        None => Err("Long string not found in JavaScript".to_string()),
    }
}

/// The magnet link in the final page's script.
pub fn extract_magnet_link(html: &str) -> (r: Result<String, String>)
    ensures
        match first_group(magnet_pattern(), html@) {
            Some(g) => r matches Ok(s) && s@ == g,
            None => r matches Err(e) && e@ == "Magnet link not found in JavaScript"@,
        },
{
    match capture_first_group(r#"let magnetLink = "([^"]+)""#, html) {
        Some(s) => Ok(s),
        None => Err("Magnet link not found in JavaScript".to_string()),
    }
}

} // verus!
