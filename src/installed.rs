use vstd::prelude::*;
use crate::extraction::{extension_of, DirEntry};
use crate::paths::{extracted_dir, extracted_dir_of};

verus! {

/// A downloaded game found on disk.
pub struct InstalledGame {
    /// The name of the game's folder.
    pub name: String,
    /// Where the game's files are.
    pub path: String,
}

/// A character folded to lower case if it is an ASCII capital.
pub open spec fn ascii_folded(c: char) -> u32 {
    let v = c as u32;
    if 0x41 <= v <= 0x5a {
        (v + 32) as u32
    } else {
        v
    }
}

/// `e` spells the lower-case word `w`, in any ASCII case.
pub open spec fn spells(e: Seq<char>, w: Seq<char>) -> bool {
    &&& e.len() == w.len()
    &&& forall|i: int| 0 <= i < e.len() ==> ascii_folded(#[trigger] e[i]) == (w[i] as u32)
}

/// A file name whose extension marks something that can be launched.
pub open spec fn is_game_file_name(name: Seq<char>) -> bool {
    match extension_of(name) {
        Some(e) => spells(e, "exe"@) || spells(e, "so"@) || spells(e, "bin"@) || spells(e, "appimage"@)
            || spells(e, "sh"@),
        None => false,
    }
}

fn spells_exec(e: &str, w: &str) -> (r: bool)
    ensures
        r == spells(e@, w@),
{
    let n = e.unicode_len();
    if n != w.unicode_len() {
        return false;
    }
    let mut i: usize = 0;
    while i < n
        invariant
            n == e@.len(),
            n == w@.len(),
            i <= n,
            forall|k: int| 0 <= k < i ==> ascii_folded(#[trigger] e@[k]) == (w@[k] as u32),
        decreases n - i,
    {
        let v = e.get_char(i) as u32;
        let folded: u32 = if 0x41 <= v && v <= 0x5a {
            v + 32
        } else {
            v
        };
        if folded != w.get_char(i) as u32 {
            return false;
        }
        i = i + 1;
    }
    true
}

/// Whether a file name marks something that can be launched.
pub fn is_game_file(name: &str) -> (r: bool)
    ensures
        r == is_game_file_name(name@),
{
    let n = name.unicode_len();
    let mut i: usize = n;
    while i > 1
        invariant
            n == name@.len(),
            i <= n,
            crate::extraction::last_dot_before(name@, n as int) == crate::extraction::last_dot_before(
                name@,
                i as int,
            ),
        decreases i,
    {
        if name.get_char(i - 1) == '.' {
            proof {
                crate::extraction::lemma_last_dot_range(name@, n as int);
            }
            let e = name.substring_char(i, n);
            return spells_exec(e, "exe") || spells_exec(e, "so") || spells_exec(e, "bin")
                || spells_exec(e, "appimage") || spells_exec(e, "sh");
        }
        i = i - 1;
    }
    false
}

/// Some entry is a file whose name marks something that can be launched.
pub open spec fn has_game_file(files: Seq<DirEntry>) -> bool {
    exists|i: int| 0 <= i < files.len() && (#[trigger] files[i]).is_file && is_game_file_name(files[i].name@)
}

/// The game in the download folder `folder_name` at `folder_path`: its files
/// are in the `Extracted` folder when there is one, else in the folder
/// itself, and `files` lists that place. Without a launchable file there is
/// no game.
pub fn installed_game(folder_name: &str, folder_path: &str, has_extracted_dir: bool, files: &Vec<DirEntry>) -> (r:
    Option<InstalledGame>)
    ensures
        match r {
            Some(g) => {
                &&& has_game_file(files@)
                &&& g.name@ == folder_name@
                &&& g.path@ == if has_extracted_dir {
                    extracted_dir_of(folder_path@)
                } else {
                    folder_path@
                }
            },
            None => !has_game_file(files@),
        },
{
    let mut i: usize = 0;
    while i < files.len()
        invariant
            i <= files@.len(),
            forall|k: int| 0 <= k < i ==> !((#[trigger] files@[k]).is_file && is_game_file_name(files@[k].name@)),
        decreases files@.len() - i,
    {
        if files[i].is_file && is_game_file(files[i].name.as_str()) {
            let path = if has_extracted_dir {
                extracted_dir(folder_path)
            } else {
                folder_path.to_string()
            };
            return Some(InstalledGame { name: folder_name.to_string(), path });
        }
        i = i + 1;
    }
    None
}

} // verus!
