//! Favorite folders: the form in which folder paths are compared, the entry
//! made for a folder, and adding and removing favorites.
use vstd::prelude::*;

use crate::entries::FavoriteFolderEntry;
use crate::launcher::{dedupe_favorite_folders, first_folders, folder_keys, slashes_to_backslashes};
use crate::search::{display_folder_path_chars, display_folder_path_spec};
use crate::sort::is_stable_sort;
use crate::text::{
    chars_eq, chars_of, str_lowercase, str_to_lowercase, string_from_chars, trim_chars, trim_seq,
    utf8_len, utf8_len_exec,
};
use crate::winpath::{file_name, file_name_spec};

verus! {

/// `s` without trailing backslashes while it is longer than three bytes of
/// UTF-8 (so that `c:\` keeps its root).
pub open spec fn strip_trailing_backslashes(s: Seq<char>) -> Seq<char>
    decreases s.len(),
{
    if s.len() > 0 && utf8_len(s) > 3 && s.last() == '\\' {
        strip_trailing_backslashes(s.drop_last())
    } else {
        s
    }
}

/// The form in which folder paths are compared: shown form, backslashes,
/// lowercase, no trailing backslash beyond a root.
pub open spec fn normalize_folder_path_spec(path: Seq<char>) -> Seq<char> {
    strip_trailing_backslashes(str_lowercase(slashes_to_backslashes(display_folder_path_spec(path))))
}

pub fn normalize_folder_path(path: &str) -> (r: String)
    ensures
        r@ == normalize_folder_path_spec(path@),
{
    let shown = display_folder_path_chars(path);
    let mut replaced: Vec<char> = Vec::new();
    let mut i: usize = 0;
    while i < shown.len()
        invariant
            i <= shown@.len(),
            replaced@ == slashes_to_backslashes(shown@.take(i as int)),
        decreases shown.len() - i,
    {
        let c = shown[i];
        if c == '/' {
            replaced.push('\\');
        } else {
            replaced.push(c);
        }
        assert(replaced@ =~= slashes_to_backslashes(shown@.take(i + 1)));
        i = i + 1;
    }
    assert(shown@.take(shown@.len() as int) =~= shown@);
    let replaced_string = string_from_chars(replaced.as_slice());
    let lower = str_to_lowercase(replaced_string.as_str());
    let mut v = chars_of(lower.as_str());
    while v.len() > 0 && utf8_len_exec(v.as_slice()) > 3 && v[v.len() - 1] == '\\'
        invariant
            strip_trailing_backslashes(v@) == strip_trailing_backslashes(
                str_lowercase(slashes_to_backslashes(display_folder_path_spec(path@))),
            ),
        decreases v.len(),
    {
        let ghost before = v@;
        v.pop();
        assert(v@ =~= before.drop_last());
    }
    string_from_chars(v.as_slice())
}

/// The name shown for a favorite folder: the last component of its path,
/// unless that is blank, in which case the whole path.
pub open spec fn folder_name_spec(path: Seq<char>) -> Seq<char> {
    match file_name_spec(path) {
        Some(n) => if trim_seq(n).len() > 0 {
            n
        } else {
            path
        },
        None => path,
    }
}

/// The favorite entry of a folder given by its full path.
pub fn favorite_folder_entry(path: &str) -> (r: FavoriteFolderEntry)
    ensures
        r.path@ == path@,
        r.name@ == folder_name_spec(path@),
        r.normalized_path@ == normalize_folder_path_spec(path@),
{
    let p = chars_of(path);
    let name = match file_name(p.as_slice()) {
        Some(n) => {
            let t = trim_chars(n.as_slice());
            if t.len() > 0 {
                string_from_chars(n.as_slice())
            } else {
                string_from_chars(p.as_slice())
            }
        },
        None => string_from_chars(p.as_slice()),
    };
    FavoriteFolderEntry {
        name,
        normalized_path: normalize_folder_path(path),
        path: string_from_chars(p.as_slice()),
    }
}

/// What adding a favorite did: the entry now standing for the folder, and
/// whether it was new.
#[derive(Debug, PartialEq, Eq)]
pub struct FavoriteFolderAddResult {
    pub entry: FavoriteFolderEntry,
    pub added: bool,
}

/// The index of the first folder with exactly the normalised path `key`.
pub open spec fn first_with_normalized(fs: Seq<FavoriteFolderEntry>, key: Seq<char>) -> Option<int> {
    if exists|i: int| 0 <= i < fs.len() && fs[i].normalized_path@ == key {
        Some(
            choose|i: int|
                0 <= i < fs.len() && fs[i].normalized_path@ == key && forall|j: int|
                    0 <= j < i ==> fs[j].normalized_path@ != key,
        )
    } else {
        None
    }
}

/// Adds a folder to the favorites. Where a favorite with the same normalised
/// path exists, nothing changes and that favorite is returned; otherwise the
/// entry is added and the favorites are deduplicated and ordered again.
pub fn add_favorite_folder(folders: &mut Vec<FavoriteFolderEntry>, entry: FavoriteFolderEntry) -> (r:
    FavoriteFolderAddResult)
    ensures
        match first_with_normalized(old(folders)@, entry.normalized_path@) {
            Some(i) => {
                &&& !r.added
                &&& r.entry == old(folders)@[i]
                &&& final(folders)@ == old(folders)@
            },
            None => {
                &&& r.added
                &&& r.entry == entry
                &&& is_stable_sort(
                    final(folders)@,
                    first_folders(old(folders)@.push(entry)),
                    folder_keys(first_folders(old(folders)@.push(entry))),
                )
            },
        },
{
    let key = chars_of(entry.normalized_path.as_str());
    let mut i: usize = 0;
    while i < folders.len()
        invariant
            folders@ == old(folders)@,
            i <= folders@.len(),
            key@ == entry.normalized_path@,
            forall|j: int| 0 <= j < i ==> folders@[j].normalized_path@ != key@,
        decreases folders.len() - i,
    {
        let other = chars_of(folders[i].normalized_path.as_str());
        if chars_eq(other.as_slice(), key.as_slice()) {
            proof {
                let ghost fs = folders@;
                let c = choose|c: int|
                    0 <= c < fs.len() && fs[c].normalized_path@ == key@ && forall|j: int|
                        0 <= j < c ==> fs[j].normalized_path@ != key@;
                assert(c == i) by {
                    if c < i {
                    } else if c > i {
                        assert(fs[i as int].normalized_path@ == key@);
                    }
                }
            }
            let existing = folders[i].clone();
            return FavoriteFolderAddResult { entry: existing, added: false };
        }
        i = i + 1;
    }
    folders.push(entry.clone());
    let deduped = dedupe_favorite_folders(folders.as_slice());
    *folders = deduped;
    FavoriteFolderAddResult { entry, added: true }
}

/// Removes every favorite whose normalised path is that of `path`; says
/// whether any was removed.
pub fn remove_favorite_folder_path(folders: &mut Vec<FavoriteFolderEntry>, path: &str) -> (r: bool)
    ensures
        final(folders)@ == old(folders)@.filter(
            |f: FavoriteFolderEntry| f.normalized_path@ != normalize_folder_path_spec(path@),
        ),
        r == (final(folders)@.len() != old(folders)@.len()),
{
    let normalized = normalize_folder_path(path);
    let key = chars_of(normalized.as_str());
    let ghost start = folders@;
    let ghost keep = |f: FavoriteFolderEntry| f.normalized_path@ != normalize_folder_path_spec(path@);
    let mut kept: Vec<FavoriteFolderEntry> = Vec::new();
    let mut i: usize = 0;
    while i < folders.len()
        invariant
            folders@ == start,
            i <= start.len(),
            key@ == normalize_folder_path_spec(path@),
            keep == (|f: FavoriteFolderEntry| f.normalized_path@ != normalize_folder_path_spec(path@)),
            kept@ == start.take(i as int).filter(keep),
        decreases folders.len() - i,
    {
        proof {
            assert(start.take(i + 1) =~= start.take(i as int).push(start[i as int]));
            start.take(i as int).lemma_filter_push(start[i as int], keep);
        }
        let other = chars_of(folders[i].normalized_path.as_str());
        if !chars_eq(other.as_slice(), key.as_slice()) {
            kept.push(folders[i].clone());
        }
        i = i + 1;
    }
    assert(start.take(start.len() as int) =~= start);
    let original_len = folders.len();
    *folders = kept;
    folders.len() != original_len
}

} // verus!
