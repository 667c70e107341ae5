//! Installed apps: which shortcut files and launch targets count as apps, how
//! App Paths registry keys and Start menu app ids become app entries, and how
//! a launch path is started (through its app user model id, or as an
//! executable in its own directory).
use vstd::prelude::*;

use crate::entries::{AppEntry, AppSource};
use crate::search::{ascii_lower_chars, ascii_lower_seq};
use crate::text::{
    append_chars, char_to_lowercase, char_to_uppercase, chars_of, collapse_whitespace,
    collapse_whitespace_chars, contains_char, contains_seq, contains_str, decode_utf16_lossy,
    eq_str, lowercase_of, starts_with, string_from_chars, sub_chars, trim_chars, trim_seq,
    trim_str, uppercase_of, utf16_decode_lossy, utf16_encode,
};
use crate::winpath::{
    extension, extension_spec, file_stem, file_stem_spec, is_absolute, is_absolute_path, parent,
    parent_spec,
};
use crate::overlay::to_wide_null;

verus! {

/// The marker in front of an app user model id in a launch path.
pub const APP_USER_MODEL_ID_PREFIX: &'static str = "appusermodelid:";

// ---------------------------------------------------------------------------
// Shortcut files and launch targets
// ---------------------------------------------------------------------------

/// `lnk` or `appref-ms`, in any ASCII case.
pub open spec fn is_shortcut_extension(e: Seq<char>) -> bool {
    ascii_lower_seq(e) == "lnk"@ || ascii_lower_seq(e) == "appref-ms"@
}

/// `exe`, `com`, `bat`, `cmd` or `ps1`, in any ASCII case.
pub open spec fn is_executable_extension(e: Seq<char>) -> bool {
    let l = ascii_lower_seq(e);
    l == "exe"@ || l == "com"@ || l == "bat"@ || l == "cmd"@ || l == "ps1"@
}

/// A trimmed, non-empty target that is a `shell:` location or a file with an
/// executable extension.
pub open spec fn is_executable_target_spec(target: Seq<char>) -> bool {
    let t = trim_seq(target);
    t.len() > 0 && ("shell:"@.is_prefix_of(t) || match extension_spec(t) {
        Some(e) => is_executable_extension(e),
        None => false,
    })
}

/// Whether a Start menu file is a shortcut that can name an app: `.lnk` or
/// `.appref-ms`, in any ASCII case.
pub fn is_start_menu_app_shortcut_type(path: &str) -> (r: bool)
    ensures
        r == match extension_spec(path@) {
            Some(e) => is_shortcut_extension(e),
            None => false,
        },
{
    let p = chars_of(path);
    match extension(p.as_slice()) {
        Some(e) => {
            let l = ascii_lower_chars(e.as_slice());
            eq_str(l.as_slice(), "lnk") || eq_str(l.as_slice(), "appref-ms")
        },
        None => false,
    }
}

/// Whether a shortcut target starts a program: a `shell:` location, or a file
/// ending in `.exe`, `.com`, `.bat`, `.cmd` or `.ps1`.
pub fn is_executable_launch_target(target: &str) -> (r: bool)
    ensures
        r == is_executable_target_spec(target@),
{
    let t = trim_str(target);
    if t.len() == 0 {
        return false;
    }
    let shell = chars_of("shell:");
    if starts_with(t.as_slice(), shell.as_slice()) {
        return true;
    }
    match extension(t.as_slice()) {
        Some(e) => {
            let l = ascii_lower_chars(e.as_slice());
            let ls = l.as_slice();
            eq_str(ls, "exe") || eq_str(ls, "com") || eq_str(ls, "bat") || eq_str(ls, "cmd")
                || eq_str(ls, "ps1")
        },
        None => false,
    }
}

/// The launch identity of a Start menu file, given the target of the shortcut
/// as the shell resolves it (`link_target`): `None` for a file that is no app
/// shortcut, `Some(None)` for a ClickOnce `.appref-ms` file, and the target for
/// a `.lnk` shortcut whose target starts a program.
pub fn shortcut_app_launch_identity(path: &str, link_target: Option<String>) -> (r: Option<
    Option<String>,
>)
    ensures
        match extension_spec(path@) {
            Some(e) => if !is_shortcut_extension(e) {
                r is None
            } else if ascii_lower_seq(e) == "appref-ms"@ {
                r == Some(Option::<String>::None)
            } else {
                match link_target {
                    Some(t) => if is_executable_target_spec(t@) {
                        r == Some(Some(t))
                    } else {
                        r is None
                    },
                    None => r is None,
                }
            },
            None => r is None,
        },
{
    let p = chars_of(path);
    match extension(p.as_slice()) {
        Some(e) => {
            let l = ascii_lower_chars(e.as_slice());
            if eq_str(l.as_slice(), "appref-ms") {
                return Some(None);
            }
            if !eq_str(l.as_slice(), "lnk") {
                return None;
            }
            match link_target {
                Some(t) => {
                    if is_executable_launch_target(t.as_str()) {
                        Some(Some(t))
                    } else {
                        None
                    }
                },
                None => None,
            }
        },
        None => None,
    }
}

/// The app entry for a file of a Start menu folder: named by the file's stem,
/// launched by its path, identified as `shortcut_app_launch_identity` says.
pub fn shortcut_app_entry(path: &str, source: AppSource, link_target: Option<String>) -> (r:
    Option<AppEntry>)
    ensures
        match r {
            Some(a) => {
                &&& file_stem_spec(path@) == Some(a.name@)
                &&& a.launch_path@ == path@
                &&& a.source == source
                &&& match extension_spec(path@) {
                    Some(e) => is_shortcut_extension(e) && if ascii_lower_seq(e) == "appref-ms"@ {
                        a.launch_identity is None
                    } else {
                        link_target matches Some(t) && is_executable_target_spec(t@)
                            && a.launch_identity == Some(t)
                    },
                    None => false,
                }
            },
            None => file_stem_spec(path@) is None || match extension_spec(path@) {
                Some(e) => !is_shortcut_extension(e) || (ascii_lower_seq(e) != "appref-ms"@ && !(
                link_target matches Some(t) && is_executable_target_spec(t@))),
                None => true,
            },
        },
{
    let p = chars_of(path);
    let stem = match file_stem(p.as_slice()) {
        Some(s) => s,
        None => return None,
    };
    match shortcut_app_launch_identity(path, link_target) {
        Some(identity) => Some(
            AppEntry {
                name: string_from_chars(stem.as_slice()),
                launch_path: string_from_chars(p.as_slice()),
                launch_identity: identity,
                source,
            },
        ),
        None => None,
    }
}

// ---------------------------------------------------------------------------
// Start menu app ids and launch paths
// ---------------------------------------------------------------------------

/// Whether a Start menu app id can be launched: a non-empty id that is an
/// executable target or a URL, or that is none of a braced known-folder path,
/// a path with separators, or a `Microsoft.AutoGenerated.` id.
pub open spec fn is_start_app_launch_id_spec(app_id: Seq<char>) -> bool {
    let id = trim_seq(app_id);
    if id.len() == 0 {
        false
    } else if is_executable_target_spec(id) {
        true
    } else if contains_seq(id, "://"@) {
        true
    } else if id[0] == '{' || id.contains('\\') || id.contains('/')
        || "Microsoft.AutoGenerated."@.is_prefix_of(id) {
        false
    } else {
        true
    }
}

pub fn is_start_app_launch_id(app_id: &str) -> (r: bool)
    ensures
        r == is_start_app_launch_id_spec(app_id@),
{
    let id_chars = trim_str(app_id);
    if id_chars.len() == 0 {
        return false;
    }
    let id = string_from_chars(id_chars.as_slice());
    if is_executable_launch_target(id.as_str()) {
        return true;
    }
    let ids = id_chars.as_slice();
    if contains_str(ids, "://") {
        return true;
    }
    let generated = chars_of("Microsoft.AutoGenerated.");
    if ids[0] == '{' || contains_char(ids, '\\') || contains_char(ids, '/') || starts_with(
        ids,
        generated.as_slice(),
    ) {
        return false;
    }
    true
}

/// An absolute path to a program.
pub open spec fn is_absolute_executable_spec(target: Seq<char>) -> bool {
    is_absolute_path(trim_seq(target)) && is_executable_target_spec(target)
}

pub fn is_absolute_executable_launch_target(target: &str) -> (r: bool)
    ensures
        r == is_absolute_executable_spec(target@),
{
    let t = trim_str(target);
    is_absolute(t.as_slice()) && is_executable_launch_target(target)
}

/// The launch path of an app id with the app user model id marker in front.
pub fn app_user_model_launch_path(app_id: &str) -> (r: String)
    ensures
        r@ == APP_USER_MODEL_ID_PREFIX@ + app_id@,
{
    let mut v = chars_of(APP_USER_MODEL_ID_PREFIX);
    let id = chars_of(app_id);
    append_chars(&mut v, id.as_slice());
    string_from_chars(v.as_slice())
}

/// How a Start menu app is launched: absolute program paths and URLs as they
/// are, every other id through app user model activation.
pub open spec fn start_app_launch_path_spec(app_id: Seq<char>) -> Seq<char> {
    if is_absolute_executable_spec(app_id) || contains_seq(app_id, "://"@) {
        app_id
    } else {
        APP_USER_MODEL_ID_PREFIX@ + app_id
    }
}

pub fn start_app_launch_path(_name: &str, app_id: &str) -> (r: String)
    ensures
        r@ == start_app_launch_path_spec(app_id@),
{
    let id = chars_of(app_id);
    if is_absolute_executable_launch_target(app_id) || contains_str(id.as_slice(), "://") {
        return string_from_chars(id.as_slice());
    }
    app_user_model_launch_path(app_id)
}

/// The app user model id of a launch path: what follows the marker in the
/// trimmed path, where that is not blank.
pub open spec fn app_user_model_id_spec(launch_path: Seq<char>) -> Option<Seq<char>> {
    let t = trim_seq(launch_path);
    if APP_USER_MODEL_ID_PREFIX@.is_prefix_of(t) {
        let rest = t.skip(APP_USER_MODEL_ID_PREFIX@.len() as int);
        if trim_seq(rest).len() > 0 {
            Some(rest)
        } else {
            None
        }
    } else {
        None
    }
}

pub fn app_user_model_id_from_launch_path(launch_path: &str) -> (r: Option<String>)
    ensures
        match r {
            Some(id) => app_user_model_id_spec(launch_path@) == Some(id@),
            None => app_user_model_id_spec(launch_path@) is None,
        },
{
    let t = trim_str(launch_path);
    let prefix = chars_of(APP_USER_MODEL_ID_PREFIX);
    if !starts_with(t.as_slice(), prefix.as_slice()) {
        return None;
    }
    let rest = sub_chars(t.as_slice(), prefix.len(), t.len());
    assert(rest@ =~= t@.skip(APP_USER_MODEL_ID_PREFIX@.len() as int));
    let trimmed = trim_chars(rest.as_slice());
    if trimmed.len() > 0 {
        Some(string_from_chars(rest.as_slice()))
    } else {
        None
    }
}

/// The directory a program is started in: the parent of an absolute program
/// path, where it is not empty.
pub open spec fn launch_working_directory_spec(launch_path: Seq<char>) -> Option<Seq<char>> {
    let t = trim_seq(launch_path);
    if !is_absolute_path(t) || !is_executable_target_spec(launch_path) {
        None
    } else {
        match parent_spec(t) {
            Some(d) => if d.len() > 0 {
                Some(d)
            } else {
                None
            },
            None => None,
        }
    }
}

pub fn launch_working_directory(launch_path: &str) -> (r: Option<String>)
    ensures
        match r {
            Some(d) => launch_working_directory_spec(launch_path@) == Some(d@),
            None => launch_working_directory_spec(launch_path@) is None,
        },
{
    let t = trim_str(launch_path);
    if !is_absolute(t.as_slice()) || !is_executable_launch_target(launch_path) {
        return None;
    }
    match parent(t.as_slice()) {
        Some(d) => {
            if d.len() > 0 {
                Some(string_from_chars(d.as_slice()))
            } else {
                None
            }
        },
        None => None,
    }
}

/// The app user model id that a launch path names, or else the program path
/// and working directory to start it with.
pub enum LaunchPlan {
    ActivateAppId { app_id: String },
    Execute { file: String, directory: Option<String> },
}

/// How `launch_path` is started.
pub fn launch_plan(launch_path: &str) -> (r: LaunchPlan)
    ensures
        match r {
            LaunchPlan::ActivateAppId { app_id } => app_user_model_id_spec(launch_path@) == Some(
                app_id@,
            ),
            LaunchPlan::Execute { file, directory } => {
                &&& app_user_model_id_spec(launch_path@) is None
                &&& file@ == launch_path@
                &&& match directory {
                    Some(d) => launch_working_directory_spec(launch_path@) == Some(d@),
                    None => launch_working_directory_spec(launch_path@) is None,
                }
            },
        },
{
    match app_user_model_id_from_launch_path(launch_path) {
        Some(app_id) => LaunchPlan::ActivateAppId { app_id },
        None => {
            let file = string_from_chars(chars_of(launch_path).as_slice());
            LaunchPlan::Execute { file, directory: launch_working_directory(launch_path) }
        },
    }
}

// ---------------------------------------------------------------------------
// App names
// ---------------------------------------------------------------------------

/// `_` and `-` read as spaces.
pub open spec fn dashes_to_spaces(s: Seq<char>) -> Seq<char> {
    s.map_values(|c: char| if c == '_' || c == '-' { ' ' } else { c })
}

/// Single-space separated words with each word's first character uppercased
/// and its other characters lowercased.
pub open spec fn title_case(s: Seq<char>) -> Seq<char>
    decreases s.len(),
{
    if s.len() == 0 {
        Seq::empty()
    } else {
        let c = s.last();
        let prev = s.drop_last();
        title_case(prev) + if c == ' ' {
            seq![' ']
        } else if prev.len() == 0 || prev.last() == ' ' {
            uppercase_of(c)
        } else {
            lowercase_of(c)
        }
    }
}

/// A file stem as an app name: `_` and `-` as spaces, whitespace runs as one
/// space, each word capitalised.
pub open spec fn pretty_app_name_spec(value: Seq<char>) -> Seq<char> {
    title_case(collapse_whitespace(dashes_to_spaces(value)))
}

fn title_case_chars(s: &[char]) -> (r: Vec<char>)
    ensures
        r@ == title_case(s@),
{
    let mut r: Vec<char> = Vec::new();
    let mut i: usize = 0;
    while i < s.len()
        invariant
            i <= s@.len(),
            r@ == title_case(s@.take(i as int)),
        decreases s.len() - i,
    {
        let c = s[i];
        proof {
            assert(s@.take(i + 1).drop_last() =~= s@.take(i as int));
        }
        if c == ' ' {
            r.push(' ');
        } else if i == 0 || s[i - 1] == ' ' {
            let u = char_to_uppercase(c);
            append_chars(&mut r, u.as_slice());
        } else {
            let l = char_to_lowercase(c);
            append_chars(&mut r, l.as_slice());
        }
        i = i + 1;
    }
    assert(s@.take(s@.len() as int) =~= s@);
    r
}

pub fn pretty_app_name(value: &str) -> (r: String)
    ensures
        r@ == pretty_app_name_spec(value@),
{
    let v = chars_of(value);
    let mut d: Vec<char> = Vec::new();
    let mut i: usize = 0;
    while i < v.len()
        invariant
            i <= v@.len(),
            d@ == dashes_to_spaces(v@.take(i as int)),
        decreases v.len() - i,
    {
        let c = v[i];
        if c == '_' || c == '-' {
            d.push(' ');
        } else {
            d.push(c);
        }
        assert(d@ =~= dashes_to_spaces(v@.take(i + 1)));
        i = i + 1;
    }
    assert(v@.take(v@.len() as int) =~= v@);
    let collapsed = collapse_whitespace_chars(d.as_slice());
    let t = title_case_chars(collapsed.as_slice());
    string_from_chars(t.as_slice())
}

/// The app name of an App Paths key: its file stem made pretty, or the key
/// itself where that is empty.
pub open spec fn app_name_from_app_path_key_spec(key_name: Seq<char>) -> Seq<char> {
    match file_stem_spec(key_name) {
        Some(stem) => if pretty_app_name_spec(stem).len() > 0 {
            pretty_app_name_spec(stem)
        } else {
            key_name
        },
        None => key_name,
    }
}

pub fn app_name_from_app_path_key(key_name: &str) -> (r: String)
    ensures
        r@ == app_name_from_app_path_key_spec(key_name@),
{
    let k = chars_of(key_name);
    match file_stem(k.as_slice()) {
        Some(stem) => {
            let stem_string = string_from_chars(stem.as_slice());
            let name = pretty_app_name(stem_string.as_str());
            if name.as_str().unicode_len() > 0 {
                name
            } else {
                string_from_chars(k.as_slice())
            }
        },
        None => string_from_chars(k.as_slice()),
    }
}

/// The app entry of an App Paths registry key whose default value is
/// `launch_path`: none where the value is blank.
pub fn app_path_entry(key_name: &str, launch_path: String, source: AppSource) -> (r: Option<
    AppEntry,
>)
    ensures
        match r {
            Some(a) => {
                &&& trim_seq(launch_path@).len() > 0
                &&& a.name@ == app_name_from_app_path_key_spec(key_name@)
                &&& a.launch_path == launch_path
                &&& a.launch_identity == Some(launch_path)
                &&& a.source == source
            },
            None => trim_seq(launch_path@).len() == 0,
        },
{
    let t = trim_str(launch_path.as_str());
    if t.len() == 0 {
        return None;
    }
    Some(
        AppEntry {
            name: app_name_from_app_path_key(key_name),
            launch_identity: Some(launch_path.clone()),
            launch_path,
            source,
        },
    )
}

/// Whether a Start menu entry (name, app id) lists a launchable app.
pub open spec fn start_entry_is_app(e: (String, String)) -> bool {
    trim_seq(e.0@).len() > 0 && is_start_app_launch_id_spec(trim_seq(e.1@))
}

/// The packaged app entry of a Start menu entry.
pub open spec fn start_entry_app(a: AppEntry, e: (String, String)) -> bool {
    let id = trim_seq(e.1@);
    &&& a.name@ == trim_seq(e.0@)
    &&& a.launch_path@ == start_app_launch_path_spec(id)
    &&& a.launch_identity matches Some(l) && l@ == a.launch_path@
    &&& a.source == AppSource::PackagedApp
}

/// The packaged apps of the Start menu entries (name, app id): names and ids
/// trimmed, entries without a name or a launchable id skipped.
pub fn start_apps_from_entries(entries: &[(String, String)]) -> (r: Vec<AppEntry>)
    ensures
        r@.len() == entries@.filter(|e: (String, String)| start_entry_is_app(e)).len(),
        forall|k: int|
            0 <= k < r@.len() ==> start_entry_app(
                #[trigger] r@[k],
                entries@.filter(|e: (String, String)| start_entry_is_app(e))[k],
            ),
{
    let ghost f = |e: (String, String)| start_entry_is_app(e);
    let mut r: Vec<AppEntry> = Vec::new();
    let mut i: usize = 0;
    while i < entries.len()
        invariant
            i <= entries@.len(),
            f == (|e: (String, String)| start_entry_is_app(e)),
            r@.len() == entries@.take(i as int).filter(f).len(),
            forall|k: int|
                0 <= k < r@.len() ==> start_entry_app(
                    #[trigger] r@[k],
                    entries@.take(i as int).filter(f)[k],
                ),
        decreases entries.len() - i,
    {
        proof {
            assert(entries@.take(i + 1) =~= entries@.take(i as int).push(entries@[i as int]));
            entries@.take(i as int).lemma_filter_push(entries@[i as int], f);
        }
        let name = trim_str(entries[i].0.as_str());
        let id = trim_str(entries[i].1.as_str());
        let id_string = string_from_chars(id.as_slice());
        if name.len() > 0 && is_start_app_launch_id(id_string.as_str()) {
            let name_string = string_from_chars(name.as_slice());
            let launch_path = start_app_launch_path(name_string.as_str(), id_string.as_str());
            let entry = AppEntry {
                name: name_string,
                launch_identity: Some(launch_path.clone()),
                launch_path,
                source: AppSource::PackagedApp,
            };
            r.push(entry);
        }
        i = i + 1;
    }
    assert(entries@.take(entries@.len() as int) =~= entries@);
    r
}

// ---------------------------------------------------------------------------
// UTF-16 buffers
// ---------------------------------------------------------------------------

/// The UTF-16 units of `value` followed by a terminating zero.
pub fn to_wide_z(value: &str) -> (r: Vec<u16>)
    ensures
        r@ == utf16_encode(value@).push(0),
{
    to_wide_null(value)
}

/// The units of `value` before its first zero (all of them where there is no
/// zero).
pub open spec fn before_first_zero(value: Seq<u16>) -> Seq<u16> {
    if value.contains(0u16) {
        value.take(choose|i: int| 0 <= i < value.len() && value[i] == 0 && forall|j: int| 0 <= j < i ==> value[j] != 0)
    } else {
        value
    }
}

/// The text of a zero-terminated UTF-16 buffer, with invalid data replaced.
pub fn utf16z_to_string(value: &[u16]) -> (r: String)
    ensures
        r@ == utf16_decode_lossy(before_first_zero(value@)),
{
    let mut i: usize = 0;
    while i < value.len() && value[i] != 0
        invariant
            i <= value@.len(),
            forall|j: int| 0 <= j < i ==> value@[j] != 0,
        decreases value.len() - i,
    {
        i = i + 1;
    }
    let mut units: Vec<u16> = Vec::new();
    let mut k: usize = 0;
    while k < i
        invariant
            i <= value@.len(),
            k <= i,
            units@ == value@.take(k as int),
        decreases i - k,
    {
        units.push(value[k]);
        assert(units@ =~= value@.take(k + 1));
        k = k + 1;
    }
    proof {
        if i < value@.len() {
            assert(value@.contains(0u16));
            let z = choose|z: int| 0 <= z < value@.len() && value@[z] == 0 && forall|j: int| 0 <= j < z ==> value@[j] != 0;
            assert(z == i) by {
                if z < i {
                } else if z > i {
                    assert(value@[i as int] == 0);
                }
            }
        } else {
            assert(value@.take(i as int) =~= value@);
            assert(!value@.contains(0u16));
        }
    }
    decode_utf16_lossy(units.as_slice())
}

} // verus!
