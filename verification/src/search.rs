//! Matching and ranking: how a query is scored against titles, how browser
//! tabs from the two providers are merged, and how windows, tabs, apps and
//! favorite folders become ranked search results.
use vstd::prelude::*;

use crate::entries::{
    clone_opt_string, ActivationTarget, AppEntry, AppSource, BuildResultOptions, DesktopLocation,
    ExtensionTabPayload, FavoriteFolderEntry, SearchResult, SearchResultKind, TabEntry, TabSource,
    WindowEntry,
};
use crate::sort::{
    is_permutation, is_stable_sort, key_views, stable_order, stably_sorted_by, KeyView, SortKey,
};
use crate::text::{
    append_chars, append_str, ascii_lower, ascii_lower_char, chars_eq, chars_of, contains_seq,
    copy_chars, ends_with, ends_with_str, eq_str, find_chars, is_whitespace_char,
    normalize_chars, normalize_for_match_spec, normalize_str, str_to_lowercase, occurs_at, starts_with,
    starts_with_str, str_lowercase, string_from_chars, sub_chars, trim_chars, trim_seq, trim_str,
    utf8_len, utf8_len_exec,
};

verus! {

// ---------------------------------------------------------------------------
// Views of results
// ---------------------------------------------------------------------------

/// The abstract content of an `ActivationTarget`.
pub enum TargetView {
    Window { hwnd: isize },
    Tab {
        parent_hwnd: Option<isize>,
        browser: Seq<char>,
        title: Seq<char>,
        extension_window_id: Option<i64>,
        extension_tab_id: Option<i64>,
    },
    App { launch_path: Seq<char> },
    Folder { path: Seq<char> },
}

/// The abstract content of a `SearchResult`.
pub struct ResultView {
    pub kind: SearchResultKind,
    pub title: Seq<char>,
    pub subtitle: Seq<char>,
    pub screen_number: Option<u32>,
    pub rank: i32,
    pub target: TargetView,
}

impl View for ActivationTarget {
    type V = TargetView;

    open spec fn view(&self) -> TargetView {
        match self {
            ActivationTarget::Window { hwnd } => TargetView::Window { hwnd: *hwnd },
            ActivationTarget::Tab {
                parent_hwnd,
                browser,
                title,
                extension_window_id,
                extension_tab_id,
            } => TargetView::Tab {
                parent_hwnd: *parent_hwnd,
                browser: browser@,
                title: title@,
                extension_window_id: *extension_window_id,
                extension_tab_id: *extension_tab_id,
            },
            ActivationTarget::App { launch_path } => TargetView::App { launch_path: launch_path@ },
            ActivationTarget::Folder { path } => TargetView::Folder { path: path@ },
        }
    }
}

impl View for SearchResult {
    type V = ResultView;

    open spec fn view(&self) -> ResultView {
        ResultView {
            kind: self.kind,
            title: self.title@,
            subtitle: self.subtitle@,
            screen_number: self.screen_number,
            rank: self.rank,
            target: self.target@,
        }
    }
}

pub open spec fn views(rs: Seq<SearchResult>) -> Seq<ResultView> {
    rs.map_values(|r: SearchResult| r@)
}

// ---------------------------------------------------------------------------
// Folder paths
// ---------------------------------------------------------------------------

pub open spec fn ascii_lower_seq(s: Seq<char>) -> Seq<char> {
    s.map_values(|c: char| ascii_lower_char(c))
}

/// `\\?\unc\`, the lowercase form of the verbatim UNC prefix.
pub open spec fn verbatim_unc_prefix() -> Seq<char> {
    seq!['\\', '\\', '?', '\\', 'u', 'n', 'c', '\\']
}

/// `\\?\`, the verbatim path prefix.
pub open spec fn verbatim_prefix() -> Seq<char> {
    seq!['\\', '\\', '?', '\\']
}

/// A folder path as shown to the user: trimmed, with a verbatim prefix
/// (matched without regard to ASCII case) removed; `\\?\UNC\server\share`
/// becomes `\\server\share`.
pub open spec fn display_folder_path_spec(p: Seq<char>) -> Seq<char> {
    let t = trim_seq(p);
    if verbatim_unc_prefix().is_prefix_of(ascii_lower_seq(t)) {
        seq!['\\', '\\'] + t.skip(8)
    } else if verbatim_prefix().is_prefix_of(ascii_lower_seq(t)) {
        t.skip(4)
    } else {
        t
    }
}

pub fn ascii_lower_chars(s: &[char]) -> (r: Vec<char>)
    ensures
        r@ == ascii_lower_seq(s@),
{
    let mut r: Vec<char> = Vec::new();
    let mut i: usize = 0;
    while i < s.len()
        invariant
            i <= s@.len(),
            r@ == ascii_lower_seq(s@.take(i as int)),
        decreases s.len() - i,
    {
        r.push(ascii_lower(s[i]));
        assert(r@ =~= ascii_lower_seq(s@.take(i + 1)));
        i = i + 1;
    }
    assert(s@.take(s@.len() as int) =~= s@);
    r
}

pub fn display_folder_path_chars(path: &str) -> (r: Vec<char>)
    ensures
        r@ == display_folder_path_spec(path@),
{
    let t = trim_str(path);
    let lower = ascii_lower_chars(t.as_slice());
    let unc: Vec<char> = vec!['\\', '\\', '?', '\\', 'u', 'n', 'c', '\\'];
    let verbatim: Vec<char> = vec!['\\', '\\', '?', '\\'];
    assert(unc@ =~= verbatim_unc_prefix());
    assert(verbatim@ =~= verbatim_prefix());
    if starts_with(lower.as_slice(), unc.as_slice()) {
        let mut r: Vec<char> = vec!['\\', '\\'];
        let rest = sub_chars(t.as_slice(), 8, t.len());
        append_chars(&mut r, rest.as_slice());
        assert(r@ =~= seq!['\\', '\\'] + t@.skip(8));
        r
    } else if starts_with(lower.as_slice(), verbatim.as_slice()) {
        let r = sub_chars(t.as_slice(), 4, t.len());
        assert(r@ =~= t@.skip(4));
        r
    } else {
        t
    }
}

/// Removes a Windows verbatim prefix (`\\?\` or `\\?\UNC\`) from a folder path
/// for display.
pub fn display_folder_path(path: &str) -> (r: String)
    ensures
        r@ == display_folder_path_spec(path@),
{
    let v = display_folder_path_chars(path);
    string_from_chars(v.as_slice())
}

// ---------------------------------------------------------------------------
// Scoring a query against a candidate
// ---------------------------------------------------------------------------

/// The first character position at which `p` occurs in `s`.
pub open spec fn first_occurrence(s: Seq<char>, p: Seq<char>) -> int {
    choose|i: int| occurs_at(s, p, i) && forall|j: int| 0 <= j < i ==> !occurs_at(s, p, j)
}

/// The score of a normalised candidate for a normalised query: `None` when
/// the query does not occur in it; otherwise an exact match scores 10000, a
/// prefix match 8000 less the candidate's length, and any other match 6000 less
/// the byte position of the first match and the candidate's length. Lengths
/// and positions are in UTF-8 bytes; the score wraps to `i32` as the released
/// build's arithmetic does.
pub open spec fn score_normalized(q: Seq<char>, c: Seq<char>) -> Option<i32> {
    if q.len() == 0 {
        Some(0)
    } else if c.len() == 0 {
        None
    } else if c == q {
        Some(10000)
    } else if q.is_prefix_of(c) {
        Some((8000 - utf8_len(c)) as i32)
    } else if contains_seq(c, q) {
        Some((6000 - utf8_len(c.take(first_occurrence(c, q))) - utf8_len(c)) as i32)
    } else {
        None
    }
}

/// `match_score` over the raw query and candidate.
pub open spec fn match_score_spec(q: Seq<char>, c: Seq<char>) -> Option<i32> {
    score_normalized(normalize_for_match_spec(q), normalize_for_match_spec(c))
}

proof fn lemma_utf8_len_bound(s: Seq<char>)
    ensures
        utf8_len(s) <= 4 * s.len(),
    decreases s.len(),
{
    if s.len() > 0 {
        lemma_utf8_len_bound(s.drop_last());
    }
}

/// Scores already-normalised text; see `score_normalized`.
pub fn score_normalized_chars(q: &[char], c: &[char]) -> (r: Option<i32>)
    ensures
        r == score_normalized(q@, c@),
{
    if q.len() == 0 {
        return Some(0);
    }
    if c.len() == 0 {
        return None;
    }
    if chars_eq(c, q) {
        return Some(10000);
    }
    let c_len = utf8_len_exec(c);
    proof {
        lemma_utf8_len_bound(c@);
    }
    if starts_with(c, q) {
        #[verifier::truncate]
        let r = (8000i128 - (c_len as i128)) as i32;
        return Some(r);
    }
    match find_chars(c, q) {
        Some(pos) => {
            let before = sub_chars(c, 0, pos);
            let pos_len = utf8_len_exec(before.as_slice());
            proof {
                lemma_utf8_len_bound(before@);
                assert(before@ =~= c@.take(pos as int));
                let f = first_occurrence(c@, q@);
                assert(occurs_at(c@, q@, f) && forall|j: int| 0 <= j < f ==> !occurs_at(c@, q@, j));
                if f < pos {
                    assert(!occurs_at(c@, q@, f));
                }
                if pos < f {
                    assert(!occurs_at(c@, q@, pos as int));
                }
                assert(f == pos);
            }
            #[verifier::truncate]
            let r = (6000i128 - (pos_len as i128) - (c_len as i128)) as i32;
            Some(r)
        },
        None => None,
    }
}

/// Scores `candidate` for `query`; both are normalised first. `None` means the
/// query text does not occur contiguously in the candidate.
pub fn match_score(query: &str, candidate: &str) -> (r: Option<i32>)
    ensures
        r == match_score_spec(query@, candidate@),
{
    let q = normalize_str(query);
    let c = normalize_str(candidate);
    score_normalized_chars(q.as_slice(), c.as_slice())
}

pub fn match_score_chars(query: &[char], candidate: &[char]) -> (r: Option<i32>)
    ensures
        r == match_score_spec(query@, candidate@),
{
    let q = normalize_chars(query);
    let c = normalize_chars(candidate);
    score_normalized_chars(q.as_slice(), c.as_slice())
}

/// The name shown for a browser identifier.
pub open spec fn browser_display_name(b: Seq<char>) -> Seq<char> {
    if b == "chrome"@ {
        "Chrome"@
    } else if b == "edge"@ {
        "Edge"@
    } else {
        "Browser"@
    }
}

pub fn display_browser_name(browser: &str) -> (r: &'static str)
    ensures
        r@ == browser_display_name(browser@),
{
    let b = chars_of(browser);
    if eq_str(b.as_slice(), "chrome") {
        "Chrome"
    } else if eq_str(b.as_slice(), "edge") {
        "Edge"
    } else {
        "Browser"
    }
}

// ---------------------------------------------------------------------------
// Extension tabs
// ---------------------------------------------------------------------------

/// A tab reported by the extension, seen at `now` (milliseconds).
pub fn extension_payload_to_tab(payload: ExtensionTabPayload, now: u64) -> (r: TabEntry)
    ensures
        r.browser == payload.browser,
        r.parent_hwnd is None,
        r.window_title is None,
        r.title == payload.title,
        r.active == payload.active,
        r.extension_window_id == Some(payload.window_id),
        r.extension_tab_id == Some(payload.tab_id),
        r.source == TabSource::Extension,
        r.last_seen == now,
{
    TabEntry {
        browser: payload.browser,
        parent_hwnd: None,
        window_title: None,
        title: payload.title,
        active: payload.active,
        extension_window_id: Some(payload.window_id),
        extension_tab_id: Some(payload.tab_id),
        source: TabSource::Extension,
        last_seen: now,
    }
}

/// Whether a tab seen at `last_seen` is still current at `now`; the elapsed
/// time saturates at zero, as `Instant::duration_since` does.
pub open spec fn tab_is_fresh(t: TabEntry, now: u64, max_age: u64) -> bool {
    (if now >= t.last_seen {
        now - t.last_seen
    } else {
        0
    }) <= max_age
}

/// Removes the tabs last seen more than `max_age` milliseconds before `now`,
/// keeping the others in order.
pub fn prune_stale_tabs(tabs: &mut Vec<TabEntry>, now: u64, max_age: u64)
    ensures
        final(tabs)@ == old(tabs)@.filter(|t: TabEntry| tab_is_fresh(t, now, max_age)),
{
    let ghost start = tabs@;
    let mut kept: Vec<TabEntry> = Vec::new();
    let mut i: usize = 0;
    while i < tabs.len()
        invariant
            tabs@ == start,
            i <= start.len(),
            kept@ == start.take(i as int).filter(|t: TabEntry| tab_is_fresh(t, now, max_age)),
        decreases tabs.len() - i,
    {
        let t = &tabs[i];
        proof {
            assert(start.take(i + 1) =~= start.take(i as int).push(start[i as int]));
            start.take(i as int).lemma_filter_push(
                start[i as int],
                |t: TabEntry| tab_is_fresh(t, now, max_age),
            );
        }
        if now.saturating_sub(t.last_seen) <= max_age {
            kept.push(t.clone());
        }
        i = i + 1;
    }
    assert(start.take(start.len() as int) =~= start);
    *tabs = kept;
}

// ---------------------------------------------------------------------------
// Merging the two tab providers
// ---------------------------------------------------------------------------

pub open spec fn tab_ids(t: TabEntry) -> Option<(i64, i64)> {
    match (t.extension_window_id, t.extension_tab_id) {
        (Some(w), Some(id)) => Some((w, id)),
        _ => None,
    }
}

/// Whether extension tab `i` repeats the window and tab ids of an earlier one.
pub open spec fn repeats_earlier_ids(ext: Seq<TabEntry>, i: int) -> bool {
    tab_ids(ext[i]) is Some && exists|j: int| 0 <= j < i && tab_ids(ext[j]) == tab_ids(ext[i])
}

/// The extension tabs with repeated ids dropped (the first of each kept).
pub open spec fn unique_extension_tabs(ext: Seq<TabEntry>) -> Seq<TabEntry>
    decreases ext.len(),
{
    if ext.len() == 0 {
        Seq::empty()
    } else {
        let rest = unique_extension_tabs(ext.drop_last());
        if repeats_earlier_ids(ext, ext.len() - 1) {
            rest
        } else {
            rest.push(ext.last())
        }
    }
}

/// Tabs are matched across providers by normalised browser and title.
pub open spec fn tab_key(t: TabEntry) -> (Seq<char>, Seq<char>) {
    (normalize_for_match_spec(t.browser@), normalize_for_match_spec(t.title@))
}

/// The last of the first `n` tabs of `m` with the given key.
pub open spec fn last_with_key(m: Seq<TabEntry>, n: int, key: (Seq<char>, Seq<char>)) -> Option<
    int,
>
    decreases n,
{
    if n <= 0 {
        None
    } else if tab_key(m[n - 1]) == key {
        Some(n - 1)
    } else {
        last_with_key(m, n - 1, key)
    }
}

/// An extension tab completed with the parent window and window title that
/// the accessibility provider found, where it had none.
pub open spec fn fill_from(e: TabEntry, t: TabEntry) -> TabEntry {
    TabEntry {
        parent_hwnd: if e.parent_hwnd is None {
            t.parent_hwnd
        } else {
            e.parent_hwnd
        },
        window_title: if e.window_title is None {
            t.window_title
        } else {
            e.window_title
        },
        ..e
    }
}

/// Each accessibility tab either completes the last of the first `n` tabs of
/// `m` with its key, or is appended.
pub open spec fn merge_accessibility(m: Seq<TabEntry>, n: int, acc: Seq<TabEntry>) -> Seq<TabEntry>
    decreases acc.len(),
{
    if acc.len() == 0 {
        m
    } else {
        let m1 = merge_accessibility(m, n, acc.drop_last());
        let t = acc.last();
        match last_with_key(m1, n, tab_key(t)) {
            Some(k) => m1.update(k, fill_from(m1[k], t)),
            None => m1.push(t),
        }
    }
}

pub open spec fn merge_tabs_spec(acc: Seq<TabEntry>, ext: Seq<TabEntry>) -> Seq<TabEntry> {
    let u = unique_extension_tabs(ext);
    merge_accessibility(u, u.len() as int, acc)
}

proof fn lemma_last_with_key_bounds(m: Seq<TabEntry>, n: int, key: (Seq<char>, Seq<char>))
    ensures
        last_with_key(m, n, key) matches Some(k) ==> 0 <= k < n && tab_key(m[k]) == key,
    decreases n,
{
    if n > 0 && tab_key(m[n - 1]) != key {
        lemma_last_with_key_bounds(m, n - 1, key);
    }
}

proof fn lemma_last_with_key_same_keys(
    m1: Seq<TabEntry>,
    m2: Seq<TabEntry>,
    n: int,
    key: (Seq<char>, Seq<char>),
)
    requires
        n <= m1.len(),
        n <= m2.len(),
        forall|k: int| 0 <= k < n ==> tab_key(#[trigger] m1[k]) == tab_key(m2[k]),
    ensures
        last_with_key(m1, n, key) == last_with_key(m2, n, key),
    decreases n,
{
    if n > 0 {
        lemma_last_with_key_same_keys(m1, m2, n - 1, key);
    }
}

proof fn lemma_merge_accessibility_shape(m: Seq<TabEntry>, n: int, acc: Seq<TabEntry>)
    requires
        0 <= n <= m.len(),
    ensures
        merge_accessibility(m, n, acc).len() >= m.len(),
        forall|k: int|
            0 <= k < n ==> tab_key(#[trigger] merge_accessibility(m, n, acc)[k]) == tab_key(m[k]),
    decreases acc.len(),
{
    if acc.len() > 0 {
        lemma_merge_accessibility_shape(m, n, acc.drop_last());
        let m1 = merge_accessibility(m, n, acc.drop_last());
        lemma_last_with_key_bounds(m1, n, tab_key(acc.last()));
    }
}

pub fn tab_key_exec(t: &TabEntry) -> (r: (Vec<char>, Vec<char>))
    ensures
        (r.0@, r.1@) == tab_key(*t),
{
    (normalize_str(t.browser.as_str()), normalize_str(t.title.as_str()))
}

fn ids_seen(seen: &Vec<(i64, i64)>, ids: (i64, i64)) -> (r: bool)
    ensures
        r == seen@.contains(ids),
{
    let mut i: usize = 0;
    while i < seen.len()
        invariant
            i <= seen@.len(),
            forall|j: int| 0 <= j < i ==> seen@[j] != ids,
        decreases seen.len() - i,
    {
        if seen[i].0 == ids.0 && seen[i].1 == ids.1 {
            assert(seen@[i as int] == ids);
            return true;
        }
        i = i + 1;
    }
    false
}

/// Merges the tabs that the accessibility scan found with those the extension
/// reported. Extension tabs come first, without repeated ids; an
/// accessibility tab with the same normalised browser and title as an
/// extension tab lends it its parent window and window title where it has
/// none, and any other accessibility tab is appended.
pub fn merge_tabs(accessibility_tabs: &[TabEntry], extension_tabs: &[TabEntry]) -> (r: Vec<
    TabEntry,
>)
    ensures
        r@ == merge_tabs_spec(accessibility_tabs@, extension_tabs@),
{
    let ext = extension_tabs;
    let mut merged: Vec<TabEntry> = Vec::new();
    let mut keys: Vec<(Vec<char>, Vec<char>)> = Vec::new();
    let mut seen: Vec<(i64, i64)> = Vec::new();
    let mut i: usize = 0;
    while i < ext.len()
        invariant
            i <= ext@.len(),
            merged@ == unique_extension_tabs(ext@.take(i as int)),
            keys@.len() == merged@.len(),
            forall|k: int|
                0 <= k < merged@.len() ==> (#[trigger] keys@[k].0@, keys@[k].1@) == tab_key(
                    merged@[k],
                ),
            forall|ids: (i64, i64)|
                seen@.contains(ids) <==> exists|j: int|
                    0 <= j < i && tab_ids(#[trigger] ext@[j]) == Some(ids),
        decreases ext.len() - i,
    {
        let t = &ext[i];
        let ghost pre = ext@.take(i as int);
        let ghost cur = ext@.take(i + 1);
        proof {
            assert(cur.drop_last() =~= pre);
            assert(cur.last() == ext@[i as int]);
            assert(repeats_earlier_ids(cur, i as int) == repeats_earlier_ids(ext@, i as int)) by {
                if repeats_earlier_ids(ext@, i as int) {
                    let j = choose|j: int|
                        0 <= j < i && tab_ids(ext@[j]) == tab_ids(ext@[i as int]);
                    assert(cur[j] == ext@[j]);
                }
                if repeats_earlier_ids(cur, i as int) {
                    let j = choose|j: int| 0 <= j < i && tab_ids(cur[j]) == tab_ids(cur[i as int]);
                    assert(cur[j] == ext@[j]);
                }
            }
        }
        let ghost seen_before = seen@;
        let mut skip = false;
        match (t.extension_window_id, t.extension_tab_id) {
            (Some(w), Some(id)) => {
                if ids_seen(&seen, (w, id)) {
                    skip = true;
                } else {
                    seen.push((w, id));
                }
            },
            _ => {},
        }
        proof {
            assert forall|ids: (i64, i64)|
                seen@.contains(ids) <==> exists|j: int|
                    0 <= j < i + 1 && tab_ids(#[trigger] ext@[j]) == Some(ids) by {
                if seen@.contains(ids) {
                    if seen_before.contains(ids) {
                        let j = choose|j: int| 0 <= j < i && tab_ids(ext@[j]) == Some(ids);
                        assert(tab_ids(ext@[j]) == Some(ids));
                    } else {
                        assert(tab_ids(ext@[i as int]) == Some(ids));
                    }
                }
                if exists|j: int| 0 <= j < i + 1 && tab_ids(#[trigger] ext@[j]) == Some(ids) {
                    let j = choose|j: int| 0 <= j < i + 1 && tab_ids(ext@[j]) == Some(ids);
                    if j < i {
                        assert(seen_before.contains(ids));
                        assert(seen@.contains(ids)) by {
                            let k = choose|k: int| 0 <= k < seen_before.len() && seen_before[k] == ids;
                            assert(seen@[k] == ids);
                        }
                    } else {
                        if !skip {
                            assert(seen@[seen@.len() - 1] == ids);
                        }
                    }
                }
            }
        }
        if !skip {
            let key = tab_key_exec(t);
            keys.push(key);
            merged.push(t.clone());
        }
        i = i + 1;
    }
    proof {
        assert(ext@.take(ext@.len() as int) =~= ext@);
    }
    let n1 = merged.len();
    let ghost u = merged@;
    let acc = accessibility_tabs;
    let mut i: usize = 0;
    while i < acc.len()
        invariant
            i <= acc@.len(),
            u == unique_extension_tabs(ext@),
            n1 == u.len(),
            merged@ == merge_accessibility(u, n1 as int, acc@.take(i as int)),
            merged@.len() >= n1,
            keys@.len() == n1,
            forall|k: int|
                0 <= k < n1 ==> (#[trigger] keys@[k].0@, keys@[k].1@) == tab_key(merged@[k]),
        decreases acc.len() - i,
    {
        let t = &acc[i];
        let key = tab_key_exec(t);
        let ghost pre = acc@.take(i as int);
        let ghost cur = acc@.take(i + 1);
        proof {
            assert(cur.drop_last() =~= pre);
            assert(cur.last() == acc@[i as int]);
        }
        // The last of the extension tabs with this key.
        let mut k: usize = n1;
        let mut found = false;
        while k > 0 && !found
            invariant
                k <= n1,
                n1 <= merged@.len(),
                keys@.len() == n1,
                forall|j: int|
                    0 <= j < n1 ==> (#[trigger] keys@[j].0@, keys@[j].1@) == tab_key(merged@[j]),
                !found ==> last_with_key(merged@, n1 as int, (key.0@, key.1@)) == last_with_key(
                    merged@,
                    k as int,
                    (key.0@, key.1@),
                ),
                found ==> k > 0 && last_with_key(merged@, n1 as int, (key.0@, key.1@)) == Some(
                    k - 1,
                ),
            decreases k + (if found { 0int } else { 1int }),
        {
            if chars_eq(keys[k - 1].0.as_slice(), key.0.as_slice()) && chars_eq(
                keys[k - 1].1.as_slice(),
                key.1.as_slice(),
            ) {
                found = true;
            } else {
                k = k - 1;
            }
        }
        proof {
            lemma_merge_accessibility_shape(u, n1 as int, pre);
        }
        let ghost merged_before = merged@;
        if found {
            let idx = k - 1;
            assert(last_with_key(merged@, n1 as int, tab_key(*t)) == Some(idx as int));
            let mut e = merged[idx].clone();
            if e.parent_hwnd.is_none() {
                e.parent_hwnd = t.parent_hwnd;
            }
            if e.window_title.is_none() {
                e.window_title = clone_opt_string(&t.window_title);
            }
            assert(e == fill_from(merged@[idx as int], *t));
            merged.set(idx, e);
        } else {
            assert(last_with_key(merged@, n1 as int, tab_key(*t)) is None);
            merged.push(t.clone());
        }
        proof {
            assert(merged@ =~= merge_accessibility(u, n1 as int, cur));
            assert forall|j: int| 0 <= j < n1 implies (#[trigger] keys@[j].0@, keys@[j].1@)
                == tab_key(merged@[j]) by {
                if found && j == k - 1 {
                } else {
                    assert(merged@[j] == merged_before[j]);
                }
            }
        }
        i = i + 1;
    }
    proof {
        assert(acc@.take(acc@.len() as int) =~= acc@);
    }
    merged
}


// ---------------------------------------------------------------------------
// Subtitles
// ---------------------------------------------------------------------------

pub open spec fn desktop_label(loc: DesktopLocation) -> Seq<char> {
    match loc {
        DesktopLocation::Current => "Current desktop"@,
        DesktopLocation::Other => "Other desktop"@,
        DesktopLocation::Unknown => "Desktop unknown"@,
    }
}

/// A subtitle followed by the desktop label, when labels are shown.
pub open spec fn with_desktop_label_spec(sub: Seq<char>, loc: DesktopLocation, show: bool) -> Seq<
    char,
> {
    if !show {
        sub
    } else if sub.len() == 0 {
        desktop_label(loc)
    } else {
        sub + " - "@ + desktop_label(loc)
    }
}

/// "app - class" (or the class alone when the app name is empty), then the
/// desktop label when labels are shown.
pub open spec fn window_subtitle_spec(w: WindowEntry, show: bool) -> Seq<char> {
    let sub = if w.app_name@.len() == 0 {
        w.class_name@
    } else {
        w.app_name@ + " - "@ + w.class_name@
    };
    with_desktop_label_spec(sub, w.desktop_location, show)
}

fn with_desktop_label(subtitle: Vec<char>, loc: DesktopLocation, show: bool) -> (r: Vec<char>)
    ensures
        r@ == with_desktop_label_spec(subtitle@, loc, show),
{
    if !show {
        return subtitle;
    }
    let label = match loc {
        DesktopLocation::Current => "Current desktop",
        DesktopLocation::Other => "Other desktop",
        DesktopLocation::Unknown => "Desktop unknown",
    };
    if subtitle.len() == 0 {
        chars_of(label)
    } else {
        let mut r = subtitle;
        append_str(&mut r, " - ");
        append_str(&mut r, label);
        assert(r@ =~= subtitle@ + " - "@ + desktop_label(loc));
        r
    }
}

fn window_subtitle(w: &WindowEntry, show: bool) -> (r: Vec<char>)
    ensures
        r@ == window_subtitle_spec(*w, show),
{
    let app = chars_of(w.app_name.as_str());
    let sub = if app.len() == 0 {
        chars_of(w.class_name.as_str())
    } else {
        let mut s = app;
        append_str(&mut s, " - ");
        append_str(&mut s, w.class_name.as_str());
        assert(s@ =~= w.app_name@ + " - "@ + w.class_name@);
        s
    };
    with_desktop_label(sub, w.desktop_location, show)
}

// ---------------------------------------------------------------------------
// Which tab stands for which window
// ---------------------------------------------------------------------------

/// Whether a window belongs to the given browser, judged by its normalised
/// process name, class or title suffix.
pub open spec fn browser_matches_window_spec(b: Seq<char>, w: WindowEntry) -> bool {
    let app = normalize_for_match_spec(w.app_name@);
    let class = normalize_for_match_spec(w.class_name@);
    let title = normalize_for_match_spec(w.title@);
    if b == "chrome"@ {
        app == "chrome"@ || class == "chrome_widgetwin_1"@ || " - google chrome"@.is_suffix_of(
            title,
        )
    } else if b == "edge"@ {
        app == "msedge"@ || " - microsoft edge"@.is_suffix_of(title)
    } else {
        false
    }
}

/// `t` without the first of the two suffixes that it ends with, trimmed.
pub open spec fn strip_first_suffix(t: Seq<char>, s1: Seq<char>, s2: Seq<char>) -> Seq<char> {
    trim_seq(
        if s1.is_suffix_of(t) {
            t.take(t.len() - s1.len())
        } else if s2.is_suffix_of(t) {
            t.take(t.len() - s2.len())
        } else {
            t
        },
    )
}

/// Whether a browser window's title shows the given tab: after the browser's
/// suffix is removed, it equals the tab title or continues it with " - ".
pub open spec fn title_matches_tab_spec(wt: Seq<char>, tt: Seq<char>, b: Seq<char>) -> bool {
    let w = normalize_for_match_spec(wt);
    let t = normalize_for_match_spec(tt);
    let stripped = if b == "chrome"@ {
        strip_first_suffix(w, " - google chrome"@, " - chrome"@)
    } else if b == "edge"@ {
        strip_first_suffix(w, " - microsoft edge"@, " - edge"@)
    } else {
        w
    };
    t.len() > 0 && (stripped == t || (t.is_prefix_of(stripped) && " - "@.is_prefix_of(
        stripped.skip(t.len() as int),
    )))
}

/// A tab stands for a window when it names it as its parent or, without a
/// parent, when it is the active tab of a window of its browser whose title
/// shows it.
pub open spec fn tab_represents_window_spec(t: TabEntry, w: WindowEntry) -> bool {
    match t.parent_hwnd {
        Some(h) => h == w.hwnd,
        None => t.active && browser_matches_window_spec(t.browser@, w) && title_matches_tab_spec(
            w.title@,
            t.title@,
            t.browser@,
        ),
    }
}

fn browser_matches_window(browser: &str, w: &WindowEntry) -> (r: bool)
    ensures
        r == browser_matches_window_spec(browser@, *w),
{
    let b = chars_of(browser);
    let app = normalize_str(w.app_name.as_str());
    let class = normalize_str(w.class_name.as_str());
    let title = normalize_str(w.title.as_str());
    if eq_str(b.as_slice(), "chrome") {
        eq_str(app.as_slice(), "chrome") || eq_str(class.as_slice(), "chrome_widgetwin_1")
            || ends_with_str(title.as_slice(), " - google chrome")
    } else if eq_str(b.as_slice(), "edge") {
        eq_str(app.as_slice(), "msedge") || ends_with_str(title.as_slice(), " - microsoft edge")
    } else {
        false
    }
}

pub(crate) fn strip_browser_suffix(title: &[char], s1: &str, s2: &str) -> (r: Vec<char>)
    ensures
        r@ == strip_first_suffix(title@, s1@, s2@),
{
    let v1 = chars_of(s1);
    let v2 = chars_of(s2);
    if ends_with(title, v1.as_slice()) {
        let t = sub_chars(title, 0, title.len() - v1.len());
        assert(t@ =~= title@.take(title@.len() - s1@.len()));
        trim_chars(t.as_slice())
    } else if ends_with(title, v2.as_slice()) {
        let t = sub_chars(title, 0, title.len() - v2.len());
        assert(t@ =~= title@.take(title@.len() - s2@.len()));
        trim_chars(t.as_slice())
    } else {
        trim_chars(title)
    }
}

fn browser_window_title_matches_tab(window_title: &str, tab_title: &str, browser: &str) -> (r:
    bool)
    ensures
        r == title_matches_tab_spec(window_title@, tab_title@, browser@),
{
    let w = normalize_str(window_title);
    let t = normalize_str(tab_title);
    if t.len() == 0 {
        return false;
    }
    let b = chars_of(browser);
    let stripped = if eq_str(b.as_slice(), "chrome") {
        strip_browser_suffix(w.as_slice(), " - google chrome", " - chrome")
    } else if eq_str(b.as_slice(), "edge") {
        strip_browser_suffix(w.as_slice(), " - microsoft edge", " - edge")
    } else {
        w
    };
    if chars_eq(stripped.as_slice(), t.as_slice()) {
        return true;
    }
    if starts_with(stripped.as_slice(), t.as_slice()) {
        let rest = sub_chars(stripped.as_slice(), t.len(), stripped.len());
        assert(rest@ =~= stripped@.skip(t@.len() as int));
        starts_with_str(rest.as_slice(), " - ")
    } else {
        false
    }
}

fn tab_represents_window(t: &TabEntry, w: &WindowEntry) -> (r: bool)
    ensures
        r == tab_represents_window_spec(*t, *w),
{
    match t.parent_hwnd {
        Some(h) => h == w.hwnd,
        None => t.active && browser_matches_window(t.browser.as_str(), w)
            && browser_window_title_matches_tab(
            w.title.as_str(),
            t.title.as_str(),
            t.browser.as_str(),
        ),
    }
}

// ---------------------------------------------------------------------------
// Window and tab results
// ---------------------------------------------------------------------------

/// Windows sort before tabs, tabs before apps, apps before folders.
pub open spec fn kind_order(k: SearchResultKind) -> int {
    match k {
        SearchResultKind::Window => 0,
        SearchResultKind::Tab => 1,
        SearchResultKind::App => 2,
        SearchResultKind::Folder => 3,
    }
}

fn result_kind_order(k: SearchResultKind) -> (r: i64)
    ensures
        r == kind_order(k),
{
    match k {
        SearchResultKind::Window => 0,
        SearchResultKind::Tab => 1,
        SearchResultKind::App => 2,
        SearchResultKind::Folder => 3,
    }
}

/// The tabs whose titles match the (trimmed) query, each with its score; none
/// for an empty query.
pub open spec fn matching_tabs_spec(tabs: Seq<TabEntry>, q: Seq<char>) -> Seq<(TabEntry, i32)>
    decreases tabs.len(),
{
    if q.len() == 0 || tabs.len() == 0 {
        Seq::empty()
    } else {
        let rest = matching_tabs_spec(tabs.drop_last(), q);
        match match_score_spec(q, tabs.last().title@) {
            Some(s) => rest.push((tabs.last(), s)),
            None => rest,
        }
    }
}

/// The rank of the window at `index`: for an empty query 10000 less its index,
/// so the given order is kept; otherwise its title score plus 2000, or failing
/// that its app-name score plus 1000. Ranks wrap to `i32`.
pub open spec fn window_rank(q: Seq<char>, w: WindowEntry, index: int) -> Option<i32> {
    if q.len() == 0 {
        Some((10000 - index) as i32)
    } else {
        match match_score_spec(q, w.title@) {
            Some(s) => Some((s + 2000) as i32),
            None => match match_score_spec(q, w.app_name@) {
                Some(s) => Some((s + 1000) as i32),
                None => None,
            },
        }
    }
}

pub open spec fn window_view(w: WindowEntry, rank: i32, show: bool) -> ResultView {
    ResultView {
        kind: SearchResultKind::Window,
        title: w.title@,
        subtitle: window_subtitle_spec(w, show),
        screen_number: w.screen_number,
        rank: rank,
        target: TargetView::Window { hwnd: w.hwnd },
    }
}

pub open spec fn hidden_by_tab(matching: Seq<(TabEntry, i32)>, w: WindowEntry) -> bool {
    exists|k: int| 0 <= k < matching.len() && tab_represents_window_spec(matching[k].0, w)
}

/// The window results, in window order: a window is left out when a matching
/// tab stands for it or when it does not match the query.
pub open spec fn window_results_spec(
    ws: Seq<WindowEntry>,
    q: Seq<char>,
    matching: Seq<(TabEntry, i32)>,
    show: bool,
) -> Seq<ResultView>
    decreases ws.len(),
{
    if ws.len() == 0 {
        Seq::empty()
    } else {
        let rest = window_results_spec(ws.drop_last(), q, matching, show);
        let w = ws.last();
        if q.len() > 0 && hidden_by_tab(matching, w) {
            rest
        } else {
            match window_rank(q, w, ws.len() - 1) {
                Some(r) => rest.push(window_view(w, r, show)),
                None => rest,
            }
        }
    }
}

/// The first window with the given handle.
pub open spec fn first_window_with_hwnd(ws: Seq<WindowEntry>, h: isize) -> Option<WindowEntry>
    decreases ws.len(),
{
    if ws.len() == 0 {
        None
    } else if ws[0].hwnd == h {
        Some(ws[0])
    } else {
        first_window_with_hwnd(ws.drop_first(), h)
    }
}

pub open spec fn parent_window_of(t: TabEntry, ws: Seq<WindowEntry>) -> Option<WindowEntry> {
    match t.parent_hwnd {
        Some(h) => first_window_with_hwnd(ws, h),
        None => None,
    }
}

/// A tab result: its subtitle is the window title (or "<Browser> tab") with
/// the parent window's desktop label, its screen is the parent window's, and
/// its rank is its score plus 1500.
pub open spec fn tab_view(t: TabEntry, score: i32, ws: Seq<WindowEntry>, show: bool) -> ResultView {
    let pw = parent_window_of(t, ws);
    let sub = match t.window_title {
        Some(s) => s@,
        None => browser_display_name(t.browser@) + " tab"@,
    };
    let loc = match pw {
        Some(w) => w.desktop_location,
        None => DesktopLocation::Unknown,
    };
    ResultView {
        kind: SearchResultKind::Tab,
        title: t.title@,
        subtitle: with_desktop_label_spec(sub, loc, show),
        screen_number: match pw {
            Some(w) => w.screen_number,
            None => None,
        },
        rank: (score + 1500) as i32,
        target: TargetView::Tab {
            parent_hwnd: t.parent_hwnd,
            browser: t.browser@,
            title: t.title@,
            extension_window_id: t.extension_window_id,
            extension_tab_id: t.extension_tab_id,
        },
    }
}

pub open spec fn tab_results_spec(
    matching: Seq<(TabEntry, i32)>,
    ws: Seq<WindowEntry>,
    show: bool,
) -> Seq<ResultView> {
    matching.map_values(|m: (TabEntry, i32)| tab_view(m.0, m.1, ws, show))
}

/// Window and tab results before ordering: the windows' results, then the
/// matching tabs' results.
pub open spec fn unsorted_window_tab_results(
    query: Seq<char>,
    ws: Seq<WindowEntry>,
    acc: Seq<TabEntry>,
    ext: Seq<TabEntry>,
    show: bool,
) -> Seq<ResultView> {
    let q = trim_seq(query);
    let m = matching_tabs_spec(merge_tabs_spec(acc, ext), q);
    window_results_spec(ws, q, m, show) + tab_results_spec(m, ws, show)
}

/// Window and tab results are ordered by rank (highest first), then kind, then
/// lowercase title.
pub open spec fn window_tab_key(v: ResultView) -> KeyView {
    (-(v.rank as int), kind_order(v.kind), str_lowercase(v.title), Seq::empty())
}

pub open spec fn window_tab_keys(vs: Seq<ResultView>) -> Seq<KeyView> {
    vs.map_values(|v: ResultView| window_tab_key(v))
}

fn first_window_index(ws: &[WindowEntry], h: isize) -> (r: Option<usize>)
    ensures
        match r {
            Some(i) => i < ws@.len() && first_window_with_hwnd(ws@, h) == Some(ws@[i as int]),
            None => first_window_with_hwnd(ws@, h) is None,
        },
{
    let mut i: usize = 0;
    assert(ws@.skip(0) =~= ws@);
    while i < ws.len()
        invariant
            i <= ws@.len(),
            first_window_with_hwnd(ws@, h) == first_window_with_hwnd(ws@.skip(i as int), h),
        decreases ws.len() - i,
    {
        if ws[i].hwnd == h {
            return Some(i);
        }
        assert(ws@.skip(i as int).drop_first() =~= ws@.skip(i + 1));
        i = i + 1;
    }
    None
}

fn any_tab_represents(matching: &Vec<(TabEntry, i32)>, w: &WindowEntry) -> (r: bool)
    ensures
        r == hidden_by_tab(matching@, *w),
{
    let mut k: usize = 0;
    while k < matching.len()
        invariant
            k <= matching@.len(),
            forall|j: int| 0 <= j < k ==> !tab_represents_window_spec(matching@[j].0, *w),
        decreases matching.len() - k,
    {
        if tab_represents_window(&matching[k].0, w) {
            return true;
        }
        k = k + 1;
    }
    false
}

/// Results in the order `p`.
pub(crate) fn reorder_results(rs: &Vec<SearchResult>, p: &Vec<usize>) -> (out: Vec<SearchResult>)
    requires
        is_permutation(p@, rs@.len()),
    ensures
        out@.len() == rs@.len(),
        forall|i: int| 0 <= i < out@.len() ==> #[trigger] out@[i] == rs@[p@[i] as int],
{
    let mut out: Vec<SearchResult> = Vec::new();
    let mut i: usize = 0;
    while i < p.len()
        invariant
            is_permutation(p@, rs@.len()),
            i <= p@.len(),
            out@.len() == i,
            forall|j: int| 0 <= j < i ==> #[trigger] out@[j] == rs@[p@[j] as int],
        decreases p.len() - i,
    {
        out.push(rs[p[i]].clone());
        i = i + 1;
    }
    out
}

pub(crate) proof fn lemma_sorted_views(out: Seq<SearchResult>, rs: Seq<SearchResult>, p: Seq<usize>, keys: Seq<KeyView>)
    requires
        is_permutation(p, rs.len()),
        stably_sorted_by(p, keys),
        out.len() == rs.len(),
        forall|i: int| 0 <= i < out.len() ==> #[trigger] out[i] == rs[p[i] as int],
    ensures
        is_stable_sort(views(out), views(rs), keys),
{
    assert(forall|i: int| 0 <= i < out.len() ==> #[trigger] views(out)[i] == views(rs)[p[i] as int]);
    assert(views(out).len() == views(rs).len());
}

/// The window, tab and title key of each result.
fn window_tab_sort_keys(rs: &Vec<SearchResult>) -> (keys: Vec<SortKey>)
    ensures
        key_views(keys@) == window_tab_keys(views(rs@)),
{
    let mut keys: Vec<SortKey> = Vec::new();
    let mut i: usize = 0;
    while i < rs.len()
        invariant
            i <= rs@.len(),
            key_views(keys@) == window_tab_keys(views(rs@.take(i as int))),
        decreases rs.len() - i,
    {
        let r = &rs[i];
        let lower = str_to_lowercase(r.title.as_str());
        let key = SortKey {
            major: -(r.rank as i64),
            minor: result_kind_order(r.kind),
            first: chars_of(lower.as_str()),
            second: Vec::new(),
        };
        let ghost old_keys = keys@;
        keys.push(key);
        proof {
            assert(rs@.take(i + 1) =~= rs@.take(i as int).push(rs@[i as int]));
            assert(views(rs@.take(i + 1)) =~= views(rs@.take(i as int)).push(rs@[i as int]@));
            assert(window_tab_keys(views(rs@.take(i + 1))) =~= window_tab_keys(
                views(rs@.take(i as int)),
            ).push(window_tab_key(rs@[i as int]@)));
            assert(keys@ =~= old_keys.push(key));
            assert(key_views(keys@) =~= key_views(old_keys).push(key.view()));
        }
        i = i + 1;
    }
    assert(rs@.take(rs@.len() as int) =~= rs@);
    keys
}

/// The tabs whose titles match the query, with their scores.
fn matching_tabs(tabs: &Vec<TabEntry>, q: &[char]) -> (matching: Vec<(TabEntry, i32)>)
    ensures
        matching@ == matching_tabs_spec(tabs@, q@),
{
    let mut matching: Vec<(TabEntry, i32)> = Vec::new();
    if q.len() == 0 {
        return matching;
    }
    let mut i: usize = 0;
    while i < tabs.len()
        invariant
            q@.len() > 0,
            i <= tabs@.len(),
            matching@ == matching_tabs_spec(tabs@.take(i as int), q@),
        decreases tabs.len() - i,
    {
        let title = chars_of(tabs[i].title.as_str());
        let ghost cur = tabs@.take(i + 1);
        assert(cur.drop_last() =~= tabs@.take(i as int));
        match match_score_chars(q, title.as_slice()) {
            Some(score) => {
                matching.push((tabs[i].clone(), score));
            },
            None => {},
        }
        i = i + 1;
    }
    assert(tabs@.take(tabs@.len() as int) =~= tabs@);
    matching
}

/// Builds the window and tab results with default options.
pub fn build_results(
    query: &str,
    windows: &[WindowEntry],
    accessibility_tabs: &[TabEntry],
    extension_tabs: &[TabEntry],
) -> (r: Vec<SearchResult>)
    ensures
        ({
            let u = unsorted_window_tab_results(
                query@,
                windows@,
                accessibility_tabs@,
                extension_tabs@,
                false,
            );
            is_stable_sort(views(r@), u, window_tab_keys(u))
        }),
{
    build_results_with_options(
        query,
        windows,
        accessibility_tabs,
        extension_tabs,
        BuildResultOptions::default(),
    )
}

/// Builds the window and tab results for a query: windows matching by title
/// or app name, tabs matching by title, a window left out when a matching tab
/// stands for it; for an empty query, every window in the given order and no
/// tabs. Results come ordered by rank, kind and lowercase title.
#[verifier::spinoff_prover]
pub fn build_results_with_options(
    query: &str,
    windows: &[WindowEntry],
    accessibility_tabs: &[TabEntry],
    extension_tabs: &[TabEntry],
    options: BuildResultOptions,
) -> (r: Vec<SearchResult>)
    ensures
        ({
            let u = unsorted_window_tab_results(
                query@,
                windows@,
                accessibility_tabs@,
                extension_tabs@,
                options.show_desktop_labels,
            );
            is_stable_sort(views(r@), u, window_tab_keys(u))
        }),
{
    let show = options.show_desktop_labels;
    let q = trim_str(query);
    let tabs = merge_tabs(accessibility_tabs, extension_tabs);
    let matching = matching_tabs(&tabs, q.as_slice());
    let ghost m = matching_tabs_spec(merge_tabs_spec(accessibility_tabs@, extension_tabs@), q@);
    assert(matching@ == m);
    let mut results: Vec<SearchResult> = Vec::new();
    let mut i: usize = 0;
    while i < windows.len()
        invariant
            i <= windows@.len(),
            matching@ == m,
            views(results@) == window_results_spec(windows@.take(i as int), q@, m, show),
        decreases windows.len() - i,
    {
        let w = &windows[i];
        let ghost cur = windows@.take(i + 1);
        proof {
            assert(cur.drop_last() =~= windows@.take(i as int));
            assert(cur.last() == windows@[i as int]);
        }
        let hidden = q.len() > 0 && any_tab_represents(&matching, w);
        if !hidden {
            let rank: Option<i32> = if q.len() == 0 {
                #[verifier::truncate]
                let r = (10000i128 - (i as i128)) as i32;
                Some(r)
            } else {
                let title = chars_of(w.title.as_str());
                match match_score_chars(q.as_slice(), title.as_slice()) {
                    Some(s) => {
                        #[verifier::truncate]
                        let r = ((s as i64) + 2000) as i32;
                        Some(r)
                    },
                    None => {
                        let app = chars_of(w.app_name.as_str());
                        match match_score_chars(q.as_slice(), app.as_slice()) {
                            Some(s) => {
                                #[verifier::truncate]
                                let r = ((s as i64) + 1000) as i32;
                                Some(r)
                            },
                            None => None,
                        }
                    },
                }
            };
            assert(rank == window_rank(q@, *w, i as int));
            match rank {
                Some(rank) => {
                    let sub = window_subtitle(w, show);
                    let r = SearchResult {
                        kind: SearchResultKind::Window,
                        title: w.title.clone(),
                        subtitle: string_from_chars(sub.as_slice()),
                        screen_number: w.screen_number,
                        rank,
                        target: ActivationTarget::Window { hwnd: w.hwnd },
                    };
                    results.push(r);
                },
                None => {},
            }
        }
        assert(views(results@) =~= window_results_spec(cur, q@, m, show));
        i = i + 1;
    }
    assert(windows@.take(windows@.len() as int) =~= windows@);
    let ghost wr = views(results@);
    let mut k: usize = 0;
    while k < matching.len()
        invariant
            k <= matching@.len(),
            matching@ == m,
            views(results@) == wr + tab_results_spec(m.take(k as int), windows@, show),
        decreases matching.len() - k,
    {
        let t = &matching[k].0;
        let score = matching[k].1;
        let parent = match t.parent_hwnd {
            Some(h) => first_window_index(windows, h),
            None => None,
        };
        let sub0 = match &t.window_title {
            Some(s) => chars_of(s.as_str()),
            None => {
                let mut v = chars_of(display_browser_name(t.browser.as_str()));
                append_str(&mut v, " tab");
                v
            },
        };
        let loc = match parent {
            Some(pi) => windows[pi].desktop_location,
            None => DesktopLocation::Unknown,
        };
        let screen = match parent {
            Some(pi) => windows[pi].screen_number,
            None => None,
        };
        let sub = with_desktop_label(sub0, loc, show);
        #[verifier::truncate]
        let rank = ((score as i64) + 1500) as i32;
        let r = SearchResult {
            kind: SearchResultKind::Tab,
            title: t.title.clone(),
            subtitle: string_from_chars(sub.as_slice()),
            screen_number: screen,
            rank,
            target: ActivationTarget::Tab {
                parent_hwnd: t.parent_hwnd,
                browser: t.browser.clone(),
                title: t.title.clone(),
                extension_window_id: t.extension_window_id,
                extension_tab_id: t.extension_tab_id,
            },
        };
        let ghost old_results = results@;
        results.push(r);
        proof {
            assert(m.take(k + 1) =~= m.take(k as int).push(m[k as int]));
            assert(results@ =~= old_results.push(r));
            assert(views(results@) =~= views(old_results).push(r@));
            assert(tab_results_spec(m.take(k + 1), windows@, show) =~= tab_results_spec(
                m.take(k as int),
                windows@,
                show,
            ).push(tab_view(m[k as int].0, m[k as int].1, windows@, show)));
            assert(r@ == tab_view(m[k as int].0, m[k as int].1, windows@, show));
            assert(views(results@) =~= wr + tab_results_spec(m.take(k + 1), windows@, show));
        }
        k = k + 1;
    }
    assert(m.take(m.len() as int) =~= m);
    let keys = window_tab_sort_keys(&results);
    proof {
        assert(key_views(keys@).len() == keys@.len());
        assert(window_tab_keys(views(results@)).len() == results@.len());
        assert(views(results@) == unsorted_window_tab_results(
            query@,
            windows@,
            accessibility_tabs@,
            extension_tabs@,
            show,
        ));
    }
    let p = stable_order(&keys);
    let out = reorder_results(&results, &p);
    proof {
        lemma_sorted_views(out@, results@, p@, key_views(keys@));
    }
    out
}


// ---------------------------------------------------------------------------
// Tabs found through UI Automation
// ---------------------------------------------------------------------------

/// Whether a tab title read from a browser window is listed: not blank, not
/// "New Tab" in any ASCII case.
pub open spec fn listable_tab_title(t: Seq<char>) -> bool {
    trim_seq(t).len() > 0 && ascii_lower_seq(t) != "new tab"@
}

/// Whether title `i` repeats (in lowercase) a listable title before it.
pub open spec fn repeats_listed_title(titles: Seq<String>, i: int) -> bool {
    exists|j: int|
        0 <= j < i && listable_tab_title(titles[j]@) && str_lowercase(titles[j]@) == str_lowercase(
            titles[i]@,
        )
}

/// The titles that become tabs: listable ones whose lowercase form has not
/// been listed before.
pub open spec fn accessibility_tab_titles(titles: Seq<String>) -> Seq<String>
    decreases titles.len(),
{
    if titles.len() == 0 {
        Seq::empty()
    } else {
        let rest = accessibility_tab_titles(titles.drop_last());
        let i = titles.len() - 1;
        if listable_tab_title(titles[i]@) && !repeats_listed_title(titles, i) {
            rest.push(titles[i])
        } else {
            rest
        }
    }
}

/// `t` is the tab of Chrome window `window` titled `title`, found through UI
/// Automation at `now`.
pub open spec fn is_accessibility_tab(t: TabEntry, window: WindowEntry, title: String, now: u64) -> bool {
    &&& t.browser@ == "chrome"@
    &&& t.parent_hwnd == Some(window.hwnd)
    &&& t.window_title == Some(window.title)
    &&& t.title == title
    &&& !t.active
    &&& t.extension_window_id is None
    &&& t.extension_tab_id is None
    &&& t.source == TabSource::Accessibility
    &&& t.last_seen == now
}

/// The tabs of a Chrome window from the tab titles UI Automation read, in
/// order: blank titles and "New Tab" are skipped, and a title whose
/// lowercase form was listed before is listed once.
pub fn accessibility_tabs_for_window(window: &WindowEntry, titles: &[String], now: u64) -> (r: Vec<
    TabEntry,
>)
    ensures
        r@.len() == accessibility_tab_titles(titles@).len(),
        forall|k: int|
            0 <= k < r@.len() ==> is_accessibility_tab(
                #[trigger] r@[k],
                *window,
                accessibility_tab_titles(titles@)[k],
                now,
            ),
{
    let mut tabs: Vec<TabEntry> = Vec::new();
    let mut seen: Vec<Vec<char>> = Vec::new();
    let mut i: usize = 0;
    while i < titles.len()
        invariant
            i <= titles@.len(),
            tabs@.len() == accessibility_tab_titles(titles@.take(i as int)).len(),
            forall|k: int|
                0 <= k < tabs@.len() ==> is_accessibility_tab(
                    #[trigger] tabs@[k],
                    *window,
                    accessibility_tab_titles(titles@.take(i as int))[k],
                    now,
                ),
            forall|key: Seq<char>|
                #![trigger crate::launcher::key_in(seen@, key)]
                crate::launcher::key_in(seen@, key) <==> exists|j: int|
                    0 <= j < i && listable_tab_title(titles@[j]@) && str_lowercase(titles@[j]@)
                        == key,
        decreases titles.len() - i,
    {
        let ghost cur = titles@.take(i + 1);
        proof {
            assert(cur.drop_last() =~= titles@.take(i as int));
            assert(cur[i as int] == titles@[i as int]);
            assert forall|j: int| 0 <= j < i implies cur[j] == titles@[j] by {}
        }
        let title = &titles[i];
        let trimmed = trim_str(title.as_str());
        let lower_ascii = ascii_lower_chars(chars_of(title.as_str()).as_slice());
        let listable = trimmed.len() > 0 && !eq_str(lower_ascii.as_slice(), "new tab");
        let lower = str_to_lowercase(title.as_str());
        let key = chars_of(lower.as_str());
        let mut found = false;
        let mut t: usize = 0;
        while t < seen.len()
            invariant
                t <= seen@.len(),
                !found ==> forall|u: int| 0 <= u < t ==> seen@[u]@ != key@,
                found ==> crate::launcher::key_in(seen@, key@),
            decreases seen.len() - t,
        {
            if chars_eq(seen[t].as_slice(), key.as_slice()) {
                found = true;
            }
            t = t + 1;
        }
        proof {
            if !found {
                assert(!crate::launcher::key_in(seen@, key@));
            }
            if repeats_listed_title(cur, i as int) {
                let j = choose|j: int|
                    0 <= j < i && listable_tab_title(cur[j]@) && str_lowercase(cur[j]@)
                        == str_lowercase(cur[i as int]@);
                assert(crate::launcher::key_in(seen@, key@));
            }
            if found {
                assert(exists|j: int|
                    0 <= j < i && listable_tab_title(titles@[j]@) && str_lowercase(titles@[j]@)
                        == key@);
                let j = choose|j: int|
                    0 <= j < i && listable_tab_title(titles@[j]@) && str_lowercase(titles@[j]@)
                        == key@;
                assert(cur[j] == titles@[j]);
                assert(repeats_listed_title(cur, i as int));
            }
        }
        if listable && !found {
            let tab = TabEntry {
                browser: string_from_chars(chars_of("chrome").as_slice()),
                parent_hwnd: Some(window.hwnd),
                window_title: Some(window.title.clone()),
                title: title.clone(),
                active: false,
                extension_window_id: None,
                extension_tab_id: None,
                source: TabSource::Accessibility,
                last_seen: now,
            };
            tabs.push(tab);
            let ghost old_seen = seen@;
            seen.push(key);
            proof {
                assert forall|k: Seq<char>|
                    crate::launcher::key_in(seen@, k) <==> exists|j: int|
                        0 <= j < i + 1 && listable_tab_title(titles@[j]@) && str_lowercase(
                            titles@[j]@,
                        ) == k by {
                    if crate::launcher::key_in(seen@, k) {
                        let u = choose|u: int| 0 <= u < seen@.len() && #[trigger] seen@[u]@ == k;
                        if u < old_seen.len() {
                            assert(crate::launcher::key_in(old_seen, k));
                        }
                    }
                    if exists|j: int|
                        0 <= j < i + 1 && listable_tab_title(titles@[j]@) && str_lowercase(
                            titles@[j]@,
                        ) == k {
                        let j = choose|j: int|
                            0 <= j < i + 1 && listable_tab_title(titles@[j]@) && str_lowercase(
                                titles@[j]@,
                            ) == k;
                        if j < i {
                            assert(crate::launcher::key_in(old_seen, k));
                            let u = choose|u: int| 0 <= u < old_seen.len() && #[trigger] old_seen[u]@ == k;
                            assert(seen@[u] == old_seen[u]);
                        } else {
                            assert(seen@[old_seen.len() as int]@ == k);
                        }
                    }
                }
            }
        } else {
            proof {
                assert forall|k: Seq<char>|
                    crate::launcher::key_in(seen@, k) <==> exists|j: int|
                        0 <= j < i + 1 && listable_tab_title(titles@[j]@) && str_lowercase(
                            titles@[j]@,
                        ) == k by {
                    if exists|j: int|
                        0 <= j < i + 1 && listable_tab_title(titles@[j]@) && str_lowercase(
                            titles@[j]@,
                        ) == k {
                        let j = choose|j: int|
                            0 <= j < i + 1 && listable_tab_title(titles@[j]@) && str_lowercase(
                                titles@[j]@,
                            ) == k;
                        if j == i {
                            assert(crate::launcher::key_in(seen@, key@));
                        }
                    }
                }
            }
        }
        i = i + 1;
    }
    assert(titles@.take(titles@.len() as int) =~= titles@);
    tabs
}

} // verus!
