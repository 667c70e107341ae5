//! Properties that hold across calls and for all inputs: the order of
//! versions, launch paths that name app ids, favorite folders listed once
//! and deduplicated once for all, match scores, which windows a matching tab
//! hides, how result lists relate to each other, the attention border,
//! registry strings read back, and the spacing of normalised text.
use vstd::prelude::*;

use crate::apps::{app_user_model_id_spec, APP_USER_MODEL_ID_PREFIX};
use crate::entries::{BuildResultOptions, FavoriteFolderEntry};
use crate::geometry::{attention_border_spec, max_int, Rect};
use crate::launcher::{
    app_results_ok, first_folders, folder_is_listable, folder_key, folder_key_seen_before,
    folder_keys, folder_results_ok, rank_title_keys,
};
use crate::entries::{AppEntry, SearchResultKind, TabEntry, WindowEntry};
use crate::search::{
    first_occurrence, hidden_by_tab, matching_tabs_spec, merge_tabs_spec, score_normalized,
    tab_results_spec, unsorted_window_tab_results, window_results_spec, window_tab_keys,
    window_view, ResultView,
};
use crate::startup::{
    after_last_separator, command_exe_name_spec, first_index_of, le_bytes, le_units,
    registry_string_spec, strip_trailing_zeros, STARTUP_ARG,
};
use crate::text::{
    lemma_normalized_spacing, lemma_utf16_decode_encode, lemma_utf16_encode_last_nonzero,
    normalize_for_match_spec, utf16_encode,
};
use crate::sort::{
    is_permutation, is_stable_sort, key_lt, lemma_sorted_is_own_stable_sort, lemma_stable_sort_unique,
    stably_sorted_by, KeyView, Order,
};
use crate::text::{
    contains_seq, is_whitespace_char, occurs_at, trim_end_seq, trim_seq, trim_start_seq, utf8_len,
};
use crate::updates::{compare_parts_from, compare_versions_spec, part_at, version_parts_spec};

verus! {

// ---------------------------------------------------------------------------
// Versions
// ---------------------------------------------------------------------------

proof fn lemma_compare_swap(a: Seq<u64>, b: Seq<u64>, i: int)
    requires
        i >= 0,
    ensures
        compare_parts_from(a, b, i) == Order::Greater <==> compare_parts_from(b, a, i) == Order::Less,
        compare_parts_from(a, b, i) == Order::Equal <==> compare_parts_from(b, a, i) == Order::Equal,
    decreases a.len() + b.len() - i,
{
    if !(i >= a.len() && i >= b.len()) && part_at(a, i) == part_at(b, i) {
        lemma_compare_swap(a, b, i + 1);
    }
}

proof fn lemma_compare_self(a: Seq<u64>, i: int)
    requires
        i >= 0,
    ensures
        compare_parts_from(a, a, i) == Order::Equal,
    decreases a.len() + a.len() - i,
{
    if !(i >= a.len()) {
        lemma_compare_self(a, i + 1);
    }
}

proof fn lemma_compare_greater_transitive(a: Seq<u64>, b: Seq<u64>, c: Seq<u64>, i: int)
    requires
        i >= 0,
        compare_parts_from(a, b, i) == Order::Greater,
        compare_parts_from(b, c, i) == Order::Greater,
    ensures
        compare_parts_from(a, c, i) == Order::Greater,
    decreases a.len() + b.len() + c.len() - i,
{
    if part_at(a, i) == part_at(b, i) && part_at(b, i) == part_at(c, i) {
        lemma_compare_greater_transitive(a, b, c, i + 1);
        if i >= a.len() {
            lemma_compare_left_ended(a, b, i);
        }
    }
}

/// Once the left version has no parts left, it is never greater.
proof fn lemma_compare_left_ended(a: Seq<u64>, b: Seq<u64>, i: int)
    requires
        i >= 0,
        i >= a.len(),
    ensures
        compare_parts_from(a, b, i) != Order::Greater,
    decreases a.len() + b.len() - i,
{
    if !(i >= a.len() && i >= b.len()) && part_at(a, i) == part_at(b, i) {
        lemma_compare_left_ended(a, b, i + 1);
    }
}

/// No version is newer than itself; of two versions at most one is newer
/// than the other; and a version newer than one newer than a third is newer
/// than that third.
pub proof fn law_release_newer_is_a_strict_order(a: Seq<char>, b: Seq<char>, c: Seq<char>)
    ensures
        compare_versions_spec(a, a) != Order::Greater,
        compare_versions_spec(a, b) == Order::Greater ==> compare_versions_spec(b, a)
            != Order::Greater,
        compare_versions_spec(a, b) == Order::Greater && compare_versions_spec(b, c)
            == Order::Greater ==> compare_versions_spec(a, c) == Order::Greater,
{
    let pa = version_parts_spec(a);
    let pb = version_parts_spec(b);
    let pc = version_parts_spec(c);
    lemma_compare_self(pa, 0);
    lemma_compare_swap(pa, pb, 0);
    if compare_parts_from(pa, pb, 0) == Order::Greater && compare_parts_from(pb, pc, 0)
        == Order::Greater {
        lemma_compare_greater_transitive(pa, pb, pc, 0);
    }
}

// ---------------------------------------------------------------------------
// App user model ids
// ---------------------------------------------------------------------------

proof fn lemma_trim_start_of_nonblank_start(s: Seq<char>)
    requires
        s.len() > 0,
        !is_whitespace_char(s[0]),
    ensures
        trim_start_seq(s) == s,
{
}

proof fn lemma_trim_end_concat(a: Seq<char>, b: Seq<char>)
    requires
        trim_end_seq(b) == b,
        b.len() > 0,
    ensures
        trim_end_seq(a + b) == a + b,
{
    assert((a + b).last() == b.last());
    if is_whitespace_char(b.last()) {
        assert(trim_end_seq(b) == trim_end_seq(b.drop_last()));
        lemma_trim_end_shorter(b.drop_last());
    }
}

proof fn lemma_trim_end_shorter(s: Seq<char>)
    ensures
        trim_end_seq(s).len() <= s.len(),
    decreases s.len(),
{
    if s.len() > 0 && is_whitespace_char(s.last()) {
        lemma_trim_end_shorter(s.drop_last());
    }
}

/// The app id that a launch path made from an id names is that id, where the
/// id is not blank and does not end in whitespace (the launch path is read
/// trimmed).
pub proof fn law_app_user_model_launch_path_round_trips(app_id: Seq<char>)
    requires
        trim_seq(app_id).len() > 0,
        trim_end_seq(app_id) == app_id,
    ensures
        app_user_model_id_spec(APP_USER_MODEL_ID_PREFIX@ + app_id) == Some(app_id),
{
    reveal_strlit("appusermodelid:");
    let p = APP_USER_MODEL_ID_PREFIX@;
    let s = p + app_id;
    assert(app_id.len() > 0) by {
        if app_id.len() == 0 {
            assert(trim_start_seq(app_id) == app_id);
        }
    }
    assert(s[0] == 'a');
    lemma_trim_start_of_nonblank_start(s);
    lemma_trim_end_concat(p, app_id);
    assert(trim_seq(s) == s);
    assert(p.is_prefix_of(s)) by {
        assert(s.take(p.len() as int) =~= p);
    }
    assert(s.skip(p.len() as int) =~= app_id);
}

// ---------------------------------------------------------------------------
// Favorite folders
// ---------------------------------------------------------------------------

proof fn lemma_first_folders_come_from_input(fs: Seq<FavoriteFolderEntry>)
    ensures
        forall|a: int|
            0 <= a < first_folders(fs).len() ==> exists|j: int|
                0 <= j < fs.len() && folder_is_listable(fs[j]) && #[trigger] first_folders(fs)[a]
                    == fs[j],
    decreases fs.len(),
{
    if fs.len() > 0 {
        let rest = fs.drop_last();
        lemma_first_folders_come_from_input(rest);
        assert forall|a: int| 0 <= a < first_folders(fs).len() implies exists|j: int|
            0 <= j < fs.len() && folder_is_listable(fs[j]) && #[trigger] first_folders(fs)[a]
                == fs[j] by {
            if a < first_folders(rest).len() {
                let j = choose|j: int|
                    0 <= j < rest.len() && folder_is_listable(rest[j]) && first_folders(rest)[a]
                        == rest[j];
                assert(fs[j] == rest[j]);
            } else {
                assert(first_folders(fs)[a] == fs[fs.len() - 1]);
            }
        }
    }
}

proof fn lemma_first_folders_keys_distinct(fs: Seq<FavoriteFolderEntry>)
    ensures
        forall|a: int, b: int|
            0 <= a < b < first_folders(fs).len() ==> trim_seq(
                #[trigger] first_folders(fs)[a].normalized_path@,
            ) != trim_seq(#[trigger] first_folders(fs)[b].normalized_path@),
    decreases fs.len(),
{
    if fs.len() > 0 {
        let rest = fs.drop_last();
        lemma_first_folders_keys_distinct(rest);
        lemma_first_folders_come_from_input(rest);
        let ff = first_folders(fs);
        assert forall|a: int, b: int| 0 <= a < b < ff.len() implies trim_seq(
            #[trigger] ff[a].normalized_path@,
        ) != trim_seq(#[trigger] ff[b].normalized_path@) by {
            if b >= first_folders(rest).len() {
                let j = choose|j: int|
                    0 <= j < rest.len() && folder_is_listable(rest[j]) && first_folders(rest)[a]
                        == rest[j];
                assert(fs[j] == rest[j]);
                if trim_seq(ff[a].normalized_path@) == trim_seq(ff[b].normalized_path@) {
                    assert(folder_key_seen_before(fs, fs.len() - 1));
                }
            }
        }
    }
}

/// The favorite folders listed after deduplication never share a (trimmed)
/// normalised path.
pub proof fn law_deduped_folders_have_distinct_paths(
    folders: Seq<FavoriteFolderEntry>,
    listed: Seq<FavoriteFolderEntry>,
)
    requires
        is_stable_sort(listed, first_folders(folders), folder_keys(first_folders(folders))),
    ensures
        forall|a: int, b: int|
            0 <= a < b < listed.len() ==> trim_seq(#[trigger] listed[a].normalized_path@) != trim_seq(
                #[trigger] listed[b].normalized_path@,
            ),
{
    let ff = first_folders(folders);
    lemma_first_folders_keys_distinct(folders);
    let p = choose|p: Seq<usize>|
        {
            &&& crate::sort::is_permutation(p, ff.len())
            &&& crate::sort::stably_sorted_by(p, folder_keys(ff))
            &&& listed.len() == ff.len()
            &&& forall|i: int| 0 <= i < listed.len() ==> #[trigger] listed[i] == ff[p[i] as int]
        };
    assert forall|a: int, b: int| 0 <= a < b < listed.len() implies trim_seq(
        #[trigger] listed[a].normalized_path@,
    ) != trim_seq(#[trigger] listed[b].normalized_path@) by {
        assert(listed[a] == ff[p[a] as int]);
        assert(listed[b] == ff[p[b] as int]);
        assert(p[a] != p[b]);
    }
}

/// A list of listable folders with distinct trimmed normalised paths keeps
/// every folder.
proof fn lemma_first_folders_of_distinct(fs: Seq<FavoriteFolderEntry>)
    requires
        forall|a: int| 0 <= a < fs.len() ==> folder_is_listable(#[trigger] fs[a]),
        forall|a: int, b: int|
            0 <= a < b < fs.len() ==> trim_seq(#[trigger] fs[a].normalized_path@) != trim_seq(
                #[trigger] fs[b].normalized_path@,
            ),
    ensures
        first_folders(fs) == fs,
    decreases fs.len(),
{
    if fs.len() > 0 {
        let rest = fs.drop_last();
        assert forall|a: int| 0 <= a < rest.len() implies folder_is_listable(#[trigger] rest[a]) by {
            assert(rest[a] == fs[a]);
        }
        assert forall|a: int, b: int| 0 <= a < b < rest.len() implies trim_seq(
            #[trigger] rest[a].normalized_path@,
        ) != trim_seq(#[trigger] rest[b].normalized_path@) by {
            assert(rest[a] == fs[a] && rest[b] == fs[b]);
        }
        lemma_first_folders_of_distinct(rest);
        assert(folder_is_listable(fs[fs.len() - 1]));
        assert(!folder_key_seen_before(fs, fs.len() - 1)) by {
            if folder_key_seen_before(fs, fs.len() - 1) {
                let j = choose|j: int|
                    0 <= j < fs.len() - 1 && folder_is_listable(fs[j]) && trim_seq(
                        fs[j].normalized_path@,
                    ) == trim_seq(fs[fs.len() - 1].normalized_path@);
                assert(trim_seq(fs[j].normalized_path@) != trim_seq(
                    fs[fs.len() - 1].normalized_path@,
                ));
            }
        }
        assert(rest.push(fs.last()) =~= fs);
    }
}

/// Deduplicating the listed favorite folders again changes nothing.
pub proof fn law_dedupe_favorite_folders_is_idempotent(
    folders: Seq<FavoriteFolderEntry>,
    listed: Seq<FavoriteFolderEntry>,
    again: Seq<FavoriteFolderEntry>,
)
    requires
        listed.len() <= usize::MAX,
        is_stable_sort(listed, first_folders(folders), folder_keys(first_folders(folders))),
        is_stable_sort(again, first_folders(listed), folder_keys(first_folders(listed))),
    ensures
        again == listed,
{
    let ff = first_folders(folders);
    law_deduped_folders_have_distinct_paths(folders, listed);
    lemma_first_folders_come_from_input(folders);
    let p = choose|p: Seq<usize>|
        {
            &&& is_permutation(p, ff.len())
            &&& stably_sorted_by(p, folder_keys(ff))
            &&& listed.len() == ff.len()
            &&& forall|i: int| 0 <= i < listed.len() ==> #[trigger] listed[i] == ff[p[i] as int]
        };
    assert forall|a: int| 0 <= a < listed.len() implies folder_is_listable(#[trigger] listed[a]) by {
        assert(listed[a] == ff[p[a] as int]);
        let j = choose|j: int|
            0 <= j < folders.len() && folder_is_listable(folders[j]) && ff[p[a] as int]
                == folders[j];
    }
    lemma_first_folders_of_distinct(listed);
    let keys = folder_keys(listed);
    assert forall|i: int, j: int| 0 <= i < j < listed.len() implies !key_lt(
        #[trigger] keys[j],
        #[trigger] keys[i],
    ) by {
        assert(listed[i] == ff[p[i] as int] && listed[j] == ff[p[j] as int]);
        assert(!key_lt(folder_keys(ff)[p[j] as int], folder_keys(ff)[p[i] as int]));
    }
    lemma_sorted_is_own_stable_sort(listed, keys);
    lemma_stable_sort_unique(again, listed, listed, keys);
}

// ---------------------------------------------------------------------------
// Result lists
// ---------------------------------------------------------------------------

/// `build_results` gives what `build_results_with_options` gives with the
/// default options, which show no desktop labels.
pub proof fn law_build_results_uses_default_options(
    query: Seq<char>,
    windows: Seq<WindowEntry>,
    accessibility_tabs: Seq<TabEntry>,
    extension_tabs: Seq<TabEntry>,
    options: BuildResultOptions,
    plain: Seq<ResultView>,
    with_options: Seq<ResultView>,
)
    requires
        !options.show_desktop_labels,
        ({
            let u = unsorted_window_tab_results(
                query,
                windows,
                accessibility_tabs,
                extension_tabs,
                false,
            );
            is_stable_sort(plain, u, window_tab_keys(u))
        }),
        ({
            let u = unsorted_window_tab_results(
                query,
                windows,
                accessibility_tabs,
                extension_tabs,
                options.show_desktop_labels,
            );
            is_stable_sort(with_options, u, window_tab_keys(u))
        }),
    ensures
        plain == with_options,
{
    let u = unsorted_window_tab_results(query, windows, accessibility_tabs, extension_tabs, false);
    lemma_stable_sort_unique(plain, with_options, u, window_tab_keys(u));
}

proof fn lemma_app_results_unique(
    a1: Seq<ResultView>,
    a2: Seq<ResultView>,
    query: Seq<char>,
    apps: Seq<AppEntry>,
)
    requires
        app_results_ok(a1, query, apps),
        app_results_ok(a2, query, apps),
    ensures
        a1 == a2,
{
    let c = crate::launcher::collapse_duplicate_apps(apps);
    let q = trim_seq(query);
    let d1 = choose|d: Seq<AppEntry>|
        #![trigger crate::launcher::app_results_spec(d, q)]
        is_stable_sort(d, c, crate::launcher::app_keys(c)) && is_stable_sort(
            a1,
            crate::launcher::app_results_spec(d, q),
            crate::launcher::title_subtitle_keys(crate::launcher::app_results_spec(d, q)),
        );
    let d2 = choose|d: Seq<AppEntry>|
        #![trigger crate::launcher::app_results_spec(d, q)]
        is_stable_sort(d, c, crate::launcher::app_keys(c)) && is_stable_sort(
            a2,
            crate::launcher::app_results_spec(d, q),
            crate::launcher::title_subtitle_keys(crate::launcher::app_results_spec(d, q)),
        );
    lemma_stable_sort_unique(d1, d2, c, crate::launcher::app_keys(c));
    let u = crate::launcher::app_results_spec(d1, q);
    lemma_stable_sort_unique(a1, a2, u, crate::launcher::title_subtitle_keys(u));
}

proof fn lemma_folder_results_unique(
    f1: Seq<ResultView>,
    f2: Seq<ResultView>,
    query: Seq<char>,
    folders: Seq<FavoriteFolderEntry>,
)
    requires
        folder_results_ok(f1, query, folders),
        folder_results_ok(f2, query, folders),
    ensures
        f1 == f2,
{
    let c = first_folders(folders);
    let q = trim_seq(query);
    let d1 = choose|d: Seq<FavoriteFolderEntry>|
        #![trigger crate::launcher::folder_results_spec(d, q)]
        is_stable_sort(d, c, folder_keys(c)) && is_stable_sort(
            f1,
            crate::launcher::folder_results_spec(d, q),
            crate::launcher::title_subtitle_keys(crate::launcher::folder_results_spec(d, q)),
        );
    let d2 = choose|d: Seq<FavoriteFolderEntry>|
        #![trigger crate::launcher::folder_results_spec(d, q)]
        is_stable_sort(d, c, folder_keys(c)) && is_stable_sort(
            f2,
            crate::launcher::folder_results_spec(d, q),
            crate::launcher::title_subtitle_keys(crate::launcher::folder_results_spec(d, q)),
        );
    lemma_stable_sort_unique(d1, d2, c, folder_keys(c));
    let u = crate::launcher::folder_results_spec(d1, q);
    lemma_stable_sort_unique(f1, f2, u, crate::launcher::title_subtitle_keys(u));
}

/// Launcher mode's results are `build_app_results`' results followed by
/// `build_folder_results`' results, stably ordered by rank, then lowercase
/// title: nothing is added or dropped.
pub proof fn law_launcher_results_merge_app_and_folder_results(
    query: Seq<char>,
    apps: Seq<AppEntry>,
    folders: Seq<FavoriteFolderEntry>,
    app_results: Seq<ResultView>,
    folder_results: Seq<ResultView>,
    launcher: Seq<ResultView>,
)
    requires
        app_results_ok(app_results, query, apps),
        folder_results_ok(folder_results, query, folders),
        exists|a: Seq<ResultView>, f: Seq<ResultView>|
            #![trigger a + f]
            app_results_ok(a, query, apps) && folder_results_ok(f, query, folders) && is_stable_sort(
                launcher,
                a + f,
                rank_title_keys(a + f),
            ),
    ensures
        is_stable_sort(
            launcher,
            app_results + folder_results,
            rank_title_keys(app_results + folder_results),
        ),
{
    let (a, f) = choose|a: Seq<ResultView>, f: Seq<ResultView>|
        #![trigger a + f]
        app_results_ok(a, query, apps) && folder_results_ok(f, query, folders) && is_stable_sort(
            launcher,
            a + f,
            rank_title_keys(a + f),
        );
    lemma_app_results_unique(a, app_results, query, apps);
    lemma_folder_results_unique(f, folder_results, query, folders);
}

// ---------------------------------------------------------------------------
// Attention border
// ---------------------------------------------------------------------------

/// Around a window on a monitor at least as wide and tall as the border is
/// thick, the four strips of the attention border are each `max(t, 1)`
/// pixels thick and lie within the monitor.
pub proof fn law_attention_border_strips_fit_the_bounds(rect: Rect, bounds: Rect, thickness: int)
    requires
        bounds.right - bounds.left >= max_int(thickness, 1),
        bounds.bottom - bounds.top >= max_int(thickness, 1),
    ensures
        ({
            let s = attention_border_spec(rect, bounds, thickness);
            let t = max_int(thickness, 1);
            &&& s.len() == 4
            &&& s[0].3 - s[0].1 == t && s[1].3 - s[1].1 == t
            &&& s[2].2 - s[2].0 == t && s[3].2 - s[3].0 == t
            &&& forall|k: int|
                0 <= k < 4 ==> bounds.left <= (#[trigger] s[k]).0 && s[k].2 <= bounds.right
                    && bounds.top <= s[k].1 && s[k].3 <= bounds.bottom
        }),
{
    let s = attention_border_spec(rect, bounds, thickness);
    assert(s.len() == 4);
}

// ---------------------------------------------------------------------------
// Match scores
// ---------------------------------------------------------------------------

proof fn lemma_utf8_len_take(s: Seq<char>, k: int)
    requires
        0 <= k <= s.len(),
    ensures
        utf8_len(s.take(k)) <= utf8_len(s),
    decreases s.len() - k,
{
    if k < s.len() {
        lemma_utf8_len_take(s, k + 1);
        assert(s.take(k + 1).drop_last() =~= s.take(k));
    } else {
        assert(s.take(k) =~= s);
    }
}

proof fn lemma_utf8_len_positive(s: Seq<char>)
    requires
        s.len() > 0,
    ensures
        utf8_len(s) >= 1,
{
}

/// For a non-empty normalised query and candidates of at most 2000 bytes: the
/// query itself scores highest, a candidate that begins with it next, and a
/// candidate that contains it only later below both.
pub proof fn law_exact_beats_prefix_beats_contains(
    q: Seq<char>,
    prefixed: Seq<char>,
    containing: Seq<char>,
)
    requires
        q.len() > 0,
        q.is_prefix_of(prefixed),
        prefixed != q,
        utf8_len(prefixed) <= 2000,
        contains_seq(containing, q),
        !q.is_prefix_of(containing),
        utf8_len(containing) <= 2000,
    ensures
        score_normalized(q, q) == Some(10000i32),
        score_normalized(q, prefixed) matches Some(p) && p < 10000,
        score_normalized(q, containing) matches Some(c) && score_normalized(q, prefixed) matches Some(
            p,
        ) && c < p,
{
    assert(prefixed.len() > 0);
    lemma_utf8_len_positive(prefixed);
    let i = choose|i: int| occurs_at(containing, q, i);
    assert(containing.len() > 0);
    lemma_utf8_len_positive(containing);
    let k = first_occurrence(containing, q);
    assert(occurs_at(containing, q, k) && forall|j: int| 0 <= j < k ==> !occurs_at(containing, q, j))
        by {
        lemma_first_occurrence_exists(containing, q, i);
    }
    lemma_utf8_len_take(containing, k);
}

proof fn lemma_first_occurrence_exists(s: Seq<char>, p: Seq<char>, i: int)
    requires
        occurs_at(s, p, i),
    ensures
        occurs_at(s, p, first_occurrence(s, p)),
        forall|j: int| 0 <= j < first_occurrence(s, p) ==> !occurs_at(s, p, j),
    decreases i,
{
    if exists|j: int| 0 <= j < i && occurs_at(s, p, j) {
        let j = choose|j: int| 0 <= j < i && occurs_at(s, p, j);
        lemma_first_occurrence_exists(s, p, j);
    } else {
        assert(occurs_at(s, p, i) && forall|j: int| 0 <= j < i ==> !occurs_at(s, p, j));
    }
}

// ---------------------------------------------------------------------------
// Windows, tabs and their order
// ---------------------------------------------------------------------------

proof fn lemma_window_results_come_from_windows(
    ws: Seq<WindowEntry>,
    q: Seq<char>,
    m: Seq<(TabEntry, i32)>,
    show: bool,
)
    ensures
        forall|k: int|
            0 <= k < window_results_spec(ws, q, m, show).len() ==> exists|i: int|
                0 <= i < ws.len() && #[trigger] window_results_spec(ws, q, m, show)[k]
                    == window_view(ws[i], window_results_spec(ws, q, m, show)[k].rank, show) && (
                q.len() > 0 ==> !hidden_by_tab(m, ws[i])),
    decreases ws.len(),
{
    if ws.len() > 0 {
        let rest = ws.drop_last();
        lemma_window_results_come_from_windows(rest, q, m, show);
        let wr = window_results_spec(ws, q, m, show);
        let rr = window_results_spec(rest, q, m, show);
        assert forall|k: int| 0 <= k < wr.len() implies exists|i: int|
            0 <= i < ws.len() && #[trigger] wr[k] == window_view(ws[i], wr[k].rank, show) && (q.len()
                > 0 ==> !hidden_by_tab(m, ws[i])) by {
            if k < rr.len() {
                let i = choose|i: int|
                    0 <= i < rest.len() && rr[k] == window_view(rest[i], rr[k].rank, show) && (q.len()
                        > 0 ==> !hidden_by_tab(m, rest[i]));
                assert(ws[i] == rest[i]);
            } else {
                assert(wr[k] == window_view(ws[ws.len() - 1], wr[k].rank, show));
            }
        }
    }
}

/// With a non-empty query, every window result stands for a window that no
/// matching tab represents: a matching tab hides its browser window.
pub proof fn law_matching_tab_hides_its_window(
    query: Seq<char>,
    ws: Seq<WindowEntry>,
    acc: Seq<TabEntry>,
    ext: Seq<TabEntry>,
    show: bool,
    listed: Seq<ResultView>,
)
    requires
        trim_seq(query).len() > 0,
        is_stable_sort(
            listed,
            unsorted_window_tab_results(query, ws, acc, ext, show),
            window_tab_keys(unsorted_window_tab_results(query, ws, acc, ext, show)),
        ),
    ensures
        forall|j: int|
            0 <= j < listed.len() && #[trigger] listed[j].kind == SearchResultKind::Window ==> exists|
                i: int,
            |
                0 <= i < ws.len() && listed[j] == window_view(ws[i], listed[j].rank, show)
                    && !hidden_by_tab(
                    matching_tabs_spec(merge_tabs_spec(acc, ext), trim_seq(query)),
                    ws[i],
                ),
{
    let q = trim_seq(query);
    let m = matching_tabs_spec(merge_tabs_spec(acc, ext), q);
    let wr = window_results_spec(ws, q, m, show);
    let tr = tab_results_spec(m, ws, show);
    let u = unsorted_window_tab_results(query, ws, acc, ext, show);
    assert(u == wr + tr);
    lemma_window_results_come_from_windows(ws, q, m, show);
    let p = choose|p: Seq<usize>|
        {
            &&& is_permutation(p, u.len())
            &&& stably_sorted_by(p, window_tab_keys(u))
            &&& listed.len() == u.len()
            &&& forall|i: int| 0 <= i < listed.len() ==> #[trigger] listed[i] == u[p[i] as int]
        };
    assert forall|j: int|
        0 <= j < listed.len() && #[trigger] listed[j].kind == SearchResultKind::Window implies exists|
            i: int,
        |
            0 <= i < ws.len() && listed[j] == window_view(ws[i], listed[j].rank, show)
                && !hidden_by_tab(m, ws[i]) by {
        let x = p[j] as int;
        assert(listed[j] == u[x]);
        if x >= wr.len() {
            assert(u[x] == tr[x - wr.len()]);
            assert(tr[x - wr.len()].kind == SearchResultKind::Tab);
        } else {
            assert(u[x] == wr[x]);
        }
    }
}

proof fn lemma_empty_query_window_results(ws: Seq<WindowEntry>, m: Seq<(TabEntry, i32)>, show: bool)
    ensures
        window_results_spec(ws, Seq::empty(), m, show).len() == ws.len(),
        forall|i: int|
            0 <= i < ws.len() ==> #[trigger] window_results_spec(ws, Seq::empty(), m, show)[i]
                == window_view(ws[i], (10000 - i) as i32, show),
    decreases ws.len(),
{
    if ws.len() > 0 {
        lemma_empty_query_window_results(ws.drop_last(), m, show);
        assert forall|i: int| 0 <= i < ws.len() implies #[trigger] window_results_spec(
            ws,
            Seq::empty(),
            m,
            show,
        )[i] == window_view(ws[i], (10000 - i) as i32, show) by {
            if i < ws.len() - 1 {
                assert(ws.drop_last()[i] == ws[i]);
            }
        }
    }
}

proof fn lemma_increasing_permutation_is_identity(p: Seq<usize>, n: nat)
    requires
        is_permutation(p, n),
        forall|i: int, j: int| 0 <= i < j < p.len() ==> #[trigger] p[i] < #[trigger] p[j],
    ensures
        forall|i: int| 0 <= i < p.len() ==> #[trigger] p[i] == i,
{
    assert forall|i: int| 0 <= i < p.len() implies #[trigger] p[i] == i by {
        lemma_increasing_lower(p, i);
        lemma_increasing_upper(p, n, i);
    }
}

proof fn lemma_increasing_lower(p: Seq<usize>, i: int)
    requires
        0 <= i < p.len(),
        forall|a: int, b: int| 0 <= a < b < p.len() ==> #[trigger] p[a] < #[trigger] p[b],
    ensures
        p[i] >= i,
    decreases i,
{
    if i > 0 {
        lemma_increasing_lower(p, i - 1);
        assert(p[i - 1] < p[i]);
    }
}

proof fn lemma_increasing_upper(p: Seq<usize>, n: nat, i: int)
    requires
        0 <= i < p.len(),
        is_permutation(p, n),
        forall|a: int, b: int| 0 <= a < b < p.len() ==> #[trigger] p[a] < #[trigger] p[b],
    ensures
        p[i] <= i,
    decreases p.len() - i,
{
    if i < p.len() - 1 {
        lemma_increasing_upper(p, n, i + 1);
        assert(p[i] < p[i + 1]);
    } else {
        assert(p[i] < n);
    }
}

/// With an empty query every window is listed, in the given order, and no tab
/// is (for fewer than 2^31 windows, so that ranks do not wrap).
pub proof fn law_empty_query_lists_windows_in_order(
    query: Seq<char>,
    ws: Seq<WindowEntry>,
    acc: Seq<TabEntry>,
    ext: Seq<TabEntry>,
    show: bool,
    listed: Seq<ResultView>,
)
    requires
        trim_seq(query).len() == 0,
        ws.len() < 0x8000_0000,
        is_stable_sort(
            listed,
            unsorted_window_tab_results(query, ws, acc, ext, show),
            window_tab_keys(unsorted_window_tab_results(query, ws, acc, ext, show)),
        ),
    ensures
        listed.len() == ws.len(),
        forall|i: int|
            0 <= i < ws.len() ==> #[trigger] listed[i] == window_view(ws[i], (10000 - i) as i32, show),
{
    let q = trim_seq(query);
    assert(q =~= Seq::<char>::empty());
    let m = matching_tabs_spec(merge_tabs_spec(acc, ext), q);
    assert(m.len() == 0);
    let u = unsorted_window_tab_results(query, ws, acc, ext, show);
    lemma_empty_query_window_results(ws, m, show);
    assert(tab_results_spec(m, ws, show).len() == 0);
    assert(u =~= window_results_spec(ws, q, m, show));
    let keys = window_tab_keys(u);
    let p = choose|p: Seq<usize>|
        {
            &&& is_permutation(p, u.len())
            &&& stably_sorted_by(p, keys)
            &&& listed.len() == u.len()
            &&& forall|i: int| 0 <= i < listed.len() ==> #[trigger] listed[i] == u[p[i] as int]
        };
    assert forall|i: int| 0 <= i < u.len() implies #[trigger] keys[i].0 == i - 10000 by {
        assert(u[i] == window_view(ws[i], (10000 - i) as i32, show));
        assert((10000 - i) as i32 == 10000 - i);
    }
    assert forall|a: int, b: int| 0 <= a < b < p.len() implies #[trigger] p[a] < #[trigger] p[b] by {
        assert(!key_lt(keys[p[b] as int], keys[p[a] as int]));
        assert(keys[p[a] as int].0 == p[a] - 10000);
        assert(keys[p[b] as int].0 == p[b] - 10000);
        assert(p[a] != p[b]);
    }
    lemma_increasing_permutation_is_identity(p, u.len());
    assert forall|i: int| 0 <= i < ws.len() implies #[trigger] listed[i] == window_view(
        ws[i],
        (10000 - i) as i32,
        show,
    ) by {
        assert(p[i] == i);
        assert(listed[i] == u[i]);
    }
}

// ---------------------------------------------------------------------------
// The startup entry
// ---------------------------------------------------------------------------

proof fn lemma_first_quote_after(exe: Seq<char>, tail: Seq<char>)
    requires
        !exe.contains('"'),
        tail.len() > 0,
        tail[0] == '"',
    ensures
        first_index_of(exe + tail, '"') == Some(exe.len() as int),
{
    let rest = exe + tail;
    let n = exe.len() as int;
    assert(rest[n] == '"');
    assert(rest.contains('"'));
    let k = choose|i: int| 0 <= i < rest.len() && rest[i] == '"' && forall|j: int| 0 <= j < i ==> rest[j] != '"';
    assert(k == n) by {
        if k < n {
            assert(rest[k] == exe[k]);
            assert(exe.contains('"'));
        } else if k > n {
            assert(rest[n] != '"');
        }
    }
}

proof fn lemma_quoted_command_exe(c: Seq<char>, exe: Seq<char>, tail: Seq<char>)
    requires
        trim_seq(c) == c,
        c == seq!['"'] + exe + tail,
        !exe.contains('"'),
        tail.len() > 0,
        tail[0] == '"',
    ensures
        command_exe_name_spec(c) == Some(after_last_separator(exe)),
{
    assert(c.drop_first() =~= exe + tail);
    lemma_first_quote_after(exe, tail);
    assert((exe + tail).take(exe.len() as int) =~= exe);
}

proof fn lemma_run_command_exe(exe: Seq<char>, tail: Seq<char>)
    requires
        !exe.contains('"'),
        tail == seq!['"', ' ', '-', '-', 's', 't', 'a', 'r', 't', 'u', 'p'],
    ensures
        command_exe_name_spec(seq!['"'] + exe + tail) == Some(after_last_separator(exe)),
{
    let cmd = seq!['"'] + exe + tail;
    assert(cmd[0] == '"');
    assert(cmd.last() == 'p');
    lemma_trim_start_of_nonblank_start(cmd);
    assert(trim_end_seq(cmd) == cmd);
    lemma_quoted_command_exe(cmd, exe, tail);
}

/// The Run command stored for an executable names that executable's file:
/// reading it back gives the part of the path after its last separator (for a
/// path without quote characters).
pub proof fn law_startup_command_names_its_executable(exe: Seq<char>)
    requires
        !exe.contains('"'),
    ensures
        command_exe_name_spec("\""@ + exe + "\" "@ + STARTUP_ARG@) == Some(after_last_separator(exe)),
{
    reveal_strlit("\"");
    reveal_strlit("\" ");
    reveal_strlit("--startup");
    let tail = seq!['"', ' ', '-', '-', 's', 't', 'a', 'r', 't', 'u', 'p'];
    assert("\" "@ + STARTUP_ARG@ =~= tail);
    assert("\""@ =~= seq!['"']);
    lemma_run_command_exe(exe, tail);
    assert("\""@ + exe + "\" "@ + STARTUP_ARG@ =~= seq!['"'] + exe + tail);
}

// ---------------------------------------------------------------------------
// Registry strings
// ---------------------------------------------------------------------------

/// A registry string value read back gives the text that was written: the
/// bytes `registry_string_bytes` makes for a text decode, by
/// `registry_bytes_to_string`, to that text (for a text whose last character
/// is not U+0000, which reading drops as terminator).
pub proof fn law_registry_string_round_trips(s: Seq<char>)
    requires
        s.len() == 0 || s.last() as u32 != 0,
    ensures
        registry_string_spec(le_bytes(utf16_encode(s).push(0))) == Some(s),
{
    let e = utf16_encode(s);
    let u = e.push(0);
    let b = le_bytes(u);
    assert(b.len() % 2 == 0);
    assert(le_units(b) =~= u) by {
        assert forall|i: int| 0 <= i < u.len() implies #[trigger] le_units(b)[i] == u[i] by {
            assert((2 * i) % 2 == 0 && (2 * i) / 2 == i);
            assert((2 * i + 1) % 2 == 1 && (2 * i + 1) / 2 == i);
            let x = u[i] as int;
            assert(b[2 * i] as int == x % 256);
            assert(b[2 * i + 1] as int == x / 256);
            assert(x % 256 + 256 * (x / 256) == x);
        }
    }
    assert(u.drop_last() =~= e);
    if s.len() > 0 {
        lemma_utf16_encode_last_nonzero(s);
    } else {
        assert(e =~= Seq::<u16>::empty());
    }
    assert(strip_trailing_zeros(u) == strip_trailing_zeros(e));
    assert(strip_trailing_zeros(e) == e);
    lemma_utf16_decode_encode(s);
}

// ---------------------------------------------------------------------------
// Normalised text
// ---------------------------------------------------------------------------

/// Text normalised for matching has whitespace only as single spaces between
/// two other characters: none at either end and no two in a row.
pub proof fn law_normalized_text_has_single_inner_spaces(s: Seq<char>)
    ensures
        ({
            let n = normalize_for_match_spec(s);
            forall|i: int|
                0 <= i < n.len() && is_whitespace_char(#[trigger] n[i]) ==> n[i] == ' ' && 0 < i < n.len()
                    - 1 && !is_whitespace_char(n[i - 1]) && !is_whitespace_char(n[i + 1])
        }),
{
    lemma_normalized_spacing(s);
}

// ---------------------------------------------------------------------------
// Windows found by title or app name
// ---------------------------------------------------------------------------

proof fn lemma_window_results_grow(
    ws: Seq<WindowEntry>,
    q: Seq<char>,
    m: Seq<(TabEntry, i32)>,
    show: bool,
    x: ResultView,
)
    requires
        ws.len() > 0,
        window_results_spec(ws.drop_last(), q, m, show).contains(x),
    ensures
        window_results_spec(ws, q, m, show).contains(x),
{
    let rest = window_results_spec(ws.drop_last(), q, m, show);
    let k = choose|k: int| 0 <= k < rest.len() && rest[k] == x;
    let w = ws.last();
    if !(q.len() > 0 && hidden_by_tab(m, w)) {
        match crate::search::window_rank(q, w, ws.len() - 1) {
            Some(r) => {
                assert(rest.push(window_view(w, r, show))[k] == x);
            },
            None => {},
        }
    }
}

proof fn lemma_window_listed(
    ws: Seq<WindowEntry>,
    q: Seq<char>,
    m: Seq<(TabEntry, i32)>,
    show: bool,
    i: int,
    r: i32,
)
    requires
        0 <= i < ws.len(),
        !(q.len() > 0 && hidden_by_tab(m, ws[i])),
        crate::search::window_rank(q, ws[i], i) == Some(r),
    ensures
        window_results_spec(ws, q, m, show).contains(window_view(ws[i], r, show)),
    decreases ws.len(),
{
    if i == ws.len() - 1 {
        let rest = window_results_spec(ws.drop_last(), q, m, show);
        assert(ws.last() == ws[i]);
        assert(rest.push(window_view(ws[i], r, show))[rest.len() as int] == window_view(
            ws[i],
            r,
            show,
        ));
    } else {
        assert(ws.drop_last()[i] == ws[i]);
        lemma_window_listed(ws.drop_last(), q, m, show, i, r);
        lemma_window_results_grow(ws, q, m, show, window_view(ws[i], r, show));
    }
}

/// The rank of a window found by a query: its title's match score plus 2000,
/// or else its app name's match score plus 1000.
pub open spec fn title_or_app_rank(q: Seq<char>, w: WindowEntry) -> i32 {
    match crate::search::match_score_spec(q, w.title@) {
        Some(s) => (s + 2000) as i32,
        None => match crate::search::match_score_spec(q, w.app_name@) {
            Some(s) => (s + 1000) as i32,
            None => 0,
        },
    }
}

/// With a non-empty (trimmed) query, a window that no matching tab stands
/// for is found by its title or, failing that, by its app name: it is listed
/// as a window result for its handle, ranked by the title's match score plus
/// 2000, or else by the app name's match score plus 1000.
pub proof fn law_window_found_by_title_or_app_name(
    query: Seq<char>,
    windows: Seq<WindowEntry>,
    accessibility_tabs: Seq<TabEntry>,
    extension_tabs: Seq<TabEntry>,
    show_desktop_labels: bool,
    results: Seq<ResultView>,
    i: int,
)
    requires
        0 <= i < windows.len(),
        trim_seq(query).len() > 0,
        !hidden_by_tab(
            matching_tabs_spec(merge_tabs_spec(accessibility_tabs, extension_tabs), trim_seq(query)),
            windows[i],
        ),
        crate::search::match_score_spec(trim_seq(query), windows[i].title@) is Some
            || crate::search::match_score_spec(trim_seq(query), windows[i].app_name@) is Some,
        ({
            let u = unsorted_window_tab_results(
                query,
                windows,
                accessibility_tabs,
                extension_tabs,
                show_desktop_labels,
            );
            is_stable_sort(results, u, window_tab_keys(u))
        }),
    ensures
        exists|k: int|
            0 <= k < results.len() && (#[trigger] results[k]).kind == SearchResultKind::Window
                && results[k].target == (crate::search::TargetView::Window {
                hwnd: windows[i].hwnd,
            }) && results[k].rank == title_or_app_rank(trim_seq(query), windows[i]),
{
    let q = trim_seq(query);
    let w = windows[i];
    let m = matching_tabs_spec(merge_tabs_spec(accessibility_tabs, extension_tabs), q);
    let rank = title_or_app_rank(q, w);
    assert(crate::search::window_rank(q, w, i) == Some(rank));
    lemma_window_listed(windows, q, m, show_desktop_labels, i, rank);
    let x = window_view(w, rank, show_desktop_labels);
    let ws = window_results_spec(windows, q, m, show_desktop_labels);
    let u = unsorted_window_tab_results(
        query,
        windows,
        accessibility_tabs,
        extension_tabs,
        show_desktop_labels,
    );
    let j = choose|j: int| 0 <= j < ws.len() && ws[j] == x;
    assert(u[j] == x);
    crate::sort::lemma_stable_sort_contains(results, u, window_tab_keys(u), x);
    let k = choose|k: int| 0 <= k < results.len() && results[k] == x;
    assert(results[k].kind == SearchResultKind::Window);
}

// ---------------------------------------------------------------------------
// The order of deduplicated apps and folders
// ---------------------------------------------------------------------------

/// Deduplicated apps come in order of their normalised names: each name
/// comes strictly before the next.
pub proof fn law_deduped_apps_are_ordered_by_name(apps: Seq<AppEntry>, deduped: Seq<AppEntry>)
    requires
        is_stable_sort(
            deduped,
            crate::launcher::collapse_duplicate_apps(apps),
            crate::launcher::app_keys(crate::launcher::collapse_duplicate_apps(apps)),
        ),
    ensures
        forall|i: int, j: int|
            0 <= i < j < deduped.len() ==> crate::sort::lex_lt(
                normalize_for_match_spec((#[trigger] deduped[i]).name@),
                normalize_for_match_spec((#[trigger] deduped[j]).name@),
            ),
{
    let c = crate::launcher::collapse_duplicate_apps(apps);
    let key = |a: AppEntry| crate::launcher::app_key(a);
    assert(c.map_values(key) =~= crate::launcher::app_keys(c));
    crate::sort::lemma_stable_sort_ordered(deduped, c, key);
    crate::launcher::lemma_collapse_duplicate_apps(apps);
    let p = choose|p: Seq<usize>|
        {
            &&& is_permutation(p, c.len())
            &&& stably_sorted_by(p, crate::launcher::app_keys(c))
            &&& deduped.len() == c.len()
            &&& forall|i: int| 0 <= i < deduped.len() ==> #[trigger] deduped[i] == c[p[i] as int]
        };
    assert forall|i: int, j: int| 0 <= i < j < deduped.len() implies crate::sort::lex_lt(
        normalize_for_match_spec((#[trigger] deduped[i]).name@),
        normalize_for_match_spec((#[trigger] deduped[j]).name@),
    ) by {
        let ni = normalize_for_match_spec(deduped[i].name@);
        let nj = normalize_for_match_spec(deduped[j].name@);
        assert(!key_lt(key(deduped[j]), key(deduped[i])));
        assert(deduped[i] == c[p[i] as int] && deduped[j] == c[p[j] as int]);
        assert(p[i] != p[j]);
        assert(!crate::launcher::apps_are_duplicates_spec(c[p[i] as int], c[p[j] as int]));
        crate::sort::lemma_lex_total(ni, nj);
    }
}

/// Folder `a` may stand before folder `b`: its normalised name is not after
/// `b`'s, and with equal names its path is not after `b`'s.
pub open spec fn folder_name_path_in_order(a: FavoriteFolderEntry, b: FavoriteFolderEntry) -> bool {
    let na = normalize_for_match_spec(a.name@);
    let nb = normalize_for_match_spec(b.name@);
    &&& !crate::sort::lex_lt(nb, na)
    &&& na == nb ==> !crate::sort::lex_lt(b.path@, a.path@)
}

/// Deduplicated favorite folders come in order of their normalised names,
/// and folders with the same normalised name in order of their paths.
pub proof fn law_deduped_folders_are_ordered_by_name_then_path(
    folders: Seq<FavoriteFolderEntry>,
    deduped: Seq<FavoriteFolderEntry>,
)
    requires
        is_stable_sort(deduped, first_folders(folders), folder_keys(first_folders(folders))),
    ensures
        forall|i: int, j: int|
            0 <= i < j < deduped.len() ==> folder_name_path_in_order(
                #[trigger] deduped[i],
                #[trigger] deduped[j],
            ),
{
    let c = first_folders(folders);
    let key = |f: FavoriteFolderEntry| folder_key(f);
    assert(c.map_values(key) =~= folder_keys(c));
    crate::sort::lemma_stable_sort_ordered(deduped, c, key);
    assert forall|i: int, j: int| 0 <= i < j < deduped.len() implies folder_name_path_in_order(
        #[trigger] deduped[i],
        #[trigger] deduped[j],
    ) by {
        assert(!key_lt(key(deduped[j]), key(deduped[i])));
    }
}

// ---------------------------------------------------------------------------
// Lowercasing for matching
// ---------------------------------------------------------------------------

proof fn lemma_lowercase_all_is_flattened_mapping(s: Seq<char>)
    ensures
        crate::text::lowercase_all(s) == s.map_values(|c: char| crate::text::lowercase_of(c)).flatten(),
    decreases s.len(),
{
    let f = |c: char| crate::text::lowercase_of(c);
    let m = s.map_values(f);
    m.lemma_flatten_and_flatten_alt_are_equivalent();
    if s.len() > 0 {
        lemma_lowercase_all_is_flattened_mapping(s.drop_last());
        let m2 = s.drop_last().map_values(f);
        m2.lemma_flatten_and_flatten_alt_are_equivalent();
        assert(m.drop_last() =~= m2);
        assert(m.last() == crate::text::lowercase_of(s.last()));
    } else {
        assert(m =~= Seq::<Seq<char>>::empty());
    }
}

/// Text is normalised for matching by lowercasing every character with its
/// full Unicode lowercase mapping (what `char::to_lowercase` yields), then
/// dropping control characters and collapsing whitespace.
pub proof fn law_normalization_lowercases_each_character(s: Seq<char>)
    ensures
        normalize_for_match_spec(s) == crate::text::collapse_whitespace(
            crate::text::drop_controls(
                s.map_values(|c: char| crate::text::lowercase_of(c)).flatten(),
            ),
        ),
{
    lemma_lowercase_all_is_flattened_mapping(s);
}

// ---------------------------------------------------------------------------
// Results come highest rank first
// ---------------------------------------------------------------------------

/// Window and tab results come highest rank first.
pub proof fn law_window_tab_results_are_ordered_by_rank(
    query: Seq<char>,
    windows: Seq<WindowEntry>,
    accessibility_tabs: Seq<TabEntry>,
    extension_tabs: Seq<TabEntry>,
    show_desktop_labels: bool,
    results: Seq<ResultView>,
)
    requires
        ({
            let u = unsorted_window_tab_results(
                query,
                windows,
                accessibility_tabs,
                extension_tabs,
                show_desktop_labels,
            );
            is_stable_sort(results, u, window_tab_keys(u))
        }),
    ensures
        forall|i: int, j: int|
            0 <= i < j < results.len() ==> (#[trigger] results[i]).rank >= (#[trigger] results[j]).rank,
{
    let u = unsorted_window_tab_results(
        query,
        windows,
        accessibility_tabs,
        extension_tabs,
        show_desktop_labels,
    );
    let key = |v: ResultView| crate::search::window_tab_key(v);
    assert(u.map_values(key) =~= window_tab_keys(u));
    crate::sort::lemma_stable_sort_ordered(results, u, key);
    assert forall|i: int, j: int| 0 <= i < j < results.len() implies (
    #[trigger] results[i]).rank >= (#[trigger] results[j]).rank by {
        assert(!key_lt(key(results[j]), key(results[i])));
    }
}

/// Launcher mode's results come highest rank first.
pub proof fn law_launcher_results_are_ordered_by_rank(
    query: Seq<char>,
    apps: Seq<AppEntry>,
    folders: Seq<FavoriteFolderEntry>,
    launcher: Seq<ResultView>,
)
    requires
        exists|a: Seq<ResultView>, f: Seq<ResultView>|
            #![trigger a + f]
            app_results_ok(a, query, apps) && folder_results_ok(f, query, folders) && is_stable_sort(
                launcher,
                a + f,
                rank_title_keys(a + f),
            ),
    ensures
        forall|i: int, j: int|
            0 <= i < j < launcher.len() ==> (#[trigger] launcher[i]).rank >= (#[trigger] launcher[j]).rank,
{
    let (a, f) = choose|a: Seq<ResultView>, f: Seq<ResultView>|
        #![trigger a + f]
        app_results_ok(a, query, apps) && folder_results_ok(f, query, folders) && is_stable_sort(
            launcher,
            a + f,
            rank_title_keys(a + f),
        );
    let u = a + f;
    let key = |v: ResultView| crate::launcher::rank_title_key(v);
    assert(u.map_values(key) =~= rank_title_keys(u));
    crate::sort::lemma_stable_sort_ordered(launcher, u, key);
    assert forall|i: int, j: int| 0 <= i < j < launcher.len() implies (
    #[trigger] launcher[i]).rank >= (#[trigger] launcher[j]).rank by {
        assert(!key_lt(key(launcher[j]), key(launcher[i])));
    }
}

// ---------------------------------------------------------------------------
// Apps found by name
// ---------------------------------------------------------------------------

proof fn lemma_app_listed(d: Seq<AppEntry>, q: Seq<char>, i: int, r: i32)
    requires
        0 <= i < d.len(),
        crate::launcher::app_rank(q, d[i], i) == Some(r),
    ensures
        crate::launcher::app_results_spec(d, q).contains(crate::launcher::app_view(d[i], r)),
    decreases d.len(),
{
    let rest = crate::launcher::app_results_spec(d.drop_last(), q);
    let x = crate::launcher::app_view(d[i], r);
    if i == d.len() - 1 {
        assert(d.last() == d[i]);
        assert(rest.push(x)[rest.len() as int] == x);
    } else {
        assert(d.drop_last()[i] == d[i]);
        lemma_app_listed(d.drop_last(), q, i, r);
        let k = choose|k: int| 0 <= k < rest.len() && rest[k] == x;
        match crate::launcher::app_rank(q, d.last(), d.len() - 1) {
            Some(r2) => {
                assert(rest.push(crate::launcher::app_view(d.last(), r2))[k] == x);
            },
            None => {},
        }
    }
}

/// The rank of the app at position `index` of the deduplicated apps: for an
/// empty query 5000 less its position, otherwise its name's match score plus
/// 3000.
pub open spec fn name_rank(q: Seq<char>, a: AppEntry, index: int) -> i32 {
    if q.len() == 0 {
        (5000 - index) as i32
    } else {
        match crate::search::match_score_spec(q, a.name@) {
            Some(s) => (s + 3000) as i32,
            None => 0,
        }
    }
}

/// Every deduplicated app is listed for an empty query, and for a non-empty
/// query every one whose name matches: as an app result that launches its
/// path, ranked by its position (empty query) or its name's match score.
pub proof fn law_app_found_by_name(
    query: Seq<char>,
    apps: Seq<AppEntry>,
    deduped: Seq<AppEntry>,
    results: Seq<ResultView>,
    i: int,
)
    requires
        0 <= i < deduped.len(),
        is_stable_sort(
            deduped,
            crate::launcher::collapse_duplicate_apps(apps),
            crate::launcher::app_keys(crate::launcher::collapse_duplicate_apps(apps)),
        ),
        app_results_ok(results, query, apps),
        trim_seq(query).len() == 0 || crate::search::match_score_spec(
            trim_seq(query),
            deduped[i].name@,
        ) is Some,
    ensures
        exists|k: int|
            0 <= k < results.len() && (#[trigger] results[k]).kind == SearchResultKind::App
                && results[k].target == (crate::search::TargetView::App {
                launch_path: deduped[i].launch_path@,
            }) && results[k].rank == name_rank(trim_seq(query), deduped[i], i),
{
    let c = crate::launcher::collapse_duplicate_apps(apps);
    let q = trim_seq(query);
    let d = choose|d: Seq<AppEntry>|
        #![trigger crate::launcher::app_results_spec(d, q)]
        is_stable_sort(d, c, crate::launcher::app_keys(c)) && is_stable_sort(
            results,
            crate::launcher::app_results_spec(d, q),
            crate::launcher::title_subtitle_keys(crate::launcher::app_results_spec(d, q)),
        );
    lemma_stable_sort_unique(d, deduped, c, crate::launcher::app_keys(c));
    let r = name_rank(q, deduped[i], i);
    assert(crate::launcher::app_rank(q, deduped[i], i) == Some(r));
    lemma_app_listed(deduped, q, i, r);
    let u = crate::launcher::app_results_spec(deduped, q);
    let x = crate::launcher::app_view(deduped[i], r);
    crate::sort::lemma_stable_sort_contains(
        results,
        u,
        crate::launcher::title_subtitle_keys(u),
        x,
    );
    let k = choose|k: int| 0 <= k < results.len() && results[k] == x;
    assert(results[k].kind == SearchResultKind::App);
}

} // verus!
