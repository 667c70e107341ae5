//! Launcher mode: installed apps and favorite folders, deduplicated and
//! ranked for a query.
use vstd::prelude::*;

use crate::entries::{
    ActivationTarget, AppEntry, AppSource, FavoriteFolderEntry, SearchResult, SearchResultKind,
};
use crate::search::{
    ascii_lower_seq, display_folder_path_chars, display_folder_path_spec, lemma_sorted_views,
    match_score_chars, match_score_spec, reorder_results, views, ResultView, TargetView,
};
use crate::sort::{
    is_permutation, is_stable_sort, key_views, stable_order, stably_sorted_by, KeyView, SortKey,
};
use crate::text::{
    ascii_lower, chars_eq, chars_of, copy_chars, normalize_for_match_spec, normalize_str,
    str_lowercase, str_to_lowercase, string_from_chars, sub_chars, trim_chars, trim_seq, trim_str,
    utf8_len, utf8_len_exec,
};

verus! {

// ---------------------------------------------------------------------------
// Installed apps
// ---------------------------------------------------------------------------

/// Where an app was found, as a preference: lower is preferred.
pub open spec fn app_source_rank(s: AppSource) -> int {
    match s {
        AppSource::UserStartMenu => 0,
        AppSource::UserAppPath => 1,
        AppSource::AllUsersStartMenu => 2,
        AppSource::MachineAppPath => 3,
        AppSource::PackagedApp => 4,
    }
}

fn app_source_priority(s: AppSource) -> (r: i64)
    ensures
        r == app_source_rank(s),
{
    match s {
        AppSource::UserStartMenu => 0,
        AppSource::UserAppPath => 1,
        AppSource::AllUsersStartMenu => 2,
        AppSource::MachineAppPath => 3,
        AppSource::PackagedApp => 4,
    }
}

/// `s` without leading and trailing `"` characters.
pub open spec fn trim_quotes_seq(s: Seq<char>) -> Seq<char>
    decreases s.len(),
{
    if s.len() > 0 && s[0] == '"' {
        trim_quotes_seq(s.drop_first())
    } else if s.len() > 0 && s.last() == '"' {
        trim_quotes_seq(s.drop_last())
    } else {
        s
    }
}

pub open spec fn slashes_to_backslashes(s: Seq<char>) -> Seq<char> {
    s.map_values(
        |c: char|
            if c == '/' {
                '\\'
            } else {
                c
            },
    )
}

/// A launch target in the form in which targets are compared: trimmed,
/// unquoted, with backslashes for slashes, in ASCII lowercase.
pub open spec fn normalize_launch_identity_spec(v: Seq<char>) -> Seq<char> {
    ascii_lower_seq(slashes_to_backslashes(trim_quotes_seq(trim_seq(v))))
}

/// The launch identity of an app (its target where known, else its launch
/// path), normalised; `None` when it is blank.
pub open spec fn app_identity_key(a: AppEntry) -> Option<Seq<char>> {
    let id = trim_seq(
        match a.launch_identity {
            Some(i) => i@,
            None => a.launch_path@,
        },
    );
    if id.len() == 0 {
        None
    } else {
        Some(normalize_launch_identity_spec(id))
    }
}

/// Two apps are the same app when their names match after normalisation or
/// when both have the same launch identity.
pub open spec fn apps_are_duplicates_spec(l: AppEntry, r: AppEntry) -> bool {
    normalize_for_match_spec(l.name@) == normalize_for_match_spec(r.name@) || (app_identity_key(
        l,
    ) is Some && app_identity_key(l) == app_identity_key(r))
}

/// A duplicate replaces the kept entry when it comes from a preferred source,
/// or from the same source with a shorter launch path (in bytes).
pub open spec fn should_replace_spec(existing: AppEntry, candidate: AppEntry) -> bool {
    ||| app_source_rank(candidate.source) < app_source_rank(existing.source)
    ||| app_source_rank(candidate.source) == app_source_rank(existing.source) && utf8_len(
        candidate.launch_path@,
    ) < utf8_len(existing.launch_path@)
}

/// An app is listed only with a name and a launch path.
pub open spec fn app_is_listable(a: AppEntry) -> bool {
    normalize_for_match_spec(a.name@).len() > 0 && trim_seq(a.launch_path@).len() > 0
}

/// The index of the first entry of `d` from `i` on that `a` duplicates.
pub open spec fn first_duplicate_from(d: Seq<AppEntry>, a: AppEntry, i: int) -> Option<int>
    decreases d.len() - i,
{
    if i < 0 || i >= d.len() {
        None
    } else if apps_are_duplicates_spec(d[i], a) {
        Some(i)
    } else {
        first_duplicate_from(d, a, i + 1)
    }
}

/// The entries of `s` that `a` does not duplicate, in order.
pub open spec fn without_duplicates_of(s: Seq<AppEntry>, a: AppEntry) -> Seq<AppEntry>
    decreases s.len(),
{
    if s.len() == 0 {
        Seq::empty()
    } else {
        let r = without_duplicates_of(s.drop_last(), a);
        if apps_are_duplicates_spec(s.last(), a) {
            r
        } else {
            r.push(s.last())
        }
    }
}

/// The apps with duplicates collapsed, in the order of their first
/// appearance: a listable app that duplicates no kept entry is appended; one
/// that duplicates a kept entry and is preferred to the first such entry takes
/// its place, and every later kept entry that it duplicates is dropped; any
/// other app is dropped.
pub open spec fn collapse_duplicate_apps(apps: Seq<AppEntry>) -> Seq<AppEntry>
    decreases apps.len(),
{
    if apps.len() == 0 {
        Seq::empty()
    } else {
        let d = collapse_duplicate_apps(apps.drop_last());
        let a = apps.last();
        if !app_is_listable(a) {
            d
        } else {
            match first_duplicate_from(d, a, 0) {
                Some(k) => if should_replace_spec(d[k], a) {
                    d.take(k).push(a) + without_duplicates_of(d.skip(k + 1), a)
                } else {
                    d
                },
                None => d.push(a),
            }
        }
    }
}

/// No two entries of `s` are duplicates of each other.
pub open spec fn no_duplicate_apps(s: Seq<AppEntry>) -> bool {
    forall|i: int, j: int|
        0 <= i < s.len() && 0 <= j < s.len() && i != j ==> !apps_are_duplicates_spec(
            #[trigger] s[i],
            #[trigger] s[j],
        )
}

proof fn lemma_first_duplicate(d: Seq<AppEntry>, a: AppEntry, i: int)
    requires
        0 <= i,
    ensures
        match first_duplicate_from(d, a, i) {
            Some(k) => i <= k < d.len() && apps_are_duplicates_spec(d[k], a) && forall|j: int|
                i <= j < k ==> !apps_are_duplicates_spec(#[trigger] d[j], a),
            None => forall|j: int| i <= j < d.len() ==> !apps_are_duplicates_spec(#[trigger] d[j], a),
        },
    decreases d.len() - i,
{
    if i < d.len() && !apps_are_duplicates_spec(d[i], a) {
        lemma_first_duplicate(d, a, i + 1);
    }
}

proof fn lemma_without_duplicates(s: Seq<AppEntry>, a: AppEntry)
    ensures
        forall|x: AppEntry|
            #[trigger] without_duplicates_of(s, a).contains(x) ==> s.contains(x)
                && !apps_are_duplicates_spec(x, a),
        no_duplicate_apps(s) ==> no_duplicate_apps(without_duplicates_of(s, a)),
    decreases s.len(),
{
    if s.len() > 0 {
        let t = s.drop_last();
        lemma_without_duplicates(t, a);
        let r = without_duplicates_of(t, a);
        assert forall|x: AppEntry| #[trigger] t.contains(x) implies s.contains(x) by {
            let i = choose|i: int| 0 <= i < t.len() && t[i] == x;
            assert(s[i] == x);
        }
        if !apps_are_duplicates_spec(s.last(), a) {
            let w = r.push(s.last());
            assert forall|x: AppEntry| #[trigger] w.contains(x) implies s.contains(x)
                && !apps_are_duplicates_spec(x, a) by {
                let i = choose|i: int| 0 <= i < w.len() && w[i] == x;
                if i < r.len() {
                    assert(r.contains(x));
                } else {
                    assert(s[s.len() - 1] == x);
                }
            }
            if no_duplicate_apps(s) {
                assert(no_duplicate_apps(t)) by {
                    assert forall|i: int, j: int|
                        0 <= i < t.len() && 0 <= j < t.len() && i != j implies !apps_are_duplicates_spec(
                        #[trigger] t[i],
                        #[trigger] t[j],
                    ) by {
                        assert(t[i] == s[i] && t[j] == s[j]);
                    }
                }
                assert forall|i: int, j: int|
                    0 <= i < w.len() && 0 <= j < w.len() && i != j implies !apps_are_duplicates_spec(
                    #[trigger] w[i],
                    #[trigger] w[j],
                ) by {
                    if i < r.len() && j < r.len() {
                        assert(w[i] == r[i] && w[j] == r[j]);
                    } else if i < r.len() {
                        assert(r.contains(r[i]));
                        let k = choose|k: int| 0 <= k < t.len() && t[k] == r[i];
                        assert(s[k] == r[i]);
                        assert(s[s.len() - 1] == w[j]);
                    } else {
                        assert(r.contains(r[j]));
                        let k = choose|k: int| 0 <= k < t.len() && t[k] == r[j];
                        assert(s[k] == r[j]);
                        assert(s[s.len() - 1] == w[i]);
                    }
                }
            }
        } else {
            if no_duplicate_apps(s) {
                assert(no_duplicate_apps(t)) by {
                    assert forall|i: int, j: int|
                        0 <= i < t.len() && 0 <= j < t.len() && i != j implies !apps_are_duplicates_spec(
                        #[trigger] t[i],
                        #[trigger] t[j],
                    ) by {
                        assert(t[i] == s[i] && t[j] == s[j]);
                    }
                }
            }
        }
    }
}

/// The collapsed apps are listable apps of the input, and no two of them are
/// duplicates.
pub proof fn lemma_collapse_duplicate_apps(apps: Seq<AppEntry>)
    ensures
        no_duplicate_apps(collapse_duplicate_apps(apps)),
        forall|x: AppEntry|
            #[trigger] collapse_duplicate_apps(apps).contains(x) ==> apps.contains(x)
                && app_is_listable(x),
    decreases apps.len(),
{
    if apps.len() > 0 {
        let t = apps.drop_last();
        let d = collapse_duplicate_apps(t);
        let a = apps.last();
        lemma_collapse_duplicate_apps(t);
        assert forall|x: AppEntry| #[trigger] t.contains(x) implies apps.contains(x) by {
            let i = choose|i: int| 0 <= i < t.len() && t[i] == x;
            assert(apps[i] == x);
        }
        assert(apps[apps.len() - 1] == a);
        if app_is_listable(a) {
            lemma_first_duplicate(d, a, 0);
            match first_duplicate_from(d, a, 0) {
                Some(k) => {
                    if should_replace_spec(d[k], a) {
                        let tail = d.skip(k + 1);
                        lemma_without_duplicates(tail, a);
                        assert(no_duplicate_apps(tail)) by {
                            assert forall|i: int, j: int|
                                0 <= i < tail.len() && 0 <= j < tail.len() && i != j implies !apps_are_duplicates_spec(
                                #[trigger] tail[i],
                                #[trigger] tail[j],
                            ) by {
                                assert(tail[i] == d[k + 1 + i] && tail[j] == d[k + 1 + j]);
                            }
                        }
                        let w = without_duplicates_of(tail, a);
                        let head = d.take(k).push(a);
                        let n = head + w;
                        assert forall|x: AppEntry| #[trigger] tail.contains(x) implies exists|m: int|
                            k < m < d.len() && d[m] == x by {
                            let i = choose|i: int| 0 <= i < tail.len() && tail[i] == x;
                            assert(d[k + 1 + i] == x);
                        }
                        assert forall|i: int, j: int|
                            0 <= i < n.len() && 0 <= j < n.len() && i != j implies !apps_are_duplicates_spec(
                            #[trigger] n[i],
                            #[trigger] n[j],
                        ) by {
                            if i < k && j < k {
                                assert(n[i] == d[i] && n[j] == d[j]);
                            } else if i < k && j == k {
                                assert(n[i] == d[i] && n[j] == a);
                                assert(!apps_are_duplicates_spec(d[i], a));
                            } else if i == k && j < k {
                                assert(n[j] == d[j] && n[i] == a);
                                assert(!apps_are_duplicates_spec(d[j], a));
                            } else if i < k {
                                assert(n[i] == d[i]);
                                assert(n[j] == w[j - k - 1]);
                                assert(w.contains(w[j - k - 1]));
                                let m = choose|m: int| k < m < d.len() && d[m] == w[j - k - 1];
                            } else if j < k {
                                assert(n[j] == d[j]);
                                assert(n[i] == w[i - k - 1]);
                                assert(w.contains(w[i - k - 1]));
                                let m = choose|m: int| k < m < d.len() && d[m] == w[i - k - 1];
                            } else if i == k {
                                assert(n[i] == a);
                                assert(n[j] == w[j - k - 1]);
                                assert(w.contains(w[j - k - 1]));
                            } else if j == k {
                                assert(n[j] == a);
                                assert(n[i] == w[i - k - 1]);
                                assert(w.contains(w[i - k - 1]));
                            } else {
                                assert(n[i] == w[i - k - 1] && n[j] == w[j - k - 1]);
                            }
                        }
                        assert forall|x: AppEntry| #[trigger] n.contains(x) implies apps.contains(x)
                            && app_is_listable(x) by {
                            let i = choose|i: int| 0 <= i < n.len() && n[i] == x;
                            if i < k {
                                assert(d[i] == x);
                                assert(d.contains(x));
                            } else if i > k {
                                assert(w[i - k - 1] == x);
                                assert(w.contains(x));
                                let m = choose|m: int| k < m < d.len() && d[m] == x;
                                assert(d.contains(x));
                            }
                        }
                    }
                },
                None => {
                    let n = d.push(a);
                    assert forall|i: int, j: int|
                        0 <= i < n.len() && 0 <= j < n.len() && i != j implies !apps_are_duplicates_spec(
                        #[trigger] n[i],
                        #[trigger] n[j],
                    ) by {
                        if i < d.len() && j < d.len() {
                            assert(n[i] == d[i] && n[j] == d[j]);
                        } else if i < d.len() {
                            assert(n[i] == d[i]);
                            assert(!apps_are_duplicates_spec(d[i], a));
                        } else {
                            assert(n[j] == d[j]);
                            assert(!apps_are_duplicates_spec(d[j], a));
                        }
                    }
                    assert forall|x: AppEntry| #[trigger] n.contains(x) implies apps.contains(x)
                        && app_is_listable(x) by {
                        let i = choose|i: int| 0 <= i < n.len() && n[i] == x;
                        if i < d.len() {
                            assert(d[i] == x);
                            assert(d.contains(x));
                        }
                    }
                },
            }
        }
    }
}

/// Apps are ordered by normalised name, then launch path.
pub open spec fn app_key(a: AppEntry) -> KeyView {
    (0, 0, normalize_for_match_spec(a.name@), a.launch_path@)
}

pub open spec fn app_keys(apps: Seq<AppEntry>) -> Seq<KeyView> {
    apps.map_values(|a: AppEntry| app_key(a))
}

fn trim_quotes(s: &[char]) -> (r: Vec<char>)
    ensures
        r@ == trim_quotes_seq(s@),
    decreases s@.len(),
{
    let n = s.len();
    if n > 0 && s[0] == '"' {
        let rest = sub_chars(s, 1, n);
        assert(rest@ =~= s@.drop_first());
        trim_quotes(rest.as_slice())
    } else if n > 0 && s[n - 1] == '"' {
        let rest = sub_chars(s, 0, n - 1);
        assert(rest@ =~= s@.drop_last());
        trim_quotes(rest.as_slice())
    } else {
        copy_chars(s)
    }
}

fn normalize_launch_identity(value: &[char]) -> (r: Vec<char>)
    ensures
        r@ == normalize_launch_identity_spec(value@),
{
    let t = trim_chars(value);
    let u = trim_quotes(t.as_slice());
    let mut r: Vec<char> = Vec::new();
    let mut i: usize = 0;
    while i < u.len()
        invariant
            i <= u@.len(),
            r@ == ascii_lower_seq(slashes_to_backslashes(u@.take(i as int))),
        decreases u.len() - i,
    {
        let c = if u[i] == '/' {
            '\\'
        } else {
            u[i]
        };
        r.push(ascii_lower(c));
        assert(r@ =~= ascii_lower_seq(slashes_to_backslashes(u@.take(i + 1))));
        i = i + 1;
    }
    assert(u@.take(u@.len() as int) =~= u@);
    r
}

fn app_launch_identity_key(app: &AppEntry) -> (r: Option<Vec<char>>)
    ensures
        match r {
            Some(v) => app_identity_key(*app) == Some(v@),
            None => app_identity_key(*app) is None,
        },
{
    let id = match &app.launch_identity {
        Some(i) => trim_str(i.as_str()),
        None => trim_str(app.launch_path.as_str()),
    };
    if id.len() == 0 {
        return None;
    }
    Some(normalize_launch_identity(id.as_slice()))
}

fn apps_are_duplicates(left: &AppEntry, right: &AppEntry) -> (r: bool)
    ensures
        r == apps_are_duplicates_spec(*left, *right),
{
    let ln = normalize_str(left.name.as_str());
    let rn = normalize_str(right.name.as_str());
    if chars_eq(ln.as_slice(), rn.as_slice()) {
        return true;
    }
    let l = app_launch_identity_key(left);
    let r = app_launch_identity_key(right);
    match (l, r) {
        (Some(a), Some(b)) => chars_eq(a.as_slice(), b.as_slice()),
        _ => false,
    }
}

fn should_replace_app(existing: &AppEntry, candidate: &AppEntry) -> (r: bool)
    ensures
        r == should_replace_spec(*existing, *candidate),
{
    let ce = app_source_priority(candidate.source);
    let ee = app_source_priority(existing.source);
    if ce != ee {
        return ce < ee;
    }
    let cl = chars_of(candidate.launch_path.as_str());
    let el = chars_of(existing.launch_path.as_str());
    utf8_len_exec(cl.as_slice()) < utf8_len_exec(el.as_slice())
}

fn reorder_apps(rs: &Vec<AppEntry>, p: &Vec<usize>) -> (out: Vec<AppEntry>)
    requires
        is_permutation(p@, rs@.len()),
    ensures
        out@.len() == rs@.len(),
        forall|i: int| 0 <= i < out@.len() ==> #[trigger] out@[i] == rs@[p@[i] as int],
{
    let mut out: Vec<AppEntry> = Vec::new();
    let mut i: usize = 0;
    while i < p.len()
        invariant
            is_permutation(p@, rs@.len()),
            i <= p@.len(),
            out@.len() == i,
            forall|j: int| 0 <= j < i ==> #[trigger] out@[j] == rs@[p@[j] as int],
        decreases p.len() - i,
    {
        out.push(rs[p[i]].clone());
        i = i + 1;
    }
    out
}

proof fn lemma_stable_sort_witness<T>(out: Seq<T>, inp: Seq<T>, p: Seq<usize>, keys: Seq<KeyView>)
    requires
        is_permutation(p, inp.len()),
        stably_sorted_by(p, keys),
        out.len() == inp.len(),
        forall|i: int| 0 <= i < out.len() ==> #[trigger] out[i] == inp[p[i] as int],
    ensures
        is_stable_sort(out, inp, keys),
{
}

/// `d` with its entry at `k` replaced by `app` and every later entry that
/// `app` duplicates dropped.
fn replace_duplicate(d: &Vec<AppEntry>, k: usize, app: &AppEntry) -> (r: Vec<AppEntry>)
    requires
        k < d@.len(),
    ensures
        r@ == d@.take(k as int).push(*app) + without_duplicates_of(d@.skip(k + 1), *app),
{
    let mut out: Vec<AppEntry> = Vec::new();
    let mut j: usize = 0;
    while j < k
        invariant
            j <= k < d@.len(),
            out@ == d@.take(j as int),
        decreases k - j,
    {
        out.push(d[j].clone());
        assert(out@ =~= d@.take(j + 1));
        j = j + 1;
    }
    out.push(app.clone());
    let ghost head = out@;
    let ghost tail = d@.skip(k + 1);
    assert(head == d@.take(k as int).push(*app));
    assert(k < d.len());
    j = k + 1;
    assert(tail.take(0) =~= Seq::<AppEntry>::empty());
    while j < d.len()
        invariant
            k < j <= d@.len(),
            tail == d@.skip(k + 1),
            out@ == head + without_duplicates_of(tail.take(j - k - 1), *app),
        decreases d.len() - j,
    {
        let ghost t = tail.take(j - k - 1);
        proof {
            assert(tail.take(j - k) =~= t.push(d@[j as int]));
            assert(tail.take(j - k).drop_last() =~= t);
        }
        if !apps_are_duplicates(&d[j], app) {
            out.push(d[j].clone());
            assert(out@ =~= head + without_duplicates_of(t, *app).push(d@[j as int]));
        }
        j = j + 1;
    }
    assert(tail.take(d@.len() - k - 1) =~= tail);
    out
}

/// Collapses duplicate apps (same normalised name, or same launch identity),
/// keeping the entry from the preferred source, drops unnamed or pathless
/// entries, and orders the rest by normalised name and launch path.
#[verifier::spinoff_prover]
pub fn dedupe_apps(apps: &[AppEntry]) -> (r: Vec<AppEntry>)
    ensures
        is_stable_sort(
            r@,
            collapse_duplicate_apps(apps@),
            app_keys(collapse_duplicate_apps(apps@)),
        ),
        forall|i: int, j: int|
            0 <= i < r@.len() && 0 <= j < r@.len() && i != j ==> {
                &&& normalize_for_match_spec(#[trigger] r@[i].name@) != normalize_for_match_spec(
                    #[trigger] r@[j].name@,
                )
                &&& (app_identity_key(r@[i]) is Some ==> app_identity_key(r@[i]) != app_identity_key(
                    r@[j],
                ))
            },
        forall|i: int| 0 <= i < r@.len() ==> apps@.contains(#[trigger] r@[i]) && app_is_listable(r@[i]),
{
    let mut deduped: Vec<AppEntry> = Vec::new();
    let mut i: usize = 0;
    while i < apps.len()
        invariant
            i <= apps@.len(),
            deduped@ == collapse_duplicate_apps(apps@.take(i as int)),
        decreases apps.len() - i,
    {
        let app = &apps[i];
        let ghost cur = apps@.take(i + 1);
        proof {
            assert(cur.drop_last() =~= apps@.take(i as int));
            assert(cur.last() == apps@[i as int]);
        }
        let name = normalize_str(app.name.as_str());
        let path = trim_str(app.launch_path.as_str());
        if name.len() == 0 || path.len() == 0 {
            i = i + 1;
            continue;
        }
        let mut k: usize = 0;
        let mut found = false;
        assert(first_duplicate_from(deduped@, *app, 0) == first_duplicate_from(
            deduped@,
            *app,
            0,
        ));
        while k < deduped.len() && !found
            invariant
                k <= deduped@.len(),
                !found ==> first_duplicate_from(deduped@, *app, 0) == first_duplicate_from(
                    deduped@,
                    *app,
                    k as int,
                ),
                found ==> k < deduped@.len() && first_duplicate_from(deduped@, *app, 0) == Some(
                    k as int,
                ),
            decreases deduped.len() - k + (if found {
                0int
            } else {
                1int
            }),
        {
            if apps_are_duplicates(&deduped[k], app) {
                found = true;
            } else {
                k = k + 1;
            }
        }
        if found {
            if should_replace_app(&deduped[k], app) {
                deduped = replace_duplicate(&deduped, k, app);
            }
        } else {
            deduped.push(app.clone());
        }
        i = i + 1;
    }
    assert(apps@.take(apps@.len() as int) =~= apps@);
    let ghost d = deduped@;
    let mut keys: Vec<SortKey> = Vec::new();
    let mut j: usize = 0;
    while j < deduped.len()
        invariant
            d == deduped@,
            j <= d.len(),
            key_views(keys@) == app_keys(d.take(j as int)),
        decreases deduped.len() - j,
    {
        let a = &deduped[j];
        let key = SortKey {
            major: 0,
            minor: 0,
            first: normalize_str(a.name.as_str()),
            second: chars_of(a.launch_path.as_str()),
        };
        let ghost old_keys = keys@;
        keys.push(key);
        proof {
            assert(d.take(j + 1) =~= d.take(j as int).push(d[j as int]));
            assert(app_keys(d.take(j + 1)) =~= app_keys(d.take(j as int)).push(app_key(d[j as int])));
            assert(key_views(keys@) =~= key_views(old_keys).push(key.view()));
        }
        j = j + 1;
    }
    assert(d.take(d.len() as int) =~= d);
    assert(key_views(keys@).len() == keys@.len());
    let p = stable_order(&keys);
    let out = reorder_apps(&deduped, &p);
    proof {
        lemma_stable_sort_witness(out@, d, p@, key_views(keys@));
        lemma_collapse_duplicate_apps(apps@);
        let pv = p@;
        assert forall|i: int, j: int|
            0 <= i < out@.len() && 0 <= j < out@.len() && i != j implies !apps_are_duplicates_spec(
            #[trigger] out@[i],
            #[trigger] out@[j],
        ) by {
            assert(out@[i] == d[pv[i] as int] && out@[j] == d[pv[j] as int]);
            assert(pv[i] < d.len() && pv[j] < d.len());
        }
        assert forall|i: int| 0 <= i < out@.len() implies apps@.contains(#[trigger] out@[i])
            && app_is_listable(out@[i]) by {
            assert(out@[i] == d[pv[i] as int]);
            assert(pv[i] < d.len());
            assert(d.contains(d[pv[i] as int]));
        }
    }
    out
}

/// Launcher results order by rank (highest first), then lowercase title and
/// subtitle.
pub open spec fn title_subtitle_key(v: ResultView) -> KeyView {
    (-(v.rank as int), 0, str_lowercase(v.title), str_lowercase(v.subtitle))
}

pub open spec fn title_subtitle_keys(vs: Seq<ResultView>) -> Seq<KeyView> {
    vs.map_values(|v: ResultView| title_subtitle_key(v))
}

/// The rank of the app at `index`: for an empty query 5000 less its index;
/// otherwise its name score plus 3000.
pub open spec fn app_rank(q: Seq<char>, a: AppEntry, index: int) -> Option<i32> {
    if q.len() == 0 {
        Some((5000 - index) as i32)
    } else {
        match match_score_spec(q, a.name@) {
            Some(s) => Some((s + 3000) as i32),
            None => None,
        }
    }
}

pub open spec fn app_view(a: AppEntry, rank: i32) -> ResultView {
    ResultView {
        kind: SearchResultKind::App,
        title: a.name@,
        subtitle: "Application"@,
        screen_number: None,
        rank: rank,
        target: TargetView::App { launch_path: a.launch_path@ },
    }
}

pub open spec fn app_results_spec(apps: Seq<AppEntry>, q: Seq<char>) -> Seq<ResultView>
    decreases apps.len(),
{
    if apps.len() == 0 {
        Seq::empty()
    } else {
        let rest = app_results_spec(apps.drop_last(), q);
        match app_rank(q, apps.last(), apps.len() - 1) {
            Some(r) => rest.push(app_view(apps.last(), r)),
            None => rest,
        }
    }
}

/// `rv` is what `build_app_results` returns for `query` and `apps`.
pub open spec fn app_results_ok(rv: Seq<ResultView>, query: Seq<char>, apps: Seq<AppEntry>) -> bool {
    let c = collapse_duplicate_apps(apps);
    exists|d: Seq<AppEntry>|
        #![trigger app_results_spec(d, trim_seq(query))]
        is_stable_sort(d, c, app_keys(c)) && is_stable_sort(
            rv,
            app_results_spec(d, trim_seq(query)),
            title_subtitle_keys(app_results_spec(d, trim_seq(query))),
        )
}

fn title_subtitle_sort_keys(rs: &Vec<SearchResult>) -> (keys: Vec<SortKey>)
    ensures
        key_views(keys@) == title_subtitle_keys(views(rs@)),
{
    let mut keys: Vec<SortKey> = Vec::new();
    let mut i: usize = 0;
    while i < rs.len()
        invariant
            i <= rs@.len(),
            key_views(keys@) == title_subtitle_keys(views(rs@.take(i as int))),
        decreases rs.len() - i,
    {
        let r = &rs[i];
        let lt = str_to_lowercase(r.title.as_str());
        let ls = str_to_lowercase(r.subtitle.as_str());
        let key = SortKey {
            major: -(r.rank as i64),
            minor: 0,
            first: chars_of(lt.as_str()),
            second: chars_of(ls.as_str()),
        };
        let ghost old_keys = keys@;
        keys.push(key);
        proof {
            assert(rs@.take(i + 1) =~= rs@.take(i as int).push(rs@[i as int]));
            assert(views(rs@.take(i + 1)) =~= views(rs@.take(i as int)).push(rs@[i as int]@));
            assert(title_subtitle_keys(views(rs@.take(i + 1))) =~= title_subtitle_keys(
                views(rs@.take(i as int)),
            ).push(title_subtitle_key(rs@[i as int]@)));
            assert(key_views(keys@) =~= key_views(old_keys).push(key.view()));
        }
        i = i + 1;
    }
    assert(rs@.take(rs@.len() as int) =~= rs@);
    keys
}

/// Orders results by `title_subtitle_key`.
fn sort_by_title_subtitle(results: &Vec<SearchResult>) -> (out: Vec<SearchResult>)
    ensures
        is_stable_sort(views(out@), views(results@), title_subtitle_keys(views(results@))),
{
    let keys = title_subtitle_sort_keys(results);
    assert(key_views(keys@).len() == keys@.len());
    assert(title_subtitle_keys(views(results@)).len() == results@.len());
    let p = stable_order(&keys);
    let out = reorder_results(results, &p);
    proof {
        lemma_sorted_views(out@, results@, p@, key_views(keys@));
    }
    out
}

/// Builds launcher results for installed apps: the deduplicated apps whose
/// names match the query (all of them, in name order, for an empty query),
/// ordered by rank, title and subtitle.
#[verifier::spinoff_prover]
pub fn build_app_results(query: &str, apps: &[AppEntry]) -> (r: Vec<SearchResult>)
    ensures
        app_results_ok(views(r@), query@, apps@),
{
    let q = trim_str(query);
    let deduped = dedupe_apps(apps);
    let mut results: Vec<SearchResult> = Vec::new();
    let mut i: usize = 0;
    while i < deduped.len()
        invariant
            i <= deduped@.len(),
            views(results@) == app_results_spec(deduped@.take(i as int), q@),
        decreases deduped.len() - i,
    {
        let app = &deduped[i];
        let ghost cur = deduped@.take(i + 1);
        proof {
            assert(cur.drop_last() =~= deduped@.take(i as int));
            assert(cur.last() == deduped@[i as int]);
        }
        let rank: Option<i32> = if q.len() == 0 {
            #[verifier::truncate]
            let r = (5000i128 - (i as i128)) as i32;
            Some(r)
        } else {
            let name = chars_of(app.name.as_str());
            match match_score_chars(q.as_slice(), name.as_slice()) {
                Some(s) => {
                    #[verifier::truncate]
                    let r = ((s as i64) + 3000) as i32;
                    Some(r)
                },
                None => None,
            }
        };
        match rank {
            Some(rank) => {
                let r = SearchResult {
                    kind: SearchResultKind::App,
                    title: app.name.clone(),
                    subtitle: string_from_chars(chars_of("Application").as_slice()),
                    screen_number: None,
                    rank,
                    target: ActivationTarget::App { launch_path: app.launch_path.clone() },
                };
                let ghost old_results = results@;
                results.push(r);
                proof {
                    assert(results@ =~= old_results.push(r));
                    assert(views(results@) =~= views(old_results).push(r@));
                }
            },
            None => {},
        }
        i = i + 1;
    }
    assert(deduped@.take(deduped@.len() as int) =~= deduped@);
    let out = sort_by_title_subtitle(&results);
    assert(app_results_ok(views(out@), query@, apps@)) by {
        assert(is_stable_sort(
            deduped@,
            collapse_duplicate_apps(apps@),
            app_keys(collapse_duplicate_apps(apps@)),
        ));
        assert(views(results@) == app_results_spec(deduped@, trim_seq(query@)));
    }
    out
}


// ---------------------------------------------------------------------------
// Favorite folders
// ---------------------------------------------------------------------------

/// A favorite folder is listed only with a normalised path, a path and a name.
pub open spec fn folder_is_listable(f: FavoriteFolderEntry) -> bool {
    trim_seq(f.normalized_path@).len() > 0 && trim_seq(f.path@).len() > 0 && trim_seq(
        f.name@,
    ).len() > 0
}

/// Whether a listable folder before position `i` has the same trimmed
/// normalised path as folder `i`.
pub open spec fn folder_key_seen_before(fs: Seq<FavoriteFolderEntry>, i: int) -> bool {
    exists|j: int|
        0 <= j < i && folder_is_listable(fs[j]) && trim_seq(fs[j].normalized_path@) == trim_seq(
            fs[i].normalized_path@,
        )
}

/// The first listable folder for each trimmed normalised path, in order.
pub open spec fn first_folders(fs: Seq<FavoriteFolderEntry>) -> Seq<FavoriteFolderEntry>
    decreases fs.len(),
{
    if fs.len() == 0 {
        Seq::empty()
    } else {
        let rest = first_folders(fs.drop_last());
        if folder_is_listable(fs.last()) && !folder_key_seen_before(fs, fs.len() - 1) {
            rest.push(fs.last())
        } else {
            rest
        }
    }
}

/// Folders are ordered by normalised name, then path.
pub open spec fn folder_key(f: FavoriteFolderEntry) -> KeyView {
    (0, 0, normalize_for_match_spec(f.name@), f.path@)
}

pub open spec fn folder_keys(fs: Seq<FavoriteFolderEntry>) -> Seq<KeyView> {
    fs.map_values(|f: FavoriteFolderEntry| folder_key(f))
}

/// Whether one of the character vectors `seen` holds `key`.
pub open spec fn key_in(seen: Seq<Vec<char>>, key: Seq<char>) -> bool {
    exists|t: int| 0 <= t < seen.len() && #[trigger] seen[t]@ == key
}

/// Whether a listable folder before position `i` has the trimmed normalised
/// path `key`.
pub open spec fn key_listed_before(fs: Seq<FavoriteFolderEntry>, i: int, key: Seq<char>) -> bool {
    exists|j: int|
        0 <= j < i && folder_is_listable(#[trigger] fs[j]) && trim_seq(fs[j].normalized_path@)
            == key
}

fn reorder_folders(rs: &Vec<FavoriteFolderEntry>, p: &Vec<usize>) -> (out: Vec<FavoriteFolderEntry>)
    requires
        is_permutation(p@, rs@.len()),
    ensures
        out@.len() == rs@.len(),
        forall|i: int| 0 <= i < out@.len() ==> #[trigger] out@[i] == rs@[p@[i] as int],
{
    let mut out: Vec<FavoriteFolderEntry> = Vec::new();
    let mut i: usize = 0;
    while i < p.len()
        invariant
            is_permutation(p@, rs@.len()),
            i <= p@.len(),
            out@.len() == i,
            forall|j: int| 0 <= j < i ==> #[trigger] out@[j] == rs@[p@[j] as int],
        decreases p.len() - i,
    {
        out.push(rs[p[i]].clone());
        i = i + 1;
    }
    out
}

/// Keeps the first listable folder for each normalised path (ignoring blank
/// names, paths or normalised paths) and orders them by normalised name, then
/// path.
#[verifier::spinoff_prover]
pub fn dedupe_favorite_folders(folders: &[FavoriteFolderEntry]) -> (r: Vec<FavoriteFolderEntry>)
    ensures
        is_stable_sort(r@, first_folders(folders@), folder_keys(first_folders(folders@))),
{
    let fs = folders;
    let mut kept: Vec<FavoriteFolderEntry> = Vec::new();
    let mut seen: Vec<Vec<char>> = Vec::new();
    let mut i: usize = 0;
    while i < fs.len()
        invariant
            i <= fs@.len(),
            kept@ == first_folders(fs@.take(i as int)),
            forall|key: Seq<char>|
                #[trigger] key_in(seen@, key) <==> key_listed_before(fs@, i as int, key),
        decreases fs.len() - i,
    {
        let f = &fs[i];
        let ghost cur = fs@.take(i + 1);
        proof {
            assert(cur.drop_last() =~= fs@.take(i as int));
            assert(cur.last() == fs@[i as int]);
        }
        let key = trim_str(f.normalized_path.as_str());
        let path = trim_str(f.path.as_str());
        let name = trim_str(f.name.as_str());
        let listable = key.len() > 0 && path.len() > 0 && name.len() > 0;
        let mut dup = false;
        let mut t: usize = 0;
        while t < seen.len()
            invariant
                t <= seen@.len(),
                !dup ==> forall|u: int| 0 <= u < t ==> seen@[u]@ != key@,
                dup ==> exists|u: int| 0 <= u < seen@.len() && seen@[u]@ == key@,
            decreases seen.len() - t,
        {
            if chars_eq(seen[t].as_slice(), key.as_slice()) {
                dup = true;
            }
            t = t + 1;
        }
        proof {
            assert(folder_key_seen_before(cur, i as int) == folder_key_seen_before(fs@, i as int))
                by {
                if folder_key_seen_before(cur, i as int) {
                    let j = choose|j: int|
                        0 <= j < i && folder_is_listable(cur[j]) && trim_seq(
                            cur[j].normalized_path@,
                        ) == trim_seq(cur[i as int].normalized_path@);
                    assert(cur[j] == fs@[j]);
                }
                if folder_key_seen_before(fs@, i as int) {
                    let j = choose|j: int|
                        0 <= j < i && folder_is_listable(fs@[j]) && trim_seq(
                            fs@[j].normalized_path@,
                        ) == trim_seq(fs@[i as int].normalized_path@);
                    assert(cur[j] == fs@[j]);
                }
            }
            assert(dup == folder_key_seen_before(fs@, i as int)) by {
                if dup {
                    let u = choose|u: int| 0 <= u < seen@.len() && seen@[u]@ == key@;
                    assert(key_in(seen@, key@));
                }
                if folder_key_seen_before(fs@, i as int) {
                    let j = choose|j: int|
                        0 <= j < i && folder_is_listable(fs@[j]) && trim_seq(
                            fs@[j].normalized_path@,
                        ) == trim_seq(fs@[i as int].normalized_path@);
                    assert(folder_is_listable(fs@[j]) && trim_seq(fs@[j].normalized_path@)
                        == key@);
                    assert(key_listed_before(fs@, i as int, key@));
                    assert(key_in(seen@, key@));
                }
            }
        }
        let ghost seen_before = seen@;
        if listable && !dup {
            kept.push(f.clone());
            seen.push(key);
        }
        proof {
            assert(listable == folder_is_listable(fs@[i as int]));
            assert forall|k: Seq<char>|
                #[trigger] key_in(seen@, k) <==> key_listed_before(fs@, i + 1, k) by {
                if key_in(seen@, k) {
                    let t = choose|t: int| 0 <= t < seen@.len() && #[trigger] seen@[t]@ == k;
                    if t < seen_before.len() {
                        assert(seen_before[t]@ == k);
                        assert(key_in(seen_before, k));
                        assert(key_listed_before(fs@, i as int, k));
                        let j = choose|j: int|
                            0 <= j < i && folder_is_listable(#[trigger] fs@[j]) && trim_seq(
                                fs@[j].normalized_path@,
                            ) == k;
                        assert(0 <= j < i + 1 && folder_is_listable(fs@[j]) && trim_seq(
                            fs@[j].normalized_path@,
                        ) == k);
                    } else {
                        assert(seen@[t] == key);
                        assert(folder_is_listable(fs@[i as int]) && trim_seq(
                            fs@[i as int].normalized_path@,
                        ) == k);
                    }
                }
                if key_listed_before(fs@, i + 1, k) {
                    let j = choose|j: int|
                        0 <= j < i + 1 && folder_is_listable(#[trigger] fs@[j]) && trim_seq(
                            fs@[j].normalized_path@,
                        ) == k;
                    if j < i {
                        assert(key_listed_before(fs@, i as int, k));
                        assert(key_in(seen_before, k));
                        let t = choose|t: int|
                            0 <= t < seen_before.len() && #[trigger] seen_before[t]@ == k;
                        assert(seen@[t] == seen_before[t]);
                    } else if !dup {
                        assert(seen@[seen@.len() - 1]@ == k);
                    } else {
                        assert(key_in(seen_before, key@));
                        let t = choose|t: int|
                            0 <= t < seen_before.len() && #[trigger] seen_before[t]@ == key@;
                        assert(seen@[t] == seen_before[t]);
                    }
                }
            }
        }
        i = i + 1;
    }
    assert(fs@.take(fs@.len() as int) =~= fs@);
    let ghost d = kept@;
    let mut keys: Vec<SortKey> = Vec::new();
    let mut j: usize = 0;
    while j < kept.len()
        invariant
            d == kept@,
            j <= d.len(),
            key_views(keys@) == folder_keys(d.take(j as int)),
        decreases kept.len() - j,
    {
        let f = &kept[j];
        let key = SortKey {
            major: 0,
            minor: 0,
            first: normalize_str(f.name.as_str()),
            second: chars_of(f.path.as_str()),
        };
        let ghost old_keys = keys@;
        keys.push(key);
        proof {
            assert(d.take(j + 1) =~= d.take(j as int).push(d[j as int]));
            assert(folder_keys(d.take(j + 1)) =~= folder_keys(d.take(j as int)).push(
                folder_key(d[j as int]),
            ));
            assert(key_views(keys@) =~= key_views(old_keys).push(key.view()));
        }
        j = j + 1;
    }
    assert(d.take(d.len() as int) =~= d);
    assert(key_views(keys@).len() == keys@.len());
    let p = stable_order(&keys);
    let out = reorder_folders(&kept, &p);
    proof {
        lemma_stable_sort_witness(out@, d, p@, key_views(keys@));
    }
    out
}

/// The rank of the folder at `index`: for an empty query 4500 less its index;
/// otherwise its name score plus 3000, or failing that its (display or raw)
/// path score plus 2500.
pub open spec fn folder_rank(q: Seq<char>, f: FavoriteFolderEntry, index: int) -> Option<i32> {
    if q.len() == 0 {
        Some((4500 - index) as i32)
    } else {
        match match_score_spec(q, f.name@) {
            Some(s) => Some((s + 3000) as i32),
            None => {
                let by_path = match match_score_spec(q, display_folder_path_spec(f.path@)) {
                    Some(x) => Some(x),
                    None => match_score_spec(q, f.path@),
                };
                match by_path {
                    Some(s) => Some((s + 2500) as i32),
                    None => None,
                }
            },
        }
    }
}

pub open spec fn folder_view(f: FavoriteFolderEntry, rank: i32) -> ResultView {
    ResultView {
        kind: SearchResultKind::Folder,
        title: f.name@,
        subtitle: display_folder_path_spec(f.path@),
        screen_number: None,
        rank: rank,
        target: TargetView::Folder { path: f.path@ },
    }
}

pub open spec fn folder_results_spec(fs: Seq<FavoriteFolderEntry>, q: Seq<char>) -> Seq<ResultView>
    decreases fs.len(),
{
    if fs.len() == 0 {
        Seq::empty()
    } else {
        let rest = folder_results_spec(fs.drop_last(), q);
        match folder_rank(q, fs.last(), fs.len() - 1) {
            Some(r) => rest.push(folder_view(fs.last(), r)),
            None => rest,
        }
    }
}

/// `rv` is what `build_folder_results` returns for `query` and `folders`.
pub open spec fn folder_results_ok(
    rv: Seq<ResultView>,
    query: Seq<char>,
    folders: Seq<FavoriteFolderEntry>,
) -> bool {
    let c = first_folders(folders);
    exists|d: Seq<FavoriteFolderEntry>|
        #![trigger folder_results_spec(d, trim_seq(query))]
        is_stable_sort(d, c, folder_keys(c)) && is_stable_sort(
            rv,
            folder_results_spec(d, trim_seq(query)),
            title_subtitle_keys(folder_results_spec(d, trim_seq(query))),
        )
}

/// Builds launcher results for favorite folders: the deduplicated folders
/// whose name, display path or path matches the query (all of them for an
/// empty query), each shown with its display path, ordered by rank, title and
/// subtitle.
#[verifier::spinoff_prover]
pub fn build_folder_results(query: &str, folders: &[FavoriteFolderEntry]) -> (r: Vec<SearchResult>)
    ensures
        folder_results_ok(views(r@), query@, folders@),
{
    let q = trim_str(query);
    let deduped = dedupe_favorite_folders(folders);
    let mut results: Vec<SearchResult> = Vec::new();
    let mut i: usize = 0;
    while i < deduped.len()
        invariant
            i <= deduped@.len(),
            views(results@) == folder_results_spec(deduped@.take(i as int), q@),
        decreases deduped.len() - i,
    {
        let f = &deduped[i];
        let ghost cur = deduped@.take(i + 1);
        proof {
            assert(cur.drop_last() =~= deduped@.take(i as int));
            assert(cur.last() == deduped@[i as int]);
        }
        let display = display_folder_path_chars(f.path.as_str());
        let rank: Option<i32> = if q.len() == 0 {
            #[verifier::truncate]
            let r = (4500i128 - (i as i128)) as i32;
            Some(r)
        } else {
            let name = chars_of(f.name.as_str());
            match match_score_chars(q.as_slice(), name.as_slice()) {
                Some(s) => {
                    #[verifier::truncate]
                    let r = ((s as i64) + 3000) as i32;
                    Some(r)
                },
                None => {
                    let by_display = match_score_chars(q.as_slice(), display.as_slice());
                    let by_path = match by_display {
                        Some(x) => Some(x),
                        None => {
                            let raw = chars_of(f.path.as_str());
                            match_score_chars(q.as_slice(), raw.as_slice())
                        },
                    };
                    match by_path {
                        Some(s) => {
                            #[verifier::truncate]
                            let r = ((s as i64) + 2500) as i32;
                            Some(r)
                        },
                        None => None,
                    }
                },
            }
        };
        match rank {
            Some(rank) => {
                let r = SearchResult {
                    kind: SearchResultKind::Folder,
                    title: f.name.clone(),
                    subtitle: string_from_chars(display.as_slice()),
                    screen_number: None,
                    rank,
                    target: ActivationTarget::Folder { path: f.path.clone() },
                };
                let ghost old_results = results@;
                results.push(r);
                proof {
                    assert(results@ =~= old_results.push(r));
                    assert(views(results@) =~= views(old_results).push(r@));
                }
            },
            None => {},
        }
        i = i + 1;
    }
    assert(deduped@.take(deduped@.len() as int) =~= deduped@);
    let out = sort_by_title_subtitle(&results);
    assert(folder_results_ok(views(out@), query@, folders@)) by {
        assert(is_stable_sort(
            deduped@,
            first_folders(folders@),
            folder_keys(first_folders(folders@)),
        ));
        assert(views(results@) == folder_results_spec(deduped@, trim_seq(query@)));
    }
    out
}

/// Launcher results mixed from both sources order by rank, then lowercase
/// title.
pub open spec fn rank_title_key(v: ResultView) -> KeyView {
    (-(v.rank as int), 0, str_lowercase(v.title), Seq::empty())
}

pub open spec fn rank_title_keys(vs: Seq<ResultView>) -> Seq<KeyView> {
    vs.map_values(|v: ResultView| rank_title_key(v))
}

/// Builds launcher mode's results: the app results followed by the folder
/// results, ordered together by rank, then lowercase title.
#[verifier::spinoff_prover]
pub fn build_launcher_results(
    query: &str,
    apps: &[AppEntry],
    folders: &[FavoriteFolderEntry],
) -> (r: Vec<SearchResult>)
    ensures
        exists|a: Seq<ResultView>, f: Seq<ResultView>|
            #![trigger a + f]
            app_results_ok(a, query@, apps@) && folder_results_ok(f, query@, folders@)
                && is_stable_sort(views(r@), a + f, rank_title_keys(a + f)),
{
    let mut results = build_app_results(query, apps);
    let ghost a = views(results@);
    let folder_results = build_folder_results(query, folders);
    let ghost f = views(folder_results@);
    let mut i: usize = 0;
    while i < folder_results.len()
        invariant
            i <= folder_results@.len(),
            f == views(folder_results@),
            views(results@) == a + f.take(i as int),
        decreases folder_results.len() - i,
    {
        let ghost old_results = results@;
        let r = folder_results[i].clone();
        results.push(r);
        proof {
            assert(results@ =~= old_results.push(r));
            assert(views(results@) =~= views(old_results).push(r@));
            assert(f.take(i + 1) =~= f.take(i as int).push(f[i as int]));
        }
        i = i + 1;
    }
    assert(f.take(f.len() as int) =~= f);
    let mut keys: Vec<SortKey> = Vec::new();
    let mut j: usize = 0;
    while j < results.len()
        invariant
            j <= results@.len(),
            key_views(keys@) == rank_title_keys(views(results@.take(j as int))),
        decreases results.len() - j,
    {
        let r = &results[j];
        let lt = str_to_lowercase(r.title.as_str());
        let key = SortKey {
            major: -(r.rank as i64),
            minor: 0,
            first: chars_of(lt.as_str()),
            second: Vec::new(),
        };
        let ghost old_keys = keys@;
        keys.push(key);
        proof {
            assert(results@.take(j + 1) =~= results@.take(j as int).push(results@[j as int]));
            assert(views(results@.take(j + 1)) =~= views(results@.take(j as int)).push(
                results@[j as int]@,
            ));
            assert(rank_title_keys(views(results@.take(j + 1))) =~= rank_title_keys(
                views(results@.take(j as int)),
            ).push(rank_title_key(results@[j as int]@)));
            assert(key_views(keys@) =~= key_views(old_keys).push(key.view()));
        }
        j = j + 1;
    }
    assert(results@.take(results@.len() as int) =~= results@);
    assert(key_views(keys@).len() == keys@.len());
    assert(rank_title_keys(views(results@)).len() == results@.len());
    let p = stable_order(&keys);
    let out = reorder_results(&results, &p);
    proof {
        lemma_sorted_views(out@, results@, p@, key_views(keys@));
        assert(views(results@) == a + f);
    }
    out
}

} // verus!
