//! Windows path text as the app reads it: separators, the prefix and root, the
//! last component (file name), its extension and stem, and the parent
//! directory.
//!
//! Both `\` and `/` separate components. A path that starts with two
//! separators has a prefix of two further components (`\\server\share`,
//! `\\?\C:`, `\\.\COM1`); a path that starts with a drive letter and `:` has
//! that drive as its prefix. Empty components and lone `.` components after
//! the prefix and root are not components.
use vstd::prelude::*;

use crate::text::{is_ascii_letter_char, sub_chars};

verus! {

pub open spec fn is_sep_char(c: char) -> bool {
    c == '\\' || c == '/'
}

pub fn is_sep(c: char) -> (r: bool)
    ensures
        r == is_sep_char(c),
{
    c == '\\' || c == '/'
}

/// The end of the component that starts at `i`: the first separator at or
/// after `i`, or the end of `p`.
pub open spec fn comp_end(p: Seq<char>, i: int) -> int
    decreases p.len() - i,
{
    if i >= p.len() {
        p.len() as int
    } else if is_sep_char(p[i]) {
        i
    } else {
        comp_end(p, i + 1)
    }
}

pub open spec fn is_drive_prefix(p: Seq<char>) -> bool {
    p.len() >= 2 && is_ascii_letter_char(p[0]) && p[1] == ':'
}

pub open spec fn starts_with_two_seps(p: Seq<char>) -> bool {
    p.len() >= 2 && is_sep_char(p[0]) && is_sep_char(p[1])
}

/// The length of the prefix and root of `p`.
pub open spec fn root_len(p: Seq<char>) -> int {
    if starts_with_two_seps(p) {
        let a = comp_end(p, 2);
        if a >= p.len() {
            p.len() as int
        } else {
            let b = comp_end(p, a + 1);
            if b >= p.len() {
                p.len() as int
            } else {
                b + 1
            }
        }
    } else if is_drive_prefix(p) {
        if p.len() > 2 && is_sep_char(p[2]) {
            3
        } else {
            2
        }
    } else if p.len() > 0 && is_sep_char(p[0]) {
        1
    } else {
        0
    }
}

/// An absolute Windows path: a drive with a root, or a `\\` prefix.
pub open spec fn is_absolute_path(p: Seq<char>) -> bool {
    starts_with_two_seps(p) || (is_drive_prefix(p) && p.len() > 2 && is_sep_char(p[2]))
}

/// Whether the character before `e` is a lone `.` component of the body.
pub open spec fn dot_comp_before(p: Seq<char>, r: int, e: int) -> bool {
    p[e - 1] == '.' && (e - 1 == r || is_sep_char(p[e - 2]))
}

/// `e` moved back over trailing separators and `.` components, never into the
/// prefix and root (which end at `r`).
pub open spec fn trim_back(p: Seq<char>, r: int, e: int) -> int
    decreases e - r,
{
    if e <= r {
        e
    } else if is_sep_char(p[e - 1]) || dot_comp_before(p, r, e) {
        trim_back(p, r, e - 1)
    } else {
        e
    }
}

/// The start of the component that ends at `e`.
pub open spec fn last_comp_start(p: Seq<char>, r: int, e: int) -> int
    decreases e - r,
{
    if e <= r {
        r
    } else if is_sep_char(p[e - 1]) {
        e
    } else {
        last_comp_start(p, r, e - 1)
    }
}

/// The end of the last component of `p`.
pub open spec fn body_end(p: Seq<char>) -> int {
    trim_back(p, root_len(p), p.len() as int)
}

/// The start of the last component of `p`.
pub open spec fn name_start(p: Seq<char>) -> int {
    last_comp_start(p, root_len(p), body_end(p))
}

/// `Path::file_name`: the last component, unless there is none or it is `..`.
pub open spec fn file_name_spec(p: Seq<char>) -> Option<Seq<char>> {
    if body_end(p) <= root_len(p) {
        None
    } else {
        let n = p.subrange(name_start(p), body_end(p));
        if n == seq!['.', '.'] {
            None
        } else {
            Some(n)
        }
    }
}

/// The index of the last `c` among the first `k` characters of `s`, or -1.
pub open spec fn last_index_before(s: Seq<char>, c: char, k: int) -> int
    decreases k,
{
    if k <= 0 {
        -1
    } else if s[k - 1] == c {
        k - 1
    } else {
        last_index_before(s, c, k - 1)
    }
}

/// The extension of a file name: what follows its last `.`, where that dot
/// is not the first character.
pub open spec fn name_extension(n: Seq<char>) -> Option<Seq<char>> {
    let d = last_index_before(n, '.', n.len() as int);
    if d <= 0 {
        None
    } else {
        Some(n.skip(d + 1))
    }
}

/// The stem of a file name: what precedes its last `.`, or the whole name.
pub open spec fn name_stem(n: Seq<char>) -> Seq<char> {
    let d = last_index_before(n, '.', n.len() as int);
    if d <= 0 {
        n
    } else {
        n.take(d)
    }
}

/// `Path::extension`.
pub open spec fn extension_spec(p: Seq<char>) -> Option<Seq<char>> {
    match file_name_spec(p) {
        Some(n) => name_extension(n),
        None => None,
    }
}

/// `Path::file_stem`.
pub open spec fn file_stem_spec(p: Seq<char>) -> Option<Seq<char>> {
    match file_name_spec(p) {
        Some(n) => Some(name_stem(n)),
        None => None,
    }
}

/// `Path::parent` of an absolute path: everything before its last component,
/// without trailing separators and `.` components.
pub open spec fn parent_spec(p: Seq<char>) -> Option<Seq<char>> {
    if body_end(p) <= root_len(p) {
        None
    } else {
        Some(p.take(trim_back(p, root_len(p), name_start(p))))
    }
}

pub proof fn lemma_comp_end_bounds(p: Seq<char>, i: int)
    requires
        0 <= i,
    ensures
        i <= comp_end(p, i) || i > p.len(),
        comp_end(p, i) <= p.len(),
        comp_end(p, i) >= 0,
        comp_end(p, i) < p.len() ==> is_sep_char(p[comp_end(p, i)]),
    decreases p.len() - i,
{
    if i < p.len() && !is_sep_char(p[i]) {
        lemma_comp_end_bounds(p, i + 1);
    }
}

pub proof fn lemma_root_len_bounds(p: Seq<char>)
    ensures
        0 <= root_len(p) <= p.len(),
{
    if starts_with_two_seps(p) {
        lemma_comp_end_bounds(p, 2);
        let a = comp_end(p, 2);
        if a < p.len() {
            lemma_comp_end_bounds(p, a + 1);
        }
    }
}

pub proof fn lemma_trim_back_bounds(p: Seq<char>, r: int, e: int)
    requires
        0 <= r <= e <= p.len(),
    ensures
        r <= trim_back(p, r, e) <= e,
    decreases e - r,
{
    if e > r && (is_sep_char(p[e - 1]) || dot_comp_before(p, r, e)) {
        lemma_trim_back_bounds(p, r, e - 1);
    }
}

pub proof fn lemma_trim_back_stops(p: Seq<char>, r: int, e: int)
    requires
        0 <= r <= e <= p.len(),
        trim_back(p, r, e) > r,
    ensures
        !is_sep_char(p[trim_back(p, r, e) - 1]),
        !dot_comp_before(p, r, trim_back(p, r, e)),
    decreases e - r,
{
    if e > r && (is_sep_char(p[e - 1]) || dot_comp_before(p, r, e)) {
        lemma_trim_back_stops(p, r, e - 1);
    }
}

pub proof fn lemma_last_comp_start_bounds(p: Seq<char>, r: int, e: int)
    requires
        0 <= r <= e <= p.len(),
    ensures
        r <= last_comp_start(p, r, e) <= e,
    decreases e - r,
{
    if e > r && !is_sep_char(p[e - 1]) {
        lemma_last_comp_start_bounds(p, r, e - 1);
    }
}

pub proof fn lemma_last_index_bounds(s: Seq<char>, c: char, k: int)
    requires
        k <= s.len(),
    ensures
        -1 <= last_index_before(s, c, k) < k || (k <= 0 && last_index_before(s, c, k) == -1),
        last_index_before(s, c, k) >= 0 ==> s[last_index_before(s, c, k)] == c,
    decreases k,
{
    if k > 0 && s[k - 1] != c {
        lemma_last_index_bounds(s, c, k - 1);
    }
}

fn comp_end_exec(p: &[char], i: usize) -> (r: usize)
    requires
        i <= p@.len(),
    ensures
        r == comp_end(p@, i as int),
{
    let mut j = i;
    while j < p.len() && !is_sep(p[j])
        invariant
            i <= j <= p@.len(),
            comp_end(p@, i as int) == comp_end(p@, j as int),
        decreases p.len() - j,
    {
        j = j + 1;
    }
    j
}

pub fn root_len_exec(p: &[char]) -> (r: usize)
    ensures
        r == root_len(p@),
{
    let n = p.len();
    if n >= 2 && is_sep(p[0]) && is_sep(p[1]) {
        let a = comp_end_exec(p, 2);
        proof {
            lemma_comp_end_bounds(p@, 2);
        }
        if a >= n {
            n
        } else {
            let b = comp_end_exec(p, a + 1);
            proof {
                lemma_comp_end_bounds(p@, a + 1);
            }
            if b >= n {
                n
            } else {
                b + 1
            }
        }
    } else if n >= 2 && (('a' <= p[0] && p[0] <= 'z') || ('A' <= p[0] && p[0] <= 'Z')) && p[1] == ':' {
        if n > 2 && is_sep(p[2]) {
            3
        } else {
            2
        }
    } else if n > 0 && is_sep(p[0]) {
        1
    } else {
        0
    }
}

pub fn is_absolute(p: &[char]) -> (r: bool)
    ensures
        r == is_absolute_path(p@),
{
    let n = p.len();
    (n >= 2 && is_sep(p[0]) && is_sep(p[1])) || (n > 2 && (('a' <= p[0] && p[0] <= 'z') || (
    'A' <= p[0] && p[0] <= 'Z')) && p[1] == ':' && is_sep(p[2]))
}

fn trim_back_exec(p: &[char], r: usize, e: usize) -> (out: usize)
    requires
        r <= e <= p@.len(),
    ensures
        out == trim_back(p@, r as int, e as int),
{
    let mut k = e;
    while k > r && (is_sep(p[k - 1]) || (p[k - 1] == '.' && (k - 1 == r || is_sep(p[k - 2]))))
        invariant
            r <= k <= e,
            e <= p@.len(),
            trim_back(p@, r as int, e as int) == trim_back(p@, r as int, k as int),
        decreases k,
    {
        k = k - 1;
    }
    k
}

fn last_comp_start_exec(p: &[char], r: usize, e: usize) -> (out: usize)
    requires
        r <= e <= p@.len(),
    ensures
        out == last_comp_start(p@, r as int, e as int),
{
    let mut k = e;
    while k > r && !is_sep(p[k - 1])
        invariant
            r <= k <= e,
            e <= p@.len(),
            last_comp_start(p@, r as int, e as int) == last_comp_start(p@, r as int, k as int),
        decreases k,
    {
        k = k - 1;
    }
    k
}

/// The start and end of the last component of `p`, where it has one.
pub fn last_component(p: &[char]) -> (r: Option<(usize, usize)>)
    ensures
        match r {
            Some((s, e)) => {
                &&& body_end(p@) > root_len(p@)
                &&& s == name_start(p@)
                &&& e == body_end(p@)
                &&& root_len(p@) <= s < e <= p@.len()
            },
            None => body_end(p@) <= root_len(p@),
        },
{
    let r = root_len_exec(p);
    proof {
        lemma_root_len_bounds(p@);
    }
    let e = trim_back_exec(p, r, p.len());
    proof {
        lemma_trim_back_bounds(p@, r as int, p@.len() as int);
    }
    if e <= r {
        return None;
    }
    let s = last_comp_start_exec(p, r, e);
    proof {
        lemma_last_comp_start_bounds(p@, r as int, e as int);
        // the component is not empty: its last character is no separator
        lemma_trim_back_stops(p@, r as int, p@.len() as int);
        lemma_last_comp_start_bounds(p@, r as int, e - 1);
    }
    Some((s, e))
}

/// `Path::file_name` on Windows path text.
pub fn file_name(p: &[char]) -> (r: Option<Vec<char>>)
    ensures
        match r {
            Some(n) => file_name_spec(p@) == Some(n@),
            None => file_name_spec(p@) is None,
        },
{
    match last_component(p) {
        Some((s, e)) => {
            let n = sub_chars(p, s, e);
            if n.len() == 2 && n[0] == '.' && n[1] == '.' {
                assert(n@ =~= seq!['.', '.']);
                None
            } else {
                proof {
                    if n@ == seq!['.', '.'] {
                        assert(n@[0] == '.' && n@[1] == '.');
                    }
                }
                Some(n)
            }
        },
        None => None,
    }
}

fn last_dot(n: &[char]) -> (r: Option<usize>)
    ensures
        match r {
            Some(d) => d < n@.len() && d as int == last_index_before(n@, '.', n@.len() as int),
            None => last_index_before(n@, '.', n@.len() as int) == -1,
        },
{
    let mut k: usize = n.len();
    while k > 0 && n[k - 1] != '.'
        invariant
            k <= n@.len(),
            last_index_before(n@, '.', n@.len() as int) == last_index_before(n@, '.', k as int),
        decreases k,
    {
        k = k - 1;
    }
    if k == 0 {
        None
    } else {
        Some(k - 1)
    }
}

/// `Path::extension` on Windows path text.
pub fn extension(p: &[char]) -> (r: Option<Vec<char>>)
    ensures
        match r {
            Some(x) => extension_spec(p@) == Some(x@),
            None => extension_spec(p@) is None,
        },
{
    match file_name(p) {
        Some(n) => {
            match last_dot(n.as_slice()) {
                Some(d) if d > 0 => {
                    let len = n.len();
                    let x = sub_chars(n.as_slice(), d + 1, len);
                    assert(x@ =~= n@.skip(d + 1));
                    Some(x)
                },
                _ => None,
            }
        },
        None => None,
    }
}

/// `Path::file_stem` on Windows path text.
pub fn file_stem(p: &[char]) -> (r: Option<Vec<char>>)
    ensures
        match r {
            Some(x) => file_stem_spec(p@) == Some(x@),
            None => file_stem_spec(p@) is None,
        },
{
    match file_name(p) {
        Some(n) => {
            match last_dot(n.as_slice()) {
                Some(d) if d > 0 => {
                    let x = sub_chars(n.as_slice(), 0, d);
                    assert(x@ =~= n@.take(d as int));
                    Some(x)
                },
                _ => Some(n),
            }
        },
        None => None,
    }
}

/// `Path::parent` on absolute Windows path text.
pub fn parent(p: &[char]) -> (r: Option<Vec<char>>)
    ensures
        match r {
            Some(x) => parent_spec(p@) == Some(x@),
            None => parent_spec(p@) is None,
        },
{
    match last_component(p) {
        Some((s, _e)) => {
            let r = root_len_exec(p);
            proof {
                lemma_root_len_bounds(p@);
            }
            let k = trim_back_exec(p, r, s);
            proof {
                lemma_trim_back_bounds(p@, r as int, s as int);
            }
            let x = sub_chars(p, 0, k);
            assert(x@ =~= p@.take(k as int));
            Some(x)
        },
        None => None,
    }
}

} // verus!
