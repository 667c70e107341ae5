//! The update check: version numbers read from release tags, compared part by
//! part, and the notice that a newer release exists.
use vstd::prelude::*;

use crate::sort::Order;
use crate::text::{chars_of, is_ascii_digit_char, string_from_chars, trim_chars, trim_seq, trim_str};

verus! {

/// `s` without the leading run of `c`.
pub open spec fn trim_start_char(s: Seq<char>, c: char) -> Seq<char>
    decreases s.len(),
{
    if s.len() > 0 && s[0] == c {
        trim_start_char(s.drop_first(), c)
    } else {
        s
    }
}

/// The text of a version: trimmed, then leading `v`s, then leading `V`s
/// removed.
pub open spec fn version_text(v: Seq<char>) -> Seq<char> {
    trim_start_char(trim_start_char(trim_seq(v), 'v'), 'V')
}

/// The value of an ASCII digit.
pub open spec fn digit_value(c: char) -> nat {
    (c as int - '0' as int) as nat
}

/// The values of the maximal runs of ASCII digits of `s`, in order.
pub open spec fn digit_run_values(s: Seq<char>) -> Seq<nat>
    decreases s.len(),
{
    if s.len() == 0 {
        Seq::empty()
    } else {
        let rest = digit_run_values(s.drop_last());
        let c = s.last();
        if !is_ascii_digit_char(c) {
            rest
        } else if s.len() >= 2 && is_ascii_digit_char(s[s.len() - 2]) {
            rest.update(rest.len() - 1, rest.last() * 10 + digit_value(c))
        } else {
            rest.push(digit_value(c))
        }
    }
}

/// The values that fit a `u64`, in order.
pub open spec fn values_in_u64(vs: Seq<nat>) -> Seq<u64>
    decreases vs.len(),
{
    if vs.len() == 0 {
        Seq::empty()
    } else {
        let kept = values_in_u64(vs.drop_last());
        if vs.last() <= u64::MAX {
            kept.push(vs.last() as u64)
        } else {
            kept
        }
    }
}

/// The numeric parts of a version: its digit runs that fit a `u64`.
pub open spec fn version_parts_spec(v: Seq<char>) -> Seq<u64> {
    values_in_u64(digit_run_values(version_text(v)))
}

proof fn lemma_runs_nonempty(s: Seq<char>)
    requires
        s.len() > 0,
        is_ascii_digit_char(s.last()),
    ensures
        digit_run_values(s).len() > 0,
    decreases s.len(),
{
    if s.len() >= 2 && is_ascii_digit_char(s[s.len() - 2]) {
        lemma_runs_nonempty(s.drop_last());
    }
}

fn trim_start_char_exec(s: &[char], c: char) -> (r: usize)
    ensures
        r <= s@.len(),
        trim_start_char(s@, c) == s@.skip(r as int),
{
    let mut i: usize = 0;
    assert(s@.skip(0) =~= s@);
    while i < s.len() && s[i] == c
        invariant
            i <= s@.len(),
            trim_start_char(s@, c) == trim_start_char(s@.skip(i as int), c),
        decreases s.len() - i,
    {
        assert(s@.skip(i as int).drop_first() =~= s@.skip(i + 1));
        i = i + 1;
    }
    i
}

/// The numeric parts of a version string: `"v1.10.0"` gives 1, 10 and 0.
pub fn version_parts(value: &str) -> (r: Vec<u64>)
    ensures
        r@ == version_parts_spec(value@),
{
    let t = trim_str(value);
    let a = trim_start_char_exec(t.as_slice(), 'v');
    let rest = crate::text::sub_chars(t.as_slice(), a, t.len());
    assert(rest@ =~= t@.skip(a as int));
    let b = trim_start_char_exec(rest.as_slice(), 'V');
    let text = crate::text::sub_chars(rest.as_slice(), b, rest.len());
    assert(text@ =~= version_text(value@));
    let s = text.as_slice();
    let mut parts: Vec<u64> = Vec::new();
    let mut in_run = false;
    let mut cur: Option<u64> = None;
    let ghost mut cur_value: nat = 0;
    let mut i: usize = 0;
    while i < s.len()
        invariant
            i <= s@.len(),
            in_run == (i > 0 && is_ascii_digit_char(s@[i - 1])),
            in_run ==> digit_run_values(s@.take(i as int)).len() > 0,
            in_run ==> cur_value == digit_run_values(s@.take(i as int)).last(),
            in_run ==> (cur == if cur_value <= u64::MAX {
                Some(cur_value as u64)
            } else {
                None::<u64>
            }),
            parts@ == if in_run {
                values_in_u64(digit_run_values(s@.take(i as int)).drop_last())
            } else {
                values_in_u64(digit_run_values(s@.take(i as int)))
            },
        decreases s.len() - i,
    {
        let c = s[i];
        let ghost prev = s@.take(i as int);
        let ghost next = s@.take(i + 1);
        proof {
            assert(next.drop_last() =~= prev);
        }
        if '0' <= c && c <= '9' {
            let d = (c as u32 - '0' as u32) as u64;
            if in_run {
                proof {
                    assert(next[next.len() - 2] == s@[i - 1]);
                    let rv = digit_run_values(prev);
                    assert(digit_run_values(next) == rv.update(rv.len() - 1, rv.last() * 10 + digit_value(c)));
                    assert(digit_run_values(next).drop_last() =~= rv.drop_last());
                }
                cur = match cur {
                    Some(v) => match v.checked_mul(10) {
                        Some(m) => m.checked_add(d),
                        None => None,
                    },
                    None => None,
                };
                proof {
                    cur_value = cur_value * 10 + digit_value(c);
                }
            } else {
                proof {
                    let rv = digit_run_values(prev);
                    if i > 0 {
                        assert(next[next.len() - 2] == s@[i - 1]);
                    }
                    assert(digit_run_values(next) == rv.push(digit_value(c)));
                    assert(digit_run_values(next).drop_last() =~= rv);
                }
                cur = Some(d);
                proof {
                    cur_value = digit_value(c);
                }
                in_run = true;
            }
        } else {
            if in_run {
                let ghost rv = digit_run_values(prev);
                proof {
                    assert(digit_run_values(next) == rv);
                    assert(rv =~= rv.drop_last().push(rv.last()));
                }
                match cur {
                    Some(v) => {
                        parts.push(v);
                    },
                    None => {},
                }
                proof {
                    assert(values_in_u64(rv) == values_in_u64(rv.drop_last().push(rv.last())));
                    assert(rv.drop_last().push(rv.last()).drop_last() =~= rv.drop_last());
                }
            }
            in_run = false;
        }
        i = i + 1;
    }
    proof {
        assert(s@.take(s@.len() as int) =~= s@);
    }
    if in_run {
        let ghost rv = digit_run_values(s@);
        proof {
            assert(rv =~= rv.drop_last().push(rv.last()));
            assert(rv.drop_last().push(rv.last()).drop_last() =~= rv.drop_last());
        }
        match cur {
            Some(v) => {
                parts.push(v);
            },
            None => {},
        }
    }
    parts
}

/// Part `i` of a version, 0 past its end.
pub open spec fn part_at(p: Seq<u64>, i: int) -> int {
    if 0 <= i < p.len() {
        p[i] as int
    } else {
        0
    }
}

/// Versions compared part by part from part `i`, missing parts read as 0.
pub open spec fn compare_parts_from(a: Seq<u64>, b: Seq<u64>, i: int) -> Order
    decreases a.len() + b.len() - i,
{
    if i < 0 || (i >= a.len() && i >= b.len()) {
        Order::Equal
    } else if part_at(a, i) < part_at(b, i) {
        Order::Less
    } else if part_at(a, i) > part_at(b, i) {
        Order::Greater
    } else {
        compare_parts_from(a, b, i + 1)
    }
}

/// How version `left` compares with version `right`.
pub open spec fn compare_versions_spec(left: Seq<char>, right: Seq<char>) -> Order {
    compare_parts_from(version_parts_spec(left), version_parts_spec(right), 0)
}

pub fn compare_versions(left: &str, right: &str) -> (r: Order)
    ensures
        r == compare_versions_spec(left@, right@),
{
    let a = version_parts(left);
    let b = version_parts(right);
    let count = if a.len() > b.len() {
        a.len()
    } else {
        b.len()
    };
    let mut i: usize = 0;
    while i < count
        invariant
            count == if a@.len() > b@.len() {
                a@.len()
            } else {
                b@.len()
            },
            i <= count,
            a@ == version_parts_spec(left@),
            b@ == version_parts_spec(right@),
            compare_parts_from(a@, b@, 0) == compare_parts_from(a@, b@, i as int),
        decreases count - i,
    {
        let x: u64 = if i < a.len() {
            a[i]
        } else {
            0
        };
        let y: u64 = if i < b.len() {
            b[i]
        } else {
            0
        };
        if x < y {
            return Order::Less;
        }
        if x > y {
            return Order::Greater;
        }
        i = i + 1;
    }
    Order::Equal
}

/// Whether `latest_version` is a newer release than `current_version`.
pub fn is_release_newer(latest_version: &str, current_version: &str) -> (r: bool)
    ensures
        r == (compare_versions_spec(latest_version@, current_version@) == Order::Greater),
{
    match compare_versions(latest_version, current_version) {
        Order::Greater => true,
        _ => false,
    }
}

/// A newer release that the overlay offers.
#[derive(Debug, PartialEq, Eq)]
pub struct UpdateInfo {
    pub latest_version: String,
}

/// The update notice for the tag name of the latest release: its trimmed
/// text, where that is newer than the running version.
pub fn update_info_from_tag(tag_name: &str, current_version: &str) -> (r: Option<UpdateInfo>)
    ensures
        match r {
            Some(info) => info.latest_version@ == trim_seq(tag_name@) && compare_versions_spec(
                trim_seq(tag_name@),
                current_version@,
            ) == Order::Greater,
            None => compare_versions_spec(trim_seq(tag_name@), current_version@) != Order::Greater,
        },
{
    let latest = string_from_chars(trim_str(tag_name).as_slice());
    if !is_release_newer(latest.as_str(), current_version) {
        return None;
    }
    Some(UpdateInfo { latest_version: latest })
}

} // verus!
