//! Monitor numbering: the number Windows shows in a display's device name,
//! and the numbers the switcher gives monitors (each once, the device number
//! where it is free, else the smallest free number from a running fallback),
//! listed in number order.
use vstd::prelude::*;

use crate::geometry::Rect;
use crate::sort::{is_stable_sort, key_views, stable_order, KeyView, SortKey};
use crate::text::{chars_of, is_ascii_digit_char};
use crate::updates::digit_value;

verus! {

/// The number of ASCII digits at the end of `s`.
pub open spec fn trailing_digit_count(s: Seq<char>) -> nat
    decreases s.len(),
{
    if s.len() > 0 && is_ascii_digit_char(s.last()) {
        1 + trailing_digit_count(s.drop_last())
    } else {
        0
    }
}

/// The decimal value of a run of ASCII digits.
pub open spec fn digits_value(d: Seq<char>) -> nat
    decreases d.len(),
{
    if d.len() == 0 {
        0
    } else {
        digits_value(d.drop_last()) * 10 + digit_value(d.last())
    }
}

/// The display number at the end of a device name (`\\.\DISPLAY2` gives 2):
/// none where the name ends in no digit or the digits exceed a `u32`.
pub open spec fn parse_display_number_spec(value: Seq<char>) -> Option<u32> {
    let k = trailing_digit_count(value);
    if k == 0 {
        None
    } else {
        let v = digits_value(value.skip(value.len() - k));
        if v <= u32::MAX {
            Some(v as u32)
        } else {
            None
        }
    }
}

proof fn lemma_trailing_digits(s: Seq<char>)
    ensures
        trailing_digit_count(s) <= s.len(),
        forall|i: int|
            s.len() - trailing_digit_count(s) <= i < s.len() ==> is_ascii_digit_char(#[trigger] s[i]),
        trailing_digit_count(s) < s.len() ==> !is_ascii_digit_char(
            s[s.len() - trailing_digit_count(s) - 1],
        ),
    decreases s.len(),
{
    if s.len() > 0 && is_ascii_digit_char(s.last()) {
        lemma_trailing_digits(s.drop_last());
        assert forall|i: int|
            s.len() - trailing_digit_count(s) <= i < s.len() implies is_ascii_digit_char(
            #[trigger] s[i],
        ) by {
            if i < s.len() - 1 {
                assert(s[i] == s.drop_last()[i]);
            }
        }
    }
}

proof fn lemma_trailing_count_of_digit_suffix(s: Seq<char>, j: int)
    requires
        0 <= j <= s.len(),
        forall|i: int| j <= i < s.len() ==> is_ascii_digit_char(#[trigger] s[i]),
        j == 0 || !is_ascii_digit_char(s[j - 1]),
    ensures
        trailing_digit_count(s) == s.len() - j,
    decreases s.len(),
{
    if s.len() > j {
        lemma_trailing_count_of_digit_suffix(s.drop_last(), j);
    } else if j > 0 {
        assert(s.last() == s[j - 1]);
    }
}

proof fn lemma_digits_value_grows(d: Seq<char>, c: char)
    requires
        is_ascii_digit_char(c),
    ensures
        digits_value(d.push(c)) == digits_value(d) * 10 + digit_value(c),
        digits_value(d.push(c)) >= digits_value(d),
{
    assert(d.push(c).drop_last() =~= d);
}

pub fn parse_display_number(value: &str) -> (r: Option<u32>)
    ensures
        r == parse_display_number_spec(value@),
{
    let s = chars_of(value);
    let n = s.len();
    let mut j: usize = n;
    while j > 0 && '0' <= s[j - 1] && s[j - 1] <= '9'
        invariant
            j <= n,
            n == s@.len(),
            forall|i: int| j <= i < n ==> is_ascii_digit_char(#[trigger] s@[i]),
        decreases j,
    {
        j = j - 1;
    }
    proof {
        lemma_trailing_count_of_digit_suffix(s@, j as int);
    }
    if j == n {
        return None;
    }
    let mut cur: Option<u32> = Some(0);
    let mut k: usize = j;
    assert(s@.subrange(j as int, j as int) =~= Seq::<char>::empty());
    while k < n
        invariant
            j <= k <= n,
            n == s@.len(),
            forall|i: int| j <= i < n ==> is_ascii_digit_char(#[trigger] s@[i]),
            cur == if digits_value(s@.subrange(j as int, k as int)) <= u32::MAX {
                Some(digits_value(s@.subrange(j as int, k as int)) as u32)
            } else {
                None::<u32>
            },
        decreases n - k,
    {
        let c = s[k];
        let d = (c as u32) - ('0' as u32);
        proof {
            assert(s@.subrange(j as int, k + 1) =~= s@.subrange(j as int, k as int).push(c));
            lemma_digits_value_grows(s@.subrange(j as int, k as int), c);
        }
        cur = match cur {
            Some(v) => match v.checked_mul(10) {
                Some(m) => m.checked_add(d),
                None => None,
            },
            None => None,
        };
        k = k + 1;
    }
    assert(s@.subrange(j as int, n as int) =~= s@.skip(n - (n - j)));
    cur
}

// ---------------------------------------------------------------------------
// Numbering monitors
// ---------------------------------------------------------------------------

/// A monitor as the switcher lists it.
#[derive(Clone, Copy, Debug, PartialEq, Eq, Structural)]
pub struct MonitorEntry {
    pub handle: isize,
    pub number: u32,
    pub rect: Rect,
}

/// Whether `used` holds the number `m`.
pub open spec fn holds(used: Seq<u32>, m: int) -> bool {
    used.map_values(|x: u32| x as int).contains(m)
}

/// The smallest number at or above `f` that `used` does not hold.
pub open spec fn next_free(used: Seq<u32>, f: int) -> int {
    choose|n: int| f <= n && !holds(used, n) && forall|m: int| f <= m < n ==> #[trigger] holds(used, m)
}

/// The numbers given to monitors whose device names gave `parsed`, and the
/// fallback counter after them: a parsed number that is still free is kept;
/// any other monitor gets the smallest free number from the counter, which
/// then moves past it.
pub open spec fn assign_numbers(parsed: Seq<Option<u32>>) -> (Seq<u32>, int)
    decreases parsed.len(),
{
    if parsed.len() == 0 {
        (Seq::empty(), 1)
    } else {
        let (ns, f) = assign_numbers(parsed.drop_last());
        match parsed.last() {
            Some(n) if !holds(ns, n as int) => (ns.push(n), f),
            _ => {
                let m = next_free(ns, f);
                (ns.push(m as u32), m + 1)
            },
        }
    }
}

/// Every number from 1 up to `n` is held by `used`, so `n` is at most its
/// length.
proof fn lemma_range_covered(used: Seq<u32>, n: int)
    requires
        0 <= n <= u32::MAX,
        forall|m: int| 1 <= m <= n ==> #[trigger] holds(used, m),
    ensures
        n <= used.len(),
{
    let ints = used.map_values(|x: u32| x as int);
    let range = vstd::set_lib::set_int_range(1, n + 1);
    vstd::set_lib::lemma_int_range(1, n + 1);
    assert forall|m: int| range.contains(m) implies ints.to_set().contains(m) by {
        assert(holds(used, m));
    }
    assert(range.subset_of(ints.to_set()));
    ints.lemma_cardinality_of_set();
    vstd::set_lib::lemma_len_subset(range, ints.to_set());
}

proof fn lemma_holds_push(used: Seq<u32>, x: u32, m: int)
    ensures
        holds(used.push(x), m) == (holds(used, m) || m == x as int),
{
    let a = used.map_values(|y: u32| y as int);
    let b = used.push(x).map_values(|y: u32| y as int);
    assert(b =~= a.push(x as int));
    if holds(used, m) {
        let k = choose|k: int| 0 <= k < a.len() && a[k] == m;
        assert(b[k] == m);
    }
    if m == x as int {
        assert(b[a.len() as int] == m);
    }
    if holds(used.push(x), m) {
        let k = choose|k: int| 0 <= k < b.len() && b[k] == m;
        if k < a.len() {
            assert(a[k] == m);
        }
    }
}

proof fn lemma_assign_len(parsed: Seq<Option<u32>>)
    ensures
        assign_numbers(parsed).0.len() == parsed.len(),
    decreases parsed.len(),
{
    if parsed.len() > 0 {
        lemma_assign_len(parsed.drop_last());
    }
}

fn holds_exec(used: &Vec<u32>, m: u32) -> (r: bool)
    ensures
        r == holds(used@, m as int),
{
    let mut k: usize = 0;
    while k < used.len()
        invariant
            k <= used@.len(),
            forall|j: int| 0 <= j < k ==> used@[j] != m,
        decreases used.len() - k,
    {
        if used[k] == m {
            assert(used@.map_values(|y: u32| y as int)[k as int] == m as int);
            return true;
        }
        k = k + 1;
    }
    proof {
        if holds(used@, m as int) {
            let ints = used@.map_values(|y: u32| y as int);
            let j = choose|j: int| 0 <= j < ints.len() && ints[j] == m as int;
            assert(used@[j] == m);
        }
    }
    false
}

/// The monitors found (handle, number read from the device name, bounds),
/// each with the number `assign_numbers` gives it.
pub open spec fn numbered_monitors(found: Seq<(isize, Option<u32>, Rect)>) -> Seq<MonitorEntry> {
    let ns = assign_numbers(found.map_values(|t: (isize, Option<u32>, Rect)| t.1)).0;
    Seq::new(found.len(), |k: int| MonitorEntry { handle: found[k].0, number: ns[k], rect: found[k].2 })
}

/// Monitors are listed by number, then by left edge.
pub open spec fn monitor_key(m: MonitorEntry) -> KeyView {
    (m.number as int, m.rect.left as int, Seq::empty(), Seq::empty())
}

pub open spec fn monitor_keys(ms: Seq<MonitorEntry>) -> Seq<KeyView> {
    ms.map_values(|m: MonitorEntry| monitor_key(m))
}

/// The monitors that display enumeration found, numbered and listed in number
/// order; no two get the same number.
pub fn number_monitors(found: &[(isize, Option<u32>, Rect)]) -> (r: Vec<MonitorEntry>)
    requires
        found@.len() < u32::MAX,
    ensures
        is_stable_sort(r@, numbered_monitors(found@), monitor_keys(numbered_monitors(found@))),
        forall|i: int, j: int| 0 <= i < j < r@.len() ==> r@[i].number < r@[j].number,
{
    let ghost parsed = found@.map_values(|t: (isize, Option<u32>, Rect)| t.1);
    let mut used: Vec<u32> = Vec::new();
    let mut numbered: Vec<MonitorEntry> = Vec::new();
    let mut fallback: u32 = 1;
    let mut i: usize = 0;
    while i < found.len()
        invariant
            i <= found@.len(),
            found@.len() < u32::MAX,
            parsed == found@.map_values(|t: (isize, Option<u32>, Rect)| t.1),
            used@ == assign_numbers(parsed.take(i as int)).0,
            fallback as int == assign_numbers(parsed.take(i as int)).1,
            used@.len() == i,
            numbered@.len() == i,
            1 <= fallback <= i + 1,
            forall|m: int| 1 <= m < fallback ==> #[trigger] holds(used@, m),
            forall|a: int, b: int| 0 <= a < b < used@.len() ==> used@[a] != used@[b],
            forall|k: int|
                0 <= k < i ==> #[trigger] numbered@[k] == (MonitorEntry {
                    handle: found@[k].0,
                    number: used@[k],
                    rect: found@[k].2,
                }),
        decreases found.len() - i,
    {
        let (handle, parsed_number, rect) = found[i];
        proof {
            assert(parsed.take(i + 1).drop_last() =~= parsed.take(i as int));
            assert(parsed.take(i + 1).last() == parsed_number);
        }
        let ghost old_used = used@;
        let number = match parsed_number {
            Some(n) if !holds_exec(&used, n) => n,
            _ => {
                let mut m = fallback;
                while holds_exec(&used, m)
                    invariant
                        fallback <= m,
                        used@ == old_used,
                        used@.len() == i,
                        i < u32::MAX,
                        forall|x: int| 1 <= x < m ==> #[trigger] holds(used@, x),
                        forall|x: int| fallback <= x < m ==> #[trigger] holds(used@, x),
                    decreases used@.len() + 1 - m,
                {
                    proof {
                        assert forall|x: int| 1 <= x <= m implies #[trigger] holds(used@, x) by {}
                        lemma_range_covered(used@, m as int);
                    }
                    m = m + 1;
                }
                proof {
                    let c = next_free(used@, fallback as int);
                    assert(fallback <= m && !holds(used@, m as int) && forall|x: int|
                        fallback <= x < m ==> #[trigger] holds(used@, x));
                    assert(c == m) by {
                        if c < m {
                            assert(holds(used@, c));
                        } else if c > m {
                            assert(holds(used@, m as int));
                        }
                    }
                    assert forall|x: int| 1 <= x <= m implies #[trigger] holds(used@, x) || x == m by {}
                }
                let ghost new_used = used@.push(m);
                proof {
                    assert forall|x: int| 1 <= x < m + 1 implies #[trigger] holds(new_used, x) by {
                        lemma_holds_push(used@, m, x);
                    }
                    lemma_range_covered(new_used, m as int);
                }
                fallback = m + 1;
                m
            },
        };
        proof {
            assert(!holds(used@, number as int));
            assert forall|x: int| 1 <= x < fallback implies #[trigger] holds(used@.push(number), x) by {
                lemma_holds_push(used@, number, x);
            }
            assert forall|a: int| 0 <= a < used@.len() implies used@[a] != number by {
                if used@[a] == number {
                    assert(used@.map_values(|y: u32| y as int)[a] == number as int);
                }
            }
        }
        used.push(number);
        numbered.push(MonitorEntry { handle, number, rect });
        i = i + 1;
    }
    proof {
        assert(parsed.take(found@.len() as int) =~= parsed);
        lemma_assign_len(parsed);
        assert(numbered@ =~= numbered_monitors(found@));
    }
    let mut keys: Vec<SortKey> = Vec::new();
    let mut k: usize = 0;
    while k < numbered.len()
        invariant
            k <= numbered@.len(),
            keys@.len() == k,
            forall|j: int| 0 <= j < k ==> #[trigger] keys@[j].view() == monitor_key(numbered@[j]),
        decreases numbered.len() - k,
    {
        let m = numbered[k];
        let key = SortKey { major: m.number as i64, minor: m.rect.left as i64, first: Vec::new(), second: Vec::new() };
        assert(key.view() =~= monitor_key(m));
        keys.push(key);
        k = k + 1;
    }
    assert(key_views(keys@) =~= monitor_keys(numbered@));
    let p = stable_order(&keys);
    let mut out: Vec<MonitorEntry> = Vec::new();
    let mut j: usize = 0;
    while j < p.len()
        invariant
            j <= p@.len(),
            p@.len() == numbered@.len(),
            forall|x: int| 0 <= x < p@.len() ==> #[trigger] p@[x] < numbered@.len(),
            out@.len() == j,
            forall|x: int| 0 <= x < j ==> #[trigger] out@[x] == numbered@[p@[x] as int],
        decreases p.len() - j,
    {
        out.push(numbered[p[j]]);
        j = j + 1;
    }
    proof {
        let kv = monitor_keys(numbered@);
        assert forall|a: int, b: int| 0 <= a < b < out@.len() implies out@[a].number < out@[b].number by {
            assert(!crate::sort::key_lt(kv[p@[b] as int], kv[p@[a] as int]));
            assert(p@[a] != p@[b]);
            assert(used@[p@[a] as int] != used@[p@[b] as int]);
        }
    }
    out
}

/// Which neighbour in the numbered list a window moves to.
#[derive(Clone, Copy, Debug, PartialEq, Eq, Structural)]
pub enum MonitorMoveDirection {
    Next,
    Previous,
}

/// The position of the monitor after (or before) position `current` in a
/// list of `count` monitors, wrapping around at the ends.
pub fn adjacent_monitor_index(current: usize, count: usize, direction: MonitorMoveDirection) -> (r:
    usize)
    requires
        current < count,
    ensures
        r < count,
        r == match direction {
            MonitorMoveDirection::Next => (current + 1) % (count as int),
            MonitorMoveDirection::Previous => (current + count - 1) % (count as int),
        },
{
    match direction {
        MonitorMoveDirection::Next => {
            if current + 1 == count {
                assert((current + 1) % (count as int) == 0) by (nonlinear_arith)
                    requires
                        current + 1 == count,
                ;
                0
            } else {
                assert((current + 1) % (count as int) == current + 1) by (nonlinear_arith)
                    requires
                        current + 1 < count,
                ;
                current + 1
            }
        },
        MonitorMoveDirection::Previous => {
            if current == 0 {
                assert((current + count - 1) % (count as int) == count - 1) by (nonlinear_arith)
                    requires
                        current == 0,
                        count > 0,
                ;
                count - 1
            } else {
                assert((current + count - 1) % (count as int) == current - 1) by (nonlinear_arith)
                    requires
                        0 < current < count,
                ;
                current - 1
            }
        },
    }
}

} // verus!
