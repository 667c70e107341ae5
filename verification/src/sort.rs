//! Stable ordering of result lists by composite keys.
//!
//! Every list the switcher shows is ordered by a key made of up to two
//! integers and two strings, compared in that order; strings compare by code
//! point, which is the byte order of their UTF-8 encodings and so the order of
//! `String`'s `Ord`. Equal keys keep their input order, as `sort_by` keeps them.
use vstd::prelude::*;

verus! {

/// Strict lexicographic order of two character sequences by code point.
pub open spec fn lex_lt(a: Seq<char>, b: Seq<char>) -> bool
    decreases a.len(),
{
    if a.len() == 0 {
        b.len() > 0
    } else if b.len() == 0 {
        false
    } else if a[0] < b[0] {
        true
    } else if a[0] == b[0] {
        lex_lt(a.drop_first(), b.drop_first())
    } else {
        false
    }
}

pub proof fn lemma_lex_irreflexive(a: Seq<char>)
    ensures
        !lex_lt(a, a),
    decreases a.len(),
{
    if a.len() > 0 {
        lemma_lex_irreflexive(a.drop_first());
    }
}

pub proof fn lemma_lex_total(a: Seq<char>, b: Seq<char>)
    ensures
        lex_lt(a, b) || a == b || lex_lt(b, a),
    decreases a.len(),
{
    if a.len() > 0 && b.len() > 0 {
        if a[0] == b[0] {
            lemma_lex_total(a.drop_first(), b.drop_first());
            if a.drop_first() == b.drop_first() {
                assert(a =~= seq![a[0]] + a.drop_first());
                assert(b =~= seq![b[0]] + b.drop_first());
            }
        }
    } else if a.len() == 0 && b.len() == 0 {
        assert(a =~= b);
    }
}

pub proof fn lemma_lex_asymmetric(a: Seq<char>, b: Seq<char>)
    requires
        lex_lt(a, b),
    ensures
        !lex_lt(b, a),
        a != b,
    decreases a.len(),
{
    if a.len() > 0 && b.len() > 0 && a[0] == b[0] {
        lemma_lex_asymmetric(a.drop_first(), b.drop_first());
    }
    if a == b {
        lemma_lex_irreflexive(a);
    }
}

pub proof fn lemma_lex_transitive(a: Seq<char>, b: Seq<char>, c: Seq<char>)
    requires
        lex_lt(a, b),
        lex_lt(b, c),
    ensures
        lex_lt(a, c),
    decreases a.len(),
{
    if a.len() > 0 && b.len() > 0 && c.len() > 0 && a[0] == b[0] && b[0] == c[0] {
        lemma_lex_transitive(a.drop_first(), b.drop_first(), c.drop_first());
    }
}

/// A composite ordering key: two integers, then two strings.
pub struct SortKey {
    pub major: i64,
    pub minor: i64,
    pub first: Vec<char>,
    pub second: Vec<char>,
}

pub type KeyView = (int, int, Seq<char>, Seq<char>);

impl SortKey {
    pub open spec fn view(&self) -> KeyView {
        (self.major as int, self.minor as int, self.first@, self.second@)
    }
}

/// Strict order of keys: the integers by value, then the strings by
/// `lex_lt`.
pub open spec fn key_lt(a: KeyView, b: KeyView) -> bool {
    ||| a.0 < b.0
    ||| a.0 == b.0 && a.1 < b.1
    ||| a.0 == b.0 && a.1 == b.1 && lex_lt(a.2, b.2)
    ||| a.0 == b.0 && a.1 == b.1 && a.2 == b.2 && lex_lt(a.3, b.3)
}

pub proof fn lemma_key_total(a: KeyView, b: KeyView)
    ensures
        key_lt(a, b) || a == b || key_lt(b, a),
{
    lemma_lex_total(a.2, b.2);
    lemma_lex_total(a.3, b.3);
}

pub proof fn lemma_key_asymmetric(a: KeyView, b: KeyView)
    requires
        key_lt(a, b),
    ensures
        !key_lt(b, a),
        a != b,
{
    if a.0 == b.0 && a.1 == b.1 {
        if lex_lt(a.2, b.2) {
            lemma_lex_asymmetric(a.2, b.2);
        } else {
            lemma_lex_asymmetric(a.3, b.3);
        }
    }
}

pub proof fn lemma_key_transitive(a: KeyView, b: KeyView, c: KeyView)
    requires
        key_lt(a, b),
        key_lt(b, c),
    ensures
        key_lt(a, c),
{
    if a.0 == b.0 && b.0 == c.0 && a.1 == b.1 && b.1 == c.1 {
        lemma_lex_irreflexive(a.2);
        lemma_lex_irreflexive(b.2);
        if lex_lt(a.2, b.2) && lex_lt(b.2, c.2) {
            lemma_lex_transitive(a.2, b.2, c.2);
        }
        if a.2 == b.2 && b.2 == c.2 {
            lemma_lex_transitive(a.3, b.3, c.3);
        }
    }
}

/// `p` lists each of `0..n` exactly once.
pub open spec fn is_permutation(p: Seq<usize>, n: nat) -> bool {
    &&& p.len() == n
    &&& forall|i: int| 0 <= i < p.len() ==> #[trigger] p[i] < n
    &&& forall|i: int, j: int| 0 <= i < j < p.len() ==> p[i] != p[j]
}

/// Reading `keys` in the order `p` gives them in nondecreasing order, and
/// equal keys in the order of their positions.
pub open spec fn stably_sorted_by(p: Seq<usize>, keys: Seq<KeyView>) -> bool {
    &&& forall|i: int, j: int|
        #![trigger p[i], p[j]]
        0 <= i < j < p.len() ==> !key_lt(keys[p[j] as int], keys[p[i] as int])
    &&& forall|i: int, j: int|
        #![trigger p[i], p[j]]
        0 <= i < j < p.len() && keys[p[i] as int] == keys[p[j] as int] ==> p[i] < p[j]
}

/// `out` is `inp` stably sorted by `keys` (one key for each element of `inp`).
pub open spec fn is_stable_sort<T>(out: Seq<T>, inp: Seq<T>, keys: Seq<KeyView>) -> bool {
    exists|p: Seq<usize>|
        {
            &&& is_permutation(p, inp.len())
            &&& stably_sorted_by(p, keys)
            &&& out.len() == inp.len()
            &&& forall|i: int| 0 <= i < out.len() ==> #[trigger] out[i] == inp[p[i] as int]
        }
}

/// The outcome of a three-way comparison.
#[derive(Clone, Copy, Debug, PartialEq, Eq, Structural)]
pub enum Order {
    Less,
    Equal,
    Greater,
}

pub fn lex_compare(a: &[char], b: &[char]) -> (r: Order)
    ensures
        r is Less <==> lex_lt(a@, b@),
        r is Equal <==> a@ == b@,
        r is Greater <==> lex_lt(b@, a@),
{
    let mut i: usize = 0;
    proof {
        assert(a@.skip(0) =~= a@);
        assert(b@.skip(0) =~= b@);
    }
    while i < a.len() && i < b.len() && a[i] == b[i]
        invariant
            i <= a@.len(),
            i <= b@.len(),
            a@.take(i as int) == b@.take(i as int),
            lex_lt(a@, b@) == lex_lt(a@.skip(i as int), b@.skip(i as int)),
            lex_lt(b@, a@) == lex_lt(b@.skip(i as int), a@.skip(i as int)),
        decreases a.len() - i,
    {
        proof {
            assert(a@.skip(i as int).drop_first() =~= a@.skip(i + 1));
            assert(b@.skip(i as int).drop_first() =~= b@.skip(i + 1));
            assert(a@.take(i + 1) =~= a@.take(i as int).push(a@[i as int]));
            assert(b@.take(i + 1) =~= b@.take(i as int).push(b@[i as int]));
        }
        i = i + 1;
    }
    proof {
        lemma_lex_total(a@, b@);
        if a@ == b@ {
            lemma_lex_irreflexive(a@);
        }
    }
    if i < a.len() && i < b.len() {
        proof {
            assert(a@ != b@) by {
                if a@ == b@ {
                    assert(a@[i as int] == b@[i as int]);
                }
            }
        }
        if a[i] < b[i] {
            Order::Less
        } else {
            Order::Greater
        }
    } else if i < b.len() {
        proof {
            assert(a@.len() == i);
            assert(a@.skip(i as int).len() == 0);
            assert(a@ != b@);
        }
        Order::Less
    } else if i < a.len() {
        proof {
            assert(b@.skip(i as int).len() == 0);
            assert(a@ != b@);
        }
        Order::Greater
    } else {
        proof {
            assert(a@ =~= a@.take(i as int));
            assert(b@ =~= b@.take(i as int));
        }
        Order::Equal
    }
}

pub fn key_less(a: &SortKey, b: &SortKey) -> (r: bool)
    ensures
        r == key_lt(a.view(), b.view()),
{
    if a.major != b.major {
        return a.major < b.major;
    }
    if a.minor != b.minor {
        return a.minor < b.minor;
    }
    match lex_compare(a.first.as_slice(), b.first.as_slice()) {
        Order::Less => true,
        Order::Greater => {
            proof {
                lemma_lex_asymmetric(b.first@, a.first@);
            }
            false
        },
        Order::Equal => {
            match lex_compare(a.second.as_slice(), b.second.as_slice()) {
                Order::Less => true,
                Order::Greater => {
                    proof {
                        lemma_lex_asymmetric(b.second@, a.second@);
                    }
                    false
                },
                Order::Equal => {
                    proof {
                        lemma_lex_irreflexive(a.second@);
                    }
                    false
                },
            }
        },
    }
}

pub open spec fn key_views(keys: Seq<SortKey>) -> Seq<KeyView> {
    keys.map_values(|k: SortKey| k.view())
}

/// The order in which to read `keys` so that they come out stably sorted.
pub fn stable_order(keys: &Vec<SortKey>) -> (p: Vec<usize>)
    ensures
        is_permutation(p@, keys@.len()),
        stably_sorted_by(p@, key_views(keys@)),
{
    let ghost kv = key_views(keys@);
    let mut p: Vec<usize> = Vec::new();
    let mut k: usize = 0;
    while k < keys.len()
        invariant
            kv == key_views(keys@),
            kv.len() == keys@.len(),
            k <= keys@.len(),
            is_permutation(p@, k as nat),
            stably_sorted_by(p@, kv),
        decreases keys.len() - k,
    {
        // Find the first position whose key is strictly greater than key k.
        let mut pos: usize = 0;
        while pos < p.len() && !key_less(&keys[k], &keys[p[pos]])
            invariant
                kv == key_views(keys@),
                kv.len() == keys@.len(),
                k < keys@.len(),
                pos <= p@.len(),
                is_permutation(p@, k as nat),
                forall|i: int| 0 <= i < pos ==> !key_lt(kv[k as int], #[trigger] kv[p@[i] as int]),
            decreases p.len() - pos,
        {
            pos = pos + 1;
        }
        let ghost old_p = p@;
        proof {
            assert forall|i: int| pos <= i < old_p.len() implies key_lt(
                kv[k as int],
                #[trigger] kv[old_p[i] as int],
            ) by {
                assert(key_lt(kv[k as int], kv[old_p[pos as int] as int]));
                if i > pos {
                    assert(!key_lt(kv[old_p[i] as int], kv[old_p[pos as int] as int]));
                    lemma_key_total(kv[old_p[pos as int] as int], kv[old_p[i] as int]);
                    if key_lt(kv[old_p[pos as int] as int], kv[old_p[i] as int]) {
                        lemma_key_transitive(
                            kv[k as int],
                            kv[old_p[pos as int] as int],
                            kv[old_p[i] as int],
                        );
                    }
                }
            }
            assert forall|i: int| 0 <= i < pos implies !key_lt(
                kv[k as int],
                #[trigger] kv[old_p[i] as int],
            ) by {}
        }
        p.insert(pos, k);
        proof {
            let np = p@;
            assert(np =~= old_p.subrange(0, pos as int).push(k).add(
                old_p.subrange(pos as int, old_p.len() as int),
            ));
            assert forall|i: int| 0 <= i < np.len() implies #[trigger] np[i] < k + 1 by {
                if i < pos {
                    assert(np[i] == old_p[i]);
                } else if i > pos {
                    assert(np[i] == old_p[i - 1]);
                }
            }
            assert forall|i: int, j: int| 0 <= i < j < np.len() implies np[i] != np[j] by {
                if i < pos && j < pos {
                    assert(np[i] == old_p[i] && np[j] == old_p[j]);
                } else if i < pos && j == pos {
                    assert(np[i] == old_p[i]);
                } else if i < pos && j > pos {
                    assert(np[i] == old_p[i] && np[j] == old_p[j - 1]);
                } else if i == pos {
                    assert(np[j] == old_p[j - 1]);
                } else {
                    assert(np[i] == old_p[i - 1] && np[j] == old_p[j - 1]);
                }
            }
            assert forall|i: int, j: int|
                #![trigger np[i], np[j]]
                0 <= i < j < np.len() implies !key_lt(kv[np[j] as int], kv[np[i] as int]) && (
                kv[np[i] as int] == kv[np[j] as int] ==> np[i] < np[j]) by {
                if i < pos && j < pos {
                    assert(np[i] == old_p[i] && np[j] == old_p[j]);
                } else if i < pos && j == pos {
                    assert(np[i] == old_p[i]);
                    assert(!key_lt(kv[k as int], kv[old_p[i] as int]));
                } else if i < pos && j > pos {
                    assert(np[i] == old_p[i] && np[j] == old_p[j - 1]);
                } else if i == pos {
                    assert(np[j] == old_p[j - 1]);
                    assert(key_lt(kv[k as int], kv[old_p[j - 1] as int]));
                    lemma_key_asymmetric(kv[k as int], kv[old_p[j - 1] as int]);
                } else {
                    assert(np[i] == old_p[i - 1] && np[j] == old_p[j - 1]);
                }
            }
        }
        k = k + 1;
    }
    p
}

/// A permutation of `0..n` takes every value below `n`.
pub proof fn lemma_permutation_onto(p: Seq<usize>, n: nat, x: int)
    requires
        is_permutation(p, n),
        0 <= x < n,
    ensures
        exists|i: int| 0 <= i < p.len() && p[i] == x,
{
    let ints = p.map_values(|v: usize| v as int);
    let range = vstd::set_lib::set_int_range(0, n as int);
    vstd::set_lib::lemma_int_range(0, n as int);
    assert(ints.no_duplicates()) by {
        assert forall|i: int, j: int|
            0 <= i < ints.len() && 0 <= j < ints.len() && i != j implies ints[i] != ints[j] by {
            if i < j {
                assert(p[i] != p[j]);
            } else {
                assert(p[j] != p[i]);
            }
        }
    }
    ints.unique_seq_to_set();
    ints.lemma_cardinality_of_set();
    assert forall|v: int| ints.to_set().contains(v) implies range.contains(v) by {
        let i = choose|i: int| 0 <= i < ints.len() && ints[i] == v;
        assert(p[i] < n);
    }
    assert(ints.to_set().subset_of(range));
    vstd::set_lib::lemma_subset_equality(ints.to_set(), range);
    assert(range.contains(x));
    assert(ints.to_set().contains(x));
    let i = choose|i: int| 0 <= i < ints.len() && ints[i] == x;
    assert(p[i] == x);
}

proof fn lemma_stable_orders_agree_upto(
    p1: Seq<usize>,
    p2: Seq<usize>,
    keys: Seq<KeyView>,
    k: int,
)
    requires
        is_permutation(p1, keys.len()),
        is_permutation(p2, keys.len()),
        stably_sorted_by(p1, keys),
        stably_sorted_by(p2, keys),
        0 <= k <= keys.len(),
    ensures
        forall|j: int| 0 <= j < k ==> p1[j] == p2[j],
    decreases k,
{
    if k > 0 {
        let i = k - 1;
        lemma_stable_orders_agree_upto(p1, p2, keys, i);
        let a = p1[i];
        let b = p2[i];
        if a != b {
            lemma_permutation_onto(p2, keys.len(), a as int);
            let j = choose|j: int| 0 <= j < p2.len() && p2[j] == a;
            lemma_permutation_onto(p1, keys.len(), b as int);
            let m = choose|m: int| 0 <= m < p1.len() && p1[m] == b;
            if j < i {
                assert(p1[j] == p2[j]);
                assert(p1[j] != p1[i]);
            }
            if m < i {
                assert(p1[m] == p2[m]);
                assert(p2[m] != p2[i]);
            }
            assert(j > i && m > i);
            assert(!key_lt(keys[p2[j] as int], keys[p2[i] as int]));
            assert(!key_lt(keys[p1[m] as int], keys[p1[i] as int]));
            lemma_key_total(keys[a as int], keys[b as int]);
            assert(keys[p2[i] as int] == keys[p2[j] as int] ==> p2[i] < p2[j]);
            assert(keys[p1[i] as int] == keys[p1[m] as int] ==> p1[i] < p1[m]);
        }
    }
}

/// A stable sort is unique: two stable sorts of one list by the same keys
/// are the same list.
pub proof fn lemma_stable_sort_unique<T>(o1: Seq<T>, o2: Seq<T>, inp: Seq<T>, keys: Seq<KeyView>)
    requires
        keys.len() == inp.len(),
        is_stable_sort(o1, inp, keys),
        is_stable_sort(o2, inp, keys),
    ensures
        o1 == o2,
{
    let p1 = choose|p: Seq<usize>|
        {
            &&& is_permutation(p, inp.len())
            &&& stably_sorted_by(p, keys)
            &&& o1.len() == inp.len()
            &&& forall|i: int| 0 <= i < o1.len() ==> #[trigger] o1[i] == inp[p[i] as int]
        };
    let p2 = choose|p: Seq<usize>|
        {
            &&& is_permutation(p, inp.len())
            &&& stably_sorted_by(p, keys)
            &&& o2.len() == inp.len()
            &&& forall|i: int| 0 <= i < o2.len() ==> #[trigger] o2[i] == inp[p[i] as int]
        };
    lemma_stable_orders_agree_upto(p1, p2, keys, keys.len() as int);
    assert forall|i: int| 0 <= i < o1.len() implies o1[i] == o2[i] by {
        assert(o1[i] == inp[p1[i] as int]);
        assert(o2[i] == inp[p2[i] as int]);
    }
    assert(o1 =~= o2);
}

/// A list whose keys are already in order is its own stable sort.
pub proof fn lemma_sorted_is_own_stable_sort<T>(s: Seq<T>, keys: Seq<KeyView>)
    requires
        keys.len() == s.len(),
        s.len() <= usize::MAX,
        forall|i: int, j: int| 0 <= i < j < s.len() ==> !key_lt(#[trigger] keys[j], #[trigger] keys[i]),
    ensures
        is_stable_sort(s, s, keys),
{
    let p = Seq::new(s.len(), |i: int| i as usize);
    assert(is_permutation(p, s.len()));
    assert(stably_sorted_by(p, keys)) by {
        assert forall|i: int, j: int|
            #![trigger p[i], p[j]]
            0 <= i < j < p.len() implies !key_lt(keys[p[j] as int], keys[p[i] as int]) by {
            assert(p[i] as int == i && p[j] as int == j);
        }
    }
    assert forall|i: int| 0 <= i < s.len() implies #[trigger] s[i] == s[p[i] as int] by {}
}

/// Everything in the input of a stable sort is in its output.
pub proof fn lemma_stable_sort_contains<T>(out: Seq<T>, inp: Seq<T>, keys: Seq<KeyView>, x: T)
    requires
        is_stable_sort(out, inp, keys),
        inp.contains(x),
    ensures
        out.contains(x),
{
    let p = choose|p: Seq<usize>|
        {
            &&& is_permutation(p, inp.len())
            &&& stably_sorted_by(p, keys)
            &&& out.len() == inp.len()
            &&& forall|i: int| 0 <= i < out.len() ==> #[trigger] out[i] == inp[p[i] as int]
        };
    let j = choose|j: int| 0 <= j < inp.len() && inp[j] == x;
    lemma_permutation_onto(p, inp.len(), j);
    let i = choose|i: int| 0 <= i < p.len() && p[i] == j;
    assert(out[i] == x);
}

/// The keys of a stable sort's output never step down.
pub proof fn lemma_stable_sort_ordered<T>(
    out: Seq<T>,
    inp: Seq<T>,
    key: spec_fn(T) -> KeyView,
)
    requires
        is_stable_sort(out, inp, inp.map_values(key)),
    ensures
        forall|i: int, j: int| 0 <= i < j < out.len() ==> !key_lt(key(#[trigger] out[j]), key(#[trigger] out[i])),
{
    let keys = inp.map_values(key);
    let p = choose|p: Seq<usize>|
        {
            &&& is_permutation(p, inp.len())
            &&& stably_sorted_by(p, keys)
            &&& out.len() == inp.len()
            &&& forall|i: int| 0 <= i < out.len() ==> #[trigger] out[i] == inp[p[i] as int]
        };
    assert forall|i: int, j: int| 0 <= i < j < out.len() implies !key_lt(
        key(#[trigger] out[j]),
        key(#[trigger] out[i]),
    ) by {
        assert(out[i] == inp[p[i] as int] && out[j] == inp[p[j] as int]);
        assert(keys[p[i] as int] == key(inp[p[i] as int]));
        assert(keys[p[j] as int] == key(inp[p[j] as int]));
    }
}

} // verus!
