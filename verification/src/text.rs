//! Character classes and string helpers shared by the search, launcher and
//! startup logic. Strings are modelled as `Seq<char>`, the view of `str` and
//! `String`; executable helpers work on `Vec<char>`.
use vstd::prelude::*;
use vstd::std_specs::iter::IteratorSpec;

verus! {

broadcast use vstd::string::group_string_axioms;

// ---------------------------------------------------------------------------
// Character classes
// ---------------------------------------------------------------------------

/// The Unicode general category Cc: U+0000..=U+001F and U+007F..=U+009F.
pub open spec fn is_control_char(c: char) -> bool {
    (c as u32) <= 0x1f || (0x7f <= (c as u32) && (c as u32) <= 0x9f)
}

/// The Unicode `White_Space` property, the class that `str::split_whitespace`
/// and `str::trim` split and trim on.
pub open spec fn is_whitespace_char(c: char) -> bool {
    let u = c as u32;
    ||| (0x09 <= u && u <= 0x0d)
    ||| u == 0x20
    ||| u == 0x85
    ||| u == 0xa0
    ||| u == 0x1680
    ||| (0x2000 <= u && u <= 0x200a)
    ||| u == 0x2028
    ||| u == 0x2029
    ||| u == 0x202f
    ||| u == 0x205f
    ||| u == 0x3000
}

pub open spec fn is_ascii_digit_char(c: char) -> bool {
    '0' <= c && c <= '9'
}

pub open spec fn is_ascii_letter_char(c: char) -> bool {
    ('a' <= c && c <= 'z') || ('A' <= c && c <= 'Z')
}

/// ASCII lowercase of one character; every other character is unchanged.
pub open spec fn ascii_lower_char(c: char) -> char {
    if 'A' <= c && c <= 'Z' {
        ((c as u32) + 32) as char
    } else {
        c
    }
}

pub fn is_control(c: char) -> (r: bool)
    ensures
        r == is_control_char(c),
{
    let u = c as u32;
    u <= 0x1f || (0x7f <= u && u <= 0x9f)
}

pub fn is_whitespace(c: char) -> (r: bool)
    ensures
        r == is_whitespace_char(c),
{
    let u = c as u32;
    (0x09 <= u && u <= 0x0d) || u == 0x20 || u == 0x85 || u == 0xa0 || u == 0x1680 || (0x2000
        <= u && u <= 0x200a) || u == 0x2028 || u == 0x2029 || u == 0x202f || u == 0x205f || u
        == 0x3000
}

pub fn ascii_lower(c: char) -> (r: char)
    ensures
        r == ascii_lower_char(c),
{
    if 'A' <= c && c <= 'Z' {
        let b = c as u8;
        assert(b + 32 < 256);
        let r = (b + 32) as char;
        assert(r as u32 == (c as u32) + 32);
        r
    } else {
        c
    }
}

// ---------------------------------------------------------------------------
// Unicode case mapping and classification, taken from std
// ---------------------------------------------------------------------------

/// What `char::to_lowercase` yields for one character.
pub uninterp spec fn lowercase_of(c: char) -> Seq<char>;

/// What `char::to_uppercase` yields for one character.
pub uninterp spec fn uppercase_of(c: char) -> Seq<char>;

/// Whether `char::is_alphanumeric` holds of one character.
pub uninterp spec fn is_alphanumeric_char(c: char) -> bool;

/// What `str::to_lowercase` returns for a whole string.
pub uninterp spec fn str_lowercase(s: Seq<char>) -> Seq<char>;

/// Whether `u` is a UTF-16 surrogate unit.
pub open spec fn is_surrogate(u: u16) -> bool {
    0xd800 <= u <= 0xdfff
}

/// Whether `units` start with a high surrogate followed by a low surrogate.
pub open spec fn starts_with_surrogate_pair(units: Seq<u16>) -> bool {
    &&& units.len() >= 2
    &&& 0xd800 <= units[0] <= 0xdbff
    &&& 0xdc00 <= units[1] <= 0xdfff
}

/// The character that the surrogate pair at the start of `units` encodes.
pub open spec fn surrogate_pair_char(units: Seq<u16>) -> char {
    (0x10000 + (units[0] - 0xd800) * 0x400 + (units[1] - 0xdc00)) as char
}

/// The text that UTF-16 `units` encode: a unit outside the surrogate range is
/// that character, a high surrogate followed by a low one is the character
/// they encode; `None` where any other surrogate occurs.
pub open spec fn utf16_decode(units: Seq<u16>) -> Option<Seq<char>>
    decreases units.len(),
{
    if units.len() == 0 {
        Some(Seq::empty())
    } else if !is_surrogate(units[0]) {
        match utf16_decode(units.drop_first()) {
            Some(rest) => Some(seq![units[0] as char] + rest),
            None => None,
        }
    } else if starts_with_surrogate_pair(units) {
        match utf16_decode(units.skip(2)) {
            Some(rest) => Some(seq![surrogate_pair_char(units)] + rest),
            None => None,
        }
    } else {
        None
    }
}

/// The text of UTF-16 `units` with each surrogate that is not part of a pair
/// replaced by U+FFFD.
pub open spec fn utf16_decode_lossy(units: Seq<u16>) -> Seq<char>
    decreases units.len(),
{
    if units.len() == 0 {
        Seq::empty()
    } else if !is_surrogate(units[0]) {
        seq![units[0] as char] + utf16_decode_lossy(units.drop_first())
    } else if starts_with_surrogate_pair(units) {
        seq![surrogate_pair_char(units)] + utf16_decode_lossy(units.skip(2))
    } else {
        seq!['\u{fffd}'] + utf16_decode_lossy(units.drop_first())
    }
}

/// Calls `char::to_lowercase` and collects the characters it yields; the
/// contract claims only that the result is the Unicode lowercase mapping of `c`,
/// a function of `c` alone.
#[verifier::external_body]
pub(crate) fn char_to_lowercase(c: char) -> (r: Vec<char>)
    ensures
        r@ == lowercase_of(c),
{
    c.to_lowercase().collect()
}

/// Calls `char::to_uppercase` and collects the characters it yields; the
/// contract claims only that the result is a function of `c` alone.
#[verifier::external_body]
pub(crate) fn char_to_uppercase(c: char) -> (r: Vec<char>)
    ensures
        r@ == uppercase_of(c),
{
    c.to_uppercase().collect()
}

/// Calls `char::is_alphanumeric`; the contract claims that the answer is a
/// function of `c` alone.
#[verifier::external_body]
fn char_is_alphanumeric(c: char) -> (r: bool)
    ensures
        r == is_alphanumeric_char(c),
{
    c.is_alphanumeric()
}

/// Calls `str::to_lowercase`; the contract claims that the result is a function
/// of the characters of `s` alone (the context-dependent mapping of final
/// sigma is the reason it is not stated per character).
#[verifier::external_body]
pub(crate) fn str_to_lowercase(s: &str) -> (r: String)
    ensures
        r@ == str_lowercase(s@),
{
    s.to_lowercase()
}

/// Calls `char::from_u32`, which gives the character whose code point is `u`
/// when `u` is a Unicode scalar value (below 0x110000 and not a surrogate),
/// and `None` otherwise.
#[verifier::external_body]
fn char_from_u32(u: u32) -> (r: Option<char>)
    ensures
        r == (if u < 0xd800 || (0xe000 <= u && u < 0x110000) {
            Some(u as char)
        } else {
            None
        }),
{
    char::from_u32(u)
}

/// `text` in front of the decoded rest, where there is one.
pub open spec fn prefix_decoded(text: Seq<char>, rest: Option<Seq<char>>) -> Option<Seq<char>> {
    match rest {
        Some(r) => Some(text + r),
        None => None,
    }
}

/// Decodes UTF-16, failing on a surrogate that is not part of a high-low pair
/// (what `String::from_utf16` does).
pub(crate) fn decode_utf16(units: &[u16]) -> (r: Option<String>)
    ensures
        match r {
            Some(s) => utf16_decode(units@) == Some(s@),
            None => utf16_decode(units@) is None,
        },
{
    let mut out: Vec<char> = Vec::new();
    let mut i: usize = 0;
    assert(units@.skip(0) =~= units@);
    while i < units.len()
        invariant
            i <= units@.len(),
            utf16_decode(units@) == prefix_decoded(out@, utf16_decode(units@.skip(i as int))),
        decreases units.len() - i,
    {
        let ghost x = units@.skip(i as int);
        let u = units[i];
        assert(x[0] == u);
        if u < 0xd800 || u > 0xdfff {
            let c = char_from_u32(u as u32).unwrap();
            proof {
                assert(x.drop_first() =~= units@.skip(i + 1));
                assert(c == (u as char));
                match utf16_decode(units@.skip(i + 1)) {
                    Some(rest) => {
                        assert(out@.push(c) + rest =~= out@ + (seq![c] + rest));
                    },
                    None => {},
                }
            }
            out.push(c);
            i = i + 1;
        } else if u <= 0xdbff && i + 1 < units.len() && 0xdc00 <= units[i + 1] && units[i + 1]
            <= 0xdfff {
            let lo = units[i + 1];
            let cp: u32 = 0x10000 + ((u - 0xd800) as u32) * 0x400 + ((lo - 0xdc00) as u32);
            let c = char_from_u32(cp).unwrap();
            proof {
                assert(x[1] == lo);
                assert(starts_with_surrogate_pair(x));
                assert(x.skip(2) =~= units@.skip(i + 2));
                assert(c == surrogate_pair_char(x));
                match utf16_decode(units@.skip(i + 2)) {
                    Some(rest) => {
                        assert(out@.push(c) + rest =~= out@ + (seq![c] + rest));
                    },
                    None => {},
                }
            }
            out.push(c);
            i = i + 2;
        } else {
            proof {
                assert(!starts_with_surrogate_pair(x));
            }
            return None;
        }
    }
    assert(units@.skip(i as int) =~= Seq::<u16>::empty());
    assert(out@ + Seq::<char>::empty() =~= out@);
    Some(string_from_chars(out.as_slice()))
}

/// Decodes UTF-16, putting U+FFFD for each surrogate that is not part of a
/// high-low pair (what `String::from_utf16_lossy` does).
pub(crate) fn decode_utf16_lossy(units: &[u16]) -> (r: String)
    ensures
        r@ == utf16_decode_lossy(units@),
{
    let mut out: Vec<char> = Vec::new();
    let mut i: usize = 0;
    assert(units@.skip(0) =~= units@);
    while i < units.len()
        invariant
            i <= units@.len(),
            utf16_decode_lossy(units@) == out@ + utf16_decode_lossy(units@.skip(i as int)),
        decreases units.len() - i,
    {
        let ghost x = units@.skip(i as int);
        let ghost rest1 = utf16_decode_lossy(units@.skip(i + 1));
        let u = units[i];
        assert(x[0] == u);
        assert(x.drop_first() =~= units@.skip(i + 1));
        if u < 0xd800 || u > 0xdfff {
            let c = char_from_u32(u as u32).unwrap();
            assert(c == (u as char));
            assert(out@.push(c) + rest1 =~= out@ + (seq![c] + rest1));
            out.push(c);
            i = i + 1;
        } else if u <= 0xdbff && i + 1 < units.len() && 0xdc00 <= units[i + 1] && units[i + 1]
            <= 0xdfff {
            let lo = units[i + 1];
            let cp: u32 = 0x10000 + ((u - 0xd800) as u32) * 0x400 + ((lo - 0xdc00) as u32);
            let c = char_from_u32(cp).unwrap();
            proof {
                let rest2 = utf16_decode_lossy(units@.skip(i + 2));
                assert(x[1] == lo);
                assert(starts_with_surrogate_pair(x));
                assert(x.skip(2) =~= units@.skip(i + 2));
                assert(c == surrogate_pair_char(x));
                assert(out@.push(c) + rest2 =~= out@ + (seq![c] + rest2));
            }
            out.push(c);
            i = i + 2;
        } else {
            let c = '\u{fffd}';
            proof {
                assert(!starts_with_surrogate_pair(x));
            }
            assert(out@.push(c) + rest1 =~= out@ + (seq![c] + rest1));
            out.push(c);
            i = i + 1;
        }
    }
    assert(units@.skip(i as int) =~= Seq::<u16>::empty());
    assert(out@ + Seq::<char>::empty() =~= out@);
    string_from_chars(out.as_slice())
}

/// Calls `String::push`, which appends one character.
#[verifier::external_body]
fn push_char(s: &mut String, c: char)
    ensures
        final(s)@ == old(s)@.push(c),
{
    s.push(c)
}

// ---------------------------------------------------------------------------
// Conversions between strings and character vectors
// ---------------------------------------------------------------------------

pub fn chars_of(s: &str) -> (v: Vec<char>)
    ensures
        v@ == s@,
{
    let mut v: Vec<char> = Vec::new();
    for c in it: s.chars()
        invariant
            it.seq() == s@,
            v@ == s@.take(it.index()),
    {
        v.push(c);
    }
    v
}

pub fn string_from_chars(v: &[char]) -> (s: String)
    ensures
        s@ == v@,
{
    let mut s = String::new();
    let mut i: usize = 0;
    while i < v.len()
        invariant
            i <= v@.len(),
            s@ == v@.take(i as int),
        decreases v.len() - i,
    {
        push_char(&mut s, v[i]);
        assert(v@.take(i + 1) =~= v@.take(i as int).push(v@[i as int]));
        i = i + 1;
    }
    assert(v@.take(v@.len() as int) =~= v@);
    s
}

pub fn append_chars(out: &mut Vec<char>, more: &[char])
    ensures
        final(out)@ == old(out)@ + more@,
{
    let mut i: usize = 0;
    let ghost start = out@;
    while i < more.len()
        invariant
            i <= more@.len(),
            out@ == start + more@.take(i as int),
        decreases more.len() - i,
    {
        out.push(more[i]);
        assert(more@.take(i + 1) =~= more@.take(i as int).push(more@[i as int]));
        i = i + 1;
    }
    assert(more@.take(more@.len() as int) =~= more@);
}

pub fn append_str(out: &mut Vec<char>, more: &str)
    ensures
        final(out)@ == old(out)@ + more@,
{
    let v = chars_of(more);
    append_chars(out, v.as_slice());
}

pub fn copy_chars(v: &[char]) -> (r: Vec<char>)
    ensures
        r@ == v@,
{
    let mut r: Vec<char> = Vec::new();
    append_chars(&mut r, v);
    assert(r@ =~= v@);
    r
}

pub fn sub_chars(v: &[char], from: usize, to: usize) -> (r: Vec<char>)
    requires
        from <= to <= v@.len(),
    ensures
        r@ == v@.subrange(from as int, to as int),
{
    let mut r: Vec<char> = Vec::new();
    let mut i = from;
    while i < to
        invariant
            from <= i <= to,
            to <= v@.len(),
            r@ == v@.subrange(from as int, i as int),
        decreases to - i,
    {
        r.push(v[i]);
        assert(v@.subrange(from as int, i + 1) =~= v@.subrange(from as int, i as int).push(
            v@[i as int],
        ));
        i = i + 1;
    }
    r
}

// ---------------------------------------------------------------------------
// Comparisons and searches on character sequences
// ---------------------------------------------------------------------------

pub fn chars_eq(a: &[char], b: &[char]) -> (r: bool)
    ensures
        r == (a@ == b@),
{
    if a.len() != b.len() {
        return false;
    }
    let mut i: usize = 0;
    while i < a.len()
        invariant
            a@.len() == b@.len(),
            i <= a@.len(),
            forall|j: int| 0 <= j < i ==> a@[j] == b@[j],
        decreases a.len() - i,
    {
        if a[i] != b[i] {
            return false;
        }
        i = i + 1;
    }
    assert(a@ =~= b@);
    true
}

/// Whether `p` occurs in `s` starting at character `i`.
pub open spec fn occurs_at(s: Seq<char>, p: Seq<char>, i: int) -> bool {
    0 <= i && i + p.len() <= s.len() && s.subrange(i, i + p.len()) == p
}

pub open spec fn contains_seq(s: Seq<char>, p: Seq<char>) -> bool {
    exists|i: int| occurs_at(s, p, i)
}

/// Whether `p` occurs at character `i` of `s`, checked without building a copy.
pub fn occurs_at_exec(s: &[char], p: &[char], i: usize) -> (r: bool)
    ensures
        r == occurs_at(s@, p@, i as int),
{
    if i > s.len() || p.len() > s.len() - i {
        return false;
    }
    let n = s.len();
    let mut j: usize = 0;
    while j < p.len()
        invariant
            n == s@.len(),
            i <= s@.len(),
            i + p@.len() <= s@.len(),
            j <= p@.len(),
            forall|k: int| 0 <= k < j ==> s@[i + k] == p@[k],
        decreases p.len() - j,
    {
        assert(j < p@.len());
        assert(i + j < s@.len());
        if s[i + j] != p[j] {
            assert(s@.subrange(i as int, i + p@.len())[j as int] != p@[j as int]);
            return false;
        }
        j = j + 1;
    }
    assert(s@.subrange(i as int, i + p@.len()) =~= p@);
    true
}

pub fn starts_with(s: &[char], p: &[char]) -> (r: bool)
    ensures
        r == p@.is_prefix_of(s@),
        r == occurs_at(s@, p@, 0),
{
    occurs_at_exec(s, p, 0)
}

pub fn ends_with(s: &[char], p: &[char]) -> (r: bool)
    ensures
        r == p@.is_suffix_of(s@),
        r == occurs_at(s@, p@, s@.len() - p@.len()),
{
    if p.len() > s.len() {
        return false;
    }
    occurs_at_exec(s, p, s.len() - p.len())
}

pub fn starts_with_str(s: &[char], p: &str) -> (r: bool)
    ensures
        r == p@.is_prefix_of(s@),
{
    let pv = chars_of(p);
    starts_with(s, pv.as_slice())
}

pub fn ends_with_str(s: &[char], p: &str) -> (r: bool)
    ensures
        r == p@.is_suffix_of(s@),
{
    let pv = chars_of(p);
    ends_with(s, pv.as_slice())
}

pub fn eq_str(s: &[char], p: &str) -> (r: bool)
    ensures
        r == (s@ == p@),
{
    let pv = chars_of(p);
    chars_eq(s, pv.as_slice())
}

/// The first character position at which `p` occurs in `s`, as `str::find`
/// finds it (counted in characters here).
pub fn find_chars(s: &[char], p: &[char]) -> (r: Option<usize>)
    ensures
        match r {
            Some(i) => occurs_at(s@, p@, i as int) && forall|j: int|
                0 <= j < i ==> !occurs_at(s@, p@, j),
            None => !contains_seq(s@, p@),
        },
{
    let mut i: usize = 0;
    while i < s.len()
        invariant
            i <= s@.len(),
            forall|j: int| 0 <= j < i ==> !occurs_at(s@, p@, j),
        decreases s.len() - i,
    {
        if p.len() > s.len() - i {
            assert forall|j: int| !occurs_at(s@, p@, j) by {
                if 0 <= j && j < i {
                }
            }
            return None;
        }
        if occurs_at_exec(s, p, i) {
            return Some(i);
        }
        i = i + 1;
    }
    if occurs_at_exec(s, p, i) {
        return Some(i);
    }
    assert forall|j: int| !occurs_at(s@, p@, j) by {
        if 0 <= j && j < i {
        }
    }
    None
}

pub fn contains_char(s: &[char], c: char) -> (r: bool)
    ensures
        r == s@.contains(c),
{
    let mut i: usize = 0;
    while i < s.len()
        invariant
            i <= s@.len(),
            forall|j: int| 0 <= j < i ==> s@[j] != c,
        decreases s.len() - i,
    {
        if s[i] == c {
            assert(s@[i as int] == c);
            return true;
        }
        i = i + 1;
    }
    false
}

pub fn contains_str(s: &[char], p: &str) -> (r: bool)
    ensures
        r == contains_seq(s@, p@),
{
    let pv = chars_of(p);
    let f = find_chars(s, pv.as_slice());
    match f {
        Some(i) => {
            assert(occurs_at(s@, p@, i as int));
            true
        },
        None => false,
    }
}

// ---------------------------------------------------------------------------
// Trimming
// ---------------------------------------------------------------------------

/// `s` without its leading whitespace.
pub open spec fn trim_start_seq(s: Seq<char>) -> Seq<char>
    decreases s.len(),
{
    if s.len() > 0 && is_whitespace_char(s[0]) {
        trim_start_seq(s.drop_first())
    } else {
        s
    }
}

/// `s` without its trailing whitespace.
pub open spec fn trim_end_seq(s: Seq<char>) -> Seq<char>
    decreases s.len(),
{
    if s.len() > 0 && is_whitespace_char(s.last()) {
        trim_end_seq(s.drop_last())
    } else {
        s
    }
}

/// `str::trim`: `s` without leading and trailing whitespace.
pub open spec fn trim_seq(s: Seq<char>) -> Seq<char> {
    trim_end_seq(trim_start_seq(s))
}

pub fn trim_chars(s: &[char]) -> (r: Vec<char>)
    ensures
        r@ == trim_seq(s@),
{
    let n = s.len();
    let mut i: usize = 0;
    assert(s@.subrange(0, n as int) =~= s@);
    while i < n && is_whitespace(s[i])
        invariant
            n == s@.len(),
            i <= n,
            trim_start_seq(s@) == trim_start_seq(s@.subrange(i as int, n as int)),
        decreases n - i,
    {
        assert(s@.subrange(i as int, n as int).drop_first() =~= s@.subrange(i + 1, n as int));
        i = i + 1;
    }
    assert(trim_start_seq(s@.subrange(i as int, n as int)) == s@.subrange(i as int, n as int));
    let mut j: usize = n;
    while j > i && is_whitespace(s[j - 1])
        invariant
            n == s@.len(),
            i <= j <= n,
            trim_seq(s@) == trim_end_seq(s@.subrange(i as int, j as int)),
        decreases j,
    {
        assert(s@.subrange(i as int, j as int).drop_last() =~= s@.subrange(i as int, j - 1));
        j = j - 1;
    }
    sub_chars(s, i, j)
}

pub fn trim_str(s: &str) -> (r: Vec<char>)
    ensures
        r@ == trim_seq(s@),
{
    let v = chars_of(s);
    trim_chars(v.as_slice())
}

// ---------------------------------------------------------------------------
// Whitespace splitting and joining (`split_whitespace` then `join(" ")`)
// ---------------------------------------------------------------------------

/// The maximal runs of non-whitespace characters of `s`, in order: what
/// `str::split_whitespace` yields.
pub open spec fn words(s: Seq<char>) -> Seq<Seq<char>>
    decreases s.len(),
{
    if s.len() == 0 {
        Seq::empty()
    } else {
        let rest = words(s.drop_last());
        let c = s.last();
        if is_whitespace_char(c) {
            rest
        } else if s.len() >= 2 && !is_whitespace_char(s[s.len() - 2]) {
            rest.update(rest.len() - 1, rest.last().push(c))
        } else {
            rest.push(seq![c])
        }
    }
}

/// The words joined with single spaces, as `Vec::join(" ")` joins them.
pub open spec fn join_words(ws: Seq<Seq<char>>) -> Seq<char>
    decreases ws.len(),
{
    if ws.len() == 0 {
        Seq::empty()
    } else if ws.len() == 1 {
        ws[0]
    } else {
        join_words(ws.drop_last()) + seq![' '] + ws.last()
    }
}

/// Runs of whitespace collapsed to one space, with none at either end.
pub open spec fn collapse_whitespace(s: Seq<char>) -> Seq<char> {
    join_words(words(s))
}

proof fn lemma_words_nonempty(s: Seq<char>)
    requires
        s.len() > 0,
        !is_whitespace_char(s.last()),
    ensures
        words(s).len() > 0,
    decreases s.len(),
{
    if s.len() >= 2 && !is_whitespace_char(s[s.len() - 2]) {
        lemma_words_nonempty(s.drop_last());
    }
}

proof fn lemma_join_extend_last(ws: Seq<Seq<char>>, c: char)
    requires
        ws.len() > 0,
    ensures
        join_words(ws.update(ws.len() - 1, ws.last().push(c))) == join_words(ws).push(c),
{
    let u = ws.update(ws.len() - 1, ws.last().push(c));
    if ws.len() == 1 {
    } else {
        assert(u.drop_last() =~= ws.drop_last());
        assert(join_words(u) == join_words(u.drop_last()) + seq![' '] + u.last());
        assert(join_words(u) =~= join_words(ws).push(c));
    }
}

proof fn lemma_join_push(ws: Seq<Seq<char>>, w: Seq<char>)
    ensures
        join_words(ws.push(w)) == if ws.len() == 0 {
            w
        } else {
            join_words(ws) + seq![' '] + w
        },
{
    assert(ws.push(w).drop_last() =~= ws);
}

/// Collapses whitespace runs as `split_whitespace().collect::<Vec<_>>().join(" ")`.
pub fn collapse_whitespace_chars(t: &[char]) -> (out: Vec<char>)
    ensures
        out@ == collapse_whitespace(t@),
{
    let mut out: Vec<char> = Vec::new();
    let mut in_word = false;
    let mut i: usize = 0;
    while i < t.len()
        invariant
            i <= t@.len(),
            out@ == join_words(words(t@.take(i as int))),
            in_word == (i > 0 && !is_whitespace_char(t@[i - 1])),
        decreases t.len() - i,
    {
        let c = t[i];
        let ghost pre = t@.take(i as int);
        let ghost cur = t@.take(i + 1);
        proof {
            assert(cur.drop_last() =~= pre);
            assert(cur.last() == c);
        }
        if is_whitespace(c) {
            in_word = false;
        } else if in_word {
            proof {
                assert(cur[cur.len() - 2] == t@[i - 1]);
                lemma_words_nonempty(pre);
                lemma_join_extend_last(words(pre), c);
            }
            out.push(c);
        } else {
            proof {
                if i > 0 {
                    assert(cur[cur.len() - 2] == t@[i - 1]);
                }
                lemma_join_push(words(pre), seq![c]);
            }
            if out.len() > 0 {
                proof {
                    if words(pre).len() == 0 {
                        assert(join_words(words(pre)).len() == 0);
                    }
                }
                out.push(' ');
            } else {
                proof {
                    if words(pre).len() > 0 {
                        lemma_words_each_nonempty(pre);
                        lemma_join_nonempty(words(pre));
                    }
                }
            }
            out.push(c);
            proof {
                assert(out@ =~= join_words(words(cur)));
            }
            in_word = true;
        }
        i = i + 1;
    }
    assert(t@.take(t@.len() as int) =~= t@);
    out
}

proof fn lemma_words_each_nonempty(s: Seq<char>)
    ensures
        forall|k: int| 0 <= k < words(s).len() ==> #[trigger] words(s)[k].len() > 0,
    decreases s.len(),
{
    if s.len() > 0 {
        let rest = words(s.drop_last());
        lemma_words_each_nonempty(s.drop_last());
        let c = s.last();
        if is_whitespace_char(c) {
        } else if s.len() >= 2 && !is_whitespace_char(s[s.len() - 2]) {
            assert(s.drop_last().last() == s[s.len() - 2]);
            lemma_words_nonempty(s.drop_last());
            let u = rest.update(rest.len() - 1, rest.last().push(c));
            assert(words(s) == u);
            assert forall|k: int| 0 <= k < u.len() implies #[trigger] u[k].len() > 0 by {
                if k == rest.len() - 1 {
                } else {
                    assert(u[k] == rest[k]);
                }
            }
        } else {
            let u = rest.push(seq![c]);
            assert(words(s) == u);
            assert forall|k: int| 0 <= k < u.len() implies #[trigger] u[k].len() > 0 by {
                if k < rest.len() {
                    assert(u[k] == rest[k]);
                }
            }
        }
    }
}

proof fn lemma_words_have_no_whitespace(s: Seq<char>)
    ensures
        forall|k: int, j: int|
            0 <= k < words(s).len() && 0 <= j < words(s)[k].len() ==> !is_whitespace_char(
                #[trigger] words(s)[k][j],
            ),
    decreases s.len(),
{
    if s.len() > 0 {
        let rest = words(s.drop_last());
        lemma_words_have_no_whitespace(s.drop_last());
        let c = s.last();
        if is_whitespace_char(c) {
        } else if s.len() >= 2 && !is_whitespace_char(s[s.len() - 2]) {
            assert(s.drop_last().last() == s[s.len() - 2]);
            lemma_words_nonempty(s.drop_last());
            let u = rest.update(rest.len() - 1, rest.last().push(c));
            assert(words(s) == u);
            assert forall|k: int, j: int| 0 <= k < u.len() && 0 <= j < u[k].len() implies !is_whitespace_char(
                #[trigger] u[k][j],
            ) by {
                if k == rest.len() - 1 {
                    if j < rest.last().len() {
                        assert(u[k][j] == rest[k][j]);
                    }
                } else {
                    assert(u[k] == rest[k]);
                }
            }
        } else {
            let u = rest.push(seq![c]);
            assert(words(s) == u);
            assert forall|k: int, j: int| 0 <= k < u.len() && 0 <= j < u[k].len() implies !is_whitespace_char(
                #[trigger] u[k][j],
            ) by {
                if k < rest.len() {
                    assert(u[k] == rest[k]);
                }
            }
        }
    }
}

/// Words that are nonempty and hold no whitespace, joined with single
/// spaces: whitespace occurs only as a space between two other characters.
proof fn lemma_join_spacing(ws: Seq<Seq<char>>)
    requires
        forall|k: int| 0 <= k < ws.len() ==> #[trigger] ws[k].len() > 0,
        forall|k: int, j: int| 0 <= k < ws.len() && 0 <= j < ws[k].len() ==> !is_whitespace_char(
            #[trigger] ws[k][j],
        ),
    ensures
        ({
            let n = join_words(ws);
            &&& ws.len() > 0 ==> n.len() > 0 && !is_whitespace_char(n.last())
            &&& forall|i: int|
                0 <= i < n.len() && is_whitespace_char(#[trigger] n[i]) ==> n[i] == ' ' && 0 < i < n.len()
                    - 1 && !is_whitespace_char(n[i - 1]) && !is_whitespace_char(n[i + 1])
        }),
    decreases ws.len(),
{
    if ws.len() == 1 {
        assert(join_words(ws) == ws[0]);
        assert(!is_whitespace_char(ws[0][ws[0].len() - 1]));
    } else if ws.len() > 1 {
        let pre = ws.drop_last();
        assert forall|k: int| 0 <= k < pre.len() implies #[trigger] pre[k].len() > 0 by {
            assert(pre[k] == ws[k]);
        }
        assert forall|k: int, j: int| 0 <= k < pre.len() && 0 <= j < pre[k].len() implies !is_whitespace_char(
            #[trigger] pre[k][j],
        ) by {
            assert(pre[k] == ws[k]);
        }
        lemma_join_spacing(pre);
        let p = join_words(pre);
        let w = ws.last();
        assert(w == ws[ws.len() - 1]);
        let n = join_words(ws);
        assert(n == p + seq![' '] + w);
        assert(n.last() == w[w.len() - 1]);
        assert(!is_whitespace_char(w[w.len() - 1]));
        assert forall|i: int|
            0 <= i < n.len() && is_whitespace_char(#[trigger] n[i]) implies n[i] == ' ' && 0 < i
                < n.len() - 1 && !is_whitespace_char(n[i - 1]) && !is_whitespace_char(n[i + 1]) by {
            if i < p.len() {
                assert(n[i] == p[i]);
                if i + 1 < p.len() {
                    assert(n[i + 1] == p[i + 1]);
                } else {
                    assert(!is_whitespace_char(p.last()));
                }
                assert(n[i - 1] == p[i - 1]);
            } else if i == p.len() {
                assert(n[i - 1] == p.last());
                assert(n[i + 1] == w[0]);
            } else {
                assert(n[i] == w[i - p.len() - 1]);
            }
        }
    }
}

/// Normalised text has whitespace only as single spaces between other
/// characters: none at either end and no two in a row.
pub(crate) proof fn lemma_normalized_spacing(s: Seq<char>)
    ensures
        ({
            let n = normalize_for_match_spec(s);
            forall|i: int|
                0 <= i < n.len() && is_whitespace_char(#[trigger] n[i]) ==> n[i] == ' ' && 0 < i < n.len()
                    - 1 && !is_whitespace_char(n[i - 1]) && !is_whitespace_char(n[i + 1])
        }),
{
    let t = drop_controls(lowercase_all(s));
    lemma_words_each_nonempty(t);
    lemma_words_have_no_whitespace(t);
    lemma_join_spacing(words(t));
}

/// Every word that `words` yields is nonempty, so a nonempty list joins to a
/// nonempty sequence.
proof fn lemma_join_nonempty(ws: Seq<Seq<char>>)
    requires
        ws.len() > 0,
        forall|k: int| 0 <= k < ws.len() ==> #[trigger] ws[k].len() > 0,
    ensures
        join_words(ws).len() > 0,
    decreases ws.len(),
{
    if ws.len() > 1 {
        lemma_join_nonempty(ws.drop_last());
    }
}

// ---------------------------------------------------------------------------
// Normalisation for matching
// ---------------------------------------------------------------------------

/// Every character replaced by its lowercase mapping.
pub open spec fn lowercase_all(s: Seq<char>) -> Seq<char>
    decreases s.len(),
{
    if s.len() == 0 {
        Seq::empty()
    } else {
        lowercase_all(s.drop_last()) + lowercase_of(s.last())
    }
}

/// `s` without its control characters.
pub open spec fn drop_controls(s: Seq<char>) -> Seq<char> {
    s.filter(|c: char| !is_control_char(c))
}

/// The form in which titles, names and queries are compared: lowercase, no
/// control characters, whitespace runs collapsed to single spaces and trimmed.
pub open spec fn normalize_for_match_spec(s: Seq<char>) -> Seq<char> {
    collapse_whitespace(drop_controls(lowercase_all(s)))
}

pub fn lowercase_chars(s: &[char]) -> (r: Vec<char>)
    ensures
        r@ == lowercase_all(s@),
{
    let mut r: Vec<char> = Vec::new();
    let mut i: usize = 0;
    while i < s.len()
        invariant
            i <= s@.len(),
            r@ == lowercase_all(s@.take(i as int)),
        decreases s.len() - i,
    {
        let lc = char_to_lowercase(s[i]);
        append_chars(&mut r, lc.as_slice());
        assert(s@.take(i + 1).drop_last() =~= s@.take(i as int));
        i = i + 1;
    }
    assert(s@.take(s@.len() as int) =~= s@);
    r
}

pub fn without_controls(s: &[char]) -> (r: Vec<char>)
    ensures
        r@ == drop_controls(s@),
{
    let mut r: Vec<char> = Vec::new();
    let mut i: usize = 0;
    while i < s.len()
        invariant
            i <= s@.len(),
            r@ == drop_controls(s@.take(i as int)),
        decreases s.len() - i,
    {
        let c = s[i];
        proof {
            assert(s@.take(i + 1) =~= s@.take(i as int).push(c));
            s@.take(i as int).lemma_filter_push(c, |c: char| !is_control_char(c));
        }
        if !is_control(c) {
            r.push(c);
        }
        i = i + 1;
    }
    assert(s@.take(s@.len() as int) =~= s@);
    r
}

pub fn normalize_chars(s: &[char]) -> (r: Vec<char>)
    ensures
        r@ == normalize_for_match_spec(s@),
{
    let lower = lowercase_chars(s);
    let kept = without_controls(lower.as_slice());
    collapse_whitespace_chars(kept.as_slice())
}

pub fn normalize_str(s: &str) -> (r: Vec<char>)
    ensures
        r@ == normalize_for_match_spec(s@),
{
    let v = chars_of(s);
    normalize_chars(v.as_slice())
}

/// Lowercases `value`, drops control characters and collapses whitespace, so
/// that titles, names and queries compare alike.
pub fn normalize_for_match(value: &str) -> (r: String)
    ensures
        r@ == normalize_for_match_spec(value@),
{
    let v = normalize_str(value);
    string_from_chars(v.as_slice())
}

/// Lowercase, every character that is not alphanumeric replaced by a space,
/// whitespace collapsed: the form in which app names are compared with window
/// titles.
pub open spec fn normalize_window_match_spec(s: Seq<char>) -> Seq<char> {
    collapse_whitespace(
        lowercase_all(s).map_values(
            |c: char|
                if is_alphanumeric_char(c) {
                    c
                } else {
                    ' '
                },
        ),
    )
}

pub fn normalize_window_match_text(value: &str) -> (r: Vec<char>)
    ensures
        r@ == normalize_window_match_spec(value@),
{
    let v = chars_of(value);
    let lower = lowercase_chars(v.as_slice());
    let mut mapped: Vec<char> = Vec::new();
    let mut i: usize = 0;
    while i < lower.len()
        invariant
            i <= lower@.len(),
            mapped@ == lower@.take(i as int).map_values(
                |c: char|
                    if is_alphanumeric_char(c) {
                        c
                    } else {
                        ' '
                    },
            ),
        decreases lower.len() - i,
    {
        let c = lower[i];
        if char_is_alphanumeric(c) {
            mapped.push(c);
        } else {
            mapped.push(' ');
        }
        assert(lower@.take(i + 1).map_values(
            |c: char|
                if is_alphanumeric_char(c) {
                    c
                } else {
                    ' '
                },
        ) =~= mapped@);
        i = i + 1;
    }
    assert(lower@.take(lower@.len() as int) =~= lower@);
    collapse_whitespace_chars(mapped.as_slice())
}

// ---------------------------------------------------------------------------
// UTF-8 length
// ---------------------------------------------------------------------------

/// The number of bytes of the UTF-8 encoding of `c`.
pub open spec fn utf8_width(c: char) -> nat {
    if (c as u32) < 0x80 {
        1
    } else if (c as u32) < 0x800 {
        2
    } else if (c as u32) < 0x10000 {
        3
    } else {
        4
    }
}

/// The number of bytes of the UTF-8 encoding of `s`: what `str::len` returns.
pub open spec fn utf8_len(s: Seq<char>) -> nat
    decreases s.len(),
{
    if s.len() == 0 {
        0
    } else {
        utf8_len(s.drop_last()) + utf8_width(s.last())
    }
}

/// The UTF-8 length of `s`.
pub fn utf8_len_exec(s: &[char]) -> (n: u128)
    ensures
        n == utf8_len(s@),
{
    let mut n: u128 = 0;
    let mut i: usize = 0;
    while i < s.len()
        invariant
            i <= s@.len(),
            n == utf8_len(s@.take(i as int)),
            n <= 4 * i,
        decreases s.len() - i,
    {
        let u = s[i] as u32;
        let w: u128 = if u < 0x80 {
            1
        } else if u < 0x800 {
            2
        } else if u < 0x10000 {
            3
        } else {
            4
        };
        assert(s@.take(i + 1).drop_last() =~= s@.take(i as int));
        n = n + w;
        i = i + 1;
    }
    assert(s@.take(s@.len() as int) =~= s@);
    n
}


// ---------------------------------------------------------------------------
// Decimal numerals and UTF-16
// ---------------------------------------------------------------------------

/// The ASCII digit for `d` (`0 <= d < 10`).
pub open spec fn digit_char(d: int) -> char {
    (48 + d) as char
}

/// The decimal numeral of `n`, as `to_string` writes it.
pub open spec fn decimal(n: nat) -> Seq<char>
    decreases n,
{
    if n < 10 {
        seq![digit_char(n as int)]
    } else {
        decimal(n / 10).push(digit_char((n % 10) as int))
    }
}

pub fn decimal_chars(n: u128) -> (r: Vec<char>)
    ensures
        r@ == decimal(n as nat),
    decreases n,
{
    let d = (n % 10) as u8;
    let c = (48u8 + d) as char;
    assert(c == digit_char((n % 10) as int));
    if n < 10 {
        vec![c]
    } else {
        let mut r = decimal_chars(n / 10);
        r.push(c);
        r
    }
}

/// The UTF-16 code units of one character.
pub open spec fn utf16_units(c: char) -> Seq<u16> {
    let u = c as u32;
    if u < 0x10000 {
        seq![u as u16]
    } else {
        seq![(0xd800 + (u - 0x10000) / 0x400) as u16, (0xdc00 + (u - 0x10000) % 0x400) as u16]
    }
}

/// The UTF-16 encoding of `s`, as `str::encode_utf16` yields it.
pub open spec fn utf16_encode(s: Seq<char>) -> Seq<u16>
    decreases s.len(),
{
    if s.len() == 0 {
        Seq::empty()
    } else {
        utf16_encode(s.drop_last()) + utf16_units(s.last())
    }
}

proof fn lemma_utf16_encode_prepend(c: char, t: Seq<char>)
    ensures
        utf16_encode(seq![c] + t) == utf16_units(c) + utf16_encode(t),
    decreases t.len(),
{
    if t.len() == 0 {
        assert((seq![c] + t).drop_last() =~= Seq::<char>::empty());
        assert(utf16_encode(Seq::<char>::empty()) =~= Seq::<u16>::empty());
        assert(utf16_units(c) + utf16_encode(t) =~= utf16_units(c));
        assert(utf16_encode(seq![c] + t) =~= Seq::<u16>::empty() + utf16_units(c));
    } else {
        lemma_utf16_encode_prepend(c, t.drop_last());
        assert((seq![c] + t).drop_last() =~= seq![c] + t.drop_last());
        assert((seq![c] + t).last() == t.last());
        assert(utf16_units(c) + utf16_encode(t) =~= utf16_units(c) + utf16_encode(t.drop_last())
            + utf16_units(t.last()));
    }
}

proof fn lemma_utf16_decode_units(c: char, w: Seq<u16>)
    ensures
        utf16_decode(utf16_units(c) + w) == match utf16_decode(w) {
            Some(rest) => Some(seq![c] + rest),
            None => None,
        },
{
    let u = c as u32;
    let x = utf16_units(c) + w;
    if u < 0x10000 {
        assert(x[0] == u as u16);
        assert(!is_surrogate(x[0]));
        assert(x.drop_first() =~= w);
        assert((x[0] as char) == c);
    } else {
        let v = (u - 0x10000) as int;
        assert(0 <= v < 0x100000);
        let hi = 0xd800 + v / 0x400;
        let lo = 0xdc00 + v % 0x400;
        assert(0 <= v / 0x400 < 0x400 && 0 <= v % 0x400 < 0x400 && v == (v / 0x400) * 0x400 + v
            % 0x400) by (nonlinear_arith)
            requires
                0 <= v < 0x100000,
        ;
        assert(x[0] == hi as u16 && x[1] == lo as u16);
        assert(x[0] as int == hi && x[1] as int == lo);
        assert(starts_with_surrogate_pair(x));
        assert(x.skip(2) =~= w);
        assert(surrogate_pair_char(x) == c);
    }
}

/// Decoding the UTF-16 encoding of a text gives the text back.
pub proof fn lemma_utf16_decode_encode(s: Seq<char>)
    ensures
        utf16_decode(utf16_encode(s)) == Some(s),
    decreases s.len(),
{
    if s.len() == 0 {
        assert(utf16_encode(s) =~= Seq::<u16>::empty());
    } else {
        let t = s.drop_first();
        assert(s =~= seq![s[0]] + t);
        lemma_utf16_encode_prepend(s[0], t);
        lemma_utf16_decode_encode(t);
        lemma_utf16_decode_units(s[0], utf16_encode(t));
    }
}

/// The last UTF-16 unit of a text that does not end in U+0000 is not zero.
pub proof fn lemma_utf16_encode_last_nonzero(s: Seq<char>)
    requires
        s.len() > 0,
        s.last() as u32 != 0,
    ensures
        utf16_encode(s).len() > 0,
        utf16_encode(s).last() != 0,
{
    let u = s.last() as u32;
    let e = utf16_encode(s);
    let us = utf16_units(s.last());
    assert(e == utf16_encode(s.drop_last()) + us);
    if u < 0x10000 {
        assert(us =~= seq![u as u16]);
        assert(u != 0);
        assert(e.last() == us.last());
    } else {
        let v = (u - 0x10000) as int;
        assert(0 <= v % 0x400 < 0x400) by (nonlinear_arith)
            requires
                0 <= v,
        ;
        assert(us.len() == 2);
        assert(e.last() == us[1]);
        assert(us[1] as int == 0xdc00 + v % 0x400);
    }
}

pub fn encode_utf16(value: &str) -> (r: Vec<u16>)
    ensures
        r@ == utf16_encode(value@),
{
    let v = chars_of(value);
    let mut r: Vec<u16> = Vec::new();
    let mut i: usize = 0;
    while i < v.len()
        invariant
            i <= v@.len(),
            r@ == utf16_encode(v@.take(i as int)),
        decreases v.len() - i,
    {
        let u = v[i] as u32;
        let ghost old_r = r@;
        if u < 0x10000 {
            r.push(u as u16);
        } else {
            let w = u - 0x10000;
            #[verifier::truncate]
            let hi = (0xd800 + w / 0x400) as u16;
            let lo = (0xdc00 + w % 0x400) as u16;
            r.push(hi);
            r.push(lo);
        }
        proof {
            assert(v@.take(i + 1).drop_last() =~= v@.take(i as int));
            assert(r@ =~= old_r + utf16_units(v@[i as int]));
        }
        i = i + 1;
    }
    assert(v@.take(v@.len() as int) =~= v@);
    r
}

} // verus!
