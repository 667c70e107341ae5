//! The run-at-startup entry: the command it stores, how registry strings are
//! decoded, which other entries look like ones that earlier release file
//! names created, and the prompt that offers to remove them.
use vstd::prelude::*;

use crate::search::ascii_lower_seq;
use crate::text::{
    append_chars, append_str, ascii_lower, chars_eq, chars_of, decimal, decimal_chars,
    decode_utf16, eq_str, is_whitespace, is_whitespace_char, string_from_chars, sub_chars,
    trim_str, trim_seq, utf16_decode,
};

verus! {

/// A value of the current user's Run key.
#[derive(Debug, PartialEq, Eq)]
pub struct LegacyStartupEntry {
    pub name: String,
    pub command: String,
}

impl Clone for LegacyStartupEntry {
    fn clone(&self) -> (r: Self)
        ensures
            r == *self,
    {
        LegacyStartupEntry { name: self.name.clone(), command: self.command.clone() }
    }
}

/// The name of this app's own Run value.
pub const RUN_VALUE_NAME: &'static str = "Mega Win Alt Tab";

/// The flag that marks a launch from the Run key.
pub const STARTUP_ARG: &'static str = "--startup";

/// The Run command for an executable: its path in quotes, then `--startup`.
pub fn startup_command_for_exe(exe_path: &str) -> (r: String)
    ensures
        r@ == "\""@ + exe_path@ + "\" "@ + STARTUP_ARG@,
{
    let mut v = chars_of("\"");
    append_str(&mut v, exe_path);
    append_str(&mut v, "\" ");
    append_str(&mut v, STARTUP_ARG);
    string_from_chars(v.as_slice())
}

// ---------------------------------------------------------------------------
// Registry strings
// ---------------------------------------------------------------------------

/// Little-endian 16-bit units of a byte sequence of even length.
pub open spec fn le_units(bytes: Seq<u8>) -> Seq<u16> {
    Seq::new(bytes.len() / 2, |i: int| (bytes[2 * i] as int + 256 * (bytes[2 * i + 1] as int)) as u16)
}

/// `units` without its trailing zero units.
pub open spec fn strip_trailing_zeros(units: Seq<u16>) -> Seq<u16>
    decreases units.len(),
{
    if units.len() > 0 && units.last() == 0 {
        strip_trailing_zeros(units.drop_last())
    } else {
        units
    }
}

/// A registry string: UTF-16LE bytes, without the terminating zeros; `None`
/// for an odd number of bytes or invalid UTF-16.
pub open spec fn registry_string_spec(bytes: Seq<u8>) -> Option<Seq<char>> {
    if bytes.len() % 2 == 1 {
        None
    } else {
        utf16_decode(strip_trailing_zeros(le_units(bytes)))
    }
}

/// The little-endian bytes of 16-bit units.
pub open spec fn le_bytes(units: Seq<u16>) -> Seq<u8> {
    Seq::new(
        2 * units.len(),
        |i: int|
            if i % 2 == 0 {
                (units[i / 2] % 256) as u8
            } else {
                (units[i / 2] / 256) as u8
            },
    )
}

/// The bytes of a registry string value holding `value`: its UTF-16 units and
/// a terminating zero, little-endian.
pub fn registry_string_bytes(value: &str) -> (r: Vec<u8>)
    ensures
        r@ == le_bytes(crate::text::utf16_encode(value@).push(0)),
{
    let units = wide_null(value);
    let ghost u = units@;
    let mut out: Vec<u8> = Vec::new();
    let mut i: usize = 0;
    while i < units.len()
        invariant
            u == units@,
            i <= u.len(),
            out@ == le_bytes(u.take(i as int)),
        decreases units.len() - i,
    {
        let x = units[i];
        out.push((x % 256) as u8);
        out.push((x / 256) as u8);
        assert(out@ =~= le_bytes(u.take(i + 1)));
        i = i + 1;
    }
    assert(u.take(u.len() as int) =~= u);
    out
}

pub fn registry_bytes_to_string(bytes: &[u8]) -> (r: Option<String>)
    ensures
        match r {
            Some(s) => registry_string_spec(bytes@) == Some(s@),
            None => registry_string_spec(bytes@) is None,
        },
{
    if bytes.len() % 2 == 1 {
        return None;
    }
    let mut units: Vec<u16> = Vec::new();
    let mut i: usize = 0;
    let len: usize = bytes.len();
    let n = len / 2;
    assert(2 * n <= bytes@.len());
    while i < n
        invariant
            len == bytes@.len(),
            n == bytes@.len() / 2,
            2 * n <= bytes@.len(),
            i <= n,
            units@ == le_units(bytes@).take(i as int),
        decreases n - i,
    {
        assert(i + i + 1 < bytes@.len());
        let k: usize = i + i;
        let u = (bytes[k] as u16) + 256 * (bytes[k + 1] as u16);
        units.push(u);
        assert(units@ =~= le_units(bytes@).take(i + 1));
        i = i + 1;
    }
    assert(le_units(bytes@).take(n as int) =~= le_units(bytes@));
    assert(strip_trailing_zeros(units@) == strip_trailing_zeros(le_units(bytes@)));
    while units.len() > 0 && units[units.len() - 1] == 0
        invariant
            strip_trailing_zeros(units@) == strip_trailing_zeros(le_units(bytes@)),
        decreases units.len(),
    {
        let ghost before = units@;
        units.pop();
        assert(units@ =~= before.drop_last());
    }
    decode_utf16(units.as_slice())
}

// ---------------------------------------------------------------------------
// Entries created by earlier release file names
// ---------------------------------------------------------------------------

/// A version-like text: only digits, dots, `-`, `+` and ASCII letters, with
/// at least one digit and one dot.
pub open spec fn looks_like_version_spec(v: Seq<char>) -> bool {
    &&& forall|i: int|
        0 <= i < v.len() ==> {
            let c = #[trigger] v[i];
            ('0' <= c && c <= '9') || c == '.' || c == '-' || c == '+' || ('a' <= c && c <= 'z')
                || ('A' <= c && c <= 'Z')
        }
    &&& exists|i: int| 0 <= i < v.len() && '0' <= #[trigger] v[i] && v[i] <= '9'
    &&& v.contains('.')
}

pub fn looks_like_version(value: &[char]) -> (r: bool)
    ensures
        r == looks_like_version_spec(value@),
{
    let mut saw_digit = false;
    let mut saw_dot = false;
    let mut i: usize = 0;
    while i < value.len()
        invariant
            i <= value@.len(),
            forall|j: int|
                0 <= j < i ==> {
                    let c = #[trigger] value@[j];
                    ('0' <= c && c <= '9') || c == '.' || c == '-' || c == '+' || ('a' <= c && c
                        <= 'z') || ('A' <= c && c <= 'Z')
                },
            saw_digit == exists|j: int| 0 <= j < i && '0' <= #[trigger] value@[j] && value@[j] <= '9',
            saw_dot == exists|j: int| 0 <= j < i && value@[j] == '.',
        decreases value.len() - i,
    {
        let c = value[i];
        if '0' <= c && c <= '9' {
            saw_digit = true;
        } else if c == '.' {
            saw_dot = true;
        } else if c == '-' || c == '+' || ('a' <= c && c <= 'z') || ('A' <= c && c <= 'Z') {
        } else {
            return false;
        }
        i = i + 1;
    }
    saw_digit && saw_dot
}

/// Whether a lowercase name is `prefix`, a version, then `suffix` (both
/// compared in ASCII lowercase).
pub open spec fn matches_pattern_spec(name: Seq<char>, prefix: Seq<char>, suffix: Seq<char>) -> bool {
    let p = ascii_lower_seq(prefix);
    let s = ascii_lower_seq(suffix);
    p.is_prefix_of(name) && {
        let rest = name.skip(p.len() as int);
        if s.len() == 0 {
            looks_like_version_spec(rest)
        } else {
            s.is_suffix_of(rest) && looks_like_version_spec(rest.take(rest.len() - s.len()))
        }
    }
}

/// A file or entry name of an earlier release.
pub struct GeneratedStartupPattern {
    pub prefix: &'static str,
    pub suffix: &'static str,
}

impl GeneratedStartupPattern {
    pub fn new(prefix: &'static str, suffix: &'static str) -> (r: Self)
        ensures
            r.prefix == prefix,
            r.suffix == suffix,
    {
        Self { prefix, suffix }
    }
}

pub fn matches_pattern(name: &[char], pattern: &GeneratedStartupPattern) -> (r: bool)
    ensures
        r == matches_pattern_spec(name@, pattern.prefix@, pattern.suffix@),
{
    let p0 = chars_of(pattern.prefix);
    let p = crate::search::ascii_lower_chars(p0.as_slice());
    let s0 = chars_of(pattern.suffix);
    let s = crate::search::ascii_lower_chars(s0.as_slice());
    if !crate::text::starts_with(name, p.as_slice()) {
        return false;
    }
    let rest = sub_chars(name, p.len(), name.len());
    assert(rest@ =~= name@.skip(p@.len() as int));
    if s.len() == 0 {
        looks_like_version(rest.as_slice())
    } else {
        if !crate::text::ends_with(rest.as_slice(), s.as_slice()) {
            return false;
        }
        let version = sub_chars(rest.as_slice(), 0, rest.len() - s.len());
        assert(version@ =~= rest@.take(rest@.len() - s@.len()));
        looks_like_version(version.as_slice())
    }
}

/// The names that earlier releases were published under.
pub open spec fn generated_name_spec(name: Seq<char>) -> bool {
    let lower = ascii_lower_seq(name);
    ||| matches_pattern_spec(lower, "mega-win-alt-tab-v"@, "-windows-x64.exe"@)
    ||| matches_pattern_spec(lower, "mega-win-alt-tab-v"@, ".exe"@)
    ||| matches_pattern_spec(lower, "mega-win-alt-tab-"@, "-windows-x64.exe"@)
    ||| matches_pattern_spec(lower, "Mega Win Alt Tab v"@, ""@)
    ||| matches_pattern_spec(lower, "MegaWinAltTab v"@, ""@)
}

pub fn matches_generated_name(name: &[char]) -> (r: bool)
    ensures
        r == generated_name_spec(name@),
{
    let lower = crate::search::ascii_lower_chars(name);
    matches_pattern(lower.as_slice(), &GeneratedStartupPattern::new("mega-win-alt-tab-v", "-windows-x64.exe"))
        || matches_pattern(lower.as_slice(), &GeneratedStartupPattern::new("mega-win-alt-tab-v", ".exe"))
        || matches_pattern(lower.as_slice(), &GeneratedStartupPattern::new("mega-win-alt-tab-", "-windows-x64.exe"))
        || matches_pattern(lower.as_slice(), &GeneratedStartupPattern::new("Mega Win Alt Tab v", ""))
        || matches_pattern(lower.as_slice(), &GeneratedStartupPattern::new("MegaWinAltTab v", ""))
}

/// The first character position of `c` in `s`.
pub open spec fn first_index_of(s: Seq<char>, c: char) -> Option<int> {
    if s.contains(c) {
        Some(choose|i: int| 0 <= i < s.len() && s[i] == c && forall|j: int| 0 <= j < i ==> s[j] != c)
    } else {
        None
    }
}

/// The characters of `s` before its first whitespace character.
pub open spec fn before_whitespace(s: Seq<char>) -> Seq<char> {
    if exists|i: int| 0 <= i < s.len() && is_whitespace_char(s[i]) {
        s.take(choose|i: int| 0 <= i < s.len() && is_whitespace_char(s[i]) && forall|j: int| 0 <= j < i ==> !is_whitespace_char(#[trigger] s[j]))
    } else {
        s
    }
}

/// The part of a path after its last `\` or `/`.
pub open spec fn after_last_separator(p: Seq<char>) -> Seq<char> {
    if exists|i: int| 0 <= i < p.len() && (p[i] == '\\' || p[i] == '/') {
        p.skip(1 + choose|i: int| 0 <= i < p.len() && (p[i] == '\\' || p[i] == '/') && forall|j: int| i < j < p.len() ==> !(#[trigger] p[j] == '\\' || p[j] == '/'))
    } else {
        p
    }
}

/// The executable file name of a Run command: the quoted path (which must be
/// closed) or the first word, after its last path separator.
pub open spec fn command_exe_name_spec(command: Seq<char>) -> Option<Seq<char>> {
    let c = trim_seq(command);
    let path = if c.len() > 0 && c[0] == '"' {
        match first_index_of(c.drop_first(), '"') {
            Some(k) => Some(c.drop_first().take(k)),
            None => None,
        }
    } else if c.len() == 0 {
        None
    } else {
        Some(before_whitespace(c))
    };
    match path {
        Some(p) => Some(after_last_separator(p)),
        None => None,
    }
}

pub(crate) fn index_of_char(s: &[char], c: char) -> (r: Option<usize>)
    ensures
        match r {
            Some(i) => i < s@.len() && s@[i as int] == c && s@.contains(c) && (forall|j: int|
                0 <= j < i ==> s@[j] != c) && first_index_of(s@, c) == Some(i as int),
            None => first_index_of(s@, c) is None && !s@.contains(c),
        },
{
    let mut i: usize = 0;
    while i < s.len()
        invariant
            i <= s@.len(),
            forall|j: int| 0 <= j < i ==> s@[j] != c,
        decreases s.len() - i,
    {
        if s[i] == c {
            proof {
                assert(s@.contains(c));
                let k = choose|k: int| 0 <= k < s@.len() && s@[k] == c && forall|j: int| 0 <= j < k ==> s@[j] != c;
                assert(k == i) by {
                    if k < i {
                    } else if k > i {
                        assert(s@[i as int] == c);
                    }
                }
            }
            return Some(i);
        }
        i = i + 1;
    }
    None
}

fn before_whitespace_exec(s: &[char]) -> (r: Vec<char>)
    ensures
        r@ == before_whitespace(s@),
{
    let mut i: usize = 0;
    while i < s.len() && !is_whitespace(s[i])
        invariant
            i <= s@.len(),
            forall|j: int| 0 <= j < i ==> !is_whitespace_char(#[trigger] s@[j]),
        decreases s.len() - i,
    {
        i = i + 1;
    }
    if i < s.len() {
        proof {
            let k = choose|k: int| 0 <= k < s@.len() && is_whitespace_char(s@[k]) && forall|j: int| 0 <= j < k ==> !is_whitespace_char(#[trigger] s@[j]);
            assert(k == i) by {
                if k < i {
                    assert(!is_whitespace_char(s@[k]));
                } else if k > i {
                    assert(!is_whitespace_char(s@[i as int]));
                }
            }
        }
        sub_chars(s, 0, i)
    } else {
        proof {
            assert(s@.take(s@.len() as int) =~= s@);
        }
        sub_chars(s, 0, s.len())
    }
}

fn after_last_separator_exec(p: &[char]) -> (r: Vec<char>)
    ensures
        r@ == after_last_separator(p@),
{
    let mut i: usize = p.len();
    while i > 0 && !(p[i - 1] == '\\' || p[i - 1] == '/')
        invariant
            i <= p@.len(),
            forall|j: int| i <= j < p@.len() ==> !(#[trigger] p@[j] == '\\' || p@[j] == '/'),
        decreases i,
    {
        i = i - 1;
    }
    if i > 0 {
        proof {
            let k = choose|k: int| 0 <= k < p@.len() && (p@[k] == '\\' || p@[k] == '/') && forall|j: int| k < j < p@.len() ==> !(#[trigger] p@[j] == '\\' || p@[j] == '/');
            assert(k == i - 1) by {
                if k < i - 1 {
                    assert(p@[i - 1] == '\\' || p@[i - 1] == '/');
                } else if k > i - 1 {
                }
            }
        }
        sub_chars(p, i, p.len())
    } else {
        proof {
            assert(p@.skip(0) =~= p@);
        }
        sub_chars(p, 0, p.len())
    }
}

pub fn command_exe_name(command: &str) -> (r: Option<String>)
    ensures
        match r {
            Some(s) => command_exe_name_spec(command@) == Some(s@),
            None => command_exe_name_spec(command@) is None,
        },
{
    let c = trim_str(command);
    let path = if c.len() > 0 && c[0] == '"' {
        let rest = sub_chars(c.as_slice(), 1, c.len());
        assert(rest@ =~= c@.drop_first());
        match index_of_char(rest.as_slice(), '"') {
            Some(k) => Some(sub_chars(rest.as_slice(), 0, k)),
            None => None,
        }
    } else if c.len() == 0 {
        None
    } else {
        Some(before_whitespace_exec(c.as_slice()))
    };
    match path {
        Some(p) => {
            let name = after_last_separator_exec(p.as_slice());
            Some(string_from_chars(name.as_slice()))
        },
        None => None,
    }
}

/// A name, or the file name of a command, follows an earlier release's
/// naming.
pub open spec fn generated_convention_spec(value_name: Seq<char>, command: Seq<char>) -> bool {
    generated_name_spec(value_name) || match command_exe_name_spec(command) {
        Some(n) => generated_name_spec(n),
        None => false,
    }
}

pub fn matches_generated_startup_convention(value_name: &str, command: &str) -> (r: bool)
    ensures
        r == generated_convention_spec(value_name@, command@),
{
    let n = chars_of(value_name);
    if matches_generated_name(n.as_slice()) {
        return true;
    }
    match command_exe_name(command) {
        Some(exe) => {
            let e = chars_of(exe.as_str());
            matches_generated_name(e.as_slice())
        },
        None => false,
    }
}

/// An entry is a leftover of an earlier release when it is not this app's own
/// value, does not run the current command, and follows an earlier release's
/// naming.
pub open spec fn legacy_entry_spec(
    name: Seq<char>,
    command: Seq<char>,
    current: Option<Seq<char>>,
) -> bool {
    name != RUN_VALUE_NAME@ && current != Some(command) && generated_convention_spec(name, command)
}

pub fn is_legacy_startup_entry(entry: &LegacyStartupEntry, current_startup_command: Option<&str>) -> (r: bool)
    ensures
        r == legacy_entry_spec(
            entry.name@,
            entry.command@,
            match current_startup_command {
                Some(c) => Some(c@),
                None => None,
            },
        ),
{
    let name = chars_of(entry.name.as_str());
    if eq_str(name.as_slice(), RUN_VALUE_NAME) {
        return false;
    }
    match current_startup_command {
        Some(c) => {
            let cv = chars_of(c);
            let ev = chars_of(entry.command.as_str());
            if chars_eq(cv.as_slice(), ev.as_slice()) {
                return false;
            }
        },
        None => {},
    }
    matches_generated_startup_convention(entry.name.as_str(), entry.command.as_str())
}

// ---------------------------------------------------------------------------
// The removal prompt
// ---------------------------------------------------------------------------

/// At most this many entries are listed in the prompt.
pub const MAX_PROMPT_ENTRIES: usize = 8;

pub open spec fn prompt_entry_text(e: LegacyStartupEntry) -> Seq<char> {
    "Name: "@ + e.name@ + "\nPath: "@ + e.command@ + "\n\n"@
}

pub open spec fn prompt_entries_text(es: Seq<LegacyStartupEntry>) -> Seq<char>
    decreases es.len(),
{
    if es.len() == 0 {
        Seq::empty()
    } else {
        prompt_entries_text(es.drop_last()) + prompt_entry_text(es.last())
    }
}

/// The prompt: an explanation, the first eight entries by name and command,
/// a count of the rest, and what Yes and No do.
pub open spec fn legacy_prompt_spec(es: Seq<LegacyStartupEntry>) -> Seq<char> {
    let shown = if es.len() > MAX_PROMPT_ENTRIES {
        es.take(MAX_PROMPT_ENTRIES as int)
    } else {
        es
    };
    "Mega Win Alt Tab found possible older startup entries created by earlier release file names.\n\n"@
        + "Remove these old entries before setting this copy to run at startup?\n\n"@
        + prompt_entries_text(shown) + (if es.len() > MAX_PROMPT_ENTRIES {
        "...and "@ + decimal((es.len() - MAX_PROMPT_ENTRIES) as nat)
            + " more possible older startup entries.\n\n"@
    } else {
        Seq::empty()
    }) + "Yes removes the listed entries and sets this copy to run at startup.\n"@
        + "No leaves them alone and still sets this copy to run at startup."@
}

pub fn legacy_startup_prompt(entries: &[LegacyStartupEntry]) -> (r: String)
    ensures
        r@ == legacy_prompt_spec(entries@),
{
    let mut v = chars_of(
        "Mega Win Alt Tab found possible older startup entries created by earlier release file names.\n\n",
    );
    append_str(&mut v, "Remove these old entries before setting this copy to run at startup?\n\n");
    let ghost head = v@;
    let shown = if entries.len() > MAX_PROMPT_ENTRIES {
        MAX_PROMPT_ENTRIES
    } else {
        entries.len()
    };
    let mut i: usize = 0;
    while i < shown
        invariant
            shown <= entries@.len(),
            i <= shown,
            v@ == head + prompt_entries_text(entries@.take(i as int)),
        decreases shown - i,
    {
        let e = &entries[i];
        append_str(&mut v, "Name: ");
        append_str(&mut v, e.name.as_str());
        append_str(&mut v, "\nPath: ");
        append_str(&mut v, e.command.as_str());
        append_str(&mut v, "\n\n");
        proof {
            assert(entries@.take(i + 1).drop_last() =~= entries@.take(i as int));
            assert(v@ =~= head + prompt_entries_text(entries@.take(i + 1)));
        }
        i = i + 1;
    }
    let ghost body = v@;
    if entries.len() > MAX_PROMPT_ENTRIES {
        append_str(&mut v, "...and ");
        let n = decimal_chars((entries.len() - MAX_PROMPT_ENTRIES) as u128);
        append_chars(&mut v, n.as_slice());
        append_str(&mut v, " more possible older startup entries.\n\n");
    }
    let ghost counted = v@;
    append_str(&mut v, "Yes removes the listed entries and sets this copy to run at startup.\n");
    append_str(&mut v, "No leaves them alone and still sets this copy to run at startup.");
    proof {
        if entries.len() <= MAX_PROMPT_ENTRIES {
            assert(entries@.take(shown as int) =~= entries@);
        }
    }
    assert(v@ =~= legacy_prompt_spec(entries@));
    string_from_chars(v.as_slice())
}

/// The UTF-16 units of `value` followed by a terminating zero, as the
/// registry calls take them.
pub fn wide_null(value: &str) -> (r: Vec<u16>)
    ensures
        r@ == crate::text::utf16_encode(value@).push(0),
{
    crate::overlay::to_wide_null(value)
}

} // verus!
