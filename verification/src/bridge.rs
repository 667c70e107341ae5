//! The local HTTP bridge that the browser extension talks to: the tab and
//! command store, the request head and body read from raw bytes, routing, and
//! the response text.
use vstd::prelude::*;

use std::collections::VecDeque;

use crate::entries::{ExtensionCommand, ExtensionTabPayload, ExtensionTabSnapshot, TabEntry};
use crate::search::{ascii_lower_chars, ascii_lower_seq, extension_payload_to_tab, prune_stale_tabs, tab_is_fresh};
use crate::text::{
    append_chars, append_str, chars_of, decimal, decimal_chars, eq_str, is_ascii_digit_char,
    is_whitespace, is_whitespace_char, string_from_chars, sub_chars, trim_chars, trim_seq,
    utf8_len, utf8_len_exec, words,
};
use crate::monitors::digits_value;

verus! {

/// The address the bridge listens on.
pub const BRIDGE_ADDR: &'static str = "127.0.0.1:39276";

/// The largest request body the bridge accepts, in bytes.
pub const MAX_BODY_BYTES: usize = 1048576;

/// How long a reported tab stays listed without a new report, in milliseconds.
pub const TAB_MAX_AGE_MS: u64 = 15000;

// ---------------------------------------------------------------------------
// The store shared by the request handlers and the overlay
// ---------------------------------------------------------------------------

/// The tabs the extension last reported and the commands waiting for its
/// next poll.
pub struct ExtensionBridge {
    tabs: Vec<TabEntry>,
    commands: VecDeque<ExtensionCommand>,
}

impl ExtensionBridge {
    /// The tabs held.
    pub closed spec fn held_tabs(&self) -> Seq<TabEntry> {
        self.tabs@
    }

    /// The commands waiting, oldest first.
    pub closed spec fn pending_commands(&self) -> Seq<ExtensionCommand> {
        self.commands@
    }

    /// An empty store.
    pub fn new() -> (r: Self)
        ensures
            r.held_tabs() == Seq::<TabEntry>::empty(),
            r.pending_commands() == Seq::<ExtensionCommand>::empty(),
    {
        ExtensionBridge { tabs: Vec::new(), commands: VecDeque::new() }
    }

    /// The tabs reported within the last `TAB_MAX_AGE_MS` before `now`; older
    /// ones are dropped from the store.
    pub fn tabs(&mut self, now: u64) -> (r: Vec<TabEntry>)
        ensures
            final(self).held_tabs() == old(self).held_tabs().filter(
                |t: TabEntry| tab_is_fresh(t, now, TAB_MAX_AGE_MS),
            ),
            r@ == final(self).held_tabs(),
            final(self).pending_commands() == old(self).pending_commands(),
    {
        prune_stale_tabs(&mut self.tabs, now, TAB_MAX_AGE_MS);
        let mut out: Vec<TabEntry> = Vec::new();
        let mut i: usize = 0;
        while i < self.tabs.len()
            invariant
                i <= self.tabs@.len(),
                out@ == self.tabs@.take(i as int),
            decreases self.tabs.len() - i,
        {
            out.push(self.tabs[i].clone());
            assert(out@ =~= self.tabs@.take(i + 1));
            i = i + 1;
        }
        assert(self.tabs@.take(self.tabs@.len() as int) =~= self.tabs@);
        out
    }

    /// Asks the extension to activate a tab at its next poll.
    pub fn queue_activate_tab(&mut self, browser: &str, window_id: i64, tab_id: i64)
        ensures
            final(self).held_tabs() == old(self).held_tabs(),
            final(self).pending_commands().len() == old(self).pending_commands().len() + 1,
            final(self).pending_commands().drop_last() == old(self).pending_commands(),
            final(self).pending_commands().last() matches ExtensionCommand::ActivateTab {
                browser: b,
                window_id: w,
                tab_id: t,
            } && b@ == browser@ && w == window_id && t == tab_id,
    {
        let b = string_from_chars(chars_of(browser).as_slice());
        self.commands.push_back(ExtensionCommand::ActivateTab { browser: b, window_id, tab_id });
        assert(self.commands@.drop_last() =~= old(self).commands@);
    }

    /// Hands out the waiting commands, oldest first, and forgets them.
    pub fn take_commands(&mut self) -> (r: Vec<ExtensionCommand>)
        ensures
            r@ == old(self).pending_commands(),
            final(self).pending_commands() == Seq::<ExtensionCommand>::empty(),
            final(self).held_tabs() == old(self).held_tabs(),
    {
        let mut out: Vec<ExtensionCommand> = Vec::new();
        while self.commands.len() > 0
            invariant
                out@ + self.commands@ == old(self).pending_commands(),
                self.tabs@ == old(self).tabs@,
            decreases self.commands@.len(),
        {
            let ghost before = self.commands@;
            match self.commands.pop_front() {
                Some(c) => {
                    out.push(c);
                    assert(out@ + self.commands@ =~= old(self).pending_commands());
                },
                None => {},
            }
        }
        assert(self.commands@ =~= Seq::<ExtensionCommand>::empty());
        assert(out@ =~= old(self).pending_commands());
        out
    }

    /// Replaces the tabs with those of a report received at `now`.
    pub fn store_tabs(&mut self, payloads: Vec<ExtensionTabPayload>, now: u64)
        ensures
            final(self).held_tabs().len() == payloads@.len(),
            forall|i: int|
                0 <= i < payloads@.len() ==> {
                    let t = #[trigger] final(self).held_tabs()[i];
                    &&& t.browser == payloads@[i].browser
                    &&& t.title == payloads@[i].title
                    &&& t.active == payloads@[i].active
                    &&& t.extension_window_id == Some(payloads@[i].window_id)
                    &&& t.extension_tab_id == Some(payloads@[i].tab_id)
                    &&& t.parent_hwnd is None
                    &&& t.window_title is None
                    &&& t.source == crate::entries::TabSource::Extension
                    &&& t.last_seen == now
                },
            final(self).pending_commands() == old(self).pending_commands(),
    {
        let mut tabs: Vec<TabEntry> = Vec::new();
        let mut i: usize = 0;
        while i < payloads.len()
            invariant
                i <= payloads@.len(),
                tabs@.len() == i,
                forall|k: int|
                    0 <= k < i ==> {
                        let t = #[trigger] tabs@[k];
                        &&& t.browser == payloads@[k].browser
                        &&& t.title == payloads@[k].title
                        &&& t.active == payloads@[k].active
                        &&& t.extension_window_id == Some(payloads@[k].window_id)
                        &&& t.extension_tab_id == Some(payloads@[k].tab_id)
                        &&& t.parent_hwnd is None
                        &&& t.window_title is None
                        &&& t.source == crate::entries::TabSource::Extension
                        &&& t.last_seen == now
                    },
            decreases payloads.len() - i,
        {
            let payload = payloads[i].clone();
            tabs.push(extension_payload_to_tab(payload, now));
            i = i + 1;
        }
        self.tabs = tabs;
    }
}

// ---------------------------------------------------------------------------
// Tab reports
// ---------------------------------------------------------------------------

/// Whether a request body is small enough to read as a tab report.
pub fn body_within_limit(len: usize) -> (r: bool)
    ensures
        r == (len <= MAX_BODY_BYTES),
{
    len <= MAX_BODY_BYTES
}

/// A reported tab after the report is read: its browser filled in from the
/// report where blank.
pub open spec fn filled_payload(p: ExtensionTabPayload, report_browser: String) -> ExtensionTabPayload {
    if trim_seq(p.browser@).len() == 0 {
        ExtensionTabPayload { browser: report_browser, ..p }
    } else {
        p
    }
}

/// The tabs of a report that have a title, with blank browsers filled in from
/// the report's browser.
pub fn tabs_from_snapshot(snapshot: ExtensionTabSnapshot) -> (r: Vec<ExtensionTabPayload>)
    ensures
        r@ == snapshot.tabs@.filter(|p: ExtensionTabPayload| trim_seq(p.title@).len() > 0).map_values(
            |p: ExtensionTabPayload| filled_payload(p, snapshot.browser),
        ),
{
    let ghost keep = |p: ExtensionTabPayload| trim_seq(p.title@).len() > 0;
    let ghost fill = |p: ExtensionTabPayload| filled_payload(p, snapshot.browser);
    let mut out: Vec<ExtensionTabPayload> = Vec::new();
    let mut i: usize = 0;
    while i < snapshot.tabs.len()
        invariant
            i <= snapshot.tabs@.len(),
            keep == (|p: ExtensionTabPayload| trim_seq(p.title@).len() > 0),
            fill == (|p: ExtensionTabPayload| filled_payload(p, snapshot.browser)),
            out@ == snapshot.tabs@.take(i as int).filter(keep).map_values(fill),
        decreases snapshot.tabs.len() - i,
    {
        let ghost tabs = snapshot.tabs@;
        proof {
            assert(tabs.take(i + 1) =~= tabs.take(i as int).push(tabs[i as int]));
            tabs.take(i as int).lemma_filter_push(tabs[i as int], keep);
        }
        let tab = snapshot.tabs[i].clone();
        let title = trim_chars(chars_of(tab.title.as_str()).as_slice());
        if title.len() > 0 {
            let browser = trim_chars(chars_of(tab.browser.as_str()).as_slice());
            let filled = if browser.len() == 0 {
                ExtensionTabPayload { browser: snapshot.browser.clone(), ..tab }
            } else {
                tab
            };
            let ghost before = out@;
            out.push(filled);
            proof {
                let kept = tabs.take(i as int).filter(keep);
                assert(tabs.take(i + 1).filter(keep) == kept.push(tabs[i as int]));
                assert(kept.push(tabs[i as int]).map_values(fill) =~= kept.map_values(fill).push(
                    fill(tabs[i as int]),
                ));
            }
        }
        i = i + 1;
    }
    assert(snapshot.tabs@.take(snapshot.tabs@.len() as int) =~= snapshot.tabs@);
    out
}

// ---------------------------------------------------------------------------
// Reading a request
// ---------------------------------------------------------------------------

/// What `String::from_utf8_lossy` returns: invalid data replaced by U+FFFD.
pub uninterp spec fn utf8_decode_lossy(bytes: Seq<u8>) -> Seq<char>;

/// Calls `String::from_utf8_lossy`; the contract claims only that the text is a
/// function of the bytes.
#[verifier::external_body]
fn decode_utf8_lossy(bytes: &[u8]) -> (r: String)
    ensures
        r@ == utf8_decode_lossy(bytes@),
{
    String::from_utf8_lossy(bytes).into_owned()
}

/// Whether the blank line `\r\n\r\n` starts at byte `i`.
pub open spec fn blank_line_at(b: Seq<u8>, i: int) -> bool {
    0 <= i && i + 4 <= b.len() && b[i] == 13 && b[i + 1] == 10 && b[i + 2] == 13 && b[i + 3] == 10
}

/// Where the header block of a request ends: the first `\r\n\r\n`.
pub open spec fn header_end_spec(b: Seq<u8>) -> Option<int> {
    if exists|i: int| blank_line_at(b, i) {
        Some(choose|i: int| blank_line_at(b, i) && forall|j: int| 0 <= j < i ==> !blank_line_at(b, j))
    } else {
        None
    }
}

/// The position of the first `\r\n\r\n` in `buffer`.
pub fn find_header_end(buffer: &[u8]) -> (r: Option<usize>)
    ensures
        match r {
            Some(i) => i + 4 <= buffer@.len() && header_end_spec(buffer@) == Some(i as int),
            None => header_end_spec(buffer@) is None,
        },
{
    let mut i: usize = 0;
    while i < buffer.len() && buffer.len() - i >= 4
        invariant
            i <= buffer@.len(),
            forall|j: int| 0 <= j < i ==> !blank_line_at(buffer@, j),
        decreases buffer.len() - i,
    {
        if buffer[i] == 13 && buffer[i + 1] == 10 && buffer[i + 2] == 13 && buffer[i + 3] == 10 {
            proof {
                assert(blank_line_at(buffer@, i as int));
                let c = choose|c: int| blank_line_at(buffer@, c) && forall|j: int| 0 <= j < c ==> !blank_line_at(buffer@, j);
                assert(c == i) by {
                    if c < i {
                    } else if c > i {
                        assert(blank_line_at(buffer@, i as int));
                    }
                }
            }
            return Some(i);
        }
        i = i + 1;
    }
    proof {
        assert forall|j: int| !blank_line_at(buffer@, j) by {
            if 0 <= j < i {
            }
        }
    }
    None
}

/// The end of the line that starts at `i`: the next `\n`, or the end.
pub open spec fn line_end(t: Seq<char>, i: int) -> int
    decreases t.len() - i,
{
    if i >= t.len() {
        t.len() as int
    } else if t[i] == '\n' {
        i
    } else {
        line_end(t, i + 1)
    }
}

pub proof fn lemma_line_end_bounds(t: Seq<char>, i: int)
    requires
        0 <= i <= t.len(),
    ensures
        i <= line_end(t, i) <= t.len(),
        line_end(t, i) < t.len() ==> t[line_end(t, i)] == '\n',
        forall|k: int| i <= k < line_end(t, i) ==> t[k] != '\n',
    decreases t.len() - i,
{
    if i < t.len() && t[i] != '\n' {
        lemma_line_end_bounds(t, i + 1);
    }
}

/// A line ended by `\n`, without a `\r` before that `\n`.
pub open spec fn strip_cr(line: Seq<char>) -> Seq<char> {
    if line.len() > 0 && line.last() == '\r' {
        line.drop_last()
    } else {
        line
    }
}

/// The lines of `t` from position `i`, as `str::lines` yields them.
pub open spec fn lines_from(t: Seq<char>, i: int) -> Seq<Seq<char>>
    decreases t.len() - i,
{
    if i < 0 || i >= t.len() {
        Seq::empty()
    } else {
        let k = line_end(t, i);
        if k >= t.len() {
            seq![t.subrange(i, t.len() as int)]
        } else {
            proof {
                lemma_line_end_bounds(t, i);
            }
            seq![strip_cr(t.subrange(i, k))] + lines_from(t, k + 1)
        }
    }
}

/// The first non-whitespace position at or after `i` (or the end).
pub open spec fn word_start(s: Seq<char>, i: int) -> int
    decreases s.len() - i,
{
    if i < 0 || i >= s.len() {
        s.len() as int
    } else if is_whitespace_char(s[i]) {
        word_start(s, i + 1)
    } else {
        i
    }
}

/// The first whitespace position at or after `i` (or the end).
pub open spec fn word_end(s: Seq<char>, i: int) -> int
    decreases s.len() - i,
{
    if i < 0 || i >= s.len() {
        s.len() as int
    } else if is_whitespace_char(s[i]) {
        i
    } else {
        word_end(s, i + 1)
    }
}

/// The part of a request target before its query string.
pub open spec fn target_path(target: Seq<char>) -> Seq<char> {
    if target.contains('?') {
        target.take(crate::startup::first_index_of(target, '?').unwrap())
    } else {
        target
    }
}

/// `v` without one leading `+`.
pub open spec fn unsigned_digits(v: Seq<char>) -> Seq<char> {
    if v.len() > 0 && v[0] == '+' {
        v.drop_first()
    } else {
        v
    }
}

pub open spec fn all_ascii_digits(d: Seq<char>) -> bool {
    forall|i: int| 0 <= i < d.len() ==> is_ascii_digit_char(#[trigger] d[i])
}

/// What `usize::from_str` gives for `v`: an optional `+`, then one or more
/// ASCII digits, whose value fits a `usize`.
pub open spec fn parse_usize_spec(v: Seq<char>) -> Option<usize> {
    let d = unsigned_digits(v);
    if d.len() > 0 && all_ascii_digits(d) && digits_value(d) <= usize::MAX {
        Some(digits_value(d) as usize)
    } else {
        None
    }
}

/// The Content-Length a header line gives: a line with a `:` whose name is
/// `content-length` in any ASCII case and whose trimmed value is a number.
pub open spec fn header_content_length(line: Seq<char>) -> Option<usize> {
    if line.contains(':') {
        let k = crate::startup::first_index_of(line, ':').unwrap();
        if ascii_lower_seq(line.take(k)) == "content-length"@ {
            parse_usize_spec(trim_seq(line.skip(k + 1)))
        } else {
            None
        }
    } else {
        None
    }
}

/// The first Content-Length among header lines, or 0.
pub open spec fn content_length_spec(lines: Seq<Seq<char>>) -> usize
    decreases lines.len(),
{
    if lines.len() == 0 {
        0
    } else {
        match header_content_length(lines[0]) {
            Some(n) => n,
            None => content_length_spec(lines.drop_first()),
        }
    }
}

/// Why a request could not be read.
#[derive(Clone, Copy, Debug, PartialEq, Eq, Structural)]
pub enum RequestError {
    Malformed,
    MissingRequestLine,
    MissingMethod,
    MissingPath,
    BodyTooLarge,
}

impl RequestError {
    /// The message the bridge reports for the error.
    pub fn message(&self) -> (r: &'static str)
        ensures
            r@ == match *self {
                RequestError::Malformed => "malformed http request"@,
                RequestError::MissingRequestLine => "missing http request line"@,
                RequestError::MissingMethod => "missing http method"@,
                RequestError::MissingPath => "missing http path"@,
                RequestError::BodyTooLarge => "request body too large"@,
            },
    {
        match *self {
            RequestError::Malformed => "malformed http request",
            RequestError::MissingRequestLine => "missing http request line",
            RequestError::MissingMethod => "missing http method",
            RequestError::MissingPath => "missing http path",
            RequestError::BodyTooLarge => "request body too large",
        }
    }
}

/// The method, path and body length of a request, and where its body starts.
pub struct RequestHead {
    pub method: String,
    pub path: String,
    pub content_length: usize,
    pub body_start: usize,
}

/// What a header block with text `t`, ending at byte `e`, reads as.
#[verifier::opaque]
pub open spec fn head_from_text(t: Seq<char>, e: int) -> Result<(Seq<char>, Seq<char>, usize, int), RequestError> {
    let ls = lines_from(t, 0);
    if ls.len() == 0 {
        Err(RequestError::MissingRequestLine)
    } else {
        let l = ls[0];
        let a = word_start(l, 0);
        let b = word_end(l, a);
        let c = word_start(l, b);
        let d = word_end(l, c);
        if a >= l.len() {
            Err(RequestError::MissingMethod)
        } else if c >= l.len() {
            Err(RequestError::MissingPath)
        } else {
            let n = content_length_spec(ls.drop_first());
            if n > MAX_BODY_BYTES {
                Err(RequestError::BodyTooLarge)
            } else {
                Ok((l.subrange(a, b), target_path(l.subrange(c, d)), n, e + 4))
            }
        }
    }
}

/// What the head of the request in `b` reads as.
#[verifier::opaque]
pub open spec fn request_head_spec(b: Seq<u8>) -> Result<(Seq<char>, Seq<char>, usize, int), RequestError> {
    match header_end_spec(b) {
        None => Err(RequestError::Malformed),
        Some(e) => head_from_text(utf8_decode_lossy(b.take(e)), e),
    }
}

fn word_start_exec(s: &[char], i: usize) -> (r: usize)
    requires
        i <= s@.len(),
    ensures
        r == word_start(s@, i as int),
        i <= r <= s@.len(),
{
    let mut k = i;
    while k < s.len() && is_whitespace(s[k])
        invariant
            i <= k <= s@.len(),
            word_start(s@, i as int) == word_start(s@, k as int),
        decreases s.len() - k,
    {
        k = k + 1;
    }
    k
}

fn word_end_exec(s: &[char], i: usize) -> (r: usize)
    requires
        i <= s@.len(),
    ensures
        r == word_end(s@, i as int),
        i <= r <= s@.len(),
{
    let mut k = i;
    while k < s.len() && !is_whitespace(s[k])
        invariant
            i <= k <= s@.len(),
            word_end(s@, i as int) == word_end(s@, k as int),
        decreases s.len() - k,
    {
        k = k + 1;
    }
    k
}

fn line_end_exec(t: &[char], i: usize) -> (r: usize)
    requires
        i <= t@.len(),
    ensures
        r == line_end(t@, i as int),
        i <= r <= t@.len(),
{
    let mut k = i;
    while k < t.len() && t[k] != '\n'
        invariant
            i <= k <= t@.len(),
            line_end(t@, i as int) == line_end(t@, k as int),
        decreases t.len() - k,
    {
        k = k + 1;
    }
    k
}

/// The line that starts at `i` and ends at `k` (a `\n`, or the end).
fn line_at(t: &[char], i: usize, k: usize) -> (r: Vec<char>)
    requires
        i <= k <= t@.len(),
    ensures
        r@ == if k >= t@.len() {
            t@.subrange(i as int, t@.len() as int)
        } else {
            strip_cr(t@.subrange(i as int, k as int))
        },
{
    let v = sub_chars(t, i, k);
    if k < t.len() && v.len() > 0 && v[v.len() - 1] == '\r' {
        let w = sub_chars(v.as_slice(), 0, v.len() - 1);
        assert(w@ =~= v@.drop_last());
        w
    } else {
        v
    }
}

fn parse_usize_exec(v: &[char]) -> (r: Option<usize>)
    ensures
        r == parse_usize_spec(v@),
{
    let start: usize = if v.len() > 0 && v[0] == '+' {
        1
    } else {
        0
    };
    let d = sub_chars(v, start, v.len());
    assert(d@ =~= unsigned_digits(v@));
    if d.len() == 0 {
        return None;
    }
    let mut cur: Option<usize> = Some(0);
    let mut i: usize = 0;
    assert(d@.take(0) =~= Seq::<char>::empty());
    while i < d.len()
        invariant
            d@ == unsigned_digits(v@),
            d@.len() > 0,
            i <= d@.len(),
            forall|k: int| 0 <= k < i ==> is_ascii_digit_char(#[trigger] d@[k]),
            cur == if digits_value(d@.take(i as int)) <= usize::MAX {
                Some(digits_value(d@.take(i as int)) as usize)
            } else {
                None::<usize>
            },
        decreases d.len() - i,
    {
        let c = d[i];
        if !('0' <= c && c <= '9') {
            assert(!is_ascii_digit_char(d@[i as int]));
            assert(!all_ascii_digits(d@));
            return None;
        }
        let dv = ((c as u32) - ('0' as u32)) as usize;
        proof {
            assert(d@.take(i + 1) =~= d@.take(i as int).push(c));
            assert(d@.take(i + 1).drop_last() =~= d@.take(i as int));
        }
        cur = match cur {
            Some(x) => match x.checked_mul(10) {
                Some(m) => m.checked_add(dv),
                None => None,
            },
            None => None,
        };
        i = i + 1;
    }
    assert(d@.take(d@.len() as int) =~= d@);
    cur
}

fn header_content_length_exec(line: &[char]) -> (r: Option<usize>)
    ensures
        r == header_content_length(line@),
{
    match crate::startup::index_of_char(line, ':') {
        Some(k) => {
            let n = line.len();
            let name = sub_chars(line, 0, k);
            assert(name@ =~= line@.take(k as int));
            let lower = ascii_lower_chars(name.as_slice());
            if !eq_str(lower.as_slice(), "content-length") {
                return None;
            }
            let value = sub_chars(line, k + 1, n);
            assert(value@ =~= line@.skip(k + 1));
            let trimmed = trim_chars(value.as_slice());
            parse_usize_exec(trimmed.as_slice())
        },
        None => None,
    }
}

/// The method and path that a request line gives.
fn request_line_parts(l: &[char]) -> (r: Result<(Vec<char>, Vec<char>), RequestError>)
    ensures
        ({
            let a = word_start(l@, 0);
            let b = word_end(l@, a);
            let c = word_start(l@, b);
            let d = word_end(l@, c);
            match r {
                Ok((m, p)) => a < l@.len() && c < l@.len() && m@ == l@.subrange(a, b) && p@
                    == target_path(l@.subrange(c, d)),
                Err(e) => if a >= l@.len() {
                    e == RequestError::MissingMethod
                } else {
                    c >= l@.len() && e == RequestError::MissingPath
                },
            }
        }),
{
    let a = word_start_exec(l, 0);
    let b = word_end_exec(l, a);
    let c = word_start_exec(l, b);
    let d = word_end_exec(l, c);
    if a >= l.len() {
        return Err(RequestError::MissingMethod);
    }
    if c >= l.len() {
        return Err(RequestError::MissingPath);
    }
    let method = sub_chars(l, a, b);
    let target = sub_chars(l, c, d);
    let path = match crate::startup::index_of_char(target.as_slice(), '?') {
        Some(q) => {
            let p = sub_chars(target.as_slice(), 0, q);
            assert(p@ =~= target@.take(q as int));
            p
        },
        None => target,
    };
    Ok((method, path))
}

/// The Content-Length given by the lines of `t` from position `j`.
fn content_length_from(t: &[char], j0: usize) -> (r: usize)
    requires
        j0 <= t@.len(),
    ensures
        r == content_length_spec(lines_from(t@, j0 as int)),
{
    let ghost ts = t@;
    let mut j = j0;
    let mut length: usize = 0;
    let mut found = false;
    while j < t.len() && !found
        invariant
            t@ == ts,
            j <= ts.len(),
            found ==> content_length_spec(lines_from(ts, j0 as int)) == length,
            !found ==> length == 0,
            !found ==> content_length_spec(lines_from(ts, j0 as int)) == content_length_spec(
                lines_from(ts, j as int),
            ),
        decreases ts.len() - j + (if found { 0int } else { 1int }),
    {
        let k2 = line_end_exec(t, j);
        let line = line_at(t, j, k2);
        proof {
            lemma_line_end_bounds(ts, j as int);
            assert(lines_from(ts, j as int)[0] == line@);
            if k2 < ts.len() {
                assert(lines_from(ts, j as int).drop_first() =~= lines_from(ts, k2 + 1));
            } else {
                assert(lines_from(ts, j as int).drop_first() =~= Seq::<Seq<char>>::empty());
                assert(lines_from(ts, ts.len() as int) =~= Seq::<Seq<char>>::empty());
            }
        }
        match header_content_length_exec(line.as_slice()) {
            Some(n) => {
                length = n;
                found = true;
            },
            None => {
                j = if k2 < t.len() {
                    k2 + 1
                } else {
                    t.len()
                };
            },
        }
    }
    proof {
        if !found {
            assert(lines_from(ts, j as int) =~= Seq::<Seq<char>>::empty());
        }
    }
    length
}

/// Whether a read head agrees with what the bytes read as.
pub open spec fn head_matches(
    r: Result<RequestHead, RequestError>,
    s: Result<(Seq<char>, Seq<char>, usize, int), RequestError>,
) -> bool {
    match r {
        Ok(h) => s == Ok::<(Seq<char>, Seq<char>, usize, int), RequestError>(
            (h.method@, h.path@, h.content_length, h.body_start as int),
        ),
        Err(err) => s == Err::<(Seq<char>, Seq<char>, usize, int), RequestError>(err),
    }
}

fn head_from_text_exec(t: &[char], e: usize) -> (r: Result<RequestHead, RequestError>)
    requires
        e + 4 <= usize::MAX,
    ensures
        head_matches(r, head_from_text(t@, e as int)),
{
    reveal(head_from_text);
    let ghost ts = t@;
    if t.len() == 0 {
        return Err(RequestError::MissingRequestLine);
    }
    let k = line_end_exec(t, 0);
    let l = line_at(t, 0, k);
    proof {
        lemma_line_end_bounds(ts, 0);
        assert(lines_from(ts, 0)[0] == l@);
    }
    let (method, path) = match request_line_parts(l.as_slice()) {
        Ok(parts) => parts,
        Err(err) => return Err(err),
    };
    let j: usize = if k < t.len() {
        k + 1
    } else {
        t.len()
    };
    proof {
        if k < ts.len() {
            assert(lines_from(ts, 0).drop_first() =~= lines_from(ts, k + 1));
        } else {
            assert(lines_from(ts, 0).drop_first() =~= Seq::<Seq<char>>::empty());
            assert(lines_from(ts, ts.len() as int) =~= Seq::<Seq<char>>::empty());
        }
    }
    let length = content_length_from(t, j);
    if length > MAX_BODY_BYTES {
        return Err(RequestError::BodyTooLarge);
    }
    Ok(
        RequestHead {
            method: string_from_chars(method.as_slice()),
            path: string_from_chars(path.as_slice()),
            content_length: length,
            body_start: e + 4,
        },
    )
}

/// Reads the head of the request in `buffer`: its method, its path without
/// the query string, the Content-Length (0 where no header gives one) and
/// where the body starts.
pub fn read_request_head(buffer: &[u8]) -> (r: Result<RequestHead, RequestError>)
    ensures
        head_matches(r, request_head_spec(buffer@)),
{
    let found = find_header_end(buffer);
    match found {
        Some(end) => {
            assert(end + 4 <= buffer@.len());
            let len = buffer.len();
            assert(end + 4 <= len);
            let head_bytes = byte_prefix(buffer, end);
            let text = decode_utf8_lossy(head_bytes.as_slice());
            let t = chars_of(text.as_str());
            proof {
                reveal(request_head_spec);
                assert(head_bytes@ == buffer@.take(end as int));
                assert(request_head_spec(buffer@) == head_from_text(t@, end as int));
            }
            head_from_text_exec(t.as_slice(), end)
        },
        None => {
            proof {
                reveal(request_head_spec);
            }
            Err(RequestError::Malformed)
        },
    }
}

/// The first `n` bytes of `b`.
pub fn byte_prefix(b: &[u8], n: usize) -> (r: Vec<u8>)
    requires
        n <= b@.len(),
    ensures
        r@ == b@.take(n as int),
{
    let mut r: Vec<u8> = Vec::new();
    let mut i: usize = 0;
    while i < n
        invariant
            i <= n <= b@.len(),
            r@ == b@.take(i as int),
        decreases n - i,
    {
        r.push(b[i]);
        assert(r@ =~= b@.take(i + 1));
        i = i + 1;
    }
    r
}

impl RequestHead {
    /// Whether the buffer, now `buffer_len` bytes long, still lacks part of
    /// the body.
    pub fn needs_more_body(&self, buffer_len: usize) -> (r: bool)
        ensures
            r == ((if buffer_len >= self.body_start {
                buffer_len - self.body_start
            } else {
                0
            }) < self.content_length),
    {
        buffer_len.saturating_sub(self.body_start) < self.content_length
    }
}

/// A request as the bridge handles it.
pub struct HttpRequest {
    pub method: String,
    pub path: String,
    pub body: Vec<u8>,
}

/// The request whose head is `head`, with as much of its body as `buffer`
/// holds, at most Content-Length bytes.
pub fn request_from_head(head: RequestHead, buffer: &[u8]) -> (r: HttpRequest)
    requires
        head.body_start <= buffer@.len(),
    ensures
        r.method == head.method,
        r.path == head.path,
        r.body@ == buffer@.subrange(
            head.body_start as int,
            head.body_start + (if buffer@.len() - head.body_start < head.content_length {
                buffer@.len() - head.body_start
            } else {
                head.content_length as int
            }),
        ),
{
    let len = buffer.len();
    let available = len - head.body_start;
    let body_len = if available < head.content_length {
        available
    } else {
        head.content_length
    };
    let mut body: Vec<u8> = Vec::new();
    let mut i: usize = 0;
    while i < body_len
        invariant
            len == buffer@.len(),
            head.body_start + body_len <= len,
            i <= body_len,
            body@ == buffer@.subrange(head.body_start as int, head.body_start + i),
        decreases body_len - i,
    {
        body.push(buffer[head.body_start + i]);
        assert(body@ =~= buffer@.subrange(head.body_start as int, head.body_start + i + 1));
        i = i + 1;
    }
    HttpRequest { method: head.method, path: head.path, body }
}

// ---------------------------------------------------------------------------
// Routing and responses
// ---------------------------------------------------------------------------

/// What a request asks of the bridge.
#[derive(Clone, Copy, Debug, PartialEq, Eq, Structural)]
pub enum Route {
    Preflight,
    Health,
    Commands,
    Tabs,
    NotFound,
}

/// The route of a request: any `OPTIONS` request is a CORS preflight;
/// `GET /health`, `GET /commands` and `POST /tabs` are the bridge's
/// endpoints; anything else is not found.
pub fn route_request(method: &str, path: &str) -> (r: Route)
    ensures
        r == if method@ == "OPTIONS"@ {
            Route::Preflight
        } else if method@ == "GET"@ && path@ == "/health"@ {
            Route::Health
        } else if method@ == "GET"@ && path@ == "/commands"@ {
            Route::Commands
        } else if method@ == "POST"@ && path@ == "/tabs"@ {
            Route::Tabs
        } else {
            Route::NotFound
        },
{
    let m = chars_of(method);
    let p = chars_of(path);
    if eq_str(m.as_slice(), "OPTIONS") {
        Route::Preflight
    } else if eq_str(m.as_slice(), "GET") && eq_str(p.as_slice(), "/health") {
        Route::Health
    } else if eq_str(m.as_slice(), "GET") && eq_str(p.as_slice(), "/commands") {
        Route::Commands
    } else if eq_str(m.as_slice(), "POST") && eq_str(p.as_slice(), "/tabs") {
        Route::Tabs
    } else {
        Route::NotFound
    }
}

/// The body that reports success.
pub const OK_BODY: &'static str = "{\"ok\":true}";

/// The body of an unknown route.
pub const NOT_FOUND_BODY: &'static str = "{\"error\":\"not found\"}";

/// The command list sent when the commands cannot be written out.
pub const NO_COMMANDS_BODY: &'static str = "{\"commands\":[]}";

/// The reason phrase of a status code the bridge sends.
pub open spec fn status_reason(status: u16) -> Seq<char> {
    if status == 200 {
        "OK"@
    } else if status == 204 {
        "No Content"@
    } else if status == 400 {
        "Bad Request"@
    } else if status == 404 {
        "Not Found"@
    } else {
        "OK"@
    }
}

/// A complete HTTP response with a JSON body, permissive CORS headers and
/// the body's length in bytes.
pub open spec fn json_response_spec(status: u16, body: Seq<char>) -> Seq<char> {
    "HTTP/1.1 "@ + decimal(status as nat) + " "@ + status_reason(status)
        + "\r\nContent-Type: application/json; charset=utf-8\r\nAccess-Control-Allow-Origin: *\r\nAccess-Control-Allow-Methods: GET, POST, OPTIONS\r\nAccess-Control-Allow-Headers: content-type\r\nContent-Length: "@
        + decimal(utf8_len(body)) + "\r\nConnection: close\r\n\r\n"@ + body
}

pub fn json_response(status: u16, body: &str) -> (r: String)
    ensures
        r@ == json_response_spec(status, body@),
{
    let reason = if status == 200 {
        "OK"
    } else if status == 204 {
        "No Content"
    } else if status == 400 {
        "Bad Request"
    } else if status == 404 {
        "Not Found"
    } else {
        "OK"
    };
    let mut v = chars_of("HTTP/1.1 ");
    let code = decimal_chars(status as u128);
    append_chars(&mut v, code.as_slice());
    append_str(&mut v, " ");
    append_str(&mut v, reason);
    append_str(
        &mut v,
        "\r\nContent-Type: application/json; charset=utf-8\r\nAccess-Control-Allow-Origin: *\r\nAccess-Control-Allow-Methods: GET, POST, OPTIONS\r\nAccess-Control-Allow-Headers: content-type\r\nContent-Length: ",
    );
    let b = chars_of(body);
    let n = utf8_len_exec(b.as_slice());
    let digits = decimal_chars(n);
    append_chars(&mut v, digits.as_slice());
    append_str(&mut v, "\r\nConnection: close\r\n\r\n");
    append_chars(&mut v, b.as_slice());
    string_from_chars(v.as_slice())
}

/// One character escaped for a JSON string: `\` and `"` get a backslash.
pub open spec fn escape_json_char(c: char) -> Seq<char> {
    if c == '\\' {
        seq!['\\', '\\']
    } else if c == '"' {
        seq!['\\', '"']
    } else {
        seq![c]
    }
}

/// Text escaped for a JSON string.
pub open spec fn escape_json_spec(s: Seq<char>) -> Seq<char>
    decreases s.len(),
{
    if s.len() == 0 {
        Seq::empty()
    } else {
        escape_json_spec(s.drop_last()) + escape_json_char(s.last())
    }
}

/// An error message with its backslashes and quotes escaped for JSON.
pub fn escape_json(message: &str) -> (r: String)
    ensures
        r@ == escape_json_spec(message@),
{
    let m = chars_of(message);
    let mut v: Vec<char> = Vec::new();
    let mut i: usize = 0;
    while i < m.len()
        invariant
            i <= m@.len(),
            v@ == escape_json_spec(m@.take(i as int)),
        decreases m.len() - i,
    {
        let c = m[i];
        proof {
            assert(m@.take(i + 1).drop_last() =~= m@.take(i as int));
        }
        if c == '\\' {
            v.push('\\');
            v.push('\\');
        } else if c == '"' {
            v.push('\\');
            v.push('"');
        } else {
            v.push(c);
        }
        assert(v@ =~= escape_json_spec(m@.take(i + 1)));
        i = i + 1;
    }
    assert(m@.take(m@.len() as int) =~= m@);
    string_from_chars(v.as_slice())
}

/// The body that reports an error: `{"error":"<escaped message>"}`.
pub fn error_body(message: &str) -> (r: String)
    ensures
        r@ == "{\"error\":\""@ + escape_json_spec(message@) + "\"}"@,
{
    let mut v = chars_of("{\"error\":\"");
    let e = escape_json(message);
    append_str(&mut v, e.as_str());
    append_str(&mut v, "\"}");
    string_from_chars(v.as_slice())
}

/// The response to a route that needs neither the store nor the body: a
/// preflight, the health check, or an unknown route.
pub fn simple_response(route: Route) -> (r: Option<String>)
    ensures
        match route {
            Route::Preflight => r matches Some(s) && s@ == json_response_spec(204, ""@),
            Route::Health => r matches Some(s) && s@ == json_response_spec(200, OK_BODY@),
            Route::NotFound => r matches Some(s) && s@ == json_response_spec(404, NOT_FOUND_BODY@),
            _ => r is None,
        },
{
    match route {
        Route::Preflight => Some(json_response(204, "")),
        Route::Health => Some(json_response(200, OK_BODY)),
        Route::NotFound => Some(json_response(404, NOT_FOUND_BODY)),
        _ => None,
    }
}

} // verus!
