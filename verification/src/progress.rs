//! Reading planetiler's log lines.
//!
//! Planetiler runs as a subprocess, so progress has to come from what it prints. Real samples,
//! terminal escapes already removed:
//!
//! ```text
//! 0:00:01 INF [lake_centerlines] - Starting...
//! 0:00:02 INF [lake_centerlines] -  read: [   22 100%   53/s ] write: [    0    0/s ] 0
//! 0:00:02 INF [lake_centerlines] - Finished in 1s cpu:3s avg:2.7
//! 0:00:02 INF [lake_centerlines] -   read     1x(19% 0.2s)
//! 0:00:50 INF [archive:write] - Finished z12 in 1s cpu:20s avg:15.7, now starting z13
//! 0:00:53 INF [archive] - FINISHED!
//!     cpus: 0.7 gc:  0% heap: 67M/34G direct: 245k postGC: 76M
//! ```
//!
//! A line has the shape `H:MM:SS LEVEL [stage] - content`, the stage being optional. The
//! percent that means progress always sits inside a `label: [ ... ]` counter; the one inside
//! `( ... )` is a per-worker CPU summary. Continuation lines have no prefix at all. The end of
//! the whole run is only recognisable by `FINISHED!`. Anything else is a plain log line: the
//! format moves between releases, so no line ever makes parsing fail.
//!
//! The grammar below is written out position by position over the line's characters. Digits
//! are ASCII digits and white space is Unicode `White_Space`.
use vstd::prelude::*;
use crate::text::{
    chars_of, class_test, digits_upto, digits_value, in_class, is_digit, is_letter, is_whitespace,
    is_ws, lemma_run, matches_at, run, run_end, slice_of, string_of, string_of_range, trim,
    trim_end, trim_end_index, trim_vec, Class,
};

verus! {

/// One parsed line. `Log` is the catch-all and by far the most common.
#[derive(Debug, Clone, PartialEq)]
pub enum LogEvent {
    /// A named stage began, e.g. `osm_pass1`.
    PhaseStart { stage: String },
    /// Progress within a stage. `label` is the counter name (`read`, `features`, `chunks`).
    Progress { stage: String, label: String, percent: u8 },
    /// A stage completed. `elapsed` is planetiler's own rendering, e.g. `1s`, `2m30s`.
    PhaseEnd { stage: String, elapsed: String },
    /// One zoom level of the archive stage finished.
    ZoomEnd { stage: String, zoom: u8, elapsed: String },
    /// The whole run terminated. Carries no duration of its own.
    RunEnd,
    Log { line: String },
}

/// A [`LogEvent`] with its text as character sequences.
pub enum EventModel {
    PhaseStart { stage: Seq<char> },
    Progress { stage: Seq<char>, label: Seq<char>, percent: nat },
    PhaseEnd { stage: Seq<char>, elapsed: Seq<char> },
    ZoomEnd { stage: Seq<char>, zoom: nat, elapsed: Seq<char> },
    RunEnd,
    Log { line: Seq<char> },
}

impl View for LogEvent {
    type V = EventModel;

    open spec fn view(&self) -> EventModel {
        match self {
            LogEvent::PhaseStart { stage } => EventModel::PhaseStart { stage: stage@ },
            LogEvent::Progress { stage, label, percent } => EventModel::Progress {
                stage: stage@,
                label: label@,
                percent: *percent as nat,
            },
            LogEvent::PhaseEnd { stage, elapsed } => EventModel::PhaseEnd {
                stage: stage@,
                elapsed: elapsed@,
            },
            LogEvent::ZoomEnd { stage, zoom, elapsed } => EventModel::ZoomEnd {
                stage: stage@,
                zoom: *zoom as nat,
                elapsed: elapsed@,
            },
            LogEvent::RunEnd => EventModel::RunEnd,
            LogEvent::Log { line } => EventModel::Log { line: line@ },
        }
    }
}

// ---- terminal escapes -------------------------------------------------------------------

/// Length of the escape `ESC [ params letter` starting at `i`, where params are digits and `;`.
pub open spec fn escape_at(s: Seq<char>, i: int) -> Option<nat> {
    if 0 <= i && i + 1 < s.len() && s[i] == '\u{1b}' && s[i + 1] == '[' {
        let k = run(s, i + 2, Class::EscapeParam);
        if i + 2 + k < s.len() && is_letter(s[i + 2 + k]) {
            Some((3 + k) as nat)
        } else {
            None
        }
    } else {
        None
    }
}

/// `s[i..]` with every escape removed, scanning left to right.
pub open spec fn strip_from(s: Seq<char>, i: int) -> Seq<char>
    decreases s.len() - i,
{
    if i >= s.len() {
        Seq::empty()
    } else {
        match escape_at(s, i) {
            Some(n) => strip_from(s, i + n),
            None => seq![s[i]] + strip_from(s, i + 1),
        }
    }
}

/// A line without its terminal colour escapes.
pub open spec fn strip_escapes(s: Seq<char>) -> Seq<char> {
    strip_from(s, 0)
}

fn escape_len(v: &Vec<char>, i: usize) -> (r: Option<usize>)
    requires
        i < v@.len(),
    ensures
        r matches Some(n) ==> escape_at(v@, i as int) == Some(n as nat),
        r is None ==> escape_at(v@, i as int) is None,
{
    if v.len() - i > 1 && v[i] == '\u{1b}' && v[i + 1] == '[' {
        let e = run_end(v, i + 2, Class::EscapeParam);
        if e < v.len() {
            let c = v[e];
            if ('A' <= c && c <= 'Z') || ('a' <= c && c <= 'z') {
                return Some(e - i + 1);
            }
        }
    }
    None
}

fn strip_escapes_vec(v: &Vec<char>) -> (out: Vec<char>)
    ensures
        out@ == strip_escapes(v@),
{
    let mut out: Vec<char> = Vec::new();
    let mut i: usize = 0;
    while i < v.len()
        invariant
            i <= v@.len(),
            strip_from(v@, 0) == out@ + strip_from(v@, i as int),
        decreases v@.len() - i,
    {
        match escape_len(v, i) {
            Some(n) => {
                i = i + n;
            },
            None => {
                assert(out@ + (seq![v@[i as int]] + strip_from(v@, i + 1)) =~= out@.push(v@[i as int])
                    + strip_from(v@, i + 1));
                out.push(v[i]);
                i = i + 1;
            },
        }
    }
    assert(out@ + Seq::<char>::empty() =~= out@);
    out
}

/// Removes terminal colour escapes (`ESC [ digits-and-semicolons letter`).
pub fn strip_ansi(line: &str) -> (out: String)
    ensures
        out@ == strip_escapes(line@),
{
    let v = chars_of(line);
    let stripped = strip_escapes_vec(&v);
    string_of(stripped.as_slice())
}

// ---- the line prefix ----------------------------------------------------------------------

/// Position just after `H:MM:SS` at the start of `t`, or -1.
pub open spec fn clock_end(t: Seq<char>) -> int {
    let d = run(t, 0, Class::Digit) as int;
    if d >= 1 && d + 5 < t.len() && t[d as int] == ':' && is_digit(t[d + 1]) && is_digit(t[d + 2])
        && t[d + 3] == ':' && is_digit(t[d + 4]) && is_digit(t[d + 5]) {
        d + 6
    } else {
        -1
    }
}

/// `H:MM:SS LEVEL [stage] -`: the stage's span if there is one, and the position of the dash.
pub open spec fn header(t: Seq<char>) -> Option<(Option<(int, int)>, int)> {
    let p = clock_end(t);
    if p < 0 {
        None
    } else {
        let w1 = run(t, p, Class::Space);
        let q = p + w1;
        let u = run(t, q, Class::Upper);
        let q2 = q + u;
        let w2 = run(t, q2, Class::Space);
        let r = q2 + w2;
        if w1 >= 1 && u >= 1 && w2 >= 1 && r < t.len() {
            if t[r] == '[' {
                let n = run(t, r + 1, Class::NotCloseBracket);
                let close = r + 1 + n;
                if n >= 1 && close < t.len() && t[close] == ']' {
                    let w3 = run(t, close + 1, Class::Space);
                    let dash = close + 1 + w3;
                    if w3 >= 1 && dash < t.len() && t[dash] == '-' {
                        Some((Some((r + 1, close)), dash))
                    } else {
                        None
                    }
                } else {
                    None
                }
            } else if t[r] == '-' {
                Some((None, r))
            } else {
                None
            }
        } else {
            None
        }
    }
}

/// Where the content begins: one white-space character after the dash is not part of it.
pub open spec fn content_start(t: Seq<char>, dash: int) -> int {
    if dash + 1 < t.len() && is_ws(t[dash + 1]) {
        dash + 2
    } else {
        dash + 1
    }
}

/// The content runs to the end of the line and may not hold a line break.
pub open spec fn no_break_from(t: Seq<char>, a: int) -> bool {
    forall|j: int| a <= j < t.len() ==> t[j] != '\n'
}

pub open spec fn span_of(o: Option<(usize, usize)>) -> Option<(int, int)> {
    match o {
        Some((a, b)) => Some((a as int, b as int)),
        None => None,
    }
}

fn clock_end_exec(t: &Vec<char>) -> (r: Option<usize>)
    ensures
        r matches Some(p) ==> clock_end(t@) == p,
        r is None ==> clock_end(t@) == -1,
{
    let d = run_end(t, 0, Class::Digit);
    if d >= 1 && t.len() - d > 5 && t[d] == ':' && class_test(Class::Digit, t[d + 1]) && class_test(
        Class::Digit,
        t[d + 2],
    ) && t[d + 3] == ':' && class_test(Class::Digit, t[d + 4]) && class_test(
        Class::Digit,
        t[d + 5],
    ) {
        Some(d + 6)
    } else {
        None
    }
}

fn header_exec(t: &Vec<char>) -> (r: Option<(Option<(usize, usize)>, usize)>)
    ensures
        r matches Some((st, dash)) ==> header(t@) == Some((span_of(st), dash as int)) && dash
            < t@.len(),
        r is None ==> header(t@) is None,
{
    let p = match clock_end_exec(t) {
        Some(p) => p,
        None => return None,
    };
    proof {
        lemma_run(t@, 0, Class::Digit);
    }
    let q = run_end(t, p, Class::Space);
    let q2 = run_end(t, q, Class::Upper);
    let r = run_end(t, q2, Class::Space);
    if !(q > p && q2 > q && r > q2 && r < t.len()) {
        return None;
    }
    if t[r] == '[' {
        let close = run_end(t, r + 1, Class::NotCloseBracket);
        if close > r + 1 && close < t.len() && t[close] == ']' {
            let dash = run_end(t, close + 1, Class::Space);
            if dash > close + 1 && dash < t.len() && t[dash] == '-' {
                Some((Some((r + 1, close)), dash))
            } else {
                None
            }
        } else {
            None
        }
    } else if t[r] == '-' {
        Some((None, r))
    } else {
        None
    }
}

fn no_break_exec(t: &Vec<char>, a: usize) -> (b: bool)
    requires
        a <= t@.len(),
    ensures
        b == no_break_from(t@, a as int),
{
    let mut j: usize = a;
    while j < t.len()
        invariant
            a <= j <= t@.len(),
            forall|q: int| a <= q < j ==> t@[q] != '\n',
        decreases t@.len() - j,
    {
        if t[j] == '\n' {
            return false;
        }
        j = j + 1;
    }
    true
}

// ---- content ------------------------------------------------------------------------------

pub open spec fn finished_bang() -> Seq<char> {
    seq!['F', 'I', 'N', 'I', 'S', 'H', 'E', 'D', '!']
}

pub open spec fn starting_dots() -> Seq<char> {
    seq!['S', 't', 'a', 'r', 't', 'i', 'n', 'g', '.', '.', '.']
}

pub open spec fn finished_word() -> Seq<char> {
    seq!['F', 'i', 'n', 'i', 's', 'h', 'e', 'd', ' ']
}

/// `Finished [zN ]in ELAPSED`: the span of the zoom digits if present, and of the elapsed time.
pub open spec fn finished(c: Seq<char>) -> Option<(Option<(int, int)>, (int, int))> {
    if c.len() >= 9 && c.subrange(0, 9) == finished_word() {
        let zk = run(c, 10, Class::Digit) as int;
        let zoomed = 9 < c.len() && c[9] == 'z' && zk >= 1 && 10 + zk < c.len() && c[10 + zk]
            == ' ';
        let j: int = if zoomed {
            11 + zk
        } else {
            9
        };
        if j <= c.len() && c.len() - j >= 3 && c[j] == 'i' && c[j + 1] == 'n' && c[j + 2] == ' ' {
            let e = run(c, j + 3, Class::NotSpace);
            if e >= 1 {
                Some(
                    (
                        if zoomed {
                            Some((10int, 10 + zk))
                        } else {
                            None
                        },
                        (j + 3, j + 3 + e),
                    ),
                )
            } else {
                None
            }
        } else {
            None
        }
    } else {
        None
    }
}

/// `label: [body]` starting at `p`: the end of the label and the span of the body.
pub open spec fn counter_at(c: Seq<char>, p: int) -> Option<(int, int, int)> {
    if 0 <= p < c.len() && is_letter(c[p]) {
        let le = p + run(c, p, Class::LabelTail);
        if le < c.len() && c[le] == ':' {
            let open = le + 1 + run(c, le + 1, Class::Space);
            if open < c.len() && c[open] == '[' {
                let be = open + 1 + run(c, open + 1, Class::NotCloseBracket);
                if be < c.len() && c[be] == ']' {
                    Some((le, open + 1, be))
                } else {
                    None
                }
            } else {
                None
            }
        } else {
            None
        }
    } else {
        None
    }
}

/// One to three digits followed by `%` at `p`, inside a body that ends at `be`.
pub open spec fn percent_at(c: Seq<char>, p: int, be: int) -> bool {
    let r = run(c, p, Class::Digit);
    1 <= r <= 3 && p + r < be && c[p + r] == '%'
}

/// The first percent in `c[p..be]`.
pub open spec fn first_percent(c: Seq<char>, p: int, be: int) -> Option<int>
    decreases be - p,
{
    if p >= be {
        None
    } else if percent_at(c, p, be) {
        Some(p)
    } else {
        first_percent(c, p + 1, be)
    }
}

/// The percent a counter's body carries, capped at 100; none when the first one found does
/// not fit in a `u8`.
pub open spec fn body_percent(c: Seq<char>, bs: int, be: int) -> Option<nat> {
    match first_percent(c, bs, be) {
        Some(p) => {
            let v = digits_value(c, p, p + run(c, p, Class::Digit));
            if v <= 255 {
                Some(
                    if v > 100 {
                        100nat
                    } else {
                        v
                    },
                )
            } else {
                None
            }
        },
        None => None,
    }
}

/// The first counter at or after `p` whose body carries a usable percent: its label's span
/// and the percent. Counters are found left to right without overlapping.
pub open spec fn progress_from(c: Seq<char>, p: int) -> Option<(int, int, nat)>
    decreases c.len() - p,
{
    if p >= c.len() {
        None
    } else {
        match counter_at(c, p) {
            Some((le, bs, be)) => match body_percent(c, bs, be) {
                Some(v) => Some((p, le, v)),
                None => progress_from(c, be + 1),
            },
            None => progress_from(c, p + 1),
        }
    }
}

/// What a content line means once the prefix has been read.
pub open spec fn content_event(t: Seq<char>, stage: Option<Seq<char>>, c: Seq<char>) -> EventModel {
    if c == finished_bang() {
        EventModel::RunEnd
    } else {
        match finished(c) {
            Some((zoom, (ea, eb))) => {
                let st = match stage {
                    Some(s) => s,
                    None => Seq::empty(),
                };
                let elapsed = c.subrange(ea, eb);
                match zoom {
                    Some((za, zb)) => if digits_value(c, za, zb) <= 255 {
                        EventModel::ZoomEnd { stage: st, zoom: digits_value(c, za, zb), elapsed }
                    } else {
                        EventModel::PhaseEnd { stage: st, elapsed }
                    },
                    None => EventModel::PhaseEnd { stage: st, elapsed },
                }
            },
            None => match stage {
                Some(s) => if c == starting_dots() {
                    EventModel::PhaseStart { stage: s }
                } else {
                    match progress_from(c, 0) {
                        Some((a, le, v)) => EventModel::Progress {
                            stage: s,
                            label: trim(c.subrange(a, le)),
                            percent: v,
                        },
                        None => EventModel::Log { line: t },
                    }
                },
                None => EventModel::Log { line: t },
            },
        }
    }
}

/// What one raw line means.
pub open spec fn line_event(raw: Seq<char>) -> EventModel {
    let t = trim_end(strip_escapes(raw));
    match header(t) {
        Some((stage, dash)) => if no_break_from(t, content_start(t, dash)) {
            let c = trim(t.subrange(content_start(t, dash), t.len() as int));
            let st = match stage {
                Some((a, b)) => Some(t.subrange(a, b)),
                None => None,
            };
            content_event(t, st, c)
        } else {
            EventModel::Log { line: t }
        },
        None => EventModel::Log { line: t },
    }
}

fn finished_exec(c: &Vec<char>) -> (r: Option<(Option<(usize, usize)>, (usize, usize))>)
    ensures
        r matches Some((z, (ea, eb))) ==> finished(c@) == Some((span_of(z), (ea as int, eb as int)))
            && ea <= eb <= c@.len() && (z matches Some((za, zb)) ==> za <= zb <= c@.len()),
        r is None ==> finished(c@) is None,
{
    if !matches_at(c, 0, &['F', 'i', 'n', 'i', 's', 'h', 'e', 'd', ' ']) {
        proof {
            assert(['F', 'i', 'n', 'i', 's', 'h', 'e', 'd', ' ']@ =~= finished_word());
        }
        return None;
    }
    proof {
        assert(['F', 'i', 'n', 'i', 's', 'h', 'e', 'd', ' ']@ =~= finished_word());
    }
    let zend = if c.len() > 10 {
        run_end(c, 10, Class::Digit)
    } else {
        10
    };
    let zoomed = 9 < c.len() && c[9] == 'z' && zend > 10 && zend < c.len() && c[zend] == ' ';
    let j: usize = if zoomed {
        zend + 1
    } else {
        9
    };
    if j <= c.len() && c.len() - j >= 3 && c[j] == 'i' && c[j + 1] == 'n' && c[j + 2] == ' ' {
        let e = run_end(c, j + 3, Class::NotSpace);
        if e > j + 3 {
            let z = if zoomed {
                Some((10, zend))
            } else {
                None
            };
            return Some((z, (j + 3, e)));
        }
    }
    None
}

fn counter_at_exec(c: &Vec<char>, p: usize) -> (r: Option<(usize, usize, usize)>)
    requires
        p < c@.len(),
    ensures
        r matches Some((le, bs, be)) ==> counter_at(c@, p as int) == Some(
            (le as int, bs as int, be as int),
        ) && p < le < bs <= be < c@.len(),
        r is None ==> counter_at(c@, p as int) is None,
{
    let first = c[p];
    if !(('A' <= first && first <= 'Z') || ('a' <= first && first <= 'z')) {
        return None;
    }
    let le = run_end(c, p, Class::LabelTail);
    if le < c.len() && c[le] == ':' {
        let open = run_end(c, le + 1, Class::Space);
        if open < c.len() && c[open] == '[' {
            let be = run_end(c, open + 1, Class::NotCloseBracket);
            if be < c.len() && c[be] == ']' {
                return Some((le, open + 1, be));
            }
        }
    }
    None
}

fn first_percent_exec(c: &Vec<char>, bs: usize, be: usize) -> (r: Option<usize>)
    requires
        bs <= be <= c@.len(),
    ensures
        r matches Some(p) ==> first_percent(c@, bs as int, be as int) == Some(p as int) && bs <= p
            < be,
        r is None ==> first_percent(c@, bs as int, be as int) is None,
{
    let mut p: usize = bs;
    while p < be
        invariant
            bs <= p <= be <= c@.len(),
            first_percent(c@, bs as int, be as int) == first_percent(c@, p as int, be as int),
        decreases be - p,
    {
        let e = run_end(c, p, Class::Digit);
        if e > p && e - p <= 3 && e < be && c[e] == '%' {
            return Some(p);
        }
        p = p + 1;
    }
    None
}

fn body_percent_exec(c: &Vec<char>, bs: usize, be: usize) -> (r: Option<u8>)
    requires
        bs <= be <= c@.len(),
    ensures
        r matches Some(v) ==> body_percent(c@, bs as int, be as int) == Some(v as nat),
        r is None ==> body_percent(c@, bs as int, be as int) is None,
{
    match first_percent_exec(c, bs, be) {
        Some(p) => {
            let e = run_end(c, p, Class::Digit);
            proof {
                lemma_run(c@, p as int, Class::Digit);
                assert forall|j: int| p <= j < e implies #[trigger] is_digit(c@[j]) by {
                    assert(in_class(Class::Digit, c@[j]));
                }
            }
            match digits_upto(c, p, e, 255) {
                Some(v) => {
                    if v > 100 {
                        Some(100)
                    } else {
                        Some(v as u8)
                    }
                },
                None => None,
            }
        },
        None => None,
    }
}

fn progress_exec(c: &Vec<char>) -> (r: Option<(usize, usize, u8)>)
    ensures
        r matches Some((a, le, v)) ==> progress_from(c@, 0) == Some((a as int, le as int, v as nat))
            && a <= le <= c@.len(),
        r is None ==> progress_from(c@, 0) is None,
{
    let mut p: usize = 0;
    while p < c.len()
        invariant
            p <= c@.len(),
            progress_from(c@, 0) == progress_from(c@, p as int),
        decreases c@.len() - p,
    {
        match counter_at_exec(c, p) {
            Some((le, bs, be)) => {
                match body_percent_exec(c, bs, be) {
                    Some(v) => {
                        return Some((p, le, v));
                    },
                    None => {
                        p = be + 1;
                    },
                }
            },
            None => {
                p = p + 1;
            },
        }
    }
    None
}

fn content_event_exec(t: &Vec<char>, stage: Option<String>, c: &Vec<char>) -> (ev: LogEvent)
    ensures
        ev@ == content_event(
            t@,
            match stage {
                Some(s) => Some(s@),
                None => None,
            },
            c@,
        ),
{
    let bang = ['F', 'I', 'N', 'I', 'S', 'H', 'E', 'D', '!'];
    proof {
        assert(bang@ =~= finished_bang());
    }
    if c.len() == 9 && matches_at(c, 0, &bang) {
        assert(c@.subrange(0, 9) =~= c@);
        return LogEvent::RunEnd;
    }
    proof {
        if c@ == finished_bang() {
            assert(c@.subrange(0, 9) =~= c@);
        }
    }
    match finished_exec(c) {
        Some((zoom, (ea, eb))) => {
            let stage_text = match stage {
                Some(s) => s,
                None => String::new(),
            };
            let elapsed = string_of_range(c, ea, eb);
            match zoom {
                Some((za, zb)) => {
                    proof {
                        lemma_run(c@, 10, Class::Digit);
                        assert forall|j: int| za <= j < zb implies #[trigger] is_digit(c@[j]) by {
                            assert(in_class(Class::Digit, c@[j]));
                        }
                    }
                    match digits_upto(c, za, zb, 255) {
                        Some(z) => LogEvent::ZoomEnd { stage: stage_text, zoom: z as u8, elapsed },
                        None => LogEvent::PhaseEnd { stage: stage_text, elapsed },
                    }
                },
                None => LogEvent::PhaseEnd { stage: stage_text, elapsed },
            }
        },
        None => {
            match stage {
                Some(s) => {
                    let dots = ['S', 't', 'a', 'r', 't', 'i', 'n', 'g', '.', '.', '.'];
                    proof {
                        assert(dots@ =~= starting_dots());
                        if c@ == starting_dots() {
                            assert(c@.subrange(0, 11) =~= c@);
                        }
                    }
                    if c.len() == 11 && matches_at(c, 0, &dots) {
                        assert(c@.subrange(0, 11) =~= c@);
                        return LogEvent::PhaseStart { stage: s };
                    }
                    match progress_exec(c) {
                        Some((a, le, v)) => {
                            let part = slice_of(c, a, le);
                            let label_chars = trim_vec(&part);
                            LogEvent::Progress {
                                stage: s,
                                label: string_of(label_chars.as_slice()),
                                percent: v,
                            }
                        },
                        None => LogEvent::Log { line: string_of(t.as_slice()) },
                    }
                },
                None => LogEvent::Log { line: string_of(t.as_slice()) },
            }
        },
    }
}

/// Parse a single raw line. Never fails; unrecognised input is a `Log` of the line with its
/// escapes and trailing white space removed.
pub fn parse_line(raw: &str) -> (ev: LogEvent)
    ensures
        ev@ == line_event(raw@),
{
    let rv = chars_of(raw);
    let clean = strip_escapes_vec(&rv);
    let te = trim_end_index(&clean);
    proof {
        crate::text::lemma_trim_end_len(clean@);
    }
    let t = slice_of(&clean, 0, te);
    match header_exec(&t) {
        None => LogEvent::Log { line: string_of(t.as_slice()) },
        Some((stage, dash)) => {
            let cs: usize = if dash + 1 < t.len() && is_whitespace(t[dash + 1]) {
                dash + 2
            } else {
                dash + 1
            };
            if !no_break_exec(&t, cs) {
                return LogEvent::Log { line: string_of(t.as_slice()) };
            }
            let craw = slice_of(&t, cs, t.len());
            let c = trim_vec(&craw);
            let stage_text = match stage {
                Some((a, b)) => {
                    proof {
                        lemma_run(t@, 0, Class::Digit);
                    }
                    Some(string_of_range(&t, a, b))
                },
                None => None,
            };
            content_event_exec(&t, stage_text, &c)
        },
    }
}

} // verus!
