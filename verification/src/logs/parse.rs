//! Lenient RFC 5424 parsing for the stormcast dialect. Anything that does
//! not parse as 5424 is kept whole as the message, with the sender's
//! address as host, so a malformed line is never dropped.

use vstd::prelude::*;
use crate::text::{
    chars_of, find_char, lemma_find_char_none, lemma_find_char_some, parse_u64, parse_u64_chars,
    splitn_space, splitn_space_ranges, string_of, starts_with, trim_start, trim_start_at, owned,
};

verus! {

/// One log line.
#[derive(Debug, Clone)]
pub struct LogEvent {
    /// RFC 3339 as sent, or receive time when absent.
    pub ts: String,
    /// What the node calls itself — the RFC 5424 HOSTNAME field.
    pub host: String,
    /// Where the datagram actually came from.
    pub addr: String,
    pub app: String,
    /// Syslog severity 0–7 (emergency..debug).
    pub severity: u8,
    pub facility: u8,
    pub msg: String,
}

/// `line` without trailing `\r` and `\n`.
pub open spec fn trim_newlines(line: Seq<char>) -> Seq<char>
    decreases line.len(),
{
    if line.len() > 0 && (line.last() == '\r' || line.last() == '\n') {
        trim_newlines(line.drop_last())
    } else {
        line
    }
}

/// The PRI field: `<n>` with `n` at most 191, and what follows it.
pub open spec fn take_pri(line: Seq<char>) -> (Option<u64>, Seq<char>) {
    if line.len() > 0 && line[0] == '<' && find_char(line.skip(1), '>') is Some {
        let end = find_char(line.skip(1), '>')->0;
        match parse_u64(line.skip(1).take(end)) {
            Some(p) => if p <= 191 { (Some(p), line.skip(end + 2)) } else { (None, line) },
            None => (None, line),
        }
    } else {
        (None, line)
    }
}

/// Where a run of `[...]` elements ends, from inside one element.
pub open spec fn sd_inner(t: Seq<char>, i: int) -> int
    decreases t.len() - i,
{
    if i < 0 || i >= t.len() {
        i
    } else if t[i] == '\\' {
        if i + 2 > t.len() { i + 2 } else { sd_inner(t, i + 2) }
    } else if t[i] == ']' {
        i + 1
    } else {
        sd_inner(t, i + 1)
    }
}

/// Where a run of `[...]` elements starting at `i` ends; an escape at the
/// very end runs one past the end.
pub open spec fn sd_scan(t: Seq<char>, i: int) -> int
    decreases t.len() - i,
{
    if 0 <= i < t.len() && t[i] == '[' {
        let j = sd_inner(t, i + 1);
        if i < j <= t.len() { sd_scan(t, j) } else { j }
    } else {
        i
    }
}

/// Structured data is `-` or one or more `[...]` blocks (with `\]`
/// escapes); the message is whatever follows.
pub open spec fn skip_sd(tail: Seq<char>) -> Seq<char> {
    let t = trim_start(tail);
    if starts_with(t, "- "@) {
        t.skip(2)
    } else if t == "-"@ {
        Seq::empty()
    } else if !(t.len() > 0 && t[0] == '[') {
        t
    } else {
        trim_start(t.skip(sd_scan(t, 0)))
    }
}

/// The structured data can be skipped without running past the end — it
/// does not end on a lone escape.
pub open spec fn sd_in_bounds(tail: Seq<char>) -> bool {
    let t = trim_start(tail);
    !(t.len() > 0 && t[0] == '[') || sd_scan(t, 0) <= t.len()
}

/// The fields of a 5424 line after PRI: VERSION TIMESTAMP HOSTNAME APP-NAME
/// PROCID MSGID and the rest.
pub open spec fn fields(rest: Seq<char>) -> Seq<Seq<char>> {
    splitn_space(rest, 7)
}

pub open spec fn is_5424(rest: Seq<char>) -> bool {
    fields(rest).len() >= 6 && fields(rest)[0] == "1"@
}

/// The tail that holds structured data and message.
pub open spec fn tail_of(rest: Seq<char>) -> Seq<char> {
    if fields(rest).len() > 6 { fields(rest)[6] } else { Seq::empty() }
}

/// Every line `parse` accepts: those whose structured data does not end on
/// a lone escape.
pub open spec fn parseable(line: Seq<char>) -> bool {
    let rest = take_pri(trim_newlines(line)).1;
    !is_5424(rest) || sd_in_bounds(tail_of(rest))
}

pub open spec fn severity_of(line: Seq<char>) -> u8 {
    match take_pri(trim_newlines(line)).0 {
        Some(p) => (p % 8) as u8,
        None => 6,
    }
}

pub open spec fn facility_of(line: Seq<char>) -> u8 {
    match take_pri(trim_newlines(line)).0 {
        Some(p) => (p / 8) as u8,
        None => 1,
    }
}

/// Does the timestamp come from the receive clock?
pub open spec fn uses_clock(line: Seq<char>) -> bool {
    let rest = take_pri(trim_newlines(line)).1;
    !is_5424(rest) || fields(rest)[1] == "-"@
}

pub open spec fn ts_of(line: Seq<char>) -> Seq<char> {
    fields(take_pri(trim_newlines(line)).1)[1]
}

pub open spec fn host_of(line: Seq<char>, src: Seq<char>) -> Seq<char> {
    let rest = take_pri(trim_newlines(line)).1;
    if !is_5424(rest) || fields(rest)[2] == "-"@ { src } else { fields(rest)[2] }
}

pub open spec fn app_of(line: Seq<char>) -> Seq<char> {
    let rest = take_pri(trim_newlines(line)).1;
    if !is_5424(rest) || fields(rest)[3] == "-"@ { Seq::empty() } else { fields(rest)[3] }
}

/// The message: a line that is not RFC 5424 is kept whole, its `<PRI>`
/// included; otherwise what follows the structured data.
pub open spec fn msg_of(line: Seq<char>) -> Seq<char> {
    let rest = take_pri(trim_newlines(line)).1;
    if !is_5424(rest) { trim_newlines(line) } else { skip_sd(tail_of(rest)) }
}

pub fn trim_newlines_end(v: &[char]) -> (r: usize)
    ensures
        r <= v@.len(),
        v@.take(r as int) == trim_newlines(v@),
{
    let mut i = v.len();
    assert(v@.take(i as int) == v@);
    while i > 0 && (v[i - 1] == '\r' || v[i - 1] == '\n')
        invariant
            i <= v@.len(),
            trim_newlines(v@.take(i as int)) == trim_newlines(v@),
        decreases i,
    {
        assert(v@.take(i as int).drop_last() == v@.take(i - 1));
        i -= 1;
    }
    assert(v@.take(i as int) == trim_newlines(v@.take(i as int)));
    i
}

/// The PRI, and where what follows it starts, in `v[..end]`.
fn take_pri_at(v: &[char], end: usize) -> (r: (Option<u64>, usize))
    requires
        end <= v@.len(),
    ensures
        r.1 <= end,
        r.0 == take_pri(v@.take(end as int)).0,
        v@.subrange(r.1 as int, end as int) == take_pri(v@.take(end as int)).1,
{
    let ghost line = v@.take(end as int);
    if end == 0 || v[0] != '<' {
        assert(v@.subrange(0, end as int) == line);
        return (None, 0);
    }
    let mut k: usize = 1;
    while k < end && v[k] != '>'
        invariant
            1 <= k <= end <= v@.len(),
            forall|j: int| 1 <= j < k ==> v@[j] != '>',
        decreases end - k,
    {
        k += 1;
    }
    let ghost body = line.skip(1);
    if k == end {
        proof {
            assert forall|j: int| 0 <= j < body.len() implies body[j] != '>' by {
                assert(body[j] == v@[j + 1]);
            }
            lemma_find_char_none(body, '>');
            assert(v@.subrange(0, end as int) == line);
        }
        return (None, 0);
    }
    proof {
        assert forall|j: int| 0 <= j < k - 1 implies body[j] != '>' by {
            assert(body[j] == v@[j + 1]);
        }
        assert(body[k - 1] == v@[k as int]);
        lemma_find_char_some(body, '>', k - 1);
    }
    let digits = crate::text::copy_range(v, 1, k);
    assert(digits@ == body.take(k - 1));
    match parse_u64_chars(digits.as_slice()) {
        Some(p) => {
            if p <= 191 {
                assert(v@.subrange(k + 1, end as int) == line.skip(k + 1));
                (Some(p), k + 1)
            } else {
                assert(v@.subrange(0, end as int) == line);
                (None, 0)
            }
        },
        None => {
            assert(v@.subrange(0, end as int) == line);
            (None, 0)
        },
    }
}

/// Where inside-element scanning from `i` ends, or `None` past the end.
fn sd_inner_exec(t: &[char], i: usize) -> (r: Option<usize>)
    requires
        i <= t@.len(),
    ensures
        match r {
            Some(j) => j as int == sd_inner(t@, i as int) && j <= t@.len(),
            None => sd_inner(t@, i as int) > t@.len(),
        },
{
    let mut k = i;
    while k < t.len() && t[k] != ']'
        invariant
            i <= k <= t@.len(),
            sd_inner(t@, k as int) == sd_inner(t@, i as int),
        decreases t@.len() - k,
    {
        if t[k] == '\\' {
            if t.len() - k < 2 {
                assert(sd_inner(t@, k + 2) == k + 2);
                return None;
            }
            k += 2;
        } else {
            k += 1;
        }
    }
    if k == t.len() {
        Some(k)
    } else {
        Some(k + 1)
    }
}

/// Where the run of elements starting at 0 ends, or `None` past the end.
fn sd_scan_exec(t: &[char]) -> (r: Option<usize>)
    ensures
        match r {
            Some(j) => j as int == sd_scan(t@, 0) && j <= t@.len(),
            None => sd_scan(t@, 0) > t@.len(),
        },
{
    let mut i: usize = 0;
    while i < t.len() && t[i] == '['
        invariant
            i <= t@.len(),
            sd_scan(t@, i as int) == sd_scan(t@, 0),
        decreases t@.len() - i,
    {
        match sd_inner_exec(t, i + 1) {
            Some(j) => {
                if j <= i {
                    return Some(j);
                }
                i = j;
            },
            None => {
                return None;
            },
        }
    }
    Some(i)
}

/// The message after the structured data of `v[from..to]`.
fn skip_sd_range(v: &[char], from: usize, to: usize) -> (r: (usize, usize))
    requires
        from <= to <= v@.len(),
        sd_in_bounds(v@.subrange(from as int, to as int)),
    ensures
        r.0 <= r.1 <= v@.len(),
        v@.subrange(r.0 as int, r.1 as int) == skip_sd(v@.subrange(from as int, to as int)),
{
    let s = trim_start_at(v, from, to);
    let ghost t = v@.subrange(s as int, to as int);
    assert(t == trim_start(v@.subrange(from as int, to as int)));
    if to - s >= 2 && v[s] == '-' && v[s + 1] == ' ' {
        assert(t.take(2) == "- "@) by {
            reveal_strlit("- ");
        }
        assert(v@.subrange(s + 2, to as int) == t.skip(2));
        return (s + 2, to);
    }
    proof {
        reveal_strlit("- ");
        reveal_strlit("-");
        if t.len() >= 2 {
            assert(t.take(2) != "- "@ ==> !crate::text::starts_with(t, "- "@));
            if t.take(2) == "- "@ {
                assert(t.take(2)[0] == '-');
                assert(t.take(2)[1] == ' ');
            }
        }
    }
    if to - s == 1 && v[s] == '-' {
        proof {
            assert(t == "-"@);
        }
        return (to, to);
    }
    if !(to > s && v[s] == '[') {
        proof {
            if t == "-"@ {
                assert(t[0] == v@[s as int]);
            }
        }
        return (s, to);
    }
    proof {
        if t == "-"@ {
            assert(t.len() == 1);
        }
    }
    let tv = crate::text::copy_range(v, s, to);
    assert(tv@ == t);
    match sd_scan_exec(tv.as_slice()) {
        Some(j) => {
            let k = trim_start_at(v, s + j, to);
            assert(v@.subrange(s + j, to as int) == t.skip(j as int));
            (k, to)
        },
        None => {
            // Excluded by `sd_in_bounds`.
            (to, to)
        },
    }
}

pub fn is_dash(v: &[char], r: (usize, usize)) -> (b: bool)
    requires
        r.0 <= r.1 <= v@.len(),
    ensures
        b == (v@.subrange(r.0 as int, r.1 as int) == "-"@),
{
    proof {
        reveal_strlit("-");
    }
    let b = r.1 - r.0 == 1 && v[r.0] == '-';
    proof {
        let p = v@.subrange(r.0 as int, r.1 as int);
        if p == "-"@ {
            assert(p.len() == 1);
            assert(p[0] == v@[r.0 as int]);
        }
        if b {
            assert(p =~= "-"@);
        }
    }
    b
}

pub fn is_one(v: &[char], r: (usize, usize)) -> (b: bool)
    requires
        r.0 <= r.1 <= v@.len(),
    ensures
        b == (v@.subrange(r.0 as int, r.1 as int) == "1"@),
{
    proof {
        reveal_strlit("1");
    }
    let b = r.1 - r.0 == 1 && v[r.0] == '1';
    proof {
        let p = v@.subrange(r.0 as int, r.1 as int);
        if p == "1"@ {
            assert(p.len() == 1);
            assert(p[0] == v@[r.0 as int]);
        }
        if b {
            assert(p =~= "1"@);
        }
    }
    b
}

/// Whether the structured data of `v[from..to]` can be skipped.
fn sd_in_bounds_at(v: &[char], from: usize, to: usize) -> (r: bool)
    requires
        from <= to <= v@.len(),
    ensures
        r == sd_in_bounds(v@.subrange(from as int, to as int)),
{
    let s = trim_start_at(v, from, to);
    let ghost t = v@.subrange(s as int, to as int);
    assert(t == trim_start(v@.subrange(from as int, to as int)));
    if !(to > s && v[s] == '[') {
        return true;
    }
    let tv = crate::text::copy_range(v, s, to);
    assert(tv@ == t);
    match sd_scan_exec(tv.as_slice()) {
        Some(_) => true,
        None => false,
    }
}

/// Whether `parse` takes this line (`parseable`): every line does but one
/// whose structured data ends on a lone escape.
pub fn accepts(line: &str) -> (r: bool)
    ensures
        r == parseable(line@),
{
    let v = chars_of(line);
    let end = trim_newlines_end(v.as_slice());
    let (_pri, start) = take_pri_at(v.as_slice(), end);
    let ghost rest = take_pri(trim_newlines(line@)).1;
    assert(v@.take(end as int) == trim_newlines(line@));
    assert(v@.subrange(start as int, end as int) == rest);
    let f = splitn_space_ranges(v.as_slice(), start, end, 7);
    let is_ver_1 = f.len() >= 6 && f[0].1 - f[0].0 == 1 && v[f[0].0] == '1';
    proof {
        reveal_strlit("1");
        if f@.len() >= 6 {
            let f0 = fields(rest)[0];
            assert(f0 == v@.subrange(f@[0].0 as int, f@[0].1 as int));
            if f0 == "1"@ {
                assert(f0.len() == 1 && f0[0] == '1');
            }
            if is_ver_1 {
                assert(f0 =~= "1"@);
            }
        }
    }
    if !is_ver_1 {
        return true;
    }
    let (t0, t1) = if f.len() > 6 { f[6] } else { (end, end) };
    proof {
        assert(v@.subrange(t0 as int, t1 as int) == tail_of(rest));
    }
    sd_in_bounds_at(v.as_slice(), t0, t1)
}

/// A log line as an event. `now` supplies the receive time where the line
/// has none of its own.
pub fn parse<F: Fn() -> String>(line: &str, src: &str, now: F) -> (e: LogEvent)
    requires
        parseable(line@),
        call_requires(now, ()),
    ensures
        e.severity == severity_of(line@),
        e.facility == facility_of(line@),
        e.addr@ == src@,
        e.host@ == host_of(line@, src@),
        e.app@ == app_of(line@),
        e.msg@ == msg_of(line@),
        uses_clock(line@) ==> call_ensures(now, (), e.ts),
        !uses_clock(line@) ==> e.ts@ == ts_of(line@),
{
    let v = chars_of(line);
    let end = trim_newlines_end(v.as_slice());
    let (pri, start) = take_pri_at(v.as_slice(), end);
    let ghost rest = take_pri(trim_newlines(line@)).1;
    assert(v@.take(end as int) == trim_newlines(line@));
    assert(v@.subrange(start as int, end as int) == rest);
    let (facility, severity): (u8, u8) = match pri {
        Some(p) => ((p / 8) as u8, (p % 8) as u8),
        None => (1, 6),
    };
    let f = splitn_space_ranges(v.as_slice(), start, end, 7);
    let is_ver_1 = f.len() >= 6 && f[0].1 - f[0].0 == 1 && v[f[0].0] == '1';
    proof {
        reveal_strlit("1");
        if f@.len() >= 6 {
            let f0 = fields(rest)[0];
            assert(f0 == v@.subrange(f@[0].0 as int, f@[0].1 as int));
            if f0 == "1"@ {
                assert(f0.len() == 1 && f0[0] == '1');
            }
            if is_ver_1 {
                assert(f0 =~= "1"@);
            }
        }
    }
    if !is_ver_1 {
        assert(v@.subrange(0, end as int) == v@.take(end as int));
        return LogEvent {
            ts: now(),
            host: owned(src),
            addr: owned(src),
            app: String::new(),
            severity,
            facility,
            msg: string_of(v.as_slice(), 0, end),
        };
    }
    let ts = if is_dash(v.as_slice(), f[1]) { now() } else { string_of(v.as_slice(), f[1].0, f[1].1) };
    let host = if is_dash(v.as_slice(), f[2]) { owned(src) } else { string_of(v.as_slice(), f[2].0, f[2].1) };
    let app = if is_dash(v.as_slice(), f[3]) { String::new() } else { string_of(v.as_slice(), f[3].0, f[3].1) };
    let (t0, t1) = if f.len() > 6 { f[6] } else { (end, end) };
    proof {
        assert(v@.subrange(t0 as int, t1 as int) == tail_of(rest));
    }
    let (m0, m1) = skip_sd_range(v.as_slice(), t0, t1);
    LogEvent {
        ts,
        host,
        addr: owned(src),
        app,
        severity,
        facility,
        msg: string_of(v.as_slice(), m0, m1),
    }
}

} // verus!
