//! The node capability beacon, read off the log group.
//!
//! Every node puts an RFC 5424 structured-data element —
//! `[storm-beacon@0 cores="8" ...]` — on the same multicast group as its
//! logs. Every parameter is kept, whether or not this build knows what it
//! means, and every accessor returns `Option`: the emitter omits what it
//! cannot read, and absent is not zero.

use vstd::prelude::*;
use crate::text::{
    chars_of, contains_exec, contains_str, copy_range, find_char, lemma_find_char_none,
    lemma_find_char_some, owned, parse_u64, parse_u64_str, push_char, splitn_space,
    splitn_space_ranges, str_eq, str_less, str_lt, string_of, trim_start, trim_start_at,
};
use crate::logs::parse::{is_dash, is_one, trim_newlines, trim_newlines_end};

verus! {

/// The SD-ID a node's beacon carries.
pub open spec fn sd_id() -> Seq<char> {
    "storm-beacon@0"@
}

/// One node's most recent beacon.
#[derive(Debug, Clone)]
pub struct Beacon {
    /// The RFC 5424 HOSTNAME the beacon was sent with.
    pub host: String,
    /// Where the datagram came from — the address a console can dial.
    pub addr: String,
    /// The beacon's own timestamp, as sent.
    pub ts: String,
    /// Every parameter, as the name-sorted map `map_insert` keeps
    /// (`names_sorted`).
    pub params: Vec<(String, String)>,
}

/// Parameters as name/value character sequences.
pub open spec fn pairs(p: Seq<(String, String)>) -> Seq<(Seq<char>, Seq<char>)> {
    p.map_values(|e: (String, String)| (e.0@, e.1@))
}

pub open spec fn key_at(m: Seq<(Seq<char>, Seq<char>)>, k: Seq<char>) -> spec_fn(int) -> bool {
    |i: int| m[i].0 == k
}

pub open spec fn after_key(m: Seq<(Seq<char>, Seq<char>)>, k: Seq<char>) -> spec_fn(int) -> bool {
    |i: int| str_lt(k, m[i].0)
}

/// A map kept sorted by name: a name already there has its value
/// replaced; a new one goes in front of the first name after it.
pub open spec fn map_insert(m: Seq<(Seq<char>, Seq<char>)>, k: Seq<char>, v: Seq<char>) -> Seq<(Seq<char>, Seq<char>)> {
    match crate::text::first_at(m.len() as int, key_at(m, k)) {
        Some(i) => m.update(i, (k, v)),
        None => match crate::text::first_at(m.len() as int, after_key(m, k)) {
            Some(j) => m.insert(j, (k, v)),
            None => m.push((k, v)),
        },
    }
}

/// Names in strictly increasing order, so none twice.
pub open spec fn names_sorted(m: Seq<(Seq<char>, Seq<char>)>) -> bool {
    forall|i: int, j: int| 0 <= i < j < m.len() ==> str_lt(#[trigger] m[i].0, #[trigger] m[j].0)
}

/// `map_insert` keeps the names sorted, a lookup of the name just written
/// gives back the value written, and every other name keeps its value.
pub proof fn law_map_insert(m: Seq<(Seq<char>, Seq<char>)>, k: Seq<char>, v: Seq<char>)
    requires
        names_sorted(m),
    ensures
        names_sorted(map_insert(m, k, v)),
        map_get(map_insert(m, k, v), k) == Some(v),
        forall|k2: Seq<char>| k2 != k ==> #[trigger] map_get(map_insert(m, k, v), k2) == map_get(m, k2),
{
    lemma_map_insert_sorted(m, k, v);
    assert forall|k2: Seq<char>| k2 != k implies #[trigger] map_get(map_insert(m, k, v), k2) == map_get(m, k2) by {
        lemma_map_insert_other(m, k, v, k2);
    }
}

proof fn lemma_map_insert_other(m: Seq<(Seq<char>, Seq<char>)>, k: Seq<char>, v: Seq<char>, k2: Seq<char>)
    requires
        k2 != k,
    ensures
        map_get(map_insert(m, k, v), k2) == map_get(m, k2),
{
    let r = map_insert(m, k, v);
    crate::text::lemma_first_at_props(m.len() as int, key_at(m, k));
    crate::text::lemma_first_at_props(m.len() as int, after_key(m, k));
    crate::text::lemma_first_at_props(m.len() as int, key_at(m, k2));
    match crate::text::first_at(m.len() as int, key_at(m, k)) {
        Some(i) => {
            assert(r == m.update(i, (k, v)));
            match crate::text::first_at(m.len() as int, key_at(m, k2)) {
                Some(t) => {
                    assert(t != i);
                    assert forall|q: int| 0 <= q < t implies !#[trigger] key_at(r, k2)(q) by {
                        assert(!key_at(m, k2)(q));
                    }
                    lemma_map_get_at(r, k2, t);
                },
                None => {
                    assert forall|q: int| 0 <= q < r.len() implies !#[trigger] key_at(r, k2)(q) by {
                        assert(!key_at(m, k2)(q));
                    }
                    crate::text::lemma_first_at_none(r.len() as int, key_at(r, k2));
                },
            }
        },
        None => {
            let j = match crate::text::first_at(m.len() as int, after_key(m, k)) {
                Some(j) => j,
                None => m.len() as int,
            };
            assert(r =~= m.insert(j, (k, v)));
            match crate::text::first_at(m.len() as int, key_at(m, k2)) {
                Some(t) => {
                    let t2 = if t < j { t } else { t + 1 };
                    assert(r[t2] == m[t]);
                    assert forall|q: int| 0 <= q < t2 implies !#[trigger] key_at(r, k2)(q) by {
                        if q < j {
                            assert(!key_at(m, k2)(q));
                        } else if q > j {
                            assert(r[q] == m[q - 1]);
                            assert(!key_at(m, k2)(q - 1));
                        }
                    }
                    lemma_map_get_at(r, k2, t2);
                },
                None => {
                    assert forall|q: int| 0 <= q < r.len() implies !#[trigger] key_at(r, k2)(q) by {
                        if q < j {
                            assert(!key_at(m, k2)(q));
                        } else if q > j {
                            assert(r[q] == m[q - 1]);
                            assert(!key_at(m, k2)(q - 1));
                        }
                    }
                    crate::text::lemma_first_at_none(r.len() as int, key_at(r, k2));
                },
            }
        },
    }
}

proof fn lemma_map_insert_sorted(m: Seq<(Seq<char>, Seq<char>)>, k: Seq<char>, v: Seq<char>)
    requires
        names_sorted(m),
    ensures
        names_sorted(map_insert(m, k, v)),
        map_get(map_insert(m, k, v), k) == Some(v),
{
    let r = map_insert(m, k, v);
    crate::text::lemma_first_at_props(m.len() as int, key_at(m, k));
    crate::text::lemma_first_at_props(m.len() as int, after_key(m, k));
    match crate::text::first_at(m.len() as int, key_at(m, k)) {
        Some(i) => {
            assert(r == m.update(i, (k, v)));
            assert forall|a: int, b: int| 0 <= a < b < r.len() implies str_lt(#[trigger] r[a].0, #[trigger] r[b].0) by {
                assert(m[a].0 == r[a].0 && m[b].0 == r[b].0);
            }
            lemma_map_get_at(r, k, i);
        },
        None => {
            let j = match crate::text::first_at(m.len() as int, after_key(m, k)) {
                Some(j) => j,
                None => m.len() as int,
            };
            assert(r =~= m.insert(j, (k, v)));
            // Every name before `j` is below `k`; every one from `j` on is above it.
            assert forall|q: int| 0 <= q < j implies str_lt(#[trigger] m[q].0, k) by {
                assert(!key_at(m, k)(q));
                assert(!after_key(m, k)(q));
                crate::text::lemma_str_lt_total(m[q].0, k);
            }
            assert forall|q: int| j <= q < m.len() implies str_lt(k, #[trigger] m[q].0) by {
                assert(after_key(m, k)(j));
                if q > j {
                    crate::text::lemma_str_lt_transitive(k, m[j].0, m[q].0);
                }
            }
            assert forall|a: int, b: int| 0 <= a < b < r.len() implies str_lt(#[trigger] r[a].0, #[trigger] r[b].0) by {
                if b < j {
                } else if b == j {
                } else if a < j {
                    crate::text::lemma_str_lt_transitive(m[a].0, k, m[b - 1].0);
                } else if a == j {
                } else {
                    assert(r[a] == m[a - 1] && r[b] == m[b - 1]);
                }
            }
            assert forall|q: int| 0 <= q < j implies !#[trigger] key_at(r, k)(q) by {
                crate::text::lemma_str_lt_irreflexive(k);
            }
            lemma_map_get_at(r, k, j);
        },
    }
}

proof fn lemma_map_get_at(r: Seq<(Seq<char>, Seq<char>)>, k: Seq<char>, i: int)
    requires
        0 <= i < r.len(),
        r[i].0 == k,
        forall|q: int| 0 <= q < i ==> !#[trigger] key_at(r, k)(q),
    ensures
        map_get(r, k) == Some(r[i].1),
{
    crate::text::lemma_first_at_some(r.len() as int, key_at(r, k), i);
}

/// The value stored under `k`.
pub open spec fn map_get(m: Seq<(Seq<char>, Seq<char>)>, k: Seq<char>) -> Option<Seq<char>> {
    match crate::text::first_at(m.len() as int, key_at(m, k)) {
        Some(i) => Some(m[i].1),
        None => None,
    }
}

/// The first index at or after `i` that is not a space.
pub open spec fn skip_spaces(s: Seq<char>, i: int) -> int
    decreases s.len() - i,
{
    if 0 <= i < s.len() && s[i] == ' ' { skip_spaces(s, i + 1) } else { i }
}

/// The first index at or after `i` holding `=`, or the end.
pub open spec fn find_eq(s: Seq<char>, i: int) -> int
    decreases s.len() - i,
{
    if 0 <= i < s.len() && s[i] != '=' { find_eq(s, i + 1) } else { i }
}

/// A quoted value from `i` on, unescaping `\x` to `x`: the value so far
/// and where scanning stops (after the closing quote, or at the end).
/// `None` where the escaped character is not ASCII: such a line cannot be
/// read at all.
pub open spec fn value_scan(s: Seq<char>, i: int, acc: Seq<char>) -> Option<(Seq<char>, int)>
    decreases s.len() - i,
{
    if i < 0 || i >= s.len() {
        Some((acc, i))
    } else if s[i] == '\\' && i + 1 < s.len() {
        if (s[i + 1] as u32) < 128 {
            value_scan(s, i + 2, acc.push(s[i + 1]))
        } else {
            None
        }
    } else if s[i] == '"' {
        Some((acc, i + 1))
    } else {
        value_scan(s, i + 1, acc.push(s[i]))
    }
}

/// `name="value" name="value"` from `i` on, into `acc`.
pub open spec fn params_from(s: Seq<char>, i: int, acc: Seq<(Seq<char>, Seq<char>)>) -> Option<Seq<(Seq<char>, Seq<char>)>>
    decreases s.len() - i,
{
    if i < 0 || i >= s.len() {
        Some(acc)
    } else {
        let j = skip_spaces(s, i);
        let e = find_eq(s, j);
        if e >= s.len() || e + 1 >= s.len() || s[e + 1] != '"' {
            Some(acc)
        } else {
            match value_scan(s, e + 2, Seq::empty()) {
                None => None,
                Some((val, k)) => {
                    let name = s.subrange(j, e);
                    let next = if name.len() > 0 { map_insert(acc, name, val) } else { acc };
                    if i < k <= s.len() { params_from(s, k, next) } else { Some(next) }
                },
            }
        }
    }
}

pub open spec fn parse_params_spec(s: Seq<char>) -> Option<Seq<(Seq<char>, Seq<char>)>> {
    params_from(s, 0, Seq::empty())
}

/// Parameters read from text come out name-sorted, each name once.
pub proof fn lemma_params_sorted(s: Seq<char>, i: int, acc: Seq<(Seq<char>, Seq<char>)>)
    requires
        names_sorted(acc),
    ensures
        params_from(s, i, acc) matches Some(p) ==> names_sorted(p),
    decreases s.len() - i,
{
    if 0 <= i < s.len() {
        let j = skip_spaces(s, i);
        let e = find_eq(s, j);
        if !(e >= s.len() || e + 1 >= s.len() || s[e + 1] != '"') {
            if let Some((val, k)) = value_scan(s, e + 2, Seq::empty()) {
                let name = s.subrange(j, e);
                if name.len() > 0 {
                    law_map_insert(acc, name, val);
                }
                let next = if name.len() > 0 { map_insert(acc, name, val) } else { acc };
                if i < k <= s.len() {
                    lemma_params_sorted(s, k, next);
                }
            }
        }
    }
}

proof fn lemma_element_params_sorted(rest: Seq<char>, id: Seq<char>)
    ensures
        element_params_from(rest, id) matches Some(Some(p)) ==> names_sorted(p),
    decreases rest.len(),
{
    let r = trim_start(rest);
    if r.len() > 0 && r[0] == '[' {
        if let Some(end) = element_end(r, 1) {
            let body = r.subrange(1, end - 1);
            let (this_id, params) = match find_char(body, ' ') {
                Some(sp) => (body.take(sp), body.skip(sp + 1)),
                None => (body, Seq::empty()),
            };
            if this_id == id {
                assert(names_sorted(Seq::<(Seq<char>, Seq<char>)>::empty()));
                lemma_params_sorted(params, 0, Seq::empty());
            } else if r.skip(end).len() < rest.len() {
                lemma_element_params_sorted(r.skip(end), id);
            }
        }
    }
}

/// A value as a sender writes it between quotes: `"`, `\` and `]` each
/// get a backslash in front.
pub open spec fn escape(v: Seq<char>) -> Seq<char>
    decreases v.len(),
{
    if v.len() == 0 {
        Seq::empty()
    } else {
        let c = v[0];
        (if c == '"' || c == '\\' || c == ']' { seq!['\\', c] } else { seq![c] }) + escape(v.drop_first())
    }
}

/// `name="escaped value"`.
pub open spec fn param_text(p: (Seq<char>, Seq<char>)) -> Seq<char> {
    p.0 + seq!['=', '"'] + escape(p.1) + seq!['"']
}

/// Parameters as a sender writes them, one space between each.
pub open spec fn params_text(ps: Seq<(Seq<char>, Seq<char>)>) -> Seq<char>
    decreases ps.len(),
{
    if ps.len() == 0 {
        Seq::empty()
    } else if ps.len() == 1 {
        param_text(ps[0])
    } else {
        param_text(ps[0]) + seq![' '] + params_text(ps.drop_first())
    }
}

/// Each parameter put into the map in turn.
pub open spec fn insert_all(acc: Seq<(Seq<char>, Seq<char>)>, ps: Seq<(Seq<char>, Seq<char>)>) -> Seq<(Seq<char>, Seq<char>)>
    decreases ps.len(),
{
    if ps.len() == 0 {
        acc
    } else {
        insert_all(map_insert(acc, ps[0].0, ps[0].1), ps.drop_first())
    }
}

/// No parameter after the `q`th has its name.
pub open spec fn last_of_name(ps: Seq<(Seq<char>, Seq<char>)>, q: int) -> bool {
    forall|j: int| q < j < ps.len() ==> #[trigger] ps[j].0 != ps[q].0
}

proof fn lemma_insert_all_other(acc: Seq<(Seq<char>, Seq<char>)>, ps: Seq<(Seq<char>, Seq<char>)>, n: Seq<char>)
    requires
        names_sorted(acc),
        forall|j: int| 0 <= j < ps.len() ==> #[trigger] ps[j].0 != n,
    ensures
        names_sorted(insert_all(acc, ps)),
        map_get(insert_all(acc, ps), n) == map_get(acc, n),
    decreases ps.len(),
{
    if ps.len() > 0 {
        assert(ps[0].0 != n);
        law_map_insert(acc, ps[0].0, ps[0].1);
        assert(map_get(map_insert(acc, ps[0].0, ps[0].1), n) == map_get(acc, n));
        assert forall|j: int| 0 <= j < ps.drop_first().len() implies #[trigger] ps.drop_first()[j].0 != n by {
            assert(ps.drop_first()[j] == ps[j + 1]);
        }
        lemma_insert_all_other(map_insert(acc, ps[0].0, ps[0].1), ps.drop_first(), n);
    }
}

/// Putting parameters into a name-sorted map one by one keeps it sorted,
/// and each name then holds the value of its last parameter.
pub proof fn law_insert_all(acc: Seq<(Seq<char>, Seq<char>)>, ps: Seq<(Seq<char>, Seq<char>)>, q: int)
    requires
        names_sorted(acc),
        0 <= q < ps.len(),
        last_of_name(ps, q),
    ensures
        names_sorted(insert_all(acc, ps)),
        map_get(insert_all(acc, ps), ps[q].0) == Some(ps[q].1),
    decreases ps.len(),
{
    let next = map_insert(acc, ps[0].0, ps[0].1);
    law_map_insert(acc, ps[0].0, ps[0].1);
    if q == 0 {
        assert forall|j: int| 0 <= j < ps.drop_first().len() implies #[trigger] ps.drop_first()[j].0 != ps[0].0 by {
            assert(ps.drop_first()[j] == ps[j + 1]);
        }
        lemma_insert_all_other(next, ps.drop_first(), ps[0].0);
    } else {
        let rest = ps.drop_first();
        assert(rest[q - 1] == ps[q]);
        assert forall|j: int| q - 1 < j < rest.len() implies #[trigger] rest[j].0 != rest[q - 1].0 by {
            assert(rest[j] == ps[j + 1]);
        }
        law_insert_all(next, rest, q - 1);
    }
}

/// A name a sender can write: not empty, not led by a space, no `=`.
pub open spec fn plain_name(n: Seq<char>) -> bool {
    n.len() > 0 && n[0] != ' ' && forall|i: int| 0 <= i < n.len() ==> n[i] != '='
}

proof fn lemma_value_scan_escape(s: Seq<char>, i: int, acc: Seq<char>, w: Seq<char>)
    requires
        0 <= i,
        i + escape(w).len() + 1 <= s.len(),
        s.subrange(i, i + escape(w).len() + 1) == escape(w) + seq!['"'],
    ensures
        value_scan(s, i, acc) == Some((acc + w, i + escape(w).len() + 1)),
    decreases w.len(),
{
    let t = escape(w) + seq!['"'];
    assert(s[i] == t[0]);
    if w.len() == 0 {
        assert(acc + w =~= acc);
    } else {
        let c = w[0];
        let rest = w.drop_first();
        let head: Seq<char> = if c == '"' || c == '\\' || c == ']' { seq!['\\', c] } else { seq![c] };
        assert(escape(w) == head + escape(rest));
        let n = head.len() as int;
        assert(s.subrange(i + n, i + n + escape(rest).len() + 1) =~= escape(rest) + seq!['"']) by {
            assert forall|q: int| 0 <= q < escape(rest).len() + 1 implies
                #[trigger] s.subrange(i + n, i + n + escape(rest).len() + 1)[q] == (escape(rest) + seq!['"'])[q] by {
                assert(s[i + n + q] == s.subrange(i, i + escape(w).len() + 1)[n + q]);
            }
        }
        assert(acc.push(c) + rest =~= acc + w);
        if c == '"' || c == '\\' || c == ']' {
            assert(s[i + 1] == t[1]);
            assert((c as u32) < 128);
            lemma_value_scan_escape(s, i + 2, acc.push(c), rest);
        } else {
            lemma_value_scan_escape(s, i + 1, acc.push(c), rest);
        }
    }
}

proof fn lemma_find_eq_after(s: Seq<char>, j: int, n: Seq<char>)
    requires
        0 <= j,
        j + n.len() < s.len(),
        s.subrange(j, j + n.len()) == n,
        s[j + n.len()] == '=',
        forall|q: int| 0 <= q < n.len() ==> n[q] != '=',
    ensures
        find_eq(s, j) == j + n.len(),
    decreases n.len(),
{
    if n.len() > 0 {
        assert(s[j] == n[0]);
        assert(s.subrange(j + 1, j + n.len()) =~= n.drop_first());
        lemma_find_eq_after(s, j + 1, n.drop_first());
    }
}

proof fn lemma_params_text_from(
    s: Seq<char>,
    i: int,
    lead: bool,
    acc: Seq<(Seq<char>, Seq<char>)>,
    ps: Seq<(Seq<char>, Seq<char>)>,
)
    requires
        0 <= i <= s.len(),
        ps.len() > 0,
        forall|q: int| 0 <= q < ps.len() ==> plain_name(#[trigger] ps[q].0),
        s.skip(i) == (if lead { seq![' '] } else { Seq::<char>::empty() }) + params_text(ps),
    ensures
        params_from(s, i, acc) == Some(insert_all(acc, ps)),
    decreases ps.len(),
{
    let (n, v) = ps[0];
    assert(plain_name(ps[0].0));
    let j = if lead { i + 1 } else { i };
    let whole = (if lead { seq![' '] } else { Seq::<char>::empty() }) + params_text(ps);
    let tail: Seq<char> = if ps.len() == 1 { Seq::empty() } else { seq![' '] + params_text(ps.drop_first()) };
    assert(params_text(ps) =~= param_text(ps[0]) + tail);
    let e = j + n.len();
    let k = e + 2 + escape(v).len() + 1;
    let lead_seq: Seq<char> = if lead { seq![' '] } else { Seq::<char>::empty() };
    assert(lead_seq.len() == j - i);
    assert(s.skip(i).len() == s.len() - i);
    assert(s.skip(j) =~= params_text(ps)) by {
        assert forall|q: int| 0 <= q < s.len() - j implies #[trigger] s.skip(j)[q] == params_text(ps)[q] by {
            assert(s.skip(j)[q] == s[j + q]);
            assert(s.skip(i)[j - i + q] == s[j + q]);
            assert(whole[j - i + q] == params_text(ps)[q]);
        }
    }
    assert(s.skip(j) =~= param_text(ps[0]) + tail);
    assert(s.len() == j + param_text(ps[0]).len() + tail.len());
    // Where the name starts.
    assert(s[j] == s.skip(j)[0]);
    assert(s[j] == n[0]);
    if lead {
        assert(s[i] == s.skip(i)[0]);
        assert(whole[0] == ' ');
        assert(s[i] == ' ');
        assert(skip_spaces(s, j) == j);
        assert(skip_spaces(s, i) == j);
    } else {
        assert(skip_spaces(s, i) == j);
    }
    // The name runs to the first `=`.
    assert(s.subrange(j, e) =~= n) by {
        assert forall|q: int| 0 <= q < n.len() implies #[trigger] s.subrange(j, e)[q] == n[q] by {
            assert(s[j + q] == s.skip(j)[q]);
        }
    }
    assert(s[e] == s.skip(j)[n.len() as int]);
    assert(s[e + 1] == s.skip(j)[n.len() + 1int]);
    lemma_find_eq_after(s, j, n);
    // The quoted value.
    assert(s.subrange(e + 2, k) =~= escape(v) + seq!['"']) by {
        assert forall|q: int| 0 <= q < escape(v).len() + 1 implies
            #[trigger] s.subrange(e + 2, k)[q] == (escape(v) + seq!['"'])[q] by {
            assert(s[e + 2 + q] == s.skip(j)[n.len() + 2 + q]);
        }
    }
    lemma_value_scan_escape(s, e + 2, Seq::empty(), v);
    assert(Seq::<char>::empty() + v =~= v);
    let next = map_insert(acc, n, v);
    assert(insert_all(acc, ps) == insert_all(next, ps.drop_first()));
    if ps.len() == 1 {
        assert(k == s.len());
        assert(params_from(s, k, next) == Some(next));
    } else {
        assert(s.skip(k) =~= seq![' '] + params_text(ps.drop_first())) by {
            assert forall|q: int| 0 <= q < s.len() - k implies
                #[trigger] s.skip(k)[q] == (seq![' '] + params_text(ps.drop_first()))[q] by {
                assert(s.skip(k)[q] == s.skip(j)[param_text(ps[0]).len() + q]);
            }
        }
        assert forall|q: int| 0 <= q < ps.drop_first().len() implies plain_name(#[trigger] ps.drop_first()[q].0) by {
            assert(ps.drop_first()[q] == ps[q + 1]);
        }
        lemma_params_text_from(s, k, true, next, ps.drop_first());
    }
}

/// Parameters written the way a sender writes them read back whole: every
/// escape is undone, nothing after an escaped `"` or `]` is lost, and the
/// map holds each name with its value, a later one winning.
pub proof fn law_params_round_trip(ps: Seq<(Seq<char>, Seq<char>)>)
    requires
        forall|q: int| 0 <= q < ps.len() ==> plain_name(#[trigger] ps[q].0),
    ensures
        parse_params_spec(params_text(ps)) == Some(insert_all(Seq::empty(), ps)),
        forall|q: int| 0 <= q < ps.len() && last_of_name(ps, q) ==>
            map_get(insert_all(Seq::empty(), ps), #[trigger] ps[q].0) == Some(ps[q].1),
{
    assert forall|q: int| 0 <= q < ps.len() && last_of_name(ps, q) implies
        map_get(insert_all(Seq::empty(), ps), #[trigger] ps[q].0) == Some(ps[q].1) by {
        assert(names_sorted(Seq::<(Seq<char>, Seq<char>)>::empty()));
        law_insert_all(Seq::empty(), ps, q);
    }
    if ps.len() > 0 {
        let s = params_text(ps);
        assert(s.skip(0) =~= Seq::<char>::empty() + s);
        lemma_params_text_from(s, 0, false, Seq::empty(), ps);
    }
}

/// Where the element that opens at `s[0]` ends (one past its `]`),
/// honouring `\]`; or `None` when it never closes.
pub open spec fn element_end(s: Seq<char>, i: int) -> Option<int>
    decreases s.len() - i,
{
    if i < 0 || i >= s.len() {
        None
    } else if s[i] == '\\' {
        if i + 2 > s.len() { None } else { element_end(s, i + 2) }
    } else if s[i] == ']' {
        Some(i + 1)
    } else {
        element_end(s, i + 1)
    }
}

/// An element's id and its parameter text, from `v[..end]` holding
/// `[id params]`.
fn element_head(v: &[char], end: usize) -> (r: (Vec<char>, Vec<char>))
    requires
        2 <= end <= v@.len(),
    ensures
        ({
            let body = v@.subrange(1, end - 1);
            (r.0@, r.1@) == (match find_char(body, ' ') {
                Some(sp) => (body.take(sp), body.skip(sp + 1)),
                None => (body, Seq::<char>::empty()),
            })
        }),
{
    let body = copy_range(v, 1, end - 1);
    let mut sp: usize = 0;
    while sp < body.len() && body[sp] != ' '
        invariant
            sp <= body@.len(),
            forall|j: int| 0 <= j < sp ==> body@[j] != ' ',
        decreases body@.len() - sp,
    {
        sp += 1;
    }
    proof {
        if sp < body@.len() {
            lemma_find_char_some(body@, ' ', sp as int);
        } else {
            lemma_find_char_none(body@, ' ');
        }
    }
    let this_id = copy_range(body.as_slice(), 0, sp);
    let params: Vec<char> = if sp < body.len() { copy_range(body.as_slice(), sp + 1, body.len()) } else { Vec::new() };
    proof {
        if sp < body@.len() {
            assert(this_id@ == body@.take(sp as int));
            assert(params@ == body@.skip(sp + 1));
        } else {
            assert(this_id@ == body@);
        }
    }
    (this_id, params)
}

/// The named element's parameters, from the elements of `rest` on.
pub open spec fn element_params_from(rest: Seq<char>, id: Seq<char>) -> Option<Option<Seq<(Seq<char>, Seq<char>)>>>
    decreases rest.len(),
{
    let r = trim_start(rest);
    if r.len() > 0 && r[0] == '[' {
        match element_end(r, 1) {
            None => Some(None),
            Some(end) => {
                let body = r.subrange(1, end - 1);
                let (this_id, params) = match find_char(body, ' ') {
                    Some(sp) => (body.take(sp), body.skip(sp + 1)),
                    None => (body, Seq::empty()),
                };
                if this_id == id {
                    match parse_params_spec(params) {
                        Some(p) => Some(Some(p)),
                        None => None,
                    }
                } else if r.skip(end).len() < rest.len() {
                    element_params_from(r.skip(end), id)
                } else {
                    Some(None)
                }
            },
        }
    } else {
        Some(None)
    }
}

/// What a line's fields are after the PRI is stripped.
pub open spec fn strip_pri(line: Seq<char>) -> Seq<char> {
    if line.len() > 0 && line[0] == '<' {
        match find_char(line.skip(1), '>') {
            Some(end) => line.skip(end + 2),
            None => line,
        }
    } else {
        line
    }
}

/// The beacon a line carries: `None` for every ordinary log line; the
/// outer `None` where the line cannot be read at all.
pub open spec fn beacon_of(line: Seq<char>) -> Option<Option<Seq<(Seq<char>, Seq<char>)>>> {
    if !contains_str(line, sd_id()) {
        Some(None)
    } else {
        let f = splitn_space(strip_pri(trim_newlines(line)), 7);
        if f.len() < 7 || f[0] != "1"@ {
            Some(None)
        } else {
            element_params_from(f[6], sd_id())
        }
    }
}

pub open spec fn beacon_fields(line: Seq<char>) -> Seq<Seq<char>> {
    splitn_space(strip_pri(trim_newlines(line)), 7)
}

/// The non-empty pieces of `s` between commas.
pub open spec fn comma_list(s: Seq<char>) -> Seq<Seq<char>>
    decreases s.len(),
{
    match find_char(s, ',') {
        Some(i) => (if i > 0 { seq![s.take(i)] } else { Seq::empty() }) + comma_list(s.skip(i + 1)),
        None => if s.len() > 0 { seq![s] } else { Seq::empty() },
    }
}

impl Beacon {
    pub open spec fn param(&self, key: Seq<char>) -> Option<Seq<char>> {
        map_get(pairs(self.params@), key)
    }

    pub fn get(&self, key: &str) -> (r: Option<&str>)
        ensures
            match (r, self.param(key@)) {
                (Some(a), Some(b)) => a@ == b,
                (None, None) => true,
                _ => false,
            },
    {
        let ghost m = pairs(self.params@);
        let mut i: usize = 0;
        while i < self.params.len()
            invariant
                i <= self.params@.len(),
                m == pairs(self.params@),
                forall|j: int| 0 <= j < i ==> m[j].0 != key@,
            decreases self.params@.len() - i,
        {
            if str_eq(self.params[i].0.as_str(), key) {
                proof {
                    assert forall|j: int| 0 <= j < i implies !#[trigger] key_at(m, key@)(j) by {}
                    crate::text::lemma_first_at_some(m.len() as int, key_at(m, key@), i as int);
                }
                return Some(self.params[i].1.as_str());
            }
            i += 1;
        }
        proof {
            assert forall|j: int| 0 <= j < m.len() implies !#[trigger] key_at(m, key@)(j) by {}
            crate::text::lemma_first_at_none(m.len() as int, key_at(m, key@));
        }
        None
    }

    /// A parameter as a number, when it is one.
    pub fn num(&self, key: &str) -> (r: Option<u64>)
        ensures
            r == (match self.param(key@) {
                Some(v) => parse_u64(v),
                None => None,
            }),
    {
        match self.get(key) {
            Some(v) => parse_u64_str(v),
            None => None,
        }
    }

    pub fn cores(&self) -> (r: Option<u64>)
        ensures
            r == (match self.param("cores"@) { Some(v) => parse_u64(v), None => None }),
    {
        self.num("cores")
    }

    pub fn mem_bytes(&self) -> (r: Option<u64>)
        ensures
            r == (match self.param("mem_bytes"@) { Some(v) => parse_u64(v), None => None }),
    {
        self.num("mem_bytes")
    }

    pub fn drives(&self) -> (r: Option<u64>)
        ensures
            r == (match self.param("drives"@) { Some(v) => parse_u64(v), None => None }),
    {
        self.num("drives")
    }

    pub fn uptime_s(&self) -> (r: Option<u64>)
        ensures
            r == (match self.param("uptime_s"@) { Some(v) => parse_u64(v), None => None }),
    {
        self.num("uptime_s")
    }

    pub fn running(&self) -> (r: Option<u64>)
        ensures
            r == (match self.param("running"@) { Some(v) => parse_u64(v), None => None }),
    {
        self.num("running")
    }

    pub fn failed(&self) -> (r: Option<u64>)
        ensures
            r == (match self.param("failed"@) { Some(v) => parse_u64(v), None => None }),
    {
        self.num("failed")
    }

    pub fn arch(&self) -> (r: Option<&str>)
        ensures
            match (r, self.param("arch"@)) { (Some(a), Some(b)) => a@ == b, (None, None) => true, _ => false },
    {
        self.get("arch")
    }

    pub fn release(&self) -> (r: Option<&str>)
        ensures
            match (r, self.param("release"@)) { (Some(a), Some(b)) => a@ == b, (None, None) => true, _ => false },
    {
        self.get("release")
    }

    pub fn role(&self) -> (r: Option<&str>)
        ensures
            match (r, self.param("role"@)) { (Some(a), Some(b)) => a@ == b, (None, None) => true, _ => false },
    {
        self.get("role")
    }
    /// The pallets this node has mounted: empty, rather than `None`, when
    /// the field is absent.
    pub fn pallets(&self) -> (r: Vec<&str>)
        ensures
            r@.map_values(|p: &str| p@) == (match self.param("pallets"@) {
                Some(v) => comma_list(v),
                None => Seq::empty(),
            }),
    {
        let mut out: Vec<&str> = Vec::new();
        let p = match self.get("pallets") {
            Some(p) => p,
            None => {
                return out;
            },
        };
        let v = chars_of(p);
        let mut start: usize = 0;
        proof {
            assert(v@.skip(0) == v@);
        }
        while start < v.len()
            invariant
                start <= v@.len(),
                v@ == p@,
                out@.map_values(|p: &str| p@) + comma_list(v@.skip(start as int)) == comma_list(v@),
            decreases v@.len() - start,
        {
            let ghost rest = v@.skip(start as int);
            let mut i = start;
            while i < v.len() && v[i] != ','
                invariant
                    start <= i <= v@.len(),
                    forall|j: int| start <= j < i ==> v@[j] != ',',
                decreases v@.len() - i,
            {
                i += 1;
            }
            let ghost before = out@.map_values(|p: &str| p@);
            if i > start {
                out.push(p.substring_char(start, i));
            }
            proof {
                assert forall|j: int| 0 <= j < i - start implies rest[j] != ',' by {
                    assert(rest[j] == v@[start + j]);
                }
                if i < v@.len() {
                    assert(rest[i - start] == v@[i as int]);
                    lemma_find_char_some(rest, ',', i - start);
                    assert(rest.take(i - start) == v@.subrange(start as int, i as int));
                    assert(rest.skip(i - start + 1) == v@.skip(i + 1));
                    assert(out@.map_values(|p: &str| p@) == before + (if i > start { seq![rest.take(i - start)] } else { Seq::<Seq<char>>::empty() }));
                } else {
                    lemma_find_char_none(rest, ',');
                    assert(rest == v@.subrange(start as int, i as int));
                    assert(v@.skip(i as int) == Seq::<char>::empty());
                    assert(comma_list(Seq::<char>::empty()) == Seq::<Seq<char>>::empty());
                }
            }
            if i >= v.len() {
                proof {
                    assert(out@.map_values(|p: &str| p@) + comma_list(v@.skip(i as int)) == out@.map_values(|p: &str| p@));
                }
                start = i;
            } else {
                start = i + 1;
            }
        }
        proof {
            assert(v@.skip(start as int) == Seq::<char>::empty());
            assert(comma_list(Seq::<char>::empty()) == Seq::<Seq<char>>::empty());
            assert(out@.map_values(|p: &str| p@) + Seq::<Seq<char>>::empty() == out@.map_values(|p: &str| p@));
        }
        out
    }
}


/// Inserts into a name-sorted parameter list, replacing a name already
/// there.
pub fn insert_param(m: &mut Vec<(String, String)>, k: String, v: String)
    ensures
        pairs(final(m)@) == map_insert(pairs(old(m)@), k@, v@),
{
    let ghost pm = pairs(m@);
    let mut i: usize = 0;
    while i < m.len()
        invariant
            i <= m@.len(),
            pm == pairs(m@),
            m@ == old(m)@,
            forall|j: int| 0 <= j < i ==> pm[j].0 != k@,
        decreases m@.len() - i,
    {
        if str_eq(m[i].0.as_str(), k.as_str()) {
            proof {
                assert(pm[i as int].0 == k@);
                assert forall|j: int| 0 <= j < i implies !#[trigger] key_at(pm, k@)(j) by {}
                crate::text::lemma_first_at_some(pm.len() as int, key_at(pm, k@), i as int);
            }
            let ghost kv = (k@, v@);
            m.set(i, (k, v));
            proof {
                assert(pairs(m@) =~= pm.update(i as int, kv));
                assert(map_insert(pm, kv.0, kv.1) == pm.update(i as int, kv));
            }
            return;
        }
        i += 1;
    }
    proof {
        assert forall|j: int| 0 <= j < pm.len() implies !#[trigger] key_at(pm, k@)(j) by {}
        crate::text::lemma_first_at_none(pm.len() as int, key_at(pm, k@));
    }
    let mut j: usize = 0;
    while j < m.len()
        invariant
            j <= m@.len(),
            pm == pairs(m@),
            m@ == old(m)@,
            forall|q: int| 0 <= q < j ==> !str_lt(k@, pm[q].0),
        ensures
            j <= m@.len(),
            pm == pairs(m@),
            forall|q: int| 0 <= q < j ==> !str_lt(k@, pm[q].0),
            j < m@.len() ==> str_lt(k@, pm[j as int].0),
        decreases m@.len() - j,
    {
        if str_less(k.as_str(), m[j].0.as_str()) {
            break;
        }
        j += 1;
    }
    proof {
        if j < pm.len() {
            assert forall|q: int| 0 <= q < j implies !#[trigger] after_key(pm, k@)(q) by {}
            assert(after_key(pm, k@)(j as int));
            crate::text::lemma_first_at_some(pm.len() as int, after_key(pm, k@), j as int);
        } else {
            assert forall|q: int| 0 <= q < pm.len() implies !#[trigger] after_key(pm, k@)(q) by {}
            crate::text::lemma_first_at_none(pm.len() as int, after_key(pm, k@));
        }
    }
    m.insert(j, (k, v));
    proof {
        assert(pairs(m@) =~= pm.insert(j as int, (k@, v@)));
    }
}

/// Reads the value that starts at `i`: its text and where scanning stopped.
fn scan_value(s: &[char], i: usize) -> (r: Option<(String, usize)>)
    requires
        i <= s@.len(),
    ensures
        match (r, value_scan(s@, i as int, Seq::empty())) {
            (Some((v, k)), Some((w, j))) => v@ == w && k as int == j && k <= s@.len(),
            (None, None) => true,
            _ => false,
        },
{
    let mut out = String::new();
    let mut k = i;
    while k < s.len()
        invariant
            i <= k <= s@.len(),
            value_scan(s@, k as int, out@) == value_scan(s@, i as int, Seq::empty()),
        decreases s@.len() - k,
    {
        let c = s[k];
        if c == '\\' && k + 1 < s.len() {
            let d = s[k + 1];
            if (d as u32) < 128 {
                push_char(&mut out, d);
                k += 2;
            } else {
                return None;
            }
        } else if c == '"' {
            return Some((out, k + 1));
        } else {
            push_char(&mut out, c);
            k += 1;
        }
    }
    Some((out, k))
}

/// `name="value" name="value"`, with `\"`, `\\` and `\]` unescaped.
pub fn parse_params(s: &[char]) -> (r: Option<Vec<(String, String)>>)
    ensures
        match (r, parse_params_spec(s@)) {
            (Some(p), Some(q)) => pairs(p@) == q,
            (None, None) => true,
            _ => false,
        },
        r matches Some(p) ==> names_sorted(pairs(p@)),
{
    proof {
        assert(names_sorted(Seq::<(Seq<char>, Seq<char>)>::empty()));
        lemma_params_sorted(s@, 0, Seq::empty());
    }
    let mut out: Vec<(String, String)> = Vec::new();
    let mut i: usize = 0;
    proof {
        assert(pairs(out@) =~= Seq::<(Seq<char>, Seq<char>)>::empty());
    }
    while i < s.len()
        invariant
            i <= s@.len(),
            params_from(s@, i as int, pairs(out@)) == parse_params_spec(s@),
            parse_params_spec(s@) matches Some(q) ==> names_sorted(q),
        decreases s@.len() - i,
    {
        let ghost i0 = i as int;
        let mut j = i;
        while j < s.len() && s[j] == ' '
            invariant
                i <= j <= s@.len(),
                skip_spaces(s@, j as int) == skip_spaces(s@, i0),
            decreases s@.len() - j,
        {
            j += 1;
        }
        let mut e = j;
        while e < s.len() && s[e] != '='
            invariant
                j <= e <= s@.len(),
                find_eq(s@, e as int) == find_eq(s@, j as int),
            decreases s@.len() - e,
        {
            e += 1;
        }
        if e >= s.len() || e + 1 >= s.len() || s[e + 1] != '"' {
            return Some(out);
        }
        match scan_value(s, e + 2) {
            None => {
                return None;
            },
            Some((val, k)) => {
                let name = string_of(s, j, e);
                if e > j {
                    insert_param(&mut out, name, val);
                }
                if !(i < k && k <= s.len()) {
                    return Some(out);
                }
                i = k;
            },
        }
    }
    Some(out)
}

/// Splits `[...]` from what follows, honouring `\]`: where the element
/// opening at `from` ends.
fn split_element(s: &[char], from: usize) -> (r: Option<usize>)
    requires
        from < s@.len(),
    ensures
        r == (match element_end(s@.skip(from as int), 1) {
            Some(e) => Some((e + from) as usize),
            None => None::<usize>,
        }),
        r matches Some(e) ==> from + 2 <= e <= s@.len() && element_end(s@.skip(from as int), 1) == Some(e - from),
        r is None ==> element_end(s@.skip(from as int), 1) is None,
{
    let ghost t = s@.skip(from as int);
    assert(s@.len() == s.len());
    let mut i = from + 1;
    while i < s.len()
        invariant
            from < i <= s@.len() + 1,
            s@.len() == s.len(),
            t == s@.skip(from as int),
            element_end(t, i - from) == element_end(t, 1),
        decreases s@.len() + 1 - i,
    {
        let c = s[i];
        if c == '\\' {
            if s.len() - i < 2 {
                return None;
            }
            i += 2;
        } else if c == ']' {
            return Some(i + 1);
        } else {
            i += 1;
        }
    }
    None
}

/// The named element's parameters out of a STRUCTURED-DATA field; several
/// elements may stand there and only one is ours.
pub fn element_params(s: &[char], from: usize, to: usize, id: &[char]) -> (r: Option<Option<Vec<(String, String)>>>)
    requires
        from <= to <= s@.len(),
    ensures
        match (r, element_params_from(s@.subrange(from as int, to as int), id@)) {
            (Some(Some(p)), Some(Some(q))) => pairs(p@) == q,
            (Some(None), Some(None)) => true,
            (None, None) => true,
            _ => false,
        },
    decreases to - from,
{
    let ghost rest = s@.subrange(from as int, to as int);
    let st = trim_start_at(s, from, to);
    let ghost r0 = s@.subrange(st as int, to as int);
    assert(r0 == trim_start(rest));
    if !(st < to && s[st] == '[') {
        return Some(None);
    }
    let v = copy_range(s, st, to);
    assert(v@ == r0);
    assert(v@.skip(0) == v@);
    let end = match split_element(v.as_slice(), 0) {
        Some(e) => e,
        None => {
            return Some(None);
        },
    };
    let (this_id, params) = element_head(v.as_slice(), end);
    proof {
        assert(trim_start(rest) == v@);
        assert(element_end(v@, 1) == Some(end as int));
    }
    if crate::text::chars_eq(this_id.as_slice(), id) {
        assert(element_params_from(rest, id@) == (match parse_params_spec(params@) {
            Some(p) => Some(Some(p)),
            None => None,
        }));
        return match parse_params(params.as_slice()) {
            Some(p) => Some(Some(p)),
            None => None,
        };
    }
    proof {
        assert(s@.subrange(st + end, to as int) == r0.skip(end as int));
    }
    if to - (st + end) < to - from {
        element_params(s, st + end, to, id)
    } else {
        Some(None)
    }
}

/// Reads a beacon out of a raw syslog line, if it carries one; none
/// either where the line cannot be read at all.
pub fn from_line(line: &str, src: &str) -> (r: Option<Beacon>)
    ensures
        match (r, beacon_of(line@)) {
            (Some(b), Some(Some(p))) => {
                &&& pairs(b.params@) == p
                &&& b.addr@ == src@
                &&& b.host@ == (if beacon_fields(line@)[2] == "-"@ { src@ } else { beacon_fields(line@)[2] })
                &&& b.ts@ == (if beacon_fields(line@)[1] == "-"@ { Seq::<char>::empty() } else { beacon_fields(line@)[1] })
            },
            (None, Some(None)) => true,
            (None, None) => true,
            _ => false,
        },
        r matches Some(b) ==> names_sorted(pairs(b.params@)),
{
    proof {
        let f = splitn_space(strip_pri(trim_newlines(line@)), 7);
        if f.len() >= 7 {
            lemma_element_params_sorted(f[6], sd_id());
        }
    }
    if !contains_exec(line, "storm-beacon@0") {
        return None;
    }
    let v = chars_of(line);
    let end = trim_newlines_end(v.as_slice());
    let start = strip_pri_at(v.as_slice(), end);
    let f = splitn_space_ranges(v.as_slice(), start, end, 7);
    let ghost fs = beacon_fields(line@);
    assert(v@.subrange(start as int, end as int) == strip_pri(trim_newlines(line@)));
    if f.len() < 7 {
        return None;
    }
    proof {
        reveal_strlit("1");
        reveal_strlit("-");
        reveal_strlit("storm-beacon@0");
    }
    assert(v@.take(end as int) == trim_newlines(line@));
    assert(fs == splitn_space(v@.subrange(start as int, end as int), 7));
    assert(fs[0] == v@.subrange(f@[0].0 as int, f@[0].1 as int));
    if !is_one(v.as_slice(), f[0]) {
        return None;
    }
    let id = chars_of("storm-beacon@0");
    match element_params(v.as_slice(), f[6].0, f[6].1, id.as_slice()) {
        None => None,
        Some(None) => None,
        Some(Some(params)) => {
            let host = if is_dash(v.as_slice(), f[2]) { owned(src) } else { string_of(v.as_slice(), f[2].0, f[2].1) };
            let ts = if is_dash(v.as_slice(), f[1]) { String::new() } else { string_of(v.as_slice(), f[1].0, f[1].1) };
            Some(Beacon { host, addr: owned(src), ts, params })
        },
    }
}

/// Where the line starts once `<...>` is stripped from `v[..end]`.
fn strip_pri_at(v: &[char], end: usize) -> (r: usize)
    requires
        end <= v@.len(),
    ensures
        r <= end,
        v@.subrange(r as int, end as int) == strip_pri(v@.take(end as int)),
{
    let ghost line = v@.take(end as int);
    if end == 0 || v[0] != '<' {
        assert(v@.subrange(0, end as int) == line);
        return 0;
    }
    let mut k: usize = 1;
    while k < end && v[k] != '>'
        invariant
            1 <= k <= end <= v@.len(),
            forall|j: int| 1 <= j < k ==> v@[j] != '>',
        decreases end - k,
    {
        k += 1;
    }
    let ghost body = line.skip(1);
    if k == end {
        proof {
            assert forall|j: int| 0 <= j < body.len() implies body[j] != '>' by {
                assert(body[j] == v@[j + 1]);
            }
            lemma_find_char_none(body, '>');
            assert(v@.subrange(0, end as int) == line);
        }
        return 0;
    }
    proof {
        assert forall|j: int| 0 <= j < k - 1 implies body[j] != '>' by {
            assert(body[j] == v@[j + 1]);
        }
        assert(body[k - 1] == v@[k as int]);
        lemma_find_char_some(body, '>', k - 1);
        assert(v@.subrange(k + 1, end as int) == line.skip(k + 1));
    }
    k + 1
}

} // verus!
