//! What the datastore's routes answer with: a directory listing over the
//! flat keyspace, the snapshot stream's chunks, and the member an alarm is
//! disarmed for.

use vstd::prelude::*;
use crate::json::{Json, json_parsed, parse_json};
use crate::etcd::gateway::{Member, b64_decode, b64_decoded, lemma_b64_decoded_is};
use crate::k8s::components::cat;
use crate::text::{first_at, owned, push_str, split_once, split_once_str, str_eq, str_lt, strip_prefix, strip_prefix_str};

verus! {

/// Where a key goes in a listing of `prefix`: the next path segment with
/// its `/` when there are keys beneath it, or the key itself as a leaf;
/// none when the key is not under the prefix.
pub open spec fn child_of(prefix: Seq<char>, k: Seq<char>) -> Option<(Seq<char>, bool)> {
    match strip_prefix(k, prefix) {
        None => None,
        Some(rest) => match split_once(rest, '/') {
            Some((head, _)) => Some((head + "/"@, false)),
            None => Some((rest, true)),
        },
    }
}

/// A child: its name, how many keys are beneath it, and whether it is a
/// key itself.
pub type ChildV = (Seq<char>, nat, bool);

pub open spec fn named(m: Seq<ChildV>, name: Seq<char>) -> spec_fn(int) -> bool {
    |i: int| m[i].0 == name
}

pub open spec fn after_name(m: Seq<ChildV>, name: Seq<char>) -> spec_fn(int) -> bool {
    |i: int| str_lt(name, m[i].0)
}

/// One more key counted under `name`, the children kept in name order.
pub open spec fn tally(m: Seq<ChildV>, name: Seq<char>, leaf: bool) -> Seq<ChildV> {
    match first_at(m.len() as int, named(m, name)) {
        Some(i) => m.update(i, if leaf { (name, m[i].1, true) } else { (name, m[i].1 + 1, m[i].2) }),
        None => {
            let at = match first_at(m.len() as int, after_name(m, name)) {
                Some(j) => j,
                None => m.len() as int,
            };
            m.insert(at, (name, if leaf { 0nat } else { 1nat }, leaf))
        },
    }
}

pub open spec fn children_of(prefix: Seq<char>, keys: Seq<Seq<char>>) -> Seq<ChildV>
    decreases keys.len(),
{
    if keys.len() == 0 {
        Seq::empty()
    } else {
        let m = children_of(prefix, keys.drop_last());
        match child_of(prefix, keys.last()) {
            Some((name, leaf)) => tally(m, name, leaf),
            None => m,
        }
    }
}

/// One child of a listing.
#[derive(Debug, Clone)]
pub struct Child {
    pub name: String,
    pub path: String,
    /// Keys beneath it; 1 for a key itself.
    pub count: u64,
    pub leaf: bool,
}

/// A directory listing over a flat keyspace.
#[derive(Debug, Clone)]
pub struct Tree {
    pub prefix: String,
    pub total: u64,
    pub scanned: usize,
    pub truncated: bool,
    pub children: Vec<Child>,
}

pub open spec fn child_view(c: Child) -> (Seq<char>, Seq<char>, nat, bool) {
    (c.name@, c.path@, c.count as nat, c.leaf)
}

pub open spec fn shown(prefix: Seq<char>, m: Seq<ChildV>) -> Seq<(Seq<char>, Seq<char>, nat, bool)> {
    m.map_values(|c: ChildV| (c.0, prefix + c.0, if c.2 { 1nat } else { c.1 }, c.2))
}

pub open spec fn key_views(ks: Seq<String>) -> Seq<Seq<char>> {
    ks.map_values(|k: String| k@)
}

pub open spec fn counts_within(m: Seq<(String, u64, bool)>, n: nat) -> bool {
    forall|i: int| 0 <= i < m.len() ==> (#[trigger] m[i]).1 <= n
}

pub open spec fn tally_views(m: Seq<(String, u64, bool)>) -> Seq<ChildV> {
    m.map_values(|c: (String, u64, bool)| (c.0@, c.1 as nat, c.2))
}

#[verifier::loop_isolation(false)]
fn tally_exec(m: &mut Vec<(String, u64, bool)>, name: String, leaf: bool, Ghost(n): Ghost<nat>)
    requires
        counts_within(old(m)@, n),
        n < usize::MAX,
    ensures
        tally_views(final(m)@) == tally(tally_views(old(m)@), name@, leaf),
        counts_within(final(m)@, n + 1),
{
    let ghost mv = tally_views(m@);
    let mut i: usize = 0;
    while i < m.len()
        invariant
            i <= m@.len(),
            mv == tally_views(m@),
            m@ == old(m)@,
            forall|j: int| 0 <= j < i ==> !#[trigger] named(mv, name@)(j),
        decreases m@.len() - i,
    {
        if str_eq(m[i].0.as_str(), name.as_str()) {
            proof {
                crate::text::lemma_first_at_some(mv.len() as int, named(mv, name@), i as int);
            }
            assert(m@[i as int].1 <= n);
            let ghost before = m@;
            let (k, c, l) = m.remove(i);
            let e = if leaf { (k, c, true) } else { (k, c + 1, l) };
            m.insert(i, e);
            assert(m@ =~= before.update(i as int, e));
            assert(tally_views(m@) =~= mv.update(i as int, if leaf { (name@, mv[i as int].1, true) } else { (name@, mv[i as int].1 + 1, mv[i as int].2) }));
            assert(before == old(m)@);
            assert forall|j: int| 0 <= j < m@.len() implies (#[trigger] m@[j]).1 <= n + 1 by {
                if j != i {
                    assert(m@[j] == before[j]);
                    assert(old(m)@[j].1 <= n);
                }
            }
            return;
        }
        i += 1;
    }
    proof {
        crate::text::lemma_first_at_none(mv.len() as int, named(mv, name@));
    }
    let mut j: usize = 0;
    while j < m.len()
        invariant
            j <= m@.len(),
            mv == tally_views(m@),
            m@ == old(m)@,
            forall|k: int| 0 <= k < j ==> !#[trigger] after_name(mv, name@)(k),
        decreases m@.len() - j,
    {
        if crate::text::str_less(name.as_str(), m[j].0.as_str()) {
            proof {
                crate::text::lemma_first_at_some(mv.len() as int, after_name(mv, name@), j as int);
            }
            break;
        }
        j += 1;
    }
    proof {
        if j == m@.len() {
            crate::text::lemma_first_at_none(mv.len() as int, after_name(mv, name@));
        }
    }
    let ghost nv = name@;
    let ghost before = m@;
    let e = (name, if leaf { 0 } else { 1 }, leaf);
    m.insert(j, e);
    assert(m@ =~= before.insert(j as int, e));
    assert(tally_views(m@) =~= mv.insert(j as int, (nv, if leaf { 0nat } else { 1nat }, leaf)));
    assert(before == old(m)@);
    assert forall|x: int| 0 <= x < m@.len() implies (#[trigger] m@[x]).1 <= n + 1 by {
        if x < j {
            assert(m@[x] == before[x]);
            assert(old(m)@[x].1 <= n);
        } else if x > j {
            assert(m@[x] == before[x - 1]);
            assert(old(m)@[x - 1].1 <= n);
        }
    }
}

/// The children of one prefix, grouped on the next `/`, with counts
/// (`tree`).
pub fn tree(prefix: &str, keys: &Vec<String>, count: u64, more: bool) -> (t: Tree)
    ensures
        t.prefix@ == prefix@,
        t.total == count,
        t.scanned == keys@.len(),
        t.truncated == more,
        t.children@.map_values(|c: Child| child_view(c)) == shown(prefix@, children_of(prefix@, key_views(keys@))),
{
    let ghost ks = key_views(keys@);
    let mut m: Vec<(String, u64, bool)> = Vec::new();
    let mut i: usize = 0;
    assert(ks.take(0) =~= Seq::<Seq<char>>::empty());
    assert(tally_views(m@) =~= Seq::<ChildV>::empty());
    while i < keys.len()
        invariant
            i <= keys@.len(),
            ks == key_views(keys@),
            tally_views(m@) == children_of(prefix@, ks.take(i as int)),
            counts_within(m@, i as nat),
        decreases keys@.len() - i,
    {
        assert(ks.take(i + 1).drop_last() =~= ks.take(i as int));
        assert(ks.take(i + 1).last() == keys@[i as int]@);
        match strip_prefix_str(keys[i].as_str(), prefix) {
            None => {},
            Some(rest) => match split_once_str(rest, '/') {
                Some((head, _)) => tally_exec(&mut m, cat(head, "/"), false, Ghost(i as nat)),
                None => tally_exec(&mut m, owned(rest), true, Ghost(i as nat)),
            },
        }
        assert(counts_within(m@, (i + 1) as nat));
        i += 1;
    }
    assert(ks.take(keys@.len() as int) =~= ks);
    let ghost mv = tally_views(m@);
    let mut children: Vec<Child> = Vec::new();
    let mut k: usize = 0;
    while k < m.len()
        invariant
            k <= m@.len(),
            mv == tally_views(m@),
            children@.map_values(|c: Child| child_view(c)) == shown(prefix@, mv.take(k as int)),
        decreases m@.len() - k,
    {
        let (name, n, leaf) = (&m[k].0, m[k].1, m[k].2);
        let c = Child { name: owned(name.as_str()), path: cat(prefix, name.as_str()), count: if leaf { 1 } else { n }, leaf };
        let ghost b = children@.map_values(|c: Child| child_view(c));
        children.push(c);
        assert(children@.map_values(|c: Child| child_view(c)) =~= b.push(child_view(c)));
        assert(mv.take(k + 1) =~= mv.take(k as int).push(mv[k as int]));
        assert(shown(prefix@, mv.take(k + 1)) =~= shown(prefix@, mv.take(k as int)).push(
            (mv[k as int].0, prefix@ + mv[k as int].0, if mv[k as int].2 { 1nat } else { mv[k as int].1 }, mv[k as int].2),
        ));
        k += 1;
    }
    assert(mv.take(m@.len() as int) =~= mv);
    Tree { prefix: owned(prefix), total: count, scanned: keys.len(), truncated: more, children }
}


/// ASCII whitespace as `u8::is_ascii_whitespace` has it.
pub open spec fn ascii_space(b: u8) -> bool {
    b == 32 || b == 9 || b == 10 || b == 12 || b == 13
}

pub open spec fn not_space(s: Seq<u8>) -> spec_fn(int) -> bool {
    |i: int| !ascii_space(s[i])
}

/// `<[u8]>::trim_ascii`.
pub open spec fn trim_ascii(s: Seq<u8>) -> Seq<u8> {
    match first_at(s.len() as int, not_space(s)) {
        Some(a) => match crate::text::last_at(s.len() as int, not_space(s)) {
            Some(b) => s.subrange(a, b + 1),
            None => Seq::empty(),
        },
        None => Seq::empty(),
    }
}

fn is_space(b: u8) -> (r: bool)
    ensures
        r == ascii_space(b),
{
    b == 32 || b == 9 || b == 10 || b == 12 || b == 13
}

fn trim_ascii_exec(s: &[u8]) -> (r: Vec<u8>)
    ensures
        r@ == trim_ascii(s@),
{
    let mut a: usize = 0;
    while a < s.len() && is_space(s[a])
        invariant
            a <= s@.len(),
            forall|k: int| 0 <= k < a ==> !#[trigger] not_space(s@)(k),
        decreases s@.len() - a,
    {
        a += 1;
    }
    if a == s.len() {
        proof {
            crate::text::lemma_first_at_none(s@.len() as int, not_space(s@));
        }
        return Vec::new();
    }
    assert(not_space(s@)(a as int));
    proof {
        crate::text::lemma_first_at_some(s@.len() as int, not_space(s@), a as int);
    }
    let mut z = s.len();
    while z > a + 1 && is_space(s[z - 1])
        invariant
            a < z <= s@.len(),
            not_space(s@)(a as int),
            forall|k: int| z <= k < s@.len() ==> !#[trigger] not_space(s@)(k),
        decreases z,
    {
        z -= 1;
    }
    assert(not_space(s@)(z - 1));
    proof {
        crate::text::lemma_last_at_some(s@.len() as int, not_space(s@), z - 1);
    }
    crate::etcd::decode::slice_bytes(s, a, z)
}

/// Why a snapshot line could not be turned into bytes.
#[derive(Debug)]
pub enum ChunkError {
    /// The line is not JSON.
    NotJson,
    /// The gateway reported an error in the stream.
    Upstream(Json),
    /// The blob is not base64.
    NotBase64,
}

pub open spec fn blob_of(v: Json) -> Seq<char> {
    let holder = match v.member("result"@) {
        Some(r) => r,
        None => v,
    };
    match holder.member("blob"@) {
        Some(b) => match b.str_of() {
            Some(t) => t,
            None => Seq::empty(),
        },
        None => Seq::empty(),
    }
}

/// One line of the gateway's snapshot stream: nothing for a blank line,
/// the error it carries, or its blob's bytes.
pub open spec fn chunk_spec(line: Seq<u8>) -> Result<Option<Seq<u8>>, Option<Json>> {
    let t = trim_ascii(line);
    if t.len() == 0 {
        Ok(None)
    } else {
        match json_parsed(t) {
            None => Err(None),
            Some(v) => match v.member("error"@) {
                Some(e) => Err(Some(e)),
                None => match b64_decoded(blob_of(v)) {
                    Some(b) => Ok(Some(b)),
                    None => Err(None),
                },
            },
        }
    }
}

pub open spec fn chunk_view(r: Result<Option<Vec<u8>>, ChunkError>) -> Result<Option<Seq<u8>>, Option<Json>> {
    match r {
        Ok(Some(b)) => Ok(Some(b@)),
        Ok(None) => Ok(None),
        Err(ChunkError::Upstream(e)) => Err(Some(e)),
        Err(_) => Err(None),
    }
}

/// One line of the snapshot stream, turned back into the bytes it
/// carries (`chunk`).
#[verifier::loop_isolation(false)]
pub fn chunk(line: &[u8]) -> (r: Result<Option<Vec<u8>>, ChunkError>)
    ensures
        chunk_view(r) == chunk_spec(line@),
        r matches Err(ChunkError::NotJson) ==> json_parsed(trim_ascii(line@)) is None,
{
    let t = trim_ascii_exec(line);
    if t.len() == 0 {
        return Ok(None);
    }
    let v = match parse_json(t.as_slice()) {
        Some(v) => v,
        None => {
            return Err(ChunkError::NotJson);
        },
    };
    let ghost vv = v;
    match v {
        Json::Obj(m) => {
            let mut m = m;
            let mut i: usize = 0;
            while i < m.len()
                invariant
                    i <= m@.len(),
                    vv == Json::Obj(m),
                    forall|j: int| 0 <= j < i ==> !#[trigger] crate::json::member_key(m@, "error"@)(j),
                decreases m@.len() - i,
            {
                if str_eq(m[i].0.as_str(), "error") {
                    proof {
                        crate::text::lemma_first_at_some(m@.len() as int, crate::json::member_key(m@, "error"@), i as int);
                    }
                    let ghost mm = m@;
                    assert(vv.member("error"@) == Some(mm[i as int].1));
                    let (_, e) = m.remove(i);
                    assert(e == mm[i as int].1);
                    return Err(ChunkError::Upstream(e));
                }
                i += 1;
            }
            proof {
                crate::text::lemma_first_at_none(m@.len() as int, crate::json::member_key(m@, "error"@));
            }
            let whole = Json::Obj(m);
            assert(whole == vv);
            blob_bytes(&whole)
        },
        other => blob_bytes(&other),
    }
}

fn blob_bytes(v: &Json) -> (r: Result<Option<Vec<u8>>, ChunkError>)
    ensures
        r matches Ok(Some(b)) ==> b64_decoded(blob_of(*v)) == Some(b@),
        r matches Err(e) ==> e is NotBase64 && b64_decoded(blob_of(*v)) is None,
        r is Ok ==> r matches Ok(Some(_)),
{
    let holder = match v.get("result") {
        Some(r) => r,
        None => v,
    };
    let blob = match holder.get("blob") {
        Some(b) => match b.as_str() {
            Some(t) => t,
            None => "",
        },
        None => "",
    };
    proof {
        reveal_strlit("");
        assert(""@ =~= Seq::<char>::empty());
    }
    let r = b64_decode(blob);
    proof {
        lemma_b64_decoded_is(blob@, crate::etcd::gateway::bytes_view(r));
    }
    match r {
        Some(b) => Ok(Some(b)),
        None => Err(ChunkError::NotBase64),
    }
}

pub open spec fn newline_at(b: Seq<u8>) -> spec_fn(int) -> bool {
    |i: int| b[i] == 10u8
}

/// Takes the first line, newline included, off the front of the buffer.
pub fn take_line(buf: &mut Vec<u8>) -> (r: Option<Vec<u8>>)
    ensures
        match crate::text::first_at(old(buf)@.len() as int, newline_at(old(buf)@)) {
            Some(nl) => r matches Some(l) && l@ == old(buf)@.take(nl + 1) && final(buf)@ == old(buf)@.skip(nl + 1),
            None => r is None && final(buf)@ == old(buf)@,
        },
{
    let ghost b0 = buf@;
    let ghost p = newline_at(b0);
    let mut i: usize = 0;
    while i < buf.len()
        invariant
            i <= buf@.len(),
            buf@ == b0,
            b0 == old(buf)@,
            p == newline_at(b0),
            forall|k: int| 0 <= k < i ==> !#[trigger] p(k),
        decreases buf@.len() - i,
    {
        if buf[i] == 10u8 {
            proof {
                crate::text::lemma_first_at_some(b0.len() as int, p, i as int);
            }
            let line = crate::etcd::decode::slice_bytes(buf.as_slice(), 0, i + 1);
            let rest = crate::etcd::decode::skip_bytes(buf.as_slice(), i + 1);
            *buf = rest;
            assert(line@ =~= b0.take(i + 1));
            return Some(line);
        }
        i += 1;
    }
    proof {
        crate::text::lemma_first_at_none(b0.len() as int, p);
    }
    None
}

/// A hex digit's value.
pub open spec fn hex_value(c: char) -> int {
    if '0' <= c <= '9' {
        c as int - 48
    } else if 'a' <= c <= 'f' {
        c as int - 87
    } else {
        c as int - 55
    }
}

pub open spec fn hex_digits(s: Seq<char>) -> bool {
    forall|i: int| 0 <= i < s.len() ==> crate::plugins::sbregistry::is_hex(#[trigger] s[i])
}

pub open spec fn hex_number(s: Seq<char>) -> nat
    decreases s.len(),
{
    if s.len() == 0 { 0 } else { (hex_number(s.drop_last()) * 16 + hex_value(s.last())) as nat }
}

/// `u64::from_str_radix(s, 16)`: an optional `+`, then one or more hex
/// digits whose value fits in 64 bits.
pub open spec fn parse_hex_spec(s: Seq<char>) -> Option<u64> {
    let d = if s.len() > 0 && s[0] == '+' { s.skip(1) } else { s };
    if d.len() > 0 && hex_digits(d) && hex_number(d) <= u64::MAX { Some(hex_number(d) as u64) } else { None }
}

pub fn parse_hex(s: &str) -> (r: Option<u64>)
    ensures
        r == parse_hex_spec(s@),
{
    let v = crate::text::chars_of(s);
    let start: usize = if v.len() > 0 && v[0] == '+' { 1 } else { 0 };
    let ghost d = if s@.len() > 0 && s@[0] == '+' { s@.skip(1) } else { s@ };
    assert(v@.skip(start as int) =~= d);
    if start == v.len() {
        return None;
    }
    let mut n: u64 = 0;
    let mut i = start;
    assert(d.take(0) =~= Seq::<char>::empty());
    while i < v.len()
        invariant
            start <= i <= v@.len(),
            v@ == s@,
            d == v@.skip(start as int),
            d == (if s@.len() > 0 && s@[0] == '+' { s@.skip(1) } else { s@ }),
            hex_digits(d.take(i - start)),
            n == hex_number(d.take(i - start)),
        decreases v@.len() - i,
    {
        let c = v[i];
        let dv: u64 = if '0' <= c && c <= '9' {
            (c as u64) - 48
        } else if 'a' <= c && c <= 'f' {
            (c as u64) - 87
        } else if 'A' <= c && c <= 'F' {
            (c as u64) - 55
        } else {
            assert(d[i - start] == c);
            assert(!crate::plugins::sbregistry::is_hex(d[i - start]));
            assert(!hex_digits(d));
            return None;
        };
        assert(d.take(i - start + 1).drop_last() =~= d.take(i - start));
        assert(d.take(i - start + 1).last() == c);
        if n > (u64::MAX - dv) / 16 {
            proof {
                let q: int = (u64::MAX - dv) as int / 16;
                assert((n as int) * 16 + dv > u64::MAX) by (nonlinear_arith)
                    requires
                        n as int > q,
                        q == (u64::MAX - dv) as int / 16,
                        dv <= 15;
                if hex_digits(d) {
                    lemma_hex_grows(d, (i - start + 1) as int);
                    assert(hex_number(d.take(i - start + 1)) == n * 16 + dv);
                }
            }
            return None;
        }
        n = n * 16 + dv;
        assert forall|k: int| 0 <= k < i - start + 1 implies crate::plugins::sbregistry::is_hex(#[trigger] d.take(i - start + 1)[k]) by {
            if k < i - start {
                assert(d.take(i - start + 1)[k] == d.take(i - start)[k]);
            }
        }
        i += 1;
    }
    assert(d.take(v@.len() - start) =~= d);
    Some(n)
}

/// A hex number only grows as digits are added.
proof fn lemma_hex_grows(d: Seq<char>, k: int)
    requires
        0 <= k <= d.len(),
        hex_digits(d),
    ensures
        hex_number(d.take(k)) <= hex_number(d),
    decreases d.len(),
{
    if k < d.len() {
        assert(d.drop_last().take(k) =~= d.take(k));
        assert forall|i: int| 0 <= i < d.drop_last().len() implies crate::plugins::sbregistry::is_hex(#[trigger] d.drop_last()[i]) by {
            assert(d.drop_last()[i] == d[i]);
        }
        lemma_hex_grows(d.drop_last(), k);
    } else {
        assert(d.take(k) =~= d);
    }
}

/// What a string result holds, as text.
pub open spec fn text_result(r: Result<String, String>) -> Result<Seq<char>, Seq<char>> {
    match r {
        Ok(t) => Ok(t@),
        Err(e) => Err(e@),
    }
}

/// Whether member `i` of `ms` has the id `id`.
pub open spec fn member_is(ms: Seq<Member>, id: Seq<char>) -> spec_fn(int) -> bool {
    |i: int| ms[i].id@ == id
}

/// The client URL a defragment is sent through: this node's when no member
/// is named; else the first client URL of the first member with that id,
/// and a refusal when there is none.
pub open spec fn defrag_base_spec(own: Seq<char>, member: Option<Seq<char>>, ms: Seq<Member>) -> Result<Seq<char>, Seq<char>> {
    match member {
        None => Ok(own),
        Some(id) => match first_at(ms.len() as int, member_is(ms, id)) {
            Some(i) => if ms[i].client_urls@.len() > 0 {
                Ok(ms[i].client_urls@[0]@)
            } else {
                Err("member "@ + id + " has no client URL to defragment through"@)
            },
            None => Err("member "@ + id + " has no client URL to defragment through"@),
        },
    }
}

pub open spec fn opt_text(o: Option<&str>) -> Option<Seq<char>> {
    match o {
        Some(t) => Some(t@),
        None => None,
    }
}

fn no_client_url(id: &str) -> (r: String)
    ensures
        r@ == "member "@ + id@ + " has no client URL to defragment through"@,
{
    let mut r = owned("member ");
    push_str(&mut r, id);
    push_str(&mut r, " has no client URL to defragment through");
    r
}

/// The client URL to defragment through (see `defrag_base_spec`).
pub fn defrag_base(own: &str, member: Option<&str>, ms: &Vec<Member>) -> (r: Result<String, String>)
    ensures
        text_result(r) == defrag_base_spec(own@, opt_text(member), ms@),
{
    match member {
        None => Ok(owned(own)),
        Some(id) => {
            let mut i: usize = 0;
            while i < ms.len()
                invariant
                    i <= ms@.len(),
                    member == Some(id),
                    forall|j: int| 0 <= j < i ==> !#[trigger] member_is(ms@, id@)(j),
                decreases ms@.len() - i,
            {
                if str_eq(ms[i].id.as_str(), id) {
                    proof {
                        assert(member_is(ms@, id@)(i as int));
                        crate::text::lemma_first_at_some(ms@.len() as int, member_is(ms@, id@), i as int);
                    }
                    if ms[i].client_urls.len() > 0 {
                        assert(ms[i as int].client_urls@[0] == ms[i as int].client_urls[0]);
                        return Ok(owned(ms[i].client_urls[0].as_str()));
                    }
                    return Err(no_client_url(id));
                }
                i += 1;
            }
            proof {
                crate::text::lemma_first_at_none(ms@.len() as int, member_is(ms@, id@));
            }
            Err(no_client_url(id))
        },
    }
}

/// The member an alarm is disarmed for: the hex id it is shown in, back to
/// the decimal integer etcd keeps; a refusal when it is not hex.
pub open spec fn disarm_member_spec(member: Seq<char>) -> Result<Seq<char>, Seq<char>> {
    match parse_hex_spec(member) {
        Some(n) => Ok(crate::text::decimal(n as nat)),
        None => Err(member + " is not a member id"@),
    }
}

pub fn disarm_member(member: &str) -> (r: Result<String, String>)
    ensures
        text_result(r) == disarm_member_spec(member@),
{
    match parse_hex(member) {
        Some(n) => Ok(crate::text::decimal_string(n)),
        None => {
            let mut e = owned(member);
            push_str(&mut e, " is not a member id");
            Err(e)
        },
    }
}

/// What the snapshot route answers once the gateway has replied, before
/// any of the stream is read: nothing yet (`Ok`) when it is streaming JSON
/// with success; 501 with the gateway gap when the route is not there
/// (404, 405) or the reply is not JSON; 502 with the status otherwise.
/// `status` is the status as printed, such as `500 Internal Server Error`.
pub open spec fn snapshot_reply(code: u16, status: Seq<char>, content_type: Seq<char>) -> Result<(), (u16, Seq<char>)> {
    if code == 404 || code == 405 || !crate::text::contains_str(content_type, "json"@) {
        Err((501, crate::etcd::card::GATEWAY_GAP@))
    } else if !(200 <= code < 300) {
        Err((502, "snapshot responded "@ + status))
    } else {
        Ok(())
    }
}

pub fn classify_snapshot(code: u16, status: &str, content_type: &str) -> (r: Result<(), (u16, String)>)
    ensures
        match (r, snapshot_reply(code, status@, content_type@)) {
            (Ok(()), Ok(())) => true,
            (Err((c, m)), Err((d, n))) => c == d && m@ == n,
            _ => false,
        },
{
    if code == 404 || code == 405 || !crate::text::contains_exec(content_type, "json") {
        return Err((501, owned(crate::etcd::card::GATEWAY_GAP)));
    }
    if !(200 <= code && code < 300) {
        return Err((502, cat("snapshot responded ", status)));
    }
    Ok(())
}

/// The next step of turning the snapshot stream back into bytes.
pub enum Piece {
    /// Bytes to send on.
    Bytes(Vec<u8>),
    /// A blank line: nothing to send; ask again.
    Skip,
    /// A line that could not be turned into bytes: the stream fails here.
    Fail(ChunkError),
    /// No whole line yet: read more from upstream.
    More,
    /// Upstream has ended and nothing is left.
    End,
}

/// One step of the snapshot stream over what has been read so far. A
/// whole line is taken off the buffer and turned into bytes; without one,
/// more is read, or, once upstream has ended, what is left is the last
/// line (an object with no newline after it), and an empty rest ends it.
pub fn next_piece(buf: &mut Vec<u8>, ended: bool) -> (r: Piece)
    ensures
        match crate::text::first_at(old(buf)@.len() as int, newline_at(old(buf)@)) {
            Some(nl) => {
                let line = old(buf)@.take(nl + 1);
                &&& final(buf)@ == old(buf)@.skip(nl + 1)
                &&& match r {
                    Piece::Bytes(b) => chunk_spec(line) == Ok::<Option<Seq<u8>>, Option<Json>>(Some(b@)),
                    Piece::Skip => chunk_spec(line) == Ok::<Option<Seq<u8>>, Option<Json>>(None),
                    Piece::Fail(e) => chunk_spec(line) is Err && chunk_view(Err(e)) == chunk_spec(line),
                    _ => false,
                }
            },
            None => if !ended {
                final(buf)@ == old(buf)@ && r is More
            } else {
                &&& final(buf)@.len() == 0
                &&& match r {
                    Piece::Bytes(b) => chunk_spec(old(buf)@) == Ok::<Option<Seq<u8>>, Option<Json>>(Some(b@)),
                    Piece::End => chunk_spec(old(buf)@) == Ok::<Option<Seq<u8>>, Option<Json>>(None),
                    Piece::Fail(e) => chunk_spec(old(buf)@) is Err && chunk_view(Err(e)) == chunk_spec(old(buf)@),
                    _ => false,
                }
            },
        },
{
    match take_line(buf) {
        Some(line) => match chunk(line.as_slice()) {
            Ok(Some(b)) => Piece::Bytes(b),
            Ok(None) => Piece::Skip,
            Err(e) => Piece::Fail(e),
        },
        None => {
            if !ended {
                return Piece::More;
            }
            let mut rest: Vec<u8> = Vec::new();
            std::mem::swap(&mut rest, buf);
            match chunk(rest.as_slice()) {
                Ok(Some(b)) => Piece::Bytes(b),
                Ok(None) => Piece::End,
                Err(e) => Piece::Fail(e),
            }
        },
    }
}

/// Why a viewer without the `admin` role is refused the keyspace; none for
/// an admin.
pub const ADMIN_ONLY: &'static str = "the datastore's keys and values are every object in the cluster, Secrets included, beneath Kubernetes RBAC: reading them needs the `admin` role";

pub fn admin_only(v: &crate::access::Viewer) -> (r: Option<String>)
    ensures
        v.holds("admin"@) ==> r is None,
        !v.holds("admin"@) ==> (r matches Some(m) && m@ == ADMIN_ONLY@),
{
    if v.has_role("admin") {
        None
    } else {
        Some(owned(ADMIN_ONLY))
    }
}

/// A hex digit written and read back is itself.
proof fn lemma_hex_digit(d: int)
    requires
        0 <= d < 16,
    ensures
        crate::plugins::sbregistry::is_hex(crate::text::hex_digit(d)),
        hex_value(crate::text::hex_digit(d)) == d,
        crate::text::hex_digit(d) != '+',
{
    if d < 10 {
        assert(((48 + d) as char) as int == 48 + d);
    } else {
        assert(((87 + d) as char) as int == 87 + d);
    }
}

/// Hex as it is written, read back: the digits are hex digits, there is
/// at least one, and their value is the number.
proof fn lemma_hex_read_back(n: nat)
    ensures
        crate::text::hex(n).len() > 0,
        hex_digits(crate::text::hex(n)),
        hex_number(crate::text::hex(n)) == n,
        crate::text::hex(n)[0] != '+',
    decreases n,
{
    let h = crate::text::hex(n);
    if n < 16 {
        lemma_hex_digit(n as int);
        assert(h == seq![crate::text::hex_digit(n as int)]);
        assert(h.drop_last() =~= Seq::<char>::empty());
        assert(hex_number(h.drop_last()) == 0);
        assert(h.last() == crate::text::hex_digit(n as int));
        assert(hex_number(h) == n);
    } else {
        lemma_hex_read_back(n / 16);
        lemma_hex_digit((n % 16) as int);
        let p = crate::text::hex(n / 16);
        assert(h == p.push(crate::text::hex_digit((n % 16) as int)));
        assert(h.drop_last() =~= p);
        assert forall|i: int| 0 <= i < h.len() implies crate::plugins::sbregistry::is_hex(#[trigger] h[i]) by {
            if i < p.len() {
                assert(h[i] == p[i]);
            }
        }
        assert(h[0] == p[0]);
        assert(h.last() == crate::text::hex_digit((n % 16) as int));
        assert(n == (n / 16) * 16 + n % 16);
        assert(hex_number(h) == hex_number(p) * 16 + hex_value(h.last()));
    }
}

/// An id is shown in hex, and a disarm is sent with the integer etcd keeps:
/// for every member id, disarming the member as it is shown asks etcd for
/// that same member.
pub proof fn law_member_id_round_trip(n: u64)
    ensures
        disarm_member_spec(crate::text::hex(n as nat)) == Ok::<Seq<char>, Seq<char>>(crate::text::decimal(n as nat)),
{
    lemma_hex_read_back(n as nat);
}

} // verus!
