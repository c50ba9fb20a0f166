//! etcd's v3 JSON gateway: `POST /v3/…` on the client port.
//!
//! Keys and values are base64 and 64-bit integers arrive as strings, per
//! protobuf's JSON mapping; the readers here take either, and either
//! spelling of a field name, because grpc-gateway's naming has changed
//! between etcd releases.

use base64::Engine;
use vstd::prelude::*;
use vstd::string::StringSliceAdditionalSpecFns;
use crate::json::{Json, key_views};
use crate::text::{hex, hex_string, owned, parse_u64, parse_u64_str, str_eq};

verus! {

/// The standard base64 alphabet.
pub open spec fn b64_char(i: int) -> char {
    if i < 26 { (65 + i) as char }
    else if i < 52 { (97 + i - 26) as char }
    else if i < 62 { (48 + i - 52) as char }
    else if i == 62 { '+' }
    else { '/' }
}

/// Standard base64 with padding.
pub open spec fn b64(b: Seq<u8>) -> Seq<char>
    decreases b.len(),
{
    if b.len() == 0 {
        Seq::empty()
    } else if b.len() == 1 {
        seq![b64_char(b[0] as int / 4), b64_char((b[0] as int % 4) * 16), '=', '=']
    } else if b.len() == 2 {
        seq![b64_char(b[0] as int / 4), b64_char((b[0] as int % 4) * 16 + b[1] as int / 16), b64_char((b[1] as int % 16) * 4), '=']
    } else {
        seq![
            b64_char(b[0] as int / 4),
            b64_char((b[0] as int % 4) * 16 + b[1] as int / 16),
            b64_char((b[1] as int % 16) * 4 + b[2] as int / 64),
            b64_char(b[2] as int % 64),
        ] + b64(b.skip(3))
    }
}

/// The bytes whose padded standard base64 is `s`, if there are any: the
/// base64 crate's standard engine decodes exactly such text, since it asks
/// for canonical padding and zero trailing bits.
pub closed spec fn b64_decoded(s: Seq<char>) -> Option<Seq<u8>> {
    if exists|b: Seq<u8>| b64(b) == s {
        Some(choose|b: Seq<u8>| b64(b) == s)
    } else {
        None
    }
}

proof fn lemma_b64_char_injective(x: int, y: int)
    requires
        0 <= x < 64,
        0 <= y < 64,
        b64_char(x) == b64_char(y),
    ensures
        x == y,
{
    assert(b64_char(x) as int == b64_char(y) as int);
}

proof fn lemma_b64_char_not_pad(x: int)
    requires
        0 <= x < 64,
    ensures
        b64_char(x) != '=',
{
    assert(b64_char(x) as int != '=' as int);
}

/// Base64 text names the bytes it came from: two inputs with the same
/// encoding are the same.
pub proof fn law_b64_injective(b: Seq<u8>, c: Seq<u8>)
    requires
        b64(b) == b64(c),
    ensures
        b == c,
    decreases b.len(), 1int,
{
    let sb = b64(b);
    let sc = b64(c);
    if b.len() == 0 || c.len() == 0 {
        assert(b.len() > 0 ==> sb.len() >= 4);
        assert(c.len() > 0 ==> sc.len() >= 4);
        assert(b =~= c);
    } else {
        lemma_b64_injective_nonempty(b, c);
    }
}

proof fn lemma_b64_injective_nonempty(b: Seq<u8>, c: Seq<u8>)
    requires
        b64(b) == b64(c),
        b.len() > 0,
        c.len() > 0,
    ensures
        b == c,
    decreases b.len(), 0int,
{
    let sb = b64(b);
    let sc = b64(c);
    let (b0, c0) = (b[0] as int, c[0] as int);
    assert(sb[0] == sc[0] && sb[1] == sc[1] && sb[2] == sc[2] && sb[3] == sc[3]);
    lemma_b64_char_injective(b0 / 4, c0 / 4);
    if b.len() == 1 {
        if c.len() >= 2 {
            lemma_b64_char_not_pad((c0 % 4) * 16 + c[1] as int / 16);
            lemma_b64_char_not_pad((c[1] as int % 16) * 4 + (if c.len() >= 3 { c[2] as int / 64 } else { 0 }));
            assert(sc[2] != '=');
        }
        lemma_b64_char_injective((b0 % 4) * 16, (c0 % 4) * 16);
        lemma_byte_from_groups(b0, 0, 0, c0, 0, 0);
        assert(b =~= c);
    } else if b.len() == 2 {
        let b1 = b[1] as int;
        lemma_b64_char_not_pad((b1 % 16) * 4);
        if c.len() >= 3 {
            lemma_b64_char_not_pad(c[2] as int % 64);
        }
        assert(c.len() == 2);
        let c1 = c[1] as int;
        lemma_b64_char_injective((b0 % 4) * 16 + b1 / 16, (c0 % 4) * 16 + c1 / 16);
        lemma_b64_char_injective((b1 % 16) * 4, (c1 % 16) * 4);
        lemma_byte_from_groups(b0, b1, 0, c0, c1, 0);
        assert(b =~= c);
    } else {
        let (b1, b2) = (b[1] as int, b[2] as int);
        lemma_b64_char_not_pad(b2 % 64);
        if c.len() == 1 {
            assert(sc[3] == '=');
        }
        if c.len() == 2 {
            assert(sc[3] == '=');
        }
        assert(c.len() >= 3);
        let (c1, c2) = (c[1] as int, c[2] as int);
        lemma_b64_char_injective((b0 % 4) * 16 + b1 / 16, (c0 % 4) * 16 + c1 / 16);
        lemma_b64_char_injective((b1 % 16) * 4 + b2 / 64, (c1 % 16) * 4 + c2 / 64);
        lemma_b64_char_injective(b2 % 64, c2 % 64);
        lemma_byte_from_groups(b0, b1, b2, c0, c1, c2);
        assert(b64(b.skip(3)) =~= sb.skip(4));
        assert(b64(c.skip(3)) =~= sc.skip(4));
        law_b64_injective(b.skip(3), c.skip(3));
        assert(b =~= b.take(3) + b.skip(3));
        assert(c =~= c.take(3) + c.skip(3));
        assert(b.take(3) =~= c.take(3));
    }
}

proof fn lemma_byte_from_groups(b0: int, b1: int, b2: int, c0: int, c1: int, c2: int)
    requires
        0 <= b0 < 256, 0 <= b1 < 256, 0 <= b2 < 256,
        0 <= c0 < 256, 0 <= c1 < 256, 0 <= c2 < 256,
        b0 / 4 == c0 / 4,
        (b0 % 4) * 16 + b1 / 16 == (c0 % 4) * 16 + c1 / 16,
        (b1 % 16) * 4 + b2 / 64 == (c1 % 16) * 4 + c2 / 64,
        b2 % 64 == c2 % 64,
    ensures
        b0 == c0,
        b1 == c1,
        b2 == c2,
{
}

/// What base64 encoding writes, decoding reads back.
pub proof fn law_b64_round_trip(b: Seq<u8>)
    ensures
        b64_decoded(b64(b)) == Some(b),
{
    let s = b64(b);
    assert(exists|x: Seq<u8>| b64(x) == s);
    let c = choose|x: Seq<u8>| b64(x) == s;
    law_b64_injective(c, b);
}

/// Some bytes, by their view.
pub open spec fn bytes_view(r: Option<Vec<u8>>) -> Option<Seq<u8>> {
    match r {
        Some(v) => Some(v@),
        None => None,
    }
}

/// `b64_decoded` of what `b64_decode` gave back.
pub(crate) proof fn lemma_b64_decoded_is(s: Seq<char>, r: Option<Seq<u8>>)
    requires
        match r {
            Some(v) => b64(v) == s,
            None => forall|b: Seq<u8>| #[trigger] b64(b) != s,
        },
    ensures
        b64_decoded(s) == r,
{
    if let Some(v) = r {
        let c = choose|b: Seq<u8>| b64(b) == s;
        law_b64_injective(c, v);
    }
}

/// `STANDARD.encode`: padded standard base64.
#[verifier::external_body]
fn b64_encode(b: &[u8]) -> (r: String)
    requires
        b@.len() <= usize::MAX / 2,
    ensures
        r@ == b64(b@),
{
    base64::engine::general_purpose::STANDARD.encode(b)
}

/// `STANDARD.decode`.
#[verifier::external_body]
pub(crate) fn b64_decode(s: &str) -> (r: Option<Vec<u8>>)
    ensures
        match r {
            Some(v) => b64(v@) == s@,
            None => forall|b: Seq<u8>| #[trigger] b64(b) != s@,
        },
{
    base64::engine::general_purpose::STANDARD.decode(s).ok()
}

/// What `String::from_utf8_lossy` makes of some bytes.
pub uninterp spec fn utf8_lossy(b: Seq<u8>) -> Seq<char>;

/// `String::from_utf8_lossy`: invalid sequences become U+FFFD.
#[verifier::external_body]
fn from_utf8_lossy(b: &[u8]) -> (r: String)
    ensures
        r@ == utf8_lossy(b@),
{
    String::from_utf8_lossy(b).into_owned()
}

/// The end of the range that holds every key with this prefix: the prefix
/// with its last byte incremented, carrying; a prefix of nothing but 0xff
/// (or none at all) runs to the end of the keyspace, `[0]`.
pub open spec fn prefix_end_spec(p: Seq<u8>) -> Seq<u8>
    decreases p.len(),
{
    if p.len() == 0 {
        seq![0u8]
    } else if p.last() < 0xff {
        p.drop_last().push((p.last() + 1) as u8)
    } else {
        prefix_end_spec(p.drop_last())
    }
}

pub fn prefix_end(prefix: &[u8]) -> (r: Vec<u8>)
    ensures
        r@ == prefix_end_spec(prefix@),
{
    let mut end: Vec<u8> = Vec::new();
    let mut i: usize = 0;
    while i < prefix.len()
        invariant
            i <= prefix@.len(),
            end@ == prefix@.take(i as int),
        decreases prefix@.len() - i,
    {
        end.push(prefix[i]);
        assert(prefix@.take(i + 1) == prefix@.take(i as int).push(prefix@[i as int]));
        i += 1;
    }
    assert(prefix@.take(i as int) == prefix@);
    while end.len() > 0
        invariant
            prefix_end_spec(end@) == prefix_end_spec(prefix@),
        decreases end@.len(),
    {
        let last = end.pop().unwrap();
        if last < 0xff {
            end.push(last + 1);
            return end;
        }
    }
    let mut z: Vec<u8> = Vec::new();
    z.push(0);
    z
}

/// `a` sorts strictly before `b`, byte by byte, as etcd orders keys.
pub open spec fn bytes_lt(a: Seq<u8>, b: Seq<u8>) -> bool {
    exists|k: int|
        0 <= k <= a.len() && k <= b.len() && #[trigger] a.take(k) == b.take(k) && (
        (k < a.len() && k < b.len() && a[k] < b[k]) || (k == a.len() && k < b.len()))
}

/// `key` begins with `p`.
pub open spec fn has_prefix(key: Seq<u8>, p: Seq<u8>) -> bool {
    p.len() <= key.len() && key.take(p.len() as int) == p
}

/// Nothing but 0xff (or nothing at all).
pub open spec fn all_ff(p: Seq<u8>) -> bool {
    forall|i: int| 0 <= i < p.len() ==> p[i] == 0xff
}

proof fn lemma_prefix_end_all_ff(p: Seq<u8>)
    requires
        all_ff(p),
    ensures
        prefix_end_spec(p) == seq![0u8],
    decreases p.len(),
{
    if p.len() > 0 {
        assert(p.last() == 0xff);
        lemma_prefix_end_all_ff(p.drop_last());
    }
}

/// Where the increment lands: the last byte below 0xff, after which there
/// is nothing but 0xff.
proof fn lemma_prefix_end_shape(p: Seq<u8>) -> (j: int)
    requires
        !all_ff(p),
    ensures
        0 <= j < p.len(),
        p[j] < 0xff,
        forall|i: int| j < i < p.len() ==> p[i] == 0xff,
        prefix_end_spec(p) == p.take(j).push((p[j] + 1) as u8),
    decreases p.len(),
{
    let n = p.len() as int;
    if p.last() < 0xff {
        assert(p.drop_last() =~= p.take(n - 1));
        n - 1
    } else {
        let q = p.drop_last();
        let w = choose|i: int| 0 <= i < p.len() && p[i] != 0xff;
        assert(q[w] == p[w]);
        let j = lemma_prefix_end_shape(q);
        assert(q.take(j) =~= p.take(j));
        assert forall|i: int| j < i < p.len() implies p[i] == 0xff by {
            if i < n - 1 {
                assert(q[i] == p[i]);
            }
        }
        j
    }
}

proof fn lemma_prefix_reaches(key: Seq<u8>, p: Seq<u8>, i: int)
    requires
        0 <= i <= p.len(),
        i <= key.len(),
        key.take(i) == p.take(i),
        forall|q: int| i <= q < p.len() ==> p[q] == 0xff,
        !bytes_lt(key, p),
    ensures
        has_prefix(key, p),
    decreases p.len() - i,
{
    if i == p.len() {
        assert(p.take(i) =~= p);
    } else if i == key.len() {
        assert(key.take(i) =~= key);
        assert(key.take(i) == p.take(i));
        assert(bytes_lt(key, p));
    } else if key[i] < 0xff {
        assert(key.take(i) == p.take(i));
        assert(bytes_lt(key, p));
    } else {
        assert(key.take(i + 1) =~= key.take(i).push(key[i]));
        assert(p.take(i + 1) =~= p.take(i).push(p[i]));
        lemma_prefix_reaches(key, p, i + 1);
    }
}

/// The range that `prefix_end` closes holds exactly the keys under the
/// prefix: a key begins with `p` when it sorts at or after `p` and before
/// `prefix_end(p)`. A prefix of nothing but 0xff, or none, has no such
/// bound, and its range runs to the end of the keyspace (`[0]`, in etcd's
/// convention).
pub proof fn law_prefix_range(p: Seq<u8>, key: Seq<u8>)
    ensures
        all_ff(p) ==> prefix_end_spec(p) == seq![0u8],
        !all_ff(p) ==> (has_prefix(key, p) <==> (!bytes_lt(key, p) && bytes_lt(key, prefix_end_spec(p)))),
{
    if all_ff(p) {
        lemma_prefix_end_all_ff(p);
    } else {
        let j = lemma_prefix_end_shape(p);
        let e = prefix_end_spec(p);
        assert(e.len() == j + 1);
        assert(e.take(j) =~= p.take(j));
        if has_prefix(key, p) {
            assert forall|t: int| 0 <= t < p.len() implies key[t] == p[t] by {
                assert(key.take(p.len() as int)[t] == key[t]);
            }
            if bytes_lt(key, p) {
                let t = choose|k: int|
                    0 <= k <= key.len() && k <= p.len() && #[trigger] key.take(k) == p.take(k) && (
                    (k < key.len() && k < p.len() && key[k] < p[k]) || (k == key.len() && k < p.len()));
                assert(false);
            }
            assert(key.take(j) =~= p.take(j));
            assert(key.take(j) == e.take(j));
            assert(key[j] < e[j]);
            assert(bytes_lt(key, e));
        }
        if !bytes_lt(key, p) && bytes_lt(key, e) {
            let t = choose|k: int|
                0 <= k <= key.len() && k <= e.len() && #[trigger] key.take(k) == e.take(k) && (
                (k < key.len() && k < e.len() && key[k] < e[k]) || (k == key.len() && k < e.len()));
            assert(t <= j);
            assert(e.take(t) =~= p.take(t));
            if t < j {
                assert(e[t] == p[t]);
                assert(key.take(t) == p.take(t));
                assert(bytes_lt(key, p));
            } else {
                if t == key.len() {
                    assert(key.take(t) == p.take(t));
                    assert(bytes_lt(key, p));
                } else {
                    if key[j] < p[j] {
                        assert(key.take(t) == p.take(t));
                        assert(bytes_lt(key, p));
                    }
                    assert(key[j] == p[j]);
                    assert(key.take(j + 1) =~= key.take(j).push(key[j]));
                    assert(p.take(j + 1) =~= p.take(j).push(p[j]));
                    lemma_prefix_reaches(key, p, j + 1);
                }
            }
        }
    }
}

/// A 64-bit integer under the first of `keys` present: a JSON string
/// (protobuf's mapping) that parses, or a number that is one.
pub open spec fn num_spec(v: Json, keys: Seq<Seq<char>>) -> Option<u64>
    decreases keys.len(),
{
    if keys.len() == 0 {
        None
    } else {
        match v.member(keys[0]) {
            Some(Json::Str(s)) => match parse_u64(s@) {
                Some(n) => Some(n),
                None => num_spec(v, keys.drop_first()),
            },
            Some(Json::Num(n)) => match n.as_u64 {
                Some(x) => Some(x),
                None => num_spec(v, keys.drop_first()),
            },
            _ => num_spec(v, keys.drop_first()),
        }
    }
}

/// A 64-bit integer, as a JSON string or number, under the first key that
/// holds one.
pub fn num(v: &Json, keys: &[&str]) -> (r: Option<u64>)
    ensures
        r == num_spec(*v, key_views(keys@)),
{
    let ghost ks = key_views(keys@);
    let mut i: usize = 0;
    assert(ks.skip(0) == ks);
    while i < keys.len()
        invariant
            i <= keys@.len(),
            ks == key_views(keys@),
            num_spec(*v, ks) == num_spec(*v, ks.skip(i as int)),
        decreases keys@.len() - i,
    {
        assert(ks.skip(i as int)[0] == keys@[i as int]@);
        assert(ks.skip(i as int).drop_first() == ks.skip(i + 1));
        match v.get(keys[i]) {
            Some(Json::Str(s)) => {
                match parse_u64_str(s.as_str()) {
                    Some(n) => {
                        return Some(n);
                    },
                    None => {},
                }
            },
            Some(Json::Num(n)) => {
                match n.as_u64 {
                    Some(x) => {
                        return Some(x);
                    },
                    None => {},
                }
            },
            _ => {},
        }
        i += 1;
    }
    None
}

pub open spec fn id_spec(v: Json, keys: Seq<Seq<char>>) -> Seq<char> {
    match num_spec(v, keys) {
        Some(n) => hex(n as nat),
        None => Seq::empty(),
    }
}

/// A member or cluster id, printed the way `etcdctl` prints them: hex.
pub fn id(v: &Json, keys: &[&str]) -> (r: String)
    ensures
        r@ == id_spec(*v, key_views(keys@)),
{
    match num(v, keys) {
        Some(n) => hex_string(n),
        None => String::new(),
    }
}

/// The strings in an array, in order; other elements are skipped.
pub open spec fn strs_of(a: Seq<Json>) -> Seq<Seq<char>>
    decreases a.len(),
{
    if a.len() == 0 {
        Seq::empty()
    } else {
        let rest = strs_of(a.drop_last());
        match a.last() {
            Json::Str(s) => rest.push(s@),
            _ => rest,
        }
    }
}

pub open spec fn string_views(v: Seq<String>) -> Seq<Seq<char>> {
    v.map_values(|s: String| s@)
}

/// The strings of an array, in order.
pub fn strings_of(a: &Vec<Json>) -> (r: Vec<String>)
    ensures
        string_views(r@) == strs_of(a@),
{
    let mut out: Vec<String> = Vec::new();
    let mut i: usize = 0;
    while i < a.len()
        invariant
            i <= a@.len(),
            string_views(out@) == strs_of(a@.take(i as int)),
        decreases a@.len() - i,
    {
        assert(a@.take(i + 1).drop_last() == a@.take(i as int));
        assert(a@.take(i + 1).last() == a@[i as int]);
        match &a[i] {
            Json::Str(s) => {
                out.push(s.clone());
                assert(string_views(out@) == string_views(out@.drop_last()).push(s@));
            },
            _ => {},
        }
        i += 1;
    }
    assert(a@.take(i as int) == a@);
    out
}

/// The strings of the array under `key`, or none.
pub open spec fn strs_under(v: Json, key: Seq<char>) -> Seq<Seq<char>> {
    match v.member(key) {
        Some(Json::Arr(a)) => strs_of(a@),
        _ => Seq::empty(),
    }
}

/// The first of two spellings present, as a boolean; `false` when that
/// one is not a boolean or neither is there.
pub open spec fn flag_spec(v: Json, a: Seq<char>, b: Seq<char>) -> bool {
    match v.member(a) {
        Some(x) => x.bool_of() == Some(true),
        None => match v.member(b) {
            Some(x) => x.bool_of() == Some(true),
            None => false,
        },
    }
}

fn flag(v: &Json, a: &str, b: &str) -> (r: bool)
    ensures
        r == flag_spec(*v, a@, b@),
{
    let x = match v.get(a) {
        Some(x) => Some(x),
        None => v.get(b),
    };
    match x {
        Some(x) => x.as_bool() == Some(true),
        None => false,
    }
}

/// A member's text, or empty.
pub open spec fn text_of(v: Json, key: Seq<char>) -> Seq<char> {
    match v.member(key) {
        Some(Json::Str(s)) => s@,
        _ => Seq::empty(),
    }
}

pub fn text(v: &Json, key: &str) -> (r: String)
    ensures
        r@ == text_of(*v, key@),
{
    match v.get(key) {
        Some(Json::Str(s)) => s.clone(),
        _ => String::new(),
    }
}

pub open spec fn or_zero(n: Option<u64>) -> u64 {
    match n {
        Some(x) => x,
        None => 0,
    }
}

pub open spec fn keys2(a: Seq<char>, b: Seq<char>) -> Seq<Seq<char>> {
    seq![a, b]
}

pub open spec fn keys1(a: Seq<char>) -> Seq<Seq<char>> {
    seq![a]
}

pub fn num1(v: &Json, a: &str) -> (r: Option<u64>)
    ensures
        r == num_spec(*v, keys1(a@)),
{
    let k: [&str; 1] = [a];
    let ks: &[&str] = &k;
    assert(key_views(ks@) =~= keys1(a@));
    num(v, ks)
}

pub fn num2(v: &Json, a: &str, b: &str) -> (r: Option<u64>)
    ensures
        r == num_spec(*v, keys2(a@, b@)),
{
    let k: [&str; 2] = [a, b];
    let ks: &[&str] = &k;
    assert(key_views(ks@) =~= keys2(a@, b@));
    num(v, ks)
}

pub fn id1(v: &Json, a: &str) -> (r: String)
    ensures
        r@ == id_spec(*v, keys1(a@)),
{
    match num1(v, a) {
        Some(n) => hex_string(n),
        None => String::new(),
    }
}

pub fn id2(v: &Json, a: &str, b: &str) -> (r: String)
    ensures
        r@ == id_spec(*v, keys2(a@, b@)),
{
    match num2(v, a, b) {
        Some(n) => hex_string(n),
        None => String::new(),
    }
}

/// `maintenance/status`, in etcd's own shape.
#[derive(Debug, Clone, PartialEq)]
pub struct Status {
    pub member_id: String,
    pub cluster_id: String,
    pub leader: String,
    pub version: String,
    pub revision: u64,
    pub raft_term: u64,
    pub raft_index: u64,
    pub raft_applied_index: u64,
    pub db_size: u64,
    pub db_size_in_use: u64,
    pub is_learner: bool,
    pub errors: Vec<String>,
}

impl Status {
    /// The header, or null.
    pub open spec fn header(v: Json) -> Json {
        match v.member("header"@) {
            Some(h) => h,
            None => Json::Null,
        }
    }

    pub fn from_json(v: &Json) -> (s: Status)
        ensures
            s.member_id@ == id_spec(Status::header(*v), keys2("member_id"@, "memberId"@)),
            s.cluster_id@ == id_spec(Status::header(*v), keys2("cluster_id"@, "clusterId"@)),
            s.leader@ == id_spec(*v, keys1("leader"@)),
            s.version@ == text_of(*v, "version"@),
            s.revision == or_zero(num_spec(Status::header(*v), keys1("revision"@))),
            s.raft_term == (match num_spec(*v, keys2("raftTerm"@, "raft_term"@)) {
                Some(n) => n,
                None => or_zero(num_spec(Status::header(*v), keys2("raft_term"@, "raftTerm"@))),
            }),
            s.raft_index == or_zero(num_spec(*v, keys2("raftIndex"@, "raft_index"@))),
            s.raft_applied_index == or_zero(num_spec(*v, keys2("raftAppliedIndex"@, "raft_applied_index"@))),
            s.db_size == or_zero(num_spec(*v, keys2("dbSize"@, "db_size"@))),
            s.db_size_in_use == or_zero(num_spec(*v, keys2("dbSizeInUse"@, "db_size_in_use"@))),
            s.is_learner == flag_spec(*v, "isLearner"@, "is_learner"@),
            string_views(s.errors@) == strs_under(*v, "errors"@),
    {
        let null = Json::Null;
        let h: &Json = match v.get("header") {
            Some(h) => h,
            None => &null,
        };
        assert(*h == Status::header(*v));
        let member_id = id2(h, "member_id", "memberId");
        let cluster_id = id2(h, "cluster_id", "clusterId");
        let leader = id1(v, "leader");
        let raft_term = match num2(v, "raftTerm", "raft_term") {
            Some(n) => n,
            None => match num2(h, "raft_term", "raftTerm") {
                Some(n) => n,
                None => 0,
            },
        };
        let errors = match v.get("errors") {
            Some(Json::Arr(a)) => strings_of(a),
            _ => Vec::new(),
        };
        let zero = |n: Option<u64>| -> (r: u64)
            ensures
                r == or_zero(n),
            {
                match n {
                    Some(x) => x,
                    None => 0,
                }
            };
        Status {
            member_id,
            cluster_id,
            leader,
            version: text(v, "version"),
            revision: zero(num1(h, "revision")),
            raft_term,
            raft_index: zero(num2(v, "raftIndex", "raft_index")),
            raft_applied_index: zero(num2(v, "raftAppliedIndex", "raft_applied_index")),
            db_size: zero(num2(v, "dbSize", "db_size")),
            db_size_in_use: zero(num2(v, "dbSizeInUse", "db_size_in_use")),
            is_learner: flag(v, "isLearner", "is_learner"),
            errors,
        }
    }
}

/// The first of `keys` whose member is an array: its strings.
pub open spec fn urls_spec(v: Json, keys: Seq<Seq<char>>) -> Seq<Seq<char>>
    decreases keys.len(),
{
    if keys.len() == 0 {
        Seq::empty()
    } else {
        match v.member(keys[0]) {
            Some(Json::Arr(a)) => strs_of(a@),
            _ => urls_spec(v, keys.drop_first()),
        }
    }
}

pub open spec fn keys3(a: Seq<char>, b: Seq<char>, c: Seq<char>) -> Seq<Seq<char>> {
    seq![a, b, c]
}

fn urls3(v: &Json, a: &str, b: &str, c: &str) -> (r: Vec<String>)
    ensures
        string_views(r@) == urls_spec(*v, keys3(a@, b@, c@)),
{
    proof {
        reveal_with_fuel(urls_spec, 4);
    }
    match v.get(a) {
        Some(Json::Arr(x)) => {
            return strings_of(x);
        },
        _ => {},
    }
    match v.get(b) {
        Some(Json::Arr(x)) => {
            return strings_of(x);
        },
        _ => {},
    }
    match v.get(c) {
        Some(Json::Arr(x)) => {
            return strings_of(x);
        },
        _ => {},
    }
    let r: Vec<String> = Vec::new();
    assert(string_views(r@) =~= Seq::<Seq<char>>::empty());
    r
}

/// One cluster member.
#[derive(Debug, Clone, PartialEq)]
pub struct Member {
    pub id: String,
    pub name: String,
    pub peer_urls: Vec<String>,
    pub client_urls: Vec<String>,
    pub is_learner: bool,
}

impl Member {
    pub fn from_json(v: &Json) -> (m: Member)
        ensures
            m.id@ == id_spec(*v, keys2("ID"@, "id"@)),
            m.name@ == text_of(*v, "name"@),
            string_views(m.peer_urls@) == urls_spec(*v, keys3("peerURLs"@, "peer_urls"@, "peerUrls"@)),
            string_views(m.client_urls@) == urls_spec(*v, keys3("clientURLs"@, "client_urls"@, "clientUrls"@)),
            m.is_learner == flag_spec(*v, "isLearner"@, "is_learner"@),
    {
        Member {
            id: id2(v, "ID", "id"),
            name: text(v, "name"),
            peer_urls: urls3(v, "peerURLs", "peer_urls", "peerUrls"),
            client_urls: urls3(v, "clientURLs", "client_urls", "clientUrls"),
            is_learner: flag(v, "isLearner", "is_learner"),
        }
    }
}

pub open spec fn array_under(v: Json, key: Seq<char>) -> Seq<Json> {
    match v.member(key) {
        Some(Json::Arr(a)) => a@,
        _ => Seq::empty(),
    }
}

/// A member as read from one element of `members`.
pub open spec fn member_read(m: Member, e: Json) -> bool {
    &&& m.id@ == id_spec(e, keys2("ID"@, "id"@))
    &&& m.name@ == text_of(e, "name"@)
    &&& string_views(m.peer_urls@) == urls_spec(e, keys3("peerURLs"@, "peer_urls"@, "peerUrls"@))
    &&& string_views(m.client_urls@) == urls_spec(e, keys3("clientURLs"@, "client_urls"@, "clientUrls"@))
    &&& m.is_learner == flag_spec(e, "isLearner"@, "is_learner"@)
}

/// Every member a `cluster/member/list` answer lists.
pub fn members_from(v: &Json) -> (r: Vec<Member>)
    ensures
        r@.len() == array_under(*v, "members"@).len(),
        forall|i: int| 0 <= i < r@.len() ==> #[trigger] r@[i].id@ == id_spec(array_under(*v, "members"@)[i], keys2("ID"@, "id"@))
            && r@[i].name@ == text_of(array_under(*v, "members"@)[i], "name"@)
            && string_views(r@[i].peer_urls@) == urls_spec(array_under(*v, "members"@)[i], keys3("peerURLs"@, "peer_urls"@, "peerUrls"@))
            && string_views(r@[i].client_urls@) == urls_spec(array_under(*v, "members"@)[i], keys3("clientURLs"@, "client_urls"@, "clientUrls"@))
            && r@[i].is_learner == flag_spec(array_under(*v, "members"@)[i], "isLearner"@, "is_learner"@),
{
    let mut out: Vec<Member> = Vec::new();
    match v.get("members") {
        Some(Json::Arr(a)) => {
            let mut i: usize = 0;
            while i < a.len()
                invariant
                    i <= a@.len(),
                    a@ == array_under(*v, "members"@),
                    out@.len() == i,
                    forall|j: int| 0 <= j < i ==> member_read(#[trigger] out@[j], a@[j]),
                decreases a@.len() - i,
            {
                let m = Member::from_json(&a[i]);
                assert(member_read(m, a@[i as int]));
                out.push(m);
                i += 1;
            }
        },
        _ => {},
    }
    out
}

/// An alarm raised on a member.
#[derive(Debug, Clone, PartialEq)]
pub struct Alarm {
    pub member_id: String,
    pub alarm: String,
}

pub open spec fn alarm_name(x: Json) -> Seq<char> {
    match x.member("alarm"@) {
        Some(Json::Str(s)) => s@,
        _ => "NONE"@,
    }
}

/// The alarms an alarm listing holds, without etcd's `NONE` entries.
pub open spec fn alarms_spec(a: Seq<Json>) -> Seq<(Seq<char>, Seq<char>)>
    decreases a.len(),
{
    if a.len() == 0 {
        Seq::empty()
    } else {
        let rest = alarms_spec(a.drop_last());
        let x = a.last();
        if alarm_name(x) == "NONE"@ {
            rest
        } else {
            rest.push((id_spec(x, keys3("memberID"@, "member_id"@, "memberId"@)), alarm_name(x)))
        }
    }
}

pub open spec fn alarm_views(v: Seq<Alarm>) -> Seq<(Seq<char>, Seq<char>)> {
    v.map_values(|a: Alarm| (a.member_id@, a.alarm@))
}

fn id3(v: &Json, a: &str, b: &str, c: &str) -> (r: String)
    ensures
        r@ == id_spec(*v, keys3(a@, b@, c@)),
{
    let k: [&str; 3] = [a, b, c];
    let ks: &[&str] = &k;
    assert(key_views(ks@) =~= keys3(a@, b@, c@));
    id(v, ks)
}

/// The raised alarms in a `maintenance/alarm` answer.
pub fn alarms_from(v: &Json) -> (r: Vec<Alarm>)
    ensures
        alarm_views(r@) == alarms_spec(array_under(*v, "alarms"@)),
{
    let mut out: Vec<Alarm> = Vec::new();
    match v.get("alarms") {
        Some(Json::Arr(a)) => {
            let mut i: usize = 0;
            while i < a.len()
                invariant
                    i <= a@.len(),
                    a@ == array_under(*v, "alarms"@),
                    alarm_views(out@) == alarms_spec(a@.take(i as int)),
                decreases a@.len() - i,
            {
                let x = &a[i];
                let name = match x.get("alarm") {
                    Some(Json::Str(s)) => s.clone(),
                    _ => owned("NONE"),
                };
                assert(a@.take(i + 1).drop_last() == a@.take(i as int));
                assert(a@.take(i + 1).last() == *x);
                if !str_eq(name.as_str(), "NONE") {
                    let member_id = id3(x, "memberID", "member_id", "memberId");
                    out.push(Alarm { member_id, alarm: name });
                    assert(alarm_views(out@) == alarm_views(out@.drop_last()).push((member_id@, name@)));
                }
                i += 1;
            }
            assert(a@.take(i as int) == a@);
        },
        _ => {
            assert(alarm_views(out@) =~= Seq::<(Seq<char>, Seq<char>)>::empty());
        },
    }
    out
}

/// The bytes under `key`, base64-decoded, when it holds valid base64.
pub open spec fn bytes_spec(v: Json, key: Seq<char>) -> Option<Seq<u8>> {
    match v.member(key) {
        Some(Json::Str(s)) => b64_decoded(s@),
        _ => None,
    }
}

fn bytes(v: &Json, key: &str) -> (r: Option<Vec<u8>>)
    ensures
        match (r, bytes_spec(*v, key@)) {
            (Some(a), Some(b)) => a@ == b,
            (None, None) => true,
            _ => false,
        },
{
    match v.get(key) {
        Some(Json::Str(s)) => {
            let r = b64_decode(s.as_str());
            proof {
                lemma_b64_decoded_is(s@, bytes_view(r));
            }
            r
        },
        _ => None,
    }
}

/// A key listing: at most the limit of keys, and how many there are.
pub struct Keys {
    pub keys: Vec<String>,
    /// How many keys are in the range, which is more than `keys` when
    /// `more` is set.
    pub count: u64,
    pub more: bool,
}

/// The keys of a range answer, as text; a key that is not base64 is left
/// out.
pub open spec fn keys_spec(kvs: Seq<Json>) -> Seq<Seq<char>>
    decreases kvs.len(),
{
    if kvs.len() == 0 {
        Seq::empty()
    } else {
        let rest = keys_spec(kvs.drop_last());
        match bytes_spec(kvs.last(), "key"@) {
            Some(b) => rest.push(utf8_lossy(b)),
            None => rest,
        }
    }
}

pub fn keys_from(v: &Json) -> (k: Keys)
    ensures
        string_views(k.keys@) == keys_spec(array_under(*v, "kvs"@)),
        k.count == or_zero(num_spec(*v, keys1("count"@))),
        k.more == (match v.member("more"@) { Some(x) => x.bool_of() == Some(true), None => false }),
{
    let mut keys: Vec<String> = Vec::new();
    match v.get("kvs") {
        Some(Json::Arr(a)) => {
            let mut i: usize = 0;
            while i < a.len()
                invariant
                    i <= a@.len(),
                    a@ == array_under(*v, "kvs"@),
                    string_views(keys@) == keys_spec(a@.take(i as int)),
                decreases a@.len() - i,
            {
                assert(a@.take(i + 1).drop_last() == a@.take(i as int));
                assert(a@.take(i + 1).last() == a@[i as int]);
                match bytes(&a[i], "key") {
                    Some(b) => {
                        let k = from_utf8_lossy(b.as_slice());
                        keys.push(k);
                        assert(string_views(keys@) == string_views(keys@.drop_last()).push(k@));
                    },
                    None => {},
                }
                i += 1;
            }
            assert(a@.take(i as int) == a@);
        },
        _ => {
            assert(string_views(keys@) =~= Seq::<Seq<char>>::empty());
        },
    }
    let count = match num1(v, "count") {
        Some(n) => n,
        None => 0,
    };
    let more = match v.get("more") {
        Some(x) => x.as_bool() == Some(true),
        None => false,
    };
    Keys { keys, count, more }
}

/// One key, whole.
pub struct Kv {
    pub key: String,
    pub value: Vec<u8>,
    pub create_revision: u64,
    pub mod_revision: u64,
    pub version: u64,
    pub lease: u64,
}

/// The first entry of a range answer for `key`.
pub fn kv_from(v: &Json, key: &str) -> (r: Option<Kv>)
    ensures
        (array_under(*v, "kvs"@).len() == 0) == r is None,
        r matches Some(kv) ==> {
            let e = array_under(*v, "kvs"@)[0];
            &&& kv.key@ == key@
            &&& kv.value@ == (match bytes_spec(e, "value"@) { Some(b) => b, None => Seq::<u8>::empty() })
            &&& kv.create_revision == or_zero(num_spec(e, keys2("create_revision"@, "createRevision"@)))
            &&& kv.mod_revision == or_zero(num_spec(e, keys2("mod_revision"@, "modRevision"@)))
            &&& kv.version == or_zero(num_spec(e, keys1("version"@)))
            &&& kv.lease == or_zero(num_spec(e, keys1("lease"@)))
        },
{
    let e = match v.get("kvs") {
        Some(Json::Arr(a)) => {
            if a.len() == 0 {
                return None;
            }
            &a[0]
        },
        _ => {
            return None;
        },
    };
    let zero = |n: Option<u64>| -> (r: u64)
        ensures
            r == or_zero(n),
        {
            match n {
                Some(x) => x,
                None => 0,
            }
        };
    Some(Kv {
        key: owned(key),
        value: match bytes(e, "value") {
            Some(b) => b,
            None => Vec::new(),
        },
        create_revision: zero(num2(e, "create_revision", "createRevision")),
        mod_revision: zero(num2(e, "mod_revision", "modRevision")),
        version: zero(num1(e, "version")),
        lease: zero(num1(e, "lease")),
    })
}

/// A JSON string member.
pub open spec fn is_str_member(m: (String, Json), key: Seq<char>, val: Seq<char>) -> bool {
    m.0@ == key && (m.1 matches Json::Str(s) && s@ == val)
}

/// A JSON boolean member.
pub open spec fn is_bool_member(m: (String, Json), key: Seq<char>, val: bool) -> bool {
    m.0@ == key && m.1 == Json::Bool(val)
}

fn str_member(key: &str, val: String) -> (m: (String, Json))
    ensures
        is_str_member(m, key@, val@),
{
    (owned(key), Json::Str(val))
}

/// The empty request body most gateway calls send.
pub fn empty_request() -> (r: Json)
    ensures
        r matches Json::Obj(m) && m@.len() == 0,
{
    Json::Obj(Vec::new())
}

/// `{"action": "GET"}`: list the alarms.
pub fn alarm_list_request() -> (r: Json)
    ensures
        r matches Json::Obj(m) && m@.len() == 1 && is_str_member(m@[0], "action"@, "GET"@),
{
    let mut m: Vec<(String, Json)> = Vec::new();
    m.push(str_member("action", owned("GET")));
    Json::Obj(m)
}

/// Clear one member's alarm.
pub fn disarm_request(member_id: &str, alarm: &str) -> (r: Json)
    ensures
        r matches Json::Obj(m) && m@.len() == 3 && is_str_member(m@[0], "action"@, "DEACTIVATE"@)
            && is_str_member(m@[1], "memberID"@, member_id@) && is_str_member(m@[2], "alarm"@, alarm@),
{
    let mut m: Vec<(String, Json)> = Vec::new();
    m.push(str_member("action", owned("DEACTIVATE")));
    m.push(str_member("memberID", owned(member_id)));
    m.push(str_member("alarm", owned(alarm)));
    Json::Obj(m)
}

/// Compact up to a revision, physically.
pub fn compact_request(revision: u64) -> (r: Json)
    ensures
        r matches Json::Obj(m) && m@.len() == 2 && is_str_member(m@[0], "revision"@, crate::text::decimal(revision as nat))
            && is_bool_member(m@[1], "physical"@, true),
{
    let mut m: Vec<(String, Json)> = Vec::new();
    m.push(str_member("revision", crate::text::decimal_string(revision)));
    m.push((owned("physical"), Json::Bool(true)));
    Json::Obj(m)
}

/// Every key under `prefix`, keys only, at most `limit`.
pub fn range_keys_request(prefix: &str, limit: u64) -> (r: Json)
    requires
        prefix.spec_bytes().len() < usize::MAX / 2,
    ensures
        r matches Json::Obj(m) && m@.len() == 4
            && is_str_member(m@[0], "key"@, b64(prefix.spec_bytes()))
            && is_str_member(m@[1], "range_end"@, b64(prefix_end_spec(prefix.spec_bytes())))
            && is_bool_member(m@[2], "keys_only"@, true)
            && is_str_member(m@[3], "limit"@, crate::text::decimal(limit as nat)),
{
    let b = prefix.as_bytes();
    let end = prefix_end(b);
    proof {
        lemma_prefix_end_len(b@);
    }
    let mut m: Vec<(String, Json)> = Vec::new();
    m.push(str_member("key", b64_encode(b)));
    m.push(str_member("range_end", b64_encode(end.as_slice())));
    m.push((owned("keys_only"), Json::Bool(true)));
    m.push(str_member("limit", crate::text::decimal_string(limit)));
    Json::Obj(m)
}

proof fn lemma_prefix_end_len(p: Seq<u8>)
    ensures
        prefix_end_spec(p).len() <= p.len() + 1,
    decreases p.len(),
{
    if p.len() > 0 && p.last() == 0xff {
        lemma_prefix_end_len(p.drop_last());
    }
}

/// One key, whole.
pub fn range_get_request(key: &str) -> (r: Json)
    requires
        key.spec_bytes().len() <= usize::MAX / 2,
    ensures
        r matches Json::Obj(m) && m@.len() == 1 && is_str_member(m@[0], "key"@, b64(key.spec_bytes())),
{
    let mut m: Vec<(String, Json)> = Vec::new();
    m.push(str_member("key", b64_encode(key.as_bytes())));
    Json::Obj(m)
}

/// Why a gateway call did not answer.
#[derive(Debug)]
pub enum Error {
    /// The server is there and does not serve `/v3/`.
    NotServed(String),
    /// It is not there at all, or it answered with a failure.
    Failed(String),
}

pub open spec fn responded(path: Seq<char>, status: Seq<char>) -> Seq<char> {
    path + " responded "@ + status
}

/// The failure text a body carries: `message`, else `error`.
pub open spec fn failure_text(v: Json) -> Seq<char> {
    let m = match v.member("message"@) {
        Some(x) => Some(x),
        None => v.member("error"@),
    };
    match m {
        Some(Json::Str(s)) => s@,
        _ => Seq::empty(),
    }
}

/// What a gateway answer means. 404 and 405 are "no such route", and so
/// is a 2xx whose body is not JSON; any other failure says what the
/// server said. `status` is the status line as printed ("404 Not Found");
/// `body` is the body when it parsed as JSON.
pub fn classify(path: &str, code: u16, status: &str, body: Option<Json>) -> (r: Result<Json, Error>)
    ensures
        code == 404 || code == 405 ==> (r matches Err(Error::NotServed(m)) && m@ == responded(path@, status@)),
        code != 404 && code != 405 && body is None && 200 <= code < 300 ==>
            (r matches Err(Error::NotServed(m)) && m@ == path@ + " did not answer JSON"@),
        code != 404 && code != 405 && body is None && !(200 <= code < 300) ==>
            (r matches Err(Error::Failed(m)) && m@ == responded(path@, status@)),
        code != 404 && code != 405 && body is Some && !(200 <= code < 300) ==>
            (r matches Err(Error::Failed(m)) && m@ == responded(path@, status@) + ": "@ + failure_text(body->0)),
        code != 404 && code != 405 && body is Some && 200 <= code < 300 ==> r == Ok::<Json, Error>(body->0),
{
    let success = 200 <= code && code < 300;
    if code == 404 || code == 405 {
        let mut m = owned(path);
        crate::text::push_str(&mut m, " responded ");
        crate::text::push_str(&mut m, status);
        return Err(Error::NotServed(m));
    }
    let v = match body {
        Some(v) => v,
        None => {
            let mut m = owned(path);
            if success {
                crate::text::push_str(&mut m, " did not answer JSON");
                return Err(Error::NotServed(m));
            }
            crate::text::push_str(&mut m, " responded ");
            crate::text::push_str(&mut m, status);
            return Err(Error::Failed(m));
        },
    };
    if !success {
        let found = match v.get("message") {
            Some(x) => Some(x),
            None => v.get("error"),
        };
        let text: &str = match found {
            Some(Json::Str(s)) => s.as_str(),
            _ => "",
        };
        proof {
            reveal_strlit("");
            let mm = match v.member("message"@) {
                Some(x) => Some(x),
                None => v.member("error"@),
            };
            assert(match (found, mm) {
                (Some(a), Some(b)) => *a == b,
                (None, None) => true,
                _ => false,
            });
            assert(text@ == failure_text(v));
        }
        let mut m = owned(path);
        crate::text::push_str(&mut m, " responded ");
        crate::text::push_str(&mut m, status);
        crate::text::push_str(&mut m, ": ");
        crate::text::push_str(&mut m, text);
        return Err(Error::Failed(m));
    }
    Ok(v)
}

} // verus!
