//! What a value in the keyspace is.
//!
//! rustkube writes objects as JSON; upstream Kubernetes writes most of them
//! as protobuf inside a four-byte `k8s\0` envelope. The envelope is a
//! `runtime.Unknown` whose first field names the type, which is the one
//! thing about a protobuf object that can be read without its schema. The
//! body is shown as what it is: bytes.

use vstd::prelude::*;
use vstd::utf8::{decode_utf8, valid_utf8};
use crate::json::{Json, json_parsed, parse_json};
use crate::text::{chars_of, decimal, hex_digit, is_whitespace, is_whitespace_exec, push_char, push_decimal, push_str, owned};

verus! {

/// How many bytes a hex preview shows.
pub const HEX_PREVIEW: usize = 256;

/// What one value is.
#[derive(Debug)]
pub struct Decoded {
    /// `json`, `protobuf`, `text` or `binary`.
    pub encoding: String,
    /// The object, for JSON.
    pub json: Option<Json>,
    /// The value as text, for text.
    pub text: Option<String>,
    /// `apiVersion` and `kind`, from JSON or from the protobuf envelope.
    pub api_version: Option<String>,
    pub kind: Option<String>,
    /// The first bytes as hex, for what cannot be shown any other way.
    pub hex: Option<String>,
    /// Why the value is not shown whole.
    pub note: String,
}

/// One byte as two lower-case hex digits.
pub open spec fn hex2(x: u8) -> Seq<char> {
    seq![hex_digit(x as int / 16), hex_digit(x as int % 16)]
}

/// Bytes as hex pairs separated by single spaces.
pub open spec fn hexes(b: Seq<u8>) -> Seq<char>
    decreases b.len(),
{
    if b.len() == 0 {
        Seq::empty()
    } else if b.len() == 1 {
        hex2(b[0])
    } else {
        hexes(b.drop_last()) + seq![' '] + hex2(b.last())
    }
}

/// The first 256 bytes as hex.
pub open spec fn hex_preview(b: Seq<u8>) -> Seq<char> {
    hexes(if b.len() > 256 { b.take(256) } else { b })
}

fn hex_of(b: &[u8]) -> (r: String)
    ensures
        r@ == hex_preview(b@),
{
    let n = if b.len() > HEX_PREVIEW { HEX_PREVIEW } else { b.len() };
    let ghost t = if b@.len() > 256 { b@.take(256) } else { b@ };
    let mut out = String::new();
    let mut i: usize = 0;
    while i < n
        invariant
            i <= n,
            n == t.len(),
            t == (if b@.len() > 256 { b@.take(256) } else { b@ }),
            out@ == hexes(t.take(i as int)),
        decreases n - i,
    {
        let x = b[i];
        assert(x == t[i as int]);
        if i > 0 {
            push_char(&mut out, ' ');
        }
        let hi = x / 16;
        let lo = x % 16;
        let c1: char = if hi < 10 { ((48 + hi) as u8) as char } else { ((87 + hi) as u8) as char };
        let c2: char = if lo < 10 { ((48 + lo) as u8) as char } else { ((87 + lo) as u8) as char };
        push_char(&mut out, c1);
        push_char(&mut out, c2);
        proof {
            assert(t.take(i + 1).drop_last() == t.take(i as int));
            assert(t.take(i + 1).last() == x);
            if i == 0 {
                assert(t.take(1).len() == 1);
            }
        }
        i += 1;
    }
    assert(t.take(n as int) == t);
    out
}

/// The accumulated value of the first `n` bytes of a varint.
pub open spec fn varint_acc(b: Seq<u8>, n: int) -> u64
    decreases n,
{
    if n <= 0 {
        0
    } else {
        varint_acc(b, n - 1) | (((b[n - 1] & 0x7f) as u64) << ((7 * (n - 1)) as u64))
    }
}

/// Where a varint ends: the first of the first ten bytes without the
/// continuation bit, counted from one.
pub open spec fn varint_stop(b: Seq<u8>) -> Option<int> {
    crate::text::first_at(if b.len() < 10 { b.len() as int } else { 10 }, |i: int| b[i] & 0x80 == 0)
}

/// A protobuf varint and how many bytes it took.
pub open spec fn varint_spec(b: Seq<u8>) -> Option<(u64, int)> {
    match varint_stop(b) {
        Some(i) => Some((varint_acc(b, i + 1), i + 1)),
        None => None,
    }
}

pub fn varint(b: &[u8]) -> (r: Option<(u64, usize)>)
    ensures
        match (r, varint_spec(b@)) {
            (Some((v, n)), Some((w, m))) => v == w && n as int == m && 1 <= n <= b@.len(),
            (None, None) => true,
            _ => false,
        },
{
    let lim: usize = if b.len() < 10 { b.len() } else { 10 };
    let mut v: u64 = 0;
    let mut i: usize = 0;
    while i < lim
        invariant
            i <= lim <= 10,
            lim <= b@.len(),
            lim == (if b@.len() < 10 { b@.len() as int } else { 10 }),
            v == varint_acc(b@, i as int),
            forall|j: int| 0 <= j < i ==> b@[j] & 0x80 != 0,
        decreases lim - i,
    {
        let byte = b[i];
        v = v | (((byte & 0x7f) as u64) << ((7 * i) as u64));
        if byte & 0x80 == 0 {
            proof {
                crate::text::lemma_first_at_some(lim as int, |k: int| b@[k] & 0x80 == 0, i as int);
            }
            return Some((v, i + 1));
        }
        i += 1;
    }
    proof {
        crate::text::lemma_first_at_none(lim as int, |k: int| b@[k] & 0x80 == 0);
    }
    None
}

/// `std::str::from_utf8`: the text, when the bytes are valid UTF-8.
#[verifier::external_body]
fn str_from_utf8(b: &[u8]) -> (r: Option<&str>)
    ensures
        r is Some == valid_utf8(b@),
        r matches Some(t) ==> t@ == decode_utf8(b@),
{
    std::str::from_utf8(b).ok()
}

/// The text of some bytes, when they are UTF-8.
pub open spec fn utf8_text(b: Seq<u8>) -> Option<Seq<char>> {
    if valid_utf8(b) { Some(decode_utf8(b)) } else { None }
}

/// A protobuf field: its number and where its bytes are.
pub struct FieldAt {
    pub field: u64,
    pub start: usize,
    pub end: usize,
}

pub open spec fn field_view(f: FieldAt) -> (u64, int, int) {
    (f.field, f.start as int, f.end as int)
}

/// The length-delimited fields of the message `b[pos..]`, in order,
/// appended to `acc`. Stops at the first thing that is not well formed,
/// a length running past the end among them.
pub open spec fn fields_from(b: Seq<u8>, pos: int, acc: Seq<(u64, int, int)>) -> Option<Seq<(u64, int, int)>>
    decreases b.len() - pos,
{
    if pos < 0 || pos >= b.len() {
        Some(acc)
    } else {
        match varint_spec(b.skip(pos)) {
            None => Some(acc),
            Some((tag, n)) => {
                let p = pos + n;
                let r2 = b.skip(p);
                let field = tag / 8;
                let wire = tag % 8;
                if wire == 0 {
                    match varint_spec(r2) {
                        Some((_, m)) => if p + m <= b.len() { fields_from(b, p + m, acc) } else { Some(acc) },
                        None => Some(acc),
                    }
                } else if wire == 1 && r2.len() >= 8 {
                    fields_from(b, p + 8, acc)
                } else if wire == 5 && r2.len() >= 4 {
                    fields_from(b, p + 4, acc)
                } else if wire == 2 {
                    match varint_spec(r2) {
                        None => Some(acc),
                        Some((len, m)) => if r2.len() < m + len {
                            Some(acc)
                        } else {
                            fields_from(b, p + m + len, acc.push((field, p + m, p + m + len)))
                        },
                    }
                } else {
                    Some(acc)
                }
            },
        }
    }
}

pub open spec fn fields_spec(b: Seq<u8>) -> Option<Seq<(u64, int, int)>> {
    fields_from(b, 0, Seq::empty())
}

/// Every message can be split into fields, however it is cut short.
proof fn lemma_fields_from_some(b: Seq<u8>, pos: int, acc: Seq<(u64, int, int)>)
    ensures
        fields_from(b, pos, acc) is Some,
    decreases b.len() - pos,
{
    if 0 <= pos < b.len() {
        match varint_spec(b.skip(pos)) {
            None => {},
            Some((tag, n)) => {
                let p = pos + n;
                let r2 = b.skip(p);
                let field = tag / 8;
                let wire = tag % 8;
                if wire == 0 {
                    match varint_spec(r2) {
                        Some((_, m)) => if p + m <= b.len() { lemma_fields_from_some(b, p + m, acc); },
                        None => {},
                    }
                } else if wire == 1 && r2.len() >= 8 {
                    lemma_fields_from_some(b, p + 8, acc);
                } else if wire == 5 && r2.len() >= 4 {
                    lemma_fields_from_some(b, p + 4, acc);
                } else if wire == 2 {
                    match varint_spec(r2) {
                        None => {},
                        Some((len, m)) => if !(r2.len() < m + len) {
                            lemma_fields_from_some(b, p + m + len, acc.push((field, p + m, p + m + len)));
                        },
                    }
                }
            },
        }
    }
}

/// Every envelope can be read, however it is cut short.
proof fn lemma_envelope_readable(body: Seq<u8>)
    ensures
        envelope_readable(body),
{
    lemma_fields_from_some(body, 0, Seq::empty());
    assert forall|i: int|
        0 <= i < fields_or_none(body).len() && (#[trigger] fields_or_none(body)[i]).0 == 1
            implies fields_spec(body.subrange(fields_or_none(body)[i].1, fields_or_none(body)[i].2)) is Some by {
        lemma_fields_from_some(body.subrange(fields_or_none(body)[i].1, fields_or_none(body)[i].2), 0, Seq::empty());
    }
}

/// The length-delimited fields of one protobuf message, in order.
pub fn fields(b: &[u8]) -> (r: Vec<FieldAt>)
    ensures
        Some(r@.map_values(|f: FieldAt| field_view(f))) == fields_spec(b@),
        forall|i: int| 0 <= i < r@.len() ==> (#[trigger] r@[i]).start <= r@[i].end <= b@.len(),
{
    let mut out: Vec<FieldAt> = Vec::new();
    let mut pos: usize = 0;
    assert(b@.len() == b.len());
    proof {
        lemma_fields_from_some(b@, 0, Seq::empty());
    }
    proof {
        assert(out@.map_values(|f: FieldAt| field_view(f)) =~= Seq::<(u64, int, int)>::empty());
    }
    while pos < b.len()
        invariant
            pos <= b@.len(),
            b@.len() == b.len(),
            fields_from(b@, pos as int, out@.map_values(|f: FieldAt| field_view(f))) == fields_spec(b@),
            fields_spec(b@) is Some,
            forall|i: int| 0 <= i < out@.len() ==> (#[trigger] out@[i]).start <= out@[i].end <= b@.len(),
        decreases b@.len() - pos,
    {
        let rest = crate::etcd::decode::skip_bytes(b, pos);
        let (tag, n) = match varint(rest.as_slice()) {
            Some(x) => x,
            None => {
                return out;
            },
        };
        let p = pos + n;
        let r2 = skip_bytes(b, p);
        assert(r2@ == b@.skip(p as int));
        let field = tag / 8;
        let wire = tag % 8;
        if wire == 0 {
            match varint(r2.as_slice()) {
                Some((_, m)) => {
                    pos = p + m;
                },
                None => {
                    return out;
                },
            }
        } else if wire == 1 && r2.len() >= 8 {
            pos = p + 8;
        } else if wire == 5 && r2.len() >= 4 {
            pos = p + 4;
        } else if wire == 2 {
            match varint(r2.as_slice()) {
                None => {
                    return out;
                },
                Some((len, m)) => {
                    if len > (usize::MAX - m) as u64 {
                        return out;
                    }
                    let len = len as usize;
                    if r2.len() < m + len {
                        return out;
                    }
                    let ghost before = out@.map_values(|f: FieldAt| field_view(f));
                    out.push(FieldAt { field, start: p + m, end: p + m + len });
                    assert(out@.map_values(|f: FieldAt| field_view(f)) == before.push((field, (p + m) as int, (p + m + len) as int)));
                    pos = p + m + len;
                },
            }
        } else {
            return out;
        }
    }
    out
}

/// `b[from..]`.
pub fn skip_bytes(b: &[u8], from: usize) -> (r: Vec<u8>)
    requires
        from <= b@.len(),
    ensures
        r@ == b@.skip(from as int),
{
    let mut r: Vec<u8> = Vec::new();
    let mut i = from;
    while i < b.len()
        invariant
            from <= i <= b@.len(),
            r@ == b@.subrange(from as int, i as int),
        decreases b@.len() - i,
    {
        r.push(b[i]);
        assert(b@.subrange(from as int, i + 1) == b@.subrange(from as int, i as int).push(b@[i as int]));
        i += 1;
    }
    r
}

/// `b[from..to]`.
pub fn slice_bytes(b: &[u8], from: usize, to: usize) -> (r: Vec<u8>)
    requires
        from <= to <= b@.len(),
    ensures
        r@ == b@.subrange(from as int, to as int),
{
    let mut r: Vec<u8> = Vec::new();
    let mut i = from;
    while i < to
        invariant
            from <= i <= to <= b@.len(),
            r@ == b@.subrange(from as int, i as int),
        decreases to - i,
    {
        r.push(b[i]);
        assert(b@.subrange(from as int, i + 1) == b@.subrange(from as int, i as int).push(b@[i as int]));
        i += 1;
    }
    r
}


/// A string option by its characters.
pub open spec fn opt_chars(o: Option<String>) -> Option<Seq<char>> {
    match o {
        Some(s) => Some(s@),
        None => None,
    }
}

/// One field of a `TypeMeta`: field 1 is `apiVersion`, field 2 is `kind`,
/// each as text when it is UTF-8 and as nothing when it is not.
pub open spec fn meta_step(
    acc: (Option<Seq<char>>, Option<Seq<char>>),
    inner: Seq<u8>,
    f: (u64, int, int),
) -> (Option<Seq<char>>, Option<Seq<char>>) {
    let t = utf8_text(inner.subrange(f.1, f.2));
    if f.0 == 1 {
        (t, acc.1)
    } else if f.0 == 2 {
        (acc.0, t)
    } else {
        acc
    }
}

/// The fields of a `TypeMeta` read in order, later ones overriding.
pub open spec fn meta_fold(
    acc: (Option<Seq<char>>, Option<Seq<char>>),
    inner: Seq<u8>,
    fs: Seq<(u64, int, int)>,
) -> (Option<Seq<char>>, Option<Seq<char>>)
    decreases fs.len(),
{
    if fs.len() == 0 {
        acc
    } else {
        meta_step(meta_fold(acc, inner, fs.drop_last()), inner, fs.last())
    }
}

pub open spec fn fields_or_none(b: Seq<u8>) -> Seq<(u64, int, int)> {
    match fields_spec(b) {
        Some(fs) => fs,
        None => Seq::empty(),
    }
}

/// `runtime.Unknown { TypeMeta typeMeta = 1; bytes raw = 2; … }` read
/// field by field: `apiVersion`, `kind`, and where the raw body is.
pub open spec fn envelope(body: Seq<u8>, fs: Seq<(u64, int, int)>) -> (
    Option<Seq<char>>,
    Option<Seq<char>>,
    Option<(int, int)>,
)
    decreases fs.len(),
{
    if fs.len() == 0 {
        (None, None, None)
    } else {
        let prev = envelope(body, fs.drop_last());
        let f = fs.last();
        if f.0 == 1 {
            let inner = body.subrange(f.1, f.2);
            let m = meta_fold((prev.0, prev.1), inner, fields_or_none(inner));
            (m.0, m.1, prev.2)
        } else if f.0 == 2 {
            (prev.0, prev.1, Some((f.1, f.2)))
        } else {
            prev
        }
    }
}

/// The envelope and every `TypeMeta` in it can be split into fields.
pub open spec fn envelope_readable(body: Seq<u8>) -> bool {
    &&& fields_spec(body) is Some
    &&& forall|i: int|
        0 <= i < fields_or_none(body).len() && (#[trigger] fields_or_none(body)[i]).0 == 1
            ==> fields_spec(body.subrange(fields_or_none(body)[i].1, fields_or_none(body)[i].2)) is Some
}

fn text_of_bytes(b: &[u8]) -> (r: Option<String>)
    ensures
        opt_chars(r) == utf8_text(b@),
{
    match str_from_utf8(b) {
        Some(t) => Some(owned(t)),
        None => None,
    }
}

/// What the envelope says: `apiVersion`, `kind`, and where the body is.
fn unknown(body: &[u8]) -> (r: (Option<String>, Option<String>, Option<(usize, usize)>))
    requires
        envelope_readable(body@),
    ensures
        ({
            let e = envelope(body@, fields_or_none(body@));
            &&& opt_chars(r.0) == e.0
            &&& opt_chars(r.1) == e.1
            &&& match (r.2, e.2) {
                (Some((s, t)), Some((u, v))) => s == u && t == v && s <= t <= body@.len(),
                (None, None) => true,
                _ => false,
            }
        }),
{
    let fs = fields(body);
    let ghost gs = fields_or_none(body@);
    assert(fs@.map_values(|f: FieldAt| field_view(f)) == gs);
    let mut api: Option<String> = None;
    let mut kind: Option<String> = None;
    let mut raw: Option<(usize, usize)> = None;
    let mut i: usize = 0;
    while i < fs.len()
        invariant
            i <= fs@.len(),
            fs@.map_values(|f: FieldAt| field_view(f)) == gs,
            gs == fields_or_none(body@),
            envelope_readable(body@),
            forall|k: int| 0 <= k < fs@.len() ==> (#[trigger] fs@[k]).start <= fs@[k].end <= body@.len(),
            ({
                let e = envelope(body@, gs.take(i as int));
                &&& opt_chars(api) == e.0
                &&& opt_chars(kind) == e.1
                &&& match (raw, e.2) {
                    (Some((s, t)), Some((u, v))) => s == u && t == v && s <= t <= body@.len(),
                    (None, None) => true,
                    _ => false,
                }
            }),
        decreases fs@.len() - i,
    {
        let f = &fs[i];
        assert(gs[i as int] == field_view(fs@[i as int]));
        assert(gs.take(i + 1).drop_last() == gs.take(i as int));
        assert(gs.take(i + 1).last() == gs[i as int]);
        if f.field == 1 {
            let inner = slice_bytes(body, f.start, f.end);
            assert(inner@ == body@.subrange(gs[i as int].1, gs[i as int].2));
            let ifs = fields(inner.as_slice());
            let ghost hs = fields_or_none(inner@);
            let ghost a0 = (opt_chars(api), opt_chars(kind));
            assert(hs.take(0) == Seq::<(u64, int, int)>::empty());
            let mut j: usize = 0;
            while j < ifs.len()
                invariant
                    j <= ifs@.len(),
                    ifs@.map_values(|f: FieldAt| field_view(f)) == hs,
                    forall|k: int| 0 <= k < ifs@.len() ==> (#[trigger] ifs@[k]).start <= ifs@[k].end <= inner@.len(),
                    meta_fold(a0, inner@, hs.take(j as int)) == (opt_chars(api), opt_chars(kind)),
                decreases ifs@.len() - j,
            {
                let g = &ifs[j];
                assert(hs[j as int] == field_view(ifs@[j as int]));
                assert(hs.take(j + 1).drop_last() == hs.take(j as int));
                assert(hs.take(j + 1).last() == hs[j as int]);
                let piece = slice_bytes(inner.as_slice(), g.start, g.end);
                let t = text_of_bytes(piece.as_slice());
                if g.field == 1 {
                    api = t;
                } else if g.field == 2 {
                    kind = t;
                }
                j += 1;
            }
            assert(hs.take(ifs@.len() as int) == hs);
        } else if f.field == 2 {
            raw = Some((f.start, f.end));
        }
        i += 1;
    }
    assert(gs.take(fs@.len() as int) == gs);
    (api, kind, raw)
}

/// Whether the bytes open with the `k8s\0` envelope.
pub open spec fn is_k8s(b: Seq<u8>) -> bool {
    b.len() >= 4 && b[0] == 107 && b[1] == 56 && b[2] == 115 && b[3] == 0
}

/// `char::is_control`: the general category `Cc`.
pub open spec fn is_control(c: char) -> bool {
    c <= '\u{1F}' || ('\u{7F}' <= c && c <= '\u{9F}')
}

/// Text with no control character that is not also white space.
pub open spec fn printable(t: Seq<char>) -> bool {
    forall|i: int| 0 <= i < t.len() ==> !(is_control(#[trigger] t[i]) && !is_whitespace(t[i]))
}

fn printable_exec(t: &str) -> (r: bool)
    ensures
        r == printable(t@),
{
    let v = chars_of(t);
    let mut i: usize = 0;
    while i < v.len()
        invariant
            i <= v@.len(),
            v@ == t@,
            forall|k: int| 0 <= k < i ==> !(is_control(#[trigger] t@[k]) && !is_whitespace(t@[k])),
        decreases v@.len() - i,
    {
        let c = v[i];
        let control = c <= '\u{1F}' || ('\u{7F}' <= c && c <= '\u{9F}');
        if control && !is_whitespace_exec(c) {
            assert(is_control(t@[i as int]) && !is_whitespace(t@[i as int]));
            return false;
        }
        i += 1;
    }
    true
}

/// Bytes that are UTF-8 text fit to show as text.
pub open spec fn shows_as_text(b: Seq<u8>) -> bool {
    utf8_text(b) matches Some(t) && printable(t)
}

/// A JSON object or array.
pub open spec fn json_container(o: Option<Json>) -> bool {
    o matches Some(v) && (v is Obj || v is Arr)
}

/// The string member `key` of a JSON value.
pub open spec fn member_str(v: Json, key: Seq<char>) -> Option<Seq<char>> {
    match v.member(key) {
        Some(m) => m.str_of(),
        None => None,
    }
}

/// What is said of a protobuf body of `n` bytes.
pub open spec fn protobuf_note(n: nat) -> Seq<char> {
    "Kubernetes protobuf: the envelope names the type; the "@ + decimal(n)
        + " byte body needs the type's schema to read"@
}

/// What is said of `n` bytes shown as hex.
pub open spec fn binary_note(n: nat) -> Seq<char> {
    if n > 256 {
        decimal(n) + " bytes; the first 256 shown"@
    } else {
        Seq::empty()
    }
}

fn member_string(v: &Json, key: &str) -> (r: Option<String>)
    ensures
        opt_chars(r) == member_str(*v, key@),
{
    match v.get(key) {
        Some(m) => match m.as_str() {
            Some(s) => Some(owned(s)),
            None => None,
        },
        None => None,
    }
}

/// What a value in the keyspace is: a protobuf envelope, a JSON object
/// or array, printable UTF-8 text, or bytes.
pub fn decode(bytes: &[u8]) -> (r: Decoded)
    ensures
        is_k8s(bytes@) ==> ({
            let body = bytes@.skip(4);
            let e = envelope(body, fields_or_none(body));
            let shown = match e.2 {
                Some((s, t)) => body.subrange(s, t),
                None => body,
            };
            &&& r.encoding@ == "protobuf"@
            &&& r.json is None
            &&& r.text is None
            &&& opt_chars(r.api_version) == e.0
            &&& opt_chars(r.kind) == e.1
            &&& opt_chars(r.hex) == Some(hex_preview(shown))
            &&& r.note@ == protobuf_note(shown.len())
        }),
        !is_k8s(bytes@) && json_container(json_parsed(bytes@)) ==> ({
            let v = json_parsed(bytes@)->0;
            &&& r.encoding@ == "json"@
            &&& r.json == Some(v)
            &&& r.text is None
            &&& opt_chars(r.api_version) == member_str(v, "apiVersion"@)
            &&& opt_chars(r.kind) == member_str(v, "kind"@)
            &&& r.hex is None
            &&& r.note@ == Seq::<char>::empty()
        }),
        !is_k8s(bytes@) && !json_container(json_parsed(bytes@)) && shows_as_text(bytes@) ==> ({
            &&& r.encoding@ == "text"@
            &&& r.json is None
            &&& opt_chars(r.text) == utf8_text(bytes@)
            &&& r.api_version is None
            &&& r.kind is None
            &&& r.hex is None
            &&& r.note@ == Seq::<char>::empty()
        }),
        !is_k8s(bytes@) && !json_container(json_parsed(bytes@)) && !shows_as_text(bytes@) ==> ({
            &&& r.encoding@ == "binary"@
            &&& r.json is None
            &&& r.text is None
            &&& r.api_version is None
            &&& r.kind is None
            &&& opt_chars(r.hex) == Some(hex_preview(bytes@))
            &&& r.note@ == binary_note(bytes@.len())
        }),
{
    assert(bytes@.len() == bytes.len());
    proof {
        lemma_envelope_readable(bytes@.skip(4));
    }
    if bytes.len() >= 4 && bytes[0] == 107u8 && bytes[1] == 56u8 && bytes[2] == 115u8 && bytes[3] == 0u8 {
        let body = skip_bytes(bytes, 4);
        let (api_version, kind, raw) = unknown(body.as_slice());
        let shown = match raw {
            Some((s, t)) => slice_bytes(body.as_slice(), s, t),
            None => body,
        };
        let mut note = String::new();
        push_str(&mut note, "Kubernetes protobuf: the envelope names the type; the ");
        push_decimal(&mut note, shown.len() as u64);
        push_str(&mut note, " byte body needs the type's schema to read");
        proof {
            reveal_strlit("");
        }
        return Decoded {
            encoding: owned("protobuf"),
            json: None,
            text: None,
            api_version,
            kind,
            hex: Some(hex_of(shown.as_slice())),
            note,
        };
    }
    let parsed = parse_json(bytes);
    match parsed {
        Some(v) => {
            if v.is_object() || v.is_array() {
                let api_version = member_string(&v, "apiVersion");
                let kind = member_string(&v, "kind");
                return Decoded {
                    encoding: owned("json"),
                    json: Some(v),
                    text: None,
                    api_version,
                    kind,
                    hex: None,
                    note: String::new(),
                };
            }
        },
        None => {},
    }
    match str_from_utf8(bytes) {
        Some(t) => {
            if printable_exec(t) {
                return Decoded {
                    encoding: owned("text"),
                    json: None,
                    text: Some(owned(t)),
                    api_version: None,
                    kind: None,
                    hex: None,
                    note: String::new(),
                };
            }
        },
        None => {},
    }
    let mut note = String::new();
    if bytes.len() > HEX_PREVIEW {
        push_decimal(&mut note, bytes.len() as u64);
        push_str(&mut note, " bytes; the first 256 shown");
    }
    Decoded {
        encoding: owned("binary"),
        json: None,
        text: None,
        api_version: None,
        kind: None,
        hex: Some(hex_of(bytes)),
        note,
    }
}

} // verus!
