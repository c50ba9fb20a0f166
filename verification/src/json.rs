//! JSON values as the library reads them.
//!
//! Every daemon the console talks to answers in JSON, and most of the
//! console's logic is reading it. This is the value that logic works on:
//! numbers keep a rendering as text beside whichever integer readings they
//! have (serde_json's rendering, for a value it parsed), and an object keeps
//! its members in the order it was given them.

use vstd::prelude::*;
use crate::text::{str_eq};

verus! {

/// A JSON number: as written, and as an unsigned or signed 64-bit integer
/// where it is one.
#[derive(Debug)]
pub struct Number {
    pub text: String,
    pub as_u64: Option<u64>,
    pub as_i64: Option<i64>,
}

/// A JSON value.
#[derive(Debug)]
pub enum Json {
    Null,
    Bool(bool),
    Num(Number),
    Str(String),
    Arr(Vec<Json>),
    Obj(Vec<(String, Json)>),
}

pub open spec fn member_key(m: Seq<(String, Json)>, key: Seq<char>) -> spec_fn(int) -> bool {
    |i: int| m[i].0@ == key
}

impl Json {
    /// The member named `key`, for an object.
    pub open spec fn member(self, key: Seq<char>) -> Option<Json> {
        match self {
            Json::Obj(m) => match crate::text::first_at(m@.len() as int, member_key(m@, key)) {
                Some(i) => Some(m@[i].1),
                None => None,
            },
            _ => None,
        }
    }

    pub open spec fn str_of(self) -> Option<Seq<char>> {
        match self {
            Json::Str(s) => Some(s@),
            _ => None,
        }
    }

    pub open spec fn u64_of(self) -> Option<u64> {
        match self {
            Json::Num(n) => n.as_u64,
            _ => None,
        }
    }

    pub open spec fn i64_of(self) -> Option<i64> {
        match self {
            Json::Num(n) => n.as_i64,
            _ => None,
        }
    }

    pub open spec fn bool_of(self) -> Option<bool> {
        match self {
            Json::Bool(b) => Some(b),
            _ => None,
        }
    }

    pub open spec fn arr_of(self) -> Option<Seq<Json>> {
        match self {
            Json::Arr(a) => Some(a@),
            _ => None,
        }
    }

    /// Following object members by name.
    pub open spec fn path(self, keys: Seq<Seq<char>>) -> Option<Json>
        decreases keys.len(),
    {
        if keys.len() == 0 {
            Some(self)
        } else {
            match self.member(keys[0]) {
                Some(v) => v.path(keys.drop_first()),
                None => None,
            }
        }
    }

    /// The member named `key` (`Value::get`).
    #[verifier::loop_isolation(false)]
    pub fn get(&self, key: &str) -> (r: Option<&Json>)
        ensures
            match (r, self.member(key@)) {
                (Some(a), Some(b)) => *a == b,
                (None, None) => true,
                _ => false,
            },
    {
        match self {
            Json::Obj(m) => {
                let mut i: usize = 0;
                while i < m.len()
                    invariant
                        i <= m@.len(),
                        forall|j: int| 0 <= j < i ==> m@[j].0@ != key@,
                    decreases m@.len() - i,
                {
                    if str_eq(m[i].0.as_str(), key) {
                        proof {
                            assert(m@[i as int].0@ == key@);
                            assert(member_key(m@, key@)(i as int));
                            assert forall|j: int| 0 <= j < i implies !#[trigger] member_key(m@, key@)(j) by {}
                            crate::text::lemma_first_at_some(m@.len() as int, member_key(m@, key@), i as int);
                        }
                        return Some(&m[i].1);
                    }
                    i += 1;
                }
                proof {
                    assert forall|j: int| 0 <= j < m@.len() implies !#[trigger] member_key(m@, key@)(j) by {}
                    crate::text::lemma_first_at_none(m@.len() as int, member_key(m@, key@));
                }
                None
            },
            _ => None,
        }
    }

    /// Following object members by name (a JSON pointer of keys).
    pub fn at(&self, keys: &[&str]) -> (r: Option<&Json>)
        ensures
            match (r, self.path(keys@.map_values(|k: &str| k@))) {
                (Some(a), Some(b)) => *a == b,
                (None, None) => true,
                _ => false,
            },
    {
        let ghost ks = keys@.map_values(|k: &str| k@);
        let mut cur: &Json = self;
        let mut i: usize = 0;
        assert(ks.skip(0) == ks);
        while i < keys.len()
            invariant
                i <= keys@.len(),
                ks == keys@.map_values(|k: &str| k@),
                self.path(ks) == cur.path(ks.skip(i as int)),
            decreases keys@.len() - i,
        {
            assert(ks.skip(i as int)[0] == keys@[i as int]@);
            assert(ks.skip(i as int).drop_first() == ks.skip(i + 1));
            match cur.get(keys[i]) {
                Some(v) => {
                    cur = v;
                },
                None => {
                    return None;
                },
            }
            i += 1;
        }
        assert(ks.skip(i as int).len() == 0);
        Some(cur)
    }

    pub fn as_str(&self) -> (r: Option<&str>)
        ensures
            match (r, self.str_of()) {
                (Some(a), Some(b)) => a@ == b,
                (None, None) => true,
                _ => false,
            },
    {
        match self {
            Json::Str(s) => Some(s.as_str()),
            _ => None,
        }
    }

    pub fn as_u64(&self) -> (r: Option<u64>)
        ensures
            r == self.u64_of(),
    {
        match self {
            Json::Num(n) => n.as_u64,
            _ => None,
        }
    }

    pub fn as_i64(&self) -> (r: Option<i64>)
        ensures
            r == self.i64_of(),
    {
        match self {
            Json::Num(n) => n.as_i64,
            _ => None,
        }
    }

    pub fn as_bool(&self) -> (r: Option<bool>)
        ensures
            r == self.bool_of(),
    {
        match self {
            Json::Bool(b) => Some(*b),
            _ => None,
        }
    }

    pub fn as_array(&self) -> (r: Option<&Vec<Json>>)
        ensures
            match (r, self.arr_of()) {
                (Some(a), Some(b)) => a@ == b,
                (None, None) => true,
                _ => false,
            },
    {
        match self {
            Json::Arr(a) => Some(a),
            _ => None,
        }
    }

    pub fn is_object(&self) -> (r: bool)
        ensures
            r == (self is Obj),
    {
        match self {
            Json::Obj(_) => true,
            _ => false,
        }
    }

    pub fn is_array(&self) -> (r: bool)
        ensures
            r == (self is Arr),
    {
        match self {
            Json::Arr(_) => true,
            _ => false,
        }
    }
}

/// A path of one name is that member.
pub proof fn lemma_path1(v: Json, a: Seq<char>)
    ensures
        v.path(seq![a]) == v.member(a),
{
    assert(seq![a].drop_first() =~= Seq::<Seq<char>>::empty());
    match v.member(a) {
        Some(m) => {
            assert(m.path(Seq::<Seq<char>>::empty()) == Some(m));
        },
        None => {},
    }
}

/// A path of names is its first member's path of the rest.
pub proof fn lemma_path_cons(v: Json, a: Seq<char>, rest: Seq<Seq<char>>)
    ensures
        v.path(seq![a] + rest) == (match v.member(a) {
            Some(m) => m.path(rest),
            None => None,
        }),
{
    assert((seq![a] + rest)[0] == a);
    assert((seq![a] + rest).drop_first() =~= rest);
}

/// The characters of each key.
pub open spec fn key_views(keys: Seq<&str>) -> Seq<Seq<char>> {
    keys.map_values(|k: &str| k@)
}

impl Json {
    /// The string at a path of member names.
    pub open spec fn path_str(self, keys: Seq<Seq<char>>) -> Option<Seq<char>> {
        match self.path(keys) {
            Some(v) => v.str_of(),
            None => None,
        }
    }

    /// The signed integer at a path of member names.
    pub open spec fn path_i64(self, keys: Seq<Seq<char>>) -> Option<i64> {
        match self.path(keys) {
            Some(v) => v.i64_of(),
            None => None,
        }
    }

    /// The boolean at a path of member names.
    pub open spec fn path_bool(self, keys: Seq<Seq<char>>) -> Option<bool> {
        match self.path(keys) {
            Some(v) => v.bool_of(),
            None => None,
        }
    }

    /// The array at a path of member names.
    pub open spec fn path_arr(self, keys: Seq<Seq<char>>) -> Option<Seq<Json>> {
        match self.path(keys) {
            Some(v) => v.arr_of(),
            None => None,
        }
    }

    /// The string at a path (`Value::pointer` then `as_str`).
    pub fn str_at(&self, keys: &[&str]) -> (r: Option<&str>)
        ensures
            match (r, self.path_str(key_views(keys@))) {
                (Some(a), Some(b)) => a@ == b,
                (None, None) => true,
                _ => false,
            },
    {
        match self.at(keys) {
            Some(v) => v.as_str(),
            None => None,
        }
    }

    /// The signed integer at a path.
    pub fn i64_at(&self, keys: &[&str]) -> (r: Option<i64>)
        ensures
            r == self.path_i64(key_views(keys@)),
    {
        match self.at(keys) {
            Some(v) => v.as_i64(),
            None => None,
        }
    }

    /// The boolean at a path.
    pub fn bool_at(&self, keys: &[&str]) -> (r: Option<bool>)
        ensures
            r == self.path_bool(key_views(keys@)),
    {
        match self.at(keys) {
            Some(v) => v.as_bool(),
            None => None,
        }
    }

    /// The array at a path.
    pub fn arr_at(&self, keys: &[&str]) -> (r: Option<&Vec<Json>>)
        ensures
            match (r, self.path_arr(key_views(keys@))) {
                (Some(a), Some(b)) => a@ == b,
                (None, None) => true,
                _ => false,
            },
    {
        match self.at(keys) {
            Some(v) => v.as_array(),
            None => None,
        }
    }
}

/// A string, or nothing where there is none.
pub open spec fn or_empty(o: Option<Seq<char>>) -> Seq<char> {
    match o {
        Some(s) => s,
        None => Seq::empty(),
    }
}

/// The string at a path, or an empty one.
pub fn text_at(v: &Json, keys: &[&str]) -> (r: String)
    ensures
        r@ == or_empty(v.path_str(key_views(keys@))),
{
    match v.str_at(keys) {
        Some(s) => crate::text::owned(s),
        None => String::new(),
    }
}

/// The string under one member name, or an empty one.
pub fn text1(v: &Json, a: &str) -> (r: String)
    ensures
        r@ == or_empty(v.path_str(seq![a@])),
{
    let keys = [a];
    assert(key_views(keys@) == seq![a@]);
    text_at(v, &keys)
}

/// The string under two member names, or an empty one.
pub fn text2(v: &Json, a: &str, b: &str) -> (r: String)
    ensures
        r@ == or_empty(v.path_str(seq![a@, b@])),
{
    let keys = [a, b];
    assert(key_views(keys@) == seq![a@, b@]);
    text_at(v, &keys)
}

/// The string under one member name.
pub fn str1<'a>(v: &'a Json, a: &str) -> (r: Option<&'a str>)
    ensures
        match (r, v.path_str(seq![a@])) {
            (Some(x), Some(y)) => x@ == y,
            (None, None) => true,
            _ => false,
        },
{
    let keys = [a];
    assert(key_views(keys@) == seq![a@]);
    v.str_at(&keys)
}

/// The string under two member names.
pub fn str2<'a>(v: &'a Json, a: &str, b: &str) -> (r: Option<&'a str>)
    ensures
        match (r, v.path_str(seq![a@, b@])) {
            (Some(x), Some(y)) => x@ == y,
            (None, None) => true,
            _ => false,
        },
{
    let keys = [a, b];
    assert(key_views(keys@) == seq![a@, b@]);
    v.str_at(&keys)
}

/// The string under three member names.
pub fn str3<'a>(v: &'a Json, a: &str, b: &str, c: &str) -> (r: Option<&'a str>)
    ensures
        match (r, v.path_str(seq![a@, b@, c@])) {
            (Some(x), Some(y)) => x@ == y,
            (None, None) => true,
            _ => false,
        },
{
    let keys = [a, b, c];
    assert(key_views(keys@) == seq![a@, b@, c@]);
    v.str_at(&keys)
}

/// The signed integer under one member name.
pub fn i64_1(v: &Json, a: &str) -> (r: Option<i64>)
    ensures
        r == v.path_i64(seq![a@]),
{
    let keys = [a];
    assert(key_views(keys@) == seq![a@]);
    v.i64_at(&keys)
}

/// The signed integer under two member names.
pub fn i64_2(v: &Json, a: &str, b: &str) -> (r: Option<i64>)
    ensures
        r == v.path_i64(seq![a@, b@]),
{
    let keys = [a, b];
    assert(key_views(keys@) == seq![a@, b@]);
    v.i64_at(&keys)
}

/// The signed integer under three member names.
pub fn i64_3(v: &Json, a: &str, b: &str, c: &str) -> (r: Option<i64>)
    ensures
        r == v.path_i64(seq![a@, b@, c@]),
{
    let keys = [a, b, c];
    assert(key_views(keys@) == seq![a@, b@, c@]);
    v.i64_at(&keys)
}

/// The boolean under one member name.
pub fn bool_1(v: &Json, a: &str) -> (r: Option<bool>)
    ensures
        r == v.path_bool(seq![a@]),
{
    let keys = [a];
    assert(key_views(keys@) == seq![a@]);
    v.bool_at(&keys)
}

/// The boolean under two member names.
pub fn bool_2(v: &Json, a: &str, b: &str) -> (r: Option<bool>)
    ensures
        r == v.path_bool(seq![a@, b@]),
{
    let keys = [a, b];
    assert(key_views(keys@) == seq![a@, b@]);
    v.bool_at(&keys)
}

/// The array under one member name.
pub fn arr_1<'a>(v: &'a Json, a: &str) -> (r: Option<&'a Vec<Json>>)
    ensures
        match (r, v.path_arr(seq![a@])) {
            (Some(x), Some(y)) => x@ == y,
            (None, None) => true,
            _ => false,
        },
{
    let keys = [a];
    assert(key_views(keys@) == seq![a@]);
    v.arr_at(&keys)
}

/// The array under two member names.
pub fn arr_2<'a>(v: &'a Json, a: &str, b: &str) -> (r: Option<&'a Vec<Json>>)
    ensures
        match (r, v.path_arr(seq![a@, b@])) {
            (Some(x), Some(y)) => x@ == y,
            (None, None) => true,
            _ => false,
        },
{
    let keys = [a, b];
    assert(key_views(keys@) == seq![a@, b@]);
    v.arr_at(&keys)
}

/// The array under three member names.
pub fn arr_3<'a>(v: &'a Json, a: &str, b: &str, c: &str) -> (r: Option<&'a Vec<Json>>)
    ensures
        match (r, v.path_arr(seq![a@, b@, c@])) {
            (Some(x), Some(y)) => x@ == y,
            (None, None) => true,
            _ => false,
        },
{
    let keys = [a, b, c];
    assert(key_views(keys@) == seq![a@, b@, c@]);
    v.arr_at(&keys)
}

/// The member under one name, as a JSON value.
pub fn at1<'a>(v: &'a Json, a: &str) -> (r: Option<&'a Json>)
    ensures
        match (r, v.path(seq![a@])) {
            (Some(x), Some(y)) => *x == y,
            (None, None) => true,
            _ => false,
        },
{
    let keys = [a];
    assert(key_views(keys@) == seq![a@]);
    v.at(&keys)
}

/// The string under four member names.
pub fn str4<'a>(v: &'a Json, a: &str, b: &str, c: &str, d: &str) -> (r: Option<&'a str>)
    ensures
        match (r, v.path_str(seq![a@, b@, c@, d@])) {
            (Some(x), Some(y)) => x@ == y,
            (None, None) => true,
            _ => false,
        },
{
    let keys = [a, b, c, d];
    assert(key_views(keys@) == seq![a@, b@, c@, d@]);
    v.str_at(&keys)
}

/// The member at a path of one or two names, as a JSON value.
pub fn at2<'a>(v: &'a Json, a: &str, b: &str) -> (r: Option<&'a Json>)
    ensures
        match (r, v.path(seq![a@, b@])) {
            (Some(x), Some(y)) => *x == y,
            (None, None) => true,
            _ => false,
        },
{
    let keys = [a, b];
    assert(key_views(keys@) == seq![a@, b@]);
    v.at(&keys)
}

/// The member at a path of three names, as a JSON value.
pub fn at3<'a>(v: &'a Json, a: &str, b: &str, c: &str) -> (r: Option<&'a Json>)
    ensures
        match (r, v.path(seq![a@, b@, c@])) {
            (Some(x), Some(y)) => *x == y,
            (None, None) => true,
            _ => false,
        },
{
    let keys = [a, b, c];
    assert(key_views(keys@) == seq![a@, b@, c@]);
    v.at(&keys)
}

/// What `serde_json::from_slice::<Value>` makes of some bytes, as a
/// [`Json`]; `None` where they are not JSON.
pub uninterp spec fn json_parsed(b: Seq<u8>) -> Option<Json>;

/// `serde_json::Value`, carried through opaque.
#[verifier::external_type_specification]
#[verifier::external_body]
pub struct ExValue(serde_json::Value);

/// A `serde_json::Value`, member for member.
#[verifier::external_body]
pub(crate) fn from_serde(v: serde_json::Value) -> Json {
    match v {
        serde_json::Value::Null => Json::Null,
        serde_json::Value::Bool(b) => Json::Bool(b),
        serde_json::Value::Number(n) => Json::Num(Number { text: n.to_string(), as_u64: n.as_u64(), as_i64: n.as_i64() }),
        serde_json::Value::String(s) => Json::Str(s),
        serde_json::Value::Array(a) => Json::Arr(a.into_iter().map(from_serde).collect()),
        serde_json::Value::Object(o) => Json::Obj(o.into_iter().map(|(k, v)| (k, from_serde(v))).collect()),
    }
}

/// `serde_json::from_slice::<Value>`: the JSON the bytes hold, if they
/// hold JSON.
#[verifier::external_body]
pub(crate) fn parse_json(b: &[u8]) -> (r: Option<Json>)
    ensures
        r == json_parsed(b@),
{
    serde_json::from_slice::<serde_json::Value>(b).ok().map(from_serde)
}

} // verus!
