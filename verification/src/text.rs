//! Text as sequences of characters: searching, splitting and rendering.
//!
//! Every function here works on the characters of a string (its view),
//! which is what the contracts of the rest of the library speak of.

use vstd::prelude::*;

verus! {

/// The first index below `n` at which `p` holds, if any.
pub open spec fn first_at(n: int, p: spec_fn(int) -> bool) -> Option<int> {
    if exists|i: int| 0 <= i < n && #[trigger] p(i) && (forall|j: int| 0 <= j < i ==> !#[trigger] p(j)) {
        Some(choose|i: int| 0 <= i < n && #[trigger] p(i) && (forall|j: int| 0 <= j < i ==> !#[trigger] p(j)))
    } else {
        None
    }
}

/// The last index below `n` at which `p` holds, if any.
pub open spec fn last_at(n: int, p: spec_fn(int) -> bool) -> Option<int> {
    if exists|i: int| 0 <= i < n && #[trigger] p(i) && (forall|j: int| i < j < n ==> !#[trigger] p(j)) {
        Some(choose|i: int| 0 <= i < n && #[trigger] p(i) && (forall|j: int| i < j < n ==> !#[trigger] p(j)))
    } else {
        None
    }
}

pub proof fn lemma_first_at_some(n: int, p: spec_fn(int) -> bool, k: int)
    requires
        0 <= k < n,
        p(k),
        forall|j: int| 0 <= j < k ==> !#[trigger] p(j),
    ensures
        first_at(n, p) == Some(k),
{
    let i = choose|i: int| 0 <= i < n && #[trigger] p(i) && (forall|j: int| 0 <= j < i ==> !#[trigger] p(j));
    assert(0 <= i < n && #[trigger] p(i) && (forall|j: int| 0 <= j < i ==> !#[trigger] p(j)));
    if i < k {
        assert(!p(i));
    } else if k < i {
        assert(!p(k));
    }
}

pub proof fn lemma_first_at_none(n: int, p: spec_fn(int) -> bool)
    requires
        forall|j: int| 0 <= j < n ==> !#[trigger] p(j),
    ensures
        first_at(n, p) == None::<int>,
{
}

pub proof fn lemma_last_at_some(n: int, p: spec_fn(int) -> bool, k: int)
    requires
        0 <= k < n,
        p(k),
        forall|j: int| k < j < n ==> !#[trigger] p(j),
    ensures
        last_at(n, p) == Some(k),
{
    let i = choose|i: int| 0 <= i < n && #[trigger] p(i) && (forall|j: int| i < j < n ==> !#[trigger] p(j));
    assert(0 <= i < n && #[trigger] p(i) && (forall|j: int| i < j < n ==> !#[trigger] p(j)));
    if i < k {
        assert(!p(k));
    } else if k < i {
        assert(!p(i));
    }
}

pub proof fn lemma_last_at_none(n: int, p: spec_fn(int) -> bool)
    requires
        forall|j: int| 0 <= j < n ==> !#[trigger] p(j),
    ensures
        last_at(n, p) == None::<int>,
{
}

pub proof fn lemma_find_char_some(s: Seq<char>, c: char, k: int)
    requires
        0 <= k < s.len(),
        s[k] == c,
        forall|j: int| 0 <= j < k ==> s[j] != c,
    ensures
        find_char(s, c) == Some(k),
{
    lemma_first_at_some(s.len() as int, char_is(s, c), k);
}

pub proof fn lemma_find_char_none(s: Seq<char>, c: char)
    requires
        forall|j: int| 0 <= j < s.len() ==> s[j] != c,
    ensures
        find_char(s, c) == None::<int>,
{
    lemma_first_at_none(s.len() as int, char_is(s, c));
}

pub proof fn lemma_rfind_char_some(s: Seq<char>, c: char, k: int)
    requires
        0 <= k < s.len(),
        s[k] == c,
        forall|j: int| k < j < s.len() ==> s[j] != c,
    ensures
        rfind_char(s, c) == Some(k),
{
    lemma_last_at_some(s.len() as int, char_is(s, c), k);
}

pub proof fn lemma_rfind_char_none(s: Seq<char>, c: char)
    requires
        forall|j: int| 0 <= j < s.len() ==> s[j] != c,
    ensures
        rfind_char(s, c) == None::<int>,
{
    lemma_last_at_none(s.len() as int, char_is(s, c));
}


proof fn lemma_first_exists(n: int, p: spec_fn(int) -> bool, j: int)
    requires
        0 <= j < n,
        p(j),
    ensures
        exists|i: int| 0 <= i < n && #[trigger] p(i) && (forall|k: int| 0 <= k < i ==> !#[trigger] p(k)),
    decreases j,
{
    if exists|k: int| 0 <= k < j && #[trigger] p(k) {
        let k = choose|k: int| 0 <= k < j && #[trigger] p(k);
        lemma_first_exists(n, p, k);
    } else {
        assert(forall|k: int| 0 <= k < j ==> !#[trigger] p(k));
    }
}

/// What `first_at` says: the index holds and none before it does; or none
/// holds at all.
pub proof fn lemma_first_at_props(n: int, p: spec_fn(int) -> bool)
    ensures
        match first_at(n, p) {
            Some(i) => 0 <= i < n && p(i) && (forall|k: int| 0 <= k < i ==> !#[trigger] p(k)),
            None => forall|k: int| 0 <= k < n ==> !#[trigger] p(k),
        },
{
    if first_at(n, p) is None {
        assert forall|k: int| 0 <= k < n implies !#[trigger] p(k) by {
            if p(k) {
                lemma_first_exists(n, p, k);
            }
        }
    }
}

/// What `last_at` says.
pub proof fn lemma_last_at_props(n: int, p: spec_fn(int) -> bool)
    ensures
        match last_at(n, p) {
            Some(i) => 0 <= i < n && p(i) && (forall|k: int| i < k < n ==> !#[trigger] p(k)),
            None => forall|k: int| 0 <= k < n ==> !#[trigger] p(k),
        },
{
    if last_at(n, p) is None {
        assert forall|k: int| 0 <= k < n implies !#[trigger] p(k) by {
            if p(k) {
                lemma_last_exists(n, p, k);
            }
        }
    }
}

proof fn lemma_last_exists(n: int, p: spec_fn(int) -> bool, j: int)
    requires
        0 <= j < n,
        p(j),
    ensures
        exists|i: int| 0 <= i < n && #[trigger] p(i) && (forall|k: int| i < k < n ==> !#[trigger] p(k)),
    decreases n - j,
{
    if exists|k: int| j < k < n && #[trigger] p(k) {
        let k = choose|k: int| j < k < n && #[trigger] p(k);
        lemma_last_exists(n, p, k);
    } else {
        assert(forall|k: int| j < k < n ==> !#[trigger] p(k));
    }
}

/// Where `c` first occurs in `s`.
pub open spec fn find_char(s: Seq<char>, c: char) -> Option<int> {
    first_at(s.len() as int, char_is(s, c))
}

/// Does `s` hold `c` at an index?
pub open spec fn char_is(s: Seq<char>, c: char) -> spec_fn(int) -> bool {
    |i: int| s[i] == c
}

/// Does `pat` occur in `s` at an index?
pub open spec fn str_at(s: Seq<char>, pat: Seq<char>) -> spec_fn(int) -> bool {
    |i: int| occurs_at(s, pat, i)
}

/// Where `c` last occurs in `s`.
pub open spec fn rfind_char(s: Seq<char>, c: char) -> Option<int> {
    last_at(s.len() as int, char_is(s, c))
}

/// Does `pat` occur in `s` starting at `i`?
pub open spec fn occurs_at(s: Seq<char>, pat: Seq<char>, i: int) -> bool {
    0 <= i && i + pat.len() <= s.len() && s.subrange(i, i + pat.len()) == pat
}

/// Where `pat` first occurs in `s`.
pub open spec fn find_str(s: Seq<char>, pat: Seq<char>) -> Option<int> {
    first_at(s.len() + 1int, str_at(s, pat))
}

/// Does `s` contain `pat`?
pub open spec fn contains_str(s: Seq<char>, pat: Seq<char>) -> bool {
    exists|i: int| occurs_at(s, pat, i)
}

pub open spec fn starts_with(s: Seq<char>, pat: Seq<char>) -> bool {
    pat.len() <= s.len() && s.take(pat.len() as int) == pat
}

pub open spec fn ends_with(s: Seq<char>, pat: Seq<char>) -> bool {
    pat.len() <= s.len() && s.skip(s.len() - pat.len()) == pat
}

/// `s` split at the first `c`: what is before it and what is after it.
pub open spec fn split_once(s: Seq<char>, c: char) -> Option<(Seq<char>, Seq<char>)> {
    match find_char(s, c) {
        Some(i) => Some((s.take(i), s.skip(i + 1))),
        None => None,
    }
}

/// `s` split at the last `c`.
pub open spec fn rsplit_once(s: Seq<char>, c: char) -> Option<(Seq<char>, Seq<char>)> {
    match rfind_char(s, c) {
        Some(i) => Some((s.take(i), s.skip(i + 1))),
        None => None,
    }
}

/// `s` without `pat` in front, if it was there.
pub open spec fn strip_prefix(s: Seq<char>, pat: Seq<char>) -> Option<Seq<char>> {
    if starts_with(s, pat) { Some(s.skip(pat.len() as int)) } else { None }
}

/// `s` without `pat` at the end, if it was there.
pub open spec fn strip_suffix(s: Seq<char>, pat: Seq<char>) -> Option<Seq<char>> {
    if ends_with(s, pat) { Some(s.take(s.len() - pat.len())) } else { None }
}

pub open spec fn is_ascii_digit(c: char) -> bool {
    '0' <= c <= '9'
}

pub open spec fn is_ascii_lower(c: char) -> bool {
    'a' <= c <= 'z'
}

pub open spec fn is_ascii_upper(c: char) -> bool {
    'A' <= c <= 'Z'
}

pub open spec fn is_ascii_alnum(c: char) -> bool {
    is_ascii_digit(c) || is_ascii_lower(c) || is_ascii_upper(c)
}

pub open spec fn all_digits(s: Seq<char>) -> bool {
    forall|i: int| 0 <= i < s.len() ==> is_ascii_digit(#[trigger] s[i])
}

/// The characters of `s`, in order.
pub fn chars_of(s: &str) -> (v: Vec<char>)
    ensures
        v@ == s@,
{
    let mut v: Vec<char> = Vec::new();
    for c in it: s.chars()
        invariant
            v@ == it.seq().take(it.index() as int),
            it.seq() == s@,
    {
        v.push(c);
    }
    v
}

/// Appends one character (`String::push`).
#[verifier::external_body]
pub fn push_char(s: &mut String, c: char)
    ensures
        final(s)@ == old(s)@.push(c),
{
    s.push(c);
}

/// Appends the characters of `v[from..to]`.
pub fn push_chars(s: &mut String, v: &[char], from: usize, to: usize)
    requires
        from <= to <= v@.len(),
    ensures
        final(s)@ == old(s)@ + v@.subrange(from as int, to as int),
{
    let mut i = from;
    while i < to
        invariant
            from <= i <= to <= v@.len(),
            s@ == old(s)@ + v@.subrange(from as int, i as int),
        decreases to - i,
    {
        push_char(s, v[i]);
        assert(v@.subrange(from as int, i + 1) == v@.subrange(from as int, i as int).push(v@[i as int]));
        i += 1;
    }
}

/// A string holding `v[from..to]`.
pub fn string_of(v: &[char], from: usize, to: usize) -> (s: String)
    requires
        from <= to <= v@.len(),
    ensures
        s@ == v@.subrange(from as int, to as int),
{
    let mut s = String::new();
    push_chars(&mut s, v, from, to);
    s
}

/// Appends a string slice.
pub fn push_str(s: &mut String, t: &str)
    ensures
        final(s)@ == old(s)@ + t@,
{
    let v = chars_of(t);
    push_chars(s, v.as_slice(), 0, v.len());
    assert(v@.subrange(0, v@.len() as int) == v@);
}

/// A copy of a string slice.
pub fn owned(t: &str) -> (s: String)
    ensures
        s@ == t@,
{
    let mut s = String::new();
    push_str(&mut s, t);
    s
}

/// The first index at or after `from` holding `c`.
pub fn find_char_from(v: &[char], from: usize, c: char) -> (r: Option<usize>)
    requires
        from <= v@.len(),
    ensures
        r == (match find_char(v@.skip(from as int), c) {
            Some(i) => Some((i + from) as usize),
            None => None::<usize>,
        }),
        r matches Some(i) ==> from <= i < v@.len() && v@[i as int] == c,
        r is None ==> forall|j: int| from <= j < v@.len() ==> v@[j] != c,
{
    let ghost t = v@.skip(from as int);
    let mut i = from;
    while i < v.len()
        invariant
            from <= i <= v@.len(),
            t == v@.skip(from as int),
            forall|j: int| from <= j < i ==> v@[j] != c,
        decreases v@.len() - i,
    {
        if v[i] == c {
            proof {
                lemma_find_char_some(t, c, i - from);
            }
            return Some(i);
        }
        i += 1;
    }
    proof {
        lemma_find_char_none(t, c);
    }
    None
}

/// The first index holding `c`.
pub fn find_char_in(v: &[char], c: char) -> (r: Option<usize>)
    ensures
        r == (match find_char(v@, c) {
            Some(i) => Some(i as usize),
            None => None::<usize>,
        }),
        r matches Some(i) ==> i < v@.len() && v@[i as int] == c,
        r is None ==> forall|j: int| 0 <= j < v@.len() ==> v@[j] != c,
{
    let r = find_char_from(v, 0, c);
    assert(v@.skip(0) == v@);
    r
}

/// The last index holding `c`.
pub fn rfind_char_in(v: &[char], c: char) -> (r: Option<usize>)
    ensures
        r == (match rfind_char(v@, c) {
            Some(i) => Some(i as usize),
            None => None::<usize>,
        }),
        r matches Some(i) ==> i < v@.len() && v@[i as int] == c,
        r is None ==> forall|j: int| 0 <= j < v@.len() ==> v@[j] != c,
{
    let mut i = v.len();
    while i > 0
        invariant
            i <= v@.len(),
            forall|j: int| i <= j < v@.len() ==> v@[j] != c,
        decreases i,
    {
        i -= 1;
        if v[i] == c {
            proof {
                lemma_rfind_char_some(v@, c, i as int);
            }
            return Some(i);
        }
    }
    proof {
        lemma_rfind_char_none(v@, c);
    }
    None
}

/// Does `pat` occur in `v` at `i`?
pub fn occurs_at_exec(v: &[char], pat: &[char], i: usize) -> (r: bool)
    ensures
        r == occurs_at(v@, pat@, i as int),
{
    if i > v.len() || pat.len() > v.len() - i {
        return false;
    }
    let mut k: usize = 0;
    while k < pat.len()
        invariant
            i + pat.len() <= v.len(),
            k <= pat@.len(),
            forall|j: int| 0 <= j < k ==> v@[i + j] == pat@[j],
        decreases pat@.len() - k,
    {
        if v[i + k] != pat[k] {
            assert(v@.subrange(i as int, i + pat@.len())[k as int] != pat@[k as int]);
            return false;
        }
        k += 1;
    }
    assert(v@.subrange(i as int, i + pat@.len()) == pat@);
    true
}

/// Where `pat` first occurs in `v`.
pub fn find_str_in(v: &[char], pat: &[char]) -> (r: Option<usize>)
    ensures
        r == (match find_str(v@, pat@) {
            Some(i) => Some(i as usize),
            None => None::<usize>,
        }),
        r matches Some(i) ==> occurs_at(v@, pat@, i as int),
        r is None ==> !contains_str(v@, pat@),
{
    let mut i: usize = 0;
    loop
        invariant
            i <= v.len(),
            forall|j: int| 0 <= j < i ==> !occurs_at(v@, pat@, j),
        decreases v@.len() - i,
    {
        if occurs_at_exec(v, pat, i) {
            proof {
                lemma_first_at_some(v@.len() + 1int, str_at(v@, pat@), i as int);
            }
            return Some(i);
        }
        if i == v.len() {
            proof {
                assert forall|j: int| 0 <= j < v@.len() + 1 implies !#[trigger] str_at(v@, pat@)(j) by {
                    if j < i {
                        assert(!occurs_at(v@, pat@, j));
                    }
                }
                lemma_first_at_none(v@.len() + 1int, str_at(v@, pat@));
                assert forall|j: int| !occurs_at(v@, pat@, j) by {
                    if 0 <= j && j < i {
                        assert(!occurs_at(v@, pat@, j));
                    }
                }
            }
            return None;
        }
        i += 1;
    }
}

/// Are two character sequences equal?
pub fn chars_eq(a: &[char], b: &[char]) -> (r: bool)
    ensures
        r == (a@ == b@),
{
    if a.len() != b.len() {
        return false;
    }
    let mut i: usize = 0;
    while i < a.len()
        invariant
            a@.len() == b@.len(),
            i <= a@.len(),
            forall|j: int| 0 <= j < i ==> a@[j] == b@[j],
        decreases a@.len() - i,
    {
        if a[i] != b[i] {
            return false;
        }
        i += 1;
    }
    assert(a@ == b@);
    true
}

/// Are two strings equal?
pub fn str_eq(a: &str, b: &str) -> (r: bool)
    ensures
        r == (a@ == b@),
{
    let x = chars_of(a);
    let y = chars_of(b);
    chars_eq(x.as_slice(), y.as_slice())
}

/// Does `v` start with `pat`?
pub fn starts_with_exec(v: &[char], pat: &[char]) -> (r: bool)
    ensures
        r == starts_with(v@, pat@),
{
    let r = occurs_at_exec(v, pat, 0);
    proof {
        if pat@.len() <= v@.len() {
            assert(v@.subrange(0, pat@.len() as int) == v@.take(pat@.len() as int));
        }
    }
    r
}

/// Does `v` end with `pat`?
pub fn ends_with_exec(v: &[char], pat: &[char]) -> (r: bool)
    ensures
        r == ends_with(v@, pat@),
{
    if pat.len() > v.len() {
        return false;
    }
    let r = occurs_at_exec(v, pat, v.len() - pat.len());
    assert(v@.subrange(v@.len() - pat@.len(), v@.len() as int) == v@.skip(v@.len() - pat@.len()));
    r
}

/// Does `s` contain `pat`?
pub fn contains_exec(s: &str, pat: &str) -> (r: bool)
    ensures
        r == contains_str(s@, pat@),
{
    let v = chars_of(s);
    let p = chars_of(pat);
    find_str_in(v.as_slice(), p.as_slice()).is_some()
}

/// `str::split_once` on a character.
pub fn split_once_str<'a>(s: &'a str, c: char) -> (r: Option<(&'a str, &'a str)>)
    ensures
        match (r, split_once(s@, c)) {
            (Some((a, b)), Some((x, y))) => a@ == x && b@ == y,
            (None, None) => true,
            _ => false,
        },
{
    let v = chars_of(s);
    let n = v.len();
    match find_char_in(v.as_slice(), c) {
        Some(i) => {
            Some((s.substring_char(0, i), s.substring_char(i + 1, n)))
        },
        None => None,
    }
}

/// `str::rsplit_once` on a character.
pub fn rsplit_once_str<'a>(s: &'a str, c: char) -> (r: Option<(&'a str, &'a str)>)
    ensures
        match (r, rsplit_once(s@, c)) {
            (Some((a, b)), Some((x, y))) => a@ == x && b@ == y,
            (None, None) => true,
            _ => false,
        },
{
    let v = chars_of(s);
    let n = v.len();
    match rfind_char_in(v.as_slice(), c) {
        Some(i) => Some((s.substring_char(0, i), s.substring_char(i + 1, n))),
        None => None,
    }
}

/// `str::strip_prefix`.
pub fn strip_prefix_str<'a>(s: &'a str, pat: &str) -> (r: Option<&'a str>)
    ensures
        match (r, strip_prefix(s@, pat@)) {
            (Some(a), Some(x)) => a@ == x,
            (None, None) => true,
            _ => false,
        },
{
    let v = chars_of(s);
    let p = chars_of(pat);
    if starts_with_exec(v.as_slice(), p.as_slice()) {
        Some(s.substring_char(p.len(), v.len()))
    } else {
        None
    }
}

/// `str::strip_suffix`.
pub fn strip_suffix_str<'a>(s: &'a str, pat: &str) -> (r: Option<&'a str>)
    ensures
        match (r, strip_suffix(s@, pat@)) {
            (Some(a), Some(x)) => a@ == x,
            (None, None) => true,
            _ => false,
        },
{
    let v = chars_of(s);
    let p = chars_of(pat);
    if ends_with_exec(v.as_slice(), p.as_slice()) {
        Some(s.substring_char(0, v.len() - p.len()))
    } else {
        None
    }
}

/// `str::starts_with`.
pub fn starts_with_str(s: &str, pat: &str) -> (r: bool)
    ensures
        r == starts_with(s@, pat@),
{
    let v = chars_of(s);
    let p = chars_of(pat);
    starts_with_exec(v.as_slice(), p.as_slice())
}

/// `str::ends_with`.
pub fn ends_with_str(s: &str, pat: &str) -> (r: bool)
    ensures
        r == ends_with(s@, pat@),
{
    let v = chars_of(s);
    let p = chars_of(pat);
    ends_with_exec(v.as_slice(), p.as_slice())
}

/// The number of characters in `s`.
pub fn char_len(s: &str) -> (r: usize)
    ensures
        r == s@.len(),
{
    s.unicode_len()
}

/// `str::trim`.
pub fn trim_str<'a>(s: &'a str) -> (r: &'a str)
    ensures
        r@ == trim(s@),
{
    let v = chars_of(s);
    let n = v.len();
    let a = trim_start_at(v.as_slice(), 0, n);
    let b = trim_end_at(v.as_slice(), a, n);
    assert(v@.subrange(0, n as int) == v@);
    s.substring_char(a, b)
}

/// What `format!("{:?}", s)` writes for a string: it quoted, with the
/// characters Rust escapes escaped.
pub uninterp spec fn debug_quoted(s: Seq<char>) -> Seq<char>;

/// A string as Rust's `Debug` writes it (`format!("{:?}", s)`).
#[verifier::external_body]
pub fn quoted(s: &str) -> (r: String)
    ensures
        r@ == debug_quoted(s@),
{
    format!("{:?}", s)
}

/// Does `s[i]` differ from `c`?
pub open spec fn char_not(s: Seq<char>, c: char) -> spec_fn(int) -> bool {
    |i: int| s[i] != c
}

/// `s` with every leading and trailing `c` removed (`str::trim_matches`).
pub open spec fn trim_char(s: Seq<char>, c: char) -> Seq<char> {
    match (first_at(s.len() as int, char_not(s, c)), last_at(s.len() as int, char_not(s, c))) {
        (Some(i), Some(j)) => s.subrange(i, j + 1),
        _ => Seq::empty(),
    }
}

/// Where `v` starts and ends once every leading and trailing `c` is gone.
pub fn trim_char_range(v: &[char], c: char) -> (r: (usize, usize))
    ensures
        r.0 <= r.1 <= v@.len(),
        v@.subrange(r.0 as int, r.1 as int) == trim_char(v@, c),
{
    let n = v.len();
    let mut i: usize = 0;
    while i < n && v[i] == c
        invariant
            i <= n,
            n == v@.len(),
            forall|k: int| 0 <= k < i ==> v@[k] == c,
        decreases n - i,
    {
        i += 1;
    }
    if i == n {
        proof {
            assert forall|k: int| 0 <= k < n implies !#[trigger] char_not(v@, c)(k) by {}
            lemma_first_at_none(n as int, char_not(v@, c));
            lemma_last_at_none(n as int, char_not(v@, c));
        }
        return (0, 0);
    }
    let mut j: usize = n;
    while j > i + 1 && v[j - 1] == c
        invariant
            i < j <= n,
            n == v@.len(),
            v@[i as int] != c,
            forall|k: int| j <= k < n ==> v@[k] == c,
        decreases j,
    {
        j -= 1;
    }
    proof {
        assert forall|k: int| 0 <= k < i implies !#[trigger] char_not(v@, c)(k) by {}
        lemma_first_at_some(n as int, char_not(v@, c), i as int);
        assert(v@[j - 1] != c);
        assert forall|k: int| j - 1 < k < n implies !#[trigger] char_not(v@, c)(k) by {}
        lemma_last_at_some(n as int, char_not(v@, c), j - 1);
    }
    (i, j)
}

/// What `str::to_lowercase` makes of a string (Unicode case mapping).
pub uninterp spec fn lowercase(s: Seq<char>) -> Seq<char>;

/// `str::to_lowercase`: the Unicode lower-case mapping of `s`.
#[verifier::external_body]
pub fn to_lowercase(s: &str) -> (r: String)
    ensures
        r@ == lowercase(s@),
{
    s.to_lowercase()
}

/// The parts with `sep` between each two (`[String]::join`).
pub open spec fn join(parts: Seq<Seq<char>>, sep: Seq<char>) -> Seq<char>
    decreases parts.len(),
{
    if parts.len() == 0 {
        Seq::empty()
    } else if parts.len() == 1 {
        parts[0]
    } else {
        join(parts.drop_last(), sep) + sep + parts.last()
    }
}

pub open spec fn string_views(v: Seq<String>) -> Seq<Seq<char>> {
    v.map_values(|s: String| s@)
}

/// The strings with `sep` between each two.
pub fn join_strings(parts: &Vec<String>, sep: &str) -> (r: String)
    ensures
        r@ == join(string_views(parts@), sep@),
{
    let ghost all = string_views(parts@);
    let mut out = String::new();
    let mut i: usize = 0;
    while i < parts.len()
        invariant
            i <= parts@.len(),
            all == string_views(parts@),
            out@ == join(all.take(i as int), sep@),
        decreases parts@.len() - i,
    {
        assert(all.take(i + 1).drop_last() == all.take(i as int));
        assert(all.take(i + 1).last() == parts@[i as int]@);
        if i > 0 {
            push_str(&mut out, sep);
        } else {
            assert(all.take(1) == seq![parts@[0]@]);
        }
        push_str(&mut out, parts[i].as_str());
        i += 1;
    }
    assert(all.take(parts@.len() as int) == all);
    out
}

/// The decimal digit character for `d` (`0`..=`9`).
pub open spec fn digit(d: int) -> char {
    (48 + d) as char
}

/// The lower-case hexadecimal digit character for `d` (`0`..=`f`).
pub open spec fn hex_digit(d: int) -> char {
    if d < 10 { (48 + d) as char } else { (87 + d) as char }
}

/// `n` written in decimal, without leading zeros.
pub open spec fn decimal(n: nat) -> Seq<char>
    decreases n,
{
    if n < 10 {
        seq![digit(n as int)]
    } else {
        decimal(n / 10).push(digit((n % 10) as int))
    }
}

/// `n` written in lower-case hexadecimal, without leading zeros.
pub open spec fn hex(n: nat) -> Seq<char>
    decreases n,
{
    if n < 16 {
        seq![hex_digit(n as int)]
    } else {
        hex(n / 16).push(hex_digit((n % 16) as int))
    }
}

/// A signed integer in decimal, with a `-` when negative.
pub open spec fn signed_decimal(n: int) -> Seq<char> {
    if n < 0 { seq!['-'] + decimal((-n) as nat) } else { decimal(n as nat) }
}

/// The value of a run of decimal digits.
pub open spec fn digits_value(s: Seq<char>) -> nat
    decreases s.len(),
{
    if s.len() == 0 {
        0
    } else {
        digits_value(s.drop_last()) * 10 + (s.last() as int - 48) as nat
    }
}

/// What `str::parse::<u64>` makes of `s`: an optional `+`, then one or
/// more decimal digits whose value fits in 64 bits.
pub open spec fn parse_u64(s: Seq<char>) -> Option<u64> {
    let d = if s.len() > 0 && s[0] == '+' { s.skip(1) } else { s };
    if d.len() > 0 && all_digits(d) && digits_value(d) <= u64::MAX {
        Some(digits_value(d) as u64)
    } else {
        None
    }
}

fn digit_of(d: u64) -> (c: char)
    requires
        d < 10,
    ensures
        c == digit(d as int),
{
    let b: u8 = (48 + d) as u8;
    b as char
}

fn hex_digit_of(d: u64) -> (c: char)
    requires
        d < 16,
    ensures
        c == hex_digit(d as int),
{
    if d < 10 {
        let b: u8 = (48 + d) as u8;
        b as char
    } else {
        let b: u8 = (87 + d) as u8;
        b as char
    }
}

/// Appends `n` in decimal.
pub fn push_decimal(s: &mut String, n: u64)
    ensures
        final(s)@ == old(s)@ + decimal(n as nat),
    decreases n,
{
    if n >= 10 {
        push_decimal(s, n / 10);
    }
    push_char(s, digit_of(n % 10));
    proof {
        if n >= 10 {
            assert(decimal(n as nat) == decimal((n / 10) as nat).push(digit((n % 10) as int)));
        }
    }
}

/// Appends `n` in lower-case hexadecimal.
pub fn push_hex(s: &mut String, n: u64)
    ensures
        final(s)@ == old(s)@ + hex(n as nat),
    decreases n,
{
    if n >= 16 {
        push_hex(s, n / 16);
    }
    push_char(s, hex_digit_of(n % 16));
    proof {
        if n >= 16 {
            assert(hex(n as nat) == hex((n / 16) as nat).push(hex_digit((n % 16) as int)));
        }
    }
}

/// Appends a signed integer in decimal.
pub fn push_signed(s: &mut String, n: i64)
    ensures
        final(s)@ == old(s)@ + signed_decimal(n as int),
{
    if n < 0 {
        push_char(s, '-');
        let m: u64 = if n == i64::MIN { 9223372036854775808u64 } else { (-n) as u64 };
        push_decimal(s, m);
        assert(old(s)@.push('-') + decimal(m as nat) == old(s)@ + (seq!['-'] + decimal(m as nat)));
    } else {
        push_decimal(s, n as u64);
    }
}

/// `n` in decimal.
pub fn decimal_string(n: u64) -> (s: String)
    ensures
        s@ == decimal(n as nat),
{
    let mut s = String::new();
    push_decimal(&mut s, n);
    s
}

/// `n` in decimal, signed.
pub fn signed_string(n: i64) -> (s: String)
    ensures
        s@ == signed_decimal(n as int),
{
    let mut s = String::new();
    push_signed(&mut s, n);
    s
}

/// `n` in lower-case hexadecimal.
pub fn hex_string(n: u64) -> (s: String)
    ensures
        s@ == hex(n as nat),
{
    let mut s = String::new();
    push_hex(&mut s, n);
    s
}

/// `str::parse::<u64>` over characters.
pub fn parse_u64_chars(s: &[char]) -> (r: Option<u64>)
    ensures
        r == parse_u64(s@),
{
    let start: usize = if s.len() > 0 && s[0] == '+' { 1 } else { 0 };
    let ghost d = if s@.len() > 0 && s@[0] == '+' { s@.skip(1) } else { s@ };
    assert(d == s@.skip(start as int));
    if start == s.len() {
        return None;
    }
    let mut acc: u64 = 0;
    let mut over = false;
    let mut i = start;
    while i < s.len()
        invariant
            start <= i <= s@.len(),
            d == s@.skip(start as int),
            d == (if s@.len() > 0 && s@[0] == '+' { s@.skip(1) } else { s@ }),
            forall|j: int| start <= j < i ==> is_ascii_digit(#[trigger] s@[j]),
            !over ==> acc as nat == digits_value(d.take(i - start)),
            over ==> digits_value(d.take(i - start)) > u64::MAX,
        decreases s@.len() - i,
    {
        let c = s[i];
        if !('0' <= c && c <= '9') {
            assert(d[i - start] == s@[i as int]);
            assert(!is_ascii_digit(d[i - start]));
            assert(!all_digits(d));
            return None;
        }
        let dv: u64 = (c as u32 - 48) as u64;
        let ghost prev = d.take(i - start);
        assert(d.take(i + 1 - start).drop_last() == prev);
        assert(digits_value(d.take(i + 1 - start)) == digits_value(prev) * 10 + dv);
        if !over {
            if acc > (u64::MAX - dv) / 10 {
                over = true;
                assert(acc * 10 + dv > u64::MAX) by (nonlinear_arith)
                    requires acc > (u64::MAX - dv) / 10, dv < 10;
            } else {
                assert(acc * 10 + dv <= u64::MAX) by (nonlinear_arith)
                    requires acc <= (u64::MAX - dv) / 10, dv < 10;
                acc = acc * 10 + dv;
            }
        } else {
            assert(digits_value(prev) * 10 + dv >= digits_value(prev)) by (nonlinear_arith);
        }
        i += 1;
    }
    assert(d.take(i - start) == d);
    assert(all_digits(d));
    if over {
        None
    } else {
        Some(acc)
    }
}

/// `str::parse::<u64>`.
pub fn parse_u64_str(s: &str) -> (r: Option<u64>)
    ensures
        r == parse_u64(s@),
{
    let v = chars_of(s);
    parse_u64_chars(v.as_slice())
}

/// A copy of `v[from..to]`.
pub fn copy_range(v: &[char], from: usize, to: usize) -> (r: Vec<char>)
    requires
        from <= to <= v@.len(),
    ensures
        r@ == v@.subrange(from as int, to as int),
{
    let mut r: Vec<char> = Vec::new();
    let mut i = from;
    while i < to
        invariant
            from <= i <= to <= v@.len(),
            r@ == v@.subrange(from as int, i as int),
        decreases to - i,
    {
        r.push(v[i]);
        assert(v@.subrange(from as int, i + 1) == v@.subrange(from as int, i as int).push(v@[i as int]));
        i += 1;
    }
    r
}

/// `a` comes strictly before `b` in code-point order, which is the order
/// Rust gives `str` and `String` (byte order of UTF-8 is code-point order).
pub open spec fn str_lt(a: Seq<char>, b: Seq<char>) -> bool {
    exists|k: int|
        0 <= k <= a.len() && k <= b.len() && #[trigger] a.take(k) == b.take(k) && (
        (k < a.len() && k < b.len() && a[k] < b[k]) || (k == a.len() && k < b.len()))
}

/// No text comes before itself.
pub proof fn lemma_str_lt_irreflexive(a: Seq<char>)
    ensures
        !str_lt(a, a),
{
}

/// Two texts that differ are ordered one way or the other.
pub proof fn lemma_str_lt_total(a: Seq<char>, b: Seq<char>)
    ensures
        a == b || str_lt(a, b) || str_lt(b, a),
{
    assert(a.take(0) =~= b.take(0));
    lemma_str_lt_total_from(a, b, 0);
}

proof fn lemma_str_lt_total_from(a: Seq<char>, b: Seq<char>, k: int)
    requires
        0 <= k <= a.len(),
        k <= b.len(),
        a.take(k) == b.take(k),
    ensures
        a == b || str_lt(a, b) || str_lt(b, a),
    decreases a.len() - k,
{
    if k == a.len() && k == b.len() {
        assert(a =~= a.take(k));
        assert(b =~= b.take(k));
    } else if k == a.len() {
        assert(str_lt(a, b));
    } else if k == b.len() {
        assert(b.take(k) == a.take(k));
        assert(str_lt(b, a));
    } else if a[k] == b[k] {
        assert(a.take(k + 1) =~= a.take(k).push(a[k]));
        assert(b.take(k + 1) =~= b.take(k).push(b[k]));
        lemma_str_lt_total_from(a, b, k + 1);
    } else if a[k] < b[k] {
        assert(str_lt(a, b));
    } else {
        assert(b.take(k) == a.take(k));
        assert(str_lt(b, a));
    }
}

/// The order is transitive.
pub proof fn lemma_str_lt_transitive(a: Seq<char>, b: Seq<char>, c: Seq<char>)
    requires
        str_lt(a, b),
        str_lt(b, c),
    ensures
        str_lt(a, c),
{
    let k1 = choose|k: int|
        0 <= k <= a.len() && k <= b.len() && #[trigger] a.take(k) == b.take(k) && (
        (k < a.len() && k < b.len() && a[k] < b[k]) || (k == a.len() && k < b.len()));
    let k2 = choose|k: int|
        0 <= k <= b.len() && k <= c.len() && #[trigger] b.take(k) == c.take(k) && (
        (k < b.len() && k < c.len() && b[k] < c[k]) || (k == b.len() && k < c.len()));
    if k1 < k2 {
        assert(c.take(k1) =~= c.take(k2).take(k1));
        assert(b.take(k1) =~= b.take(k2).take(k1));
        assert(b[k1] == b.take(k2)[k1]);
        assert(c[k1] == c.take(k2)[k1]);
        assert(a.take(k1) == c.take(k1));
        assert(str_lt(a, c));
    } else if k2 < k1 {
        assert(a.take(k2) =~= a.take(k1).take(k2));
        assert(b.take(k2) =~= b.take(k1).take(k2));
        assert(a[k2] == a.take(k1)[k2]);
        assert(b[k2] == b.take(k1)[k2]);
        assert(a.take(k2) == c.take(k2));
        assert(str_lt(a, c));
    } else {
        assert(a.take(k1) == c.take(k1));
        assert(str_lt(a, c));
    }
}

/// A number in decimal is nothing but digits, at least one.
pub proof fn lemma_decimal_digits(n: nat)
    ensures
        decimal(n).len() >= 1,
        n >= 10 ==> decimal(n).len() >= 2,
        forall|i: int| 0 <= i < decimal(n).len() ==> '0' <= #[trigger] decimal(n)[i] <= '9',
    decreases n,
{
    if n >= 10 {
        lemma_decimal_digits(n / 10);
        let p = decimal(n / 10);
        assert forall|i: int| 0 <= i < decimal(n).len() implies '0' <= #[trigger] decimal(n)[i] <= '9' by {
            if i < p.len() {
                assert(decimal(n)[i] == p[i]);
            } else {
                assert((48 + (n % 10) as int) as char as int == 48 + (n % 10) as int);
            }
        }
    } else {
        assert((48 + n as int) as char as int == 48 + n as int);
    }
}

/// Different numbers are written differently.
pub proof fn lemma_decimal_injective(n: nat, m: nat)
    requires
        decimal(n) == decimal(m),
    ensures
        n == m,
    decreases n,
{
    lemma_decimal_digits(n);
    lemma_decimal_digits(m);
    let dn = decimal(n);
    if n < 10 && m < 10 {
        assert(dn[0] == decimal(m)[0]);
        assert((48 + n as int) as char as int == 48 + n as int);
        assert((48 + m as int) as char as int == 48 + m as int);
    } else if n >= 10 && m >= 10 {
        assert(dn.last() == decimal(m).last());
        assert((48 + (n % 10) as int) as char as int == 48 + (n % 10) as int);
        assert((48 + (m % 10) as int) as char as int == 48 + (m % 10) as int);
        assert(decimal(n / 10) == dn.drop_last());
        assert(decimal(m / 10) == decimal(m).drop_last());
        lemma_decimal_injective(n / 10, m / 10);
    }
}

/// Is `a` strictly before `b`?
pub fn lex_less(a: &[char], b: &[char]) -> (r: bool)
    ensures
        r == str_lt(a@, b@),
{
    let mut k: usize = 0;
    while k < a.len() && k < b.len() && a[k] == b[k]
        invariant
            k <= a@.len(),
            k <= b@.len(),
            a@.take(k as int) == b@.take(k as int),
        decreases a@.len() - k,
    {
        assert(a@.take(k + 1) == a@.take(k as int).push(a@[k as int]));
        assert(b@.take(k + 1) == b@.take(k as int).push(b@[k as int]));
        k += 1;
    }
    let r = if k < a.len() && k < b.len() {
        a[k] < b[k]
    } else {
        k == a.len() && k < b.len()
    };
    proof {
        if r {
            assert(a@.take(k as int) == b@.take(k as int));
        } else {
            assert forall|j: int|
                0 <= j <= a@.len() && j <= b@.len() && #[trigger] a@.take(j) == b@.take(j)
                implies !((j < a@.len() && j < b@.len() && a@[j] < b@[j]) || (j == a@.len() && j < b@.len())) by {
                if j < k {
                    assert(a@.take(k as int)[j] == a@[j]);
                    assert(b@.take(k as int)[j] == b@[j]);
                } else if j > k {
                    if k < a@.len() && k < b@.len() {
                        assert(a@.take(j)[k as int] == a@[k as int]);
                        assert(b@.take(j)[k as int] == b@[k as int]);
                    }
                }
            }
        }
    }
    r
}

/// Is `a` strictly before `b`?
pub fn str_less(a: &str, b: &str) -> (r: bool)
    ensures
        r == str_lt(a@, b@),
{
    let x = chars_of(a);
    let y = chars_of(b);
    lex_less(x.as_slice(), y.as_slice())
}

/// `char::is_whitespace`: the Unicode `White_Space` property.
pub open spec fn is_whitespace(c: char) -> bool {
    c == '\t' || c == '\n' || c == '\u{0B}' || c == '\u{0C}' || c == '\r' || c == ' '
        || c == '\u{85}' || c == '\u{A0}' || c == '\u{1680}' || ('\u{2000}' <= c <= '\u{200A}')
        || c == '\u{2028}' || c == '\u{2029}' || c == '\u{202F}' || c == '\u{205F}'
        || c == '\u{3000}'
}

pub fn is_whitespace_exec(c: char) -> (r: bool)
    ensures
        r == is_whitespace(c),
{
    c == '\t' || c == '\n' || c == '\u{0B}' || c == '\u{0C}' || c == '\r' || c == ' '
        || c == '\u{85}' || c == '\u{A0}' || c == '\u{1680}' || ('\u{2000}' <= c && c <= '\u{200A}')
        || c == '\u{2028}' || c == '\u{2029}' || c == '\u{202F}' || c == '\u{205F}'
        || c == '\u{3000}'
}

pub open spec fn not_whitespace_at(s: Seq<char>) -> spec_fn(int) -> bool {
    |i: int| !is_whitespace(s[i])
}

/// `s` without leading whitespace (`str::trim_start`).
pub open spec fn trim_start(s: Seq<char>) -> Seq<char> {
    match first_at(s.len() as int, not_whitespace_at(s)) {
        Some(i) => s.skip(i),
        None => Seq::empty(),
    }
}

pub open spec fn not_whitespace_before(s: Seq<char>) -> spec_fn(int) -> bool {
    |i: int| !is_whitespace(s[i])
}

/// `s` without trailing whitespace (`str::trim_end`).
pub open spec fn trim_end(s: Seq<char>) -> Seq<char> {
    match last_at(s.len() as int, not_whitespace_at(s)) {
        Some(i) => s.take(i + 1),
        None => Seq::empty(),
    }
}

/// `str::trim`.
pub open spec fn trim(s: Seq<char>) -> Seq<char> {
    trim_end(trim_start(s))
}

/// Where `v[from..to]` starts once leading whitespace is dropped.
pub fn trim_start_at(v: &[char], from: usize, to: usize) -> (r: usize)
    requires
        from <= to <= v@.len(),
    ensures
        from <= r <= to,
        v@.subrange(r as int, to as int) == trim_start(v@.subrange(from as int, to as int)),
{
    let ghost s = v@.subrange(from as int, to as int);
    let mut i = from;
    while i < to && is_whitespace_exec(v[i])
        invariant
            from <= i <= to <= v@.len(),
            s == v@.subrange(from as int, to as int),
            forall|j: int| from <= j < i ==> is_whitespace(#[trigger] v@[j]),
        decreases to - i,
    {
        i += 1;
    }
    proof {
        assert forall|j: int| 0 <= j < i - from implies !#[trigger] not_whitespace_at(s)(j) by {
            assert(s[j] == v@[from + j]);
        }
        if i < to {
            assert(s[i - from] == v@[i as int]);
            lemma_first_at_some(s.len() as int, not_whitespace_at(s), i - from);
            assert(v@.subrange(i as int, to as int) == s.skip(i - from));
        } else {
            lemma_first_at_none(s.len() as int, not_whitespace_at(s));
            assert(v@.subrange(i as int, to as int) == Seq::<char>::empty());
        }
    }
    i
}

/// Where `v[from..to]` ends once trailing whitespace is dropped.
pub fn trim_end_at(v: &[char], from: usize, to: usize) -> (r: usize)
    requires
        from <= to <= v@.len(),
    ensures
        from <= r <= to,
        v@.subrange(from as int, r as int) == trim_end(v@.subrange(from as int, to as int)),
{
    let ghost s = v@.subrange(from as int, to as int);
    let mut i = to;
    while i > from && is_whitespace_exec(v[i - 1])
        invariant
            from <= i <= to <= v@.len(),
            s == v@.subrange(from as int, to as int),
            forall|j: int| i <= j < to ==> is_whitespace(#[trigger] v@[j]),
        decreases i - from,
    {
        i -= 1;
    }
    proof {
        assert forall|j: int| i - from <= j < s.len() implies !#[trigger] not_whitespace_at(s)(j) by {
            assert(s[j] == v@[from + j]);
        }
        if i > from {
            assert(s[i - from - 1] == v@[i - 1]);
            lemma_last_at_some(s.len() as int, not_whitespace_at(s), i - from - 1);
            assert(v@.subrange(from as int, i as int) == s.take(i - from));
        } else {
            assert forall|j: int| 0 <= j < s.len() implies !#[trigger] not_whitespace_at(s)(j) by {
                assert(s[j] == v@[from + j]);
            }
            lemma_last_at_none(s.len() as int, not_whitespace_at(s));
            assert(v@.subrange(from as int, i as int) == Seq::<char>::empty());
        }
    }
    i
}

/// The pieces `str::splitn(n, ' ')` yields: at most `n`, the last holding
/// the rest of the string.
pub open spec fn splitn_space(s: Seq<char>, n: nat) -> Seq<Seq<char>>
    decreases n,
{
    if n <= 1 {
        seq![s]
    } else {
        match find_char(s, ' ') {
            Some(i) => seq![s.take(i)] + splitn_space(s.skip(i + 1), (n - 1) as nat),
            None => seq![s],
        }
    }
}

/// The pieces of `v[from..to]` split at spaces, at most `n` of them, as
/// index ranges into `v`.
pub fn splitn_space_ranges(v: &[char], from: usize, to: usize, n: usize) -> (r: Vec<(usize, usize)>)
    requires
        from <= to <= v@.len(),
        n >= 1,
    ensures
        r@.len() == splitn_space(v@.subrange(from as int, to as int), n as nat).len(),
        forall|k: int| 0 <= k < r@.len() ==> (#[trigger] r@[k]).0 <= r@[k].1 <= to && from <= r@[k].0
            && v@.subrange(r@[k].0 as int, r@[k].1 as int) == splitn_space(v@.subrange(from as int, to as int), n as nat)[k],
    decreases n,
{
    let ghost s = v@.subrange(from as int, to as int);
    let mut out: Vec<(usize, usize)> = Vec::new();
    if n == 1 {
        out.push((from, to));
        return out;
    }
    let mut i = from;
    while i < to && v[i] != ' '
        invariant
            from <= i <= to <= v@.len(),
            forall|j: int| from <= j < i ==> v@[j] != ' ',
        decreases to - i,
    {
        i += 1;
    }
    if i == to {
        proof {
            assert forall|j: int| 0 <= j < s.len() implies s[j] != ' ' by {
                assert(s[j] == v@[from + j]);
            }
            lemma_find_char_none(s, ' ');
        }
        out.push((from, to));
        return out;
    }
    proof {
        assert forall|j: int| 0 <= j < i - from implies s[j] != ' ' by {
            assert(s[j] == v@[from + j]);
        }
        assert(s[i - from] == v@[i as int]);
        lemma_find_char_some(s, ' ', i - from);
        assert(s.take(i - from) == v@.subrange(from as int, i as int));
        assert(s.skip(i - from + 1) == v@.subrange(i + 1, to as int));
    }
    let rest = splitn_space_ranges(v, i + 1, to, n - 1);
    out.push((from, i));
    let mut k: usize = 0;
    let ghost tail = splitn_space(v@.subrange(i + 1, to as int), (n - 1) as nat);
    let ghost whole = splitn_space(s, n as nat);
    assert(whole == seq![s.take(i - from)] + tail);
    while k < rest.len()
        invariant
            k <= rest@.len(),
            rest@.len() == tail.len(),
            out@.len() == 1 + k,
            whole == seq![s.take(i - from)] + tail,
            from <= i < to,
            out@[0] == (from, i),
            v@.subrange(from as int, i as int) == s.take(i - from),
            forall|q: int| 0 <= q < rest@.len() ==> (#[trigger] rest@[q]).0 <= rest@[q].1 <= to && i + 1 <= rest@[q].0
                && v@.subrange(rest@[q].0 as int, rest@[q].1 as int) == tail[q],
            forall|q: int| 1 <= q < out@.len() ==> #[trigger] out@[q] == rest@[q - 1],
        decreases rest@.len() - k,
    {
        out.push(rest[k]);
        k += 1;
    }
    proof {
        assert forall|q: int| 0 <= q < out@.len() implies (#[trigger] out@[q]).0 <= out@[q].1 <= to && from <= out@[q].0
            && v@.subrange(out@[q].0 as int, out@[q].1 as int) == whole[q] by {
            if q > 0 {
                assert(out@[q] == rest@[q - 1]);
                assert(whole[q] == tail[q - 1]);
            }
        }
    }
    out
}

} // verus!
