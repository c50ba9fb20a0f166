//! Where an upstream is, said two ways.
//!
//! The dial address is what this process connects to, and on a node it is
//! almost always loopback. The viewer address is what a browser elsewhere
//! could use, and it is never loopback. A card describes node-local
//! upstreams in words instead of printing an address that would resolve to
//! the reader's own machine.

use vstd::prelude::*;
use crate::text::{
    all_digits, chars_of, find_char, find_str, find_str_in, first_at, is_ascii_digit,
    lemma_find_char_none, lemma_find_char_some, lemma_first_at_none, lemma_first_at_some,
    lemma_rfind_char_none, lemma_rfind_char_some, owned, find_char_in, rfind_char_in, copy_range, push_str, rsplit_once, starts_with,
    starts_with_exec, str_eq,
};

verus! {

/// What follows the scheme separator, or the whole string without one.
pub open spec fn after_scheme(url: Seq<char>) -> Seq<char> {
    match find_str(url, seq![':', '/', '/']) {
        Some(i) => url.skip(i + 3),
        None => url,
    }
}

pub open spec fn ends_authority(c: char) -> bool {
    c == '/' || c == '?' || c == '#'
}

pub open spec fn authority_end(rest: Seq<char>) -> spec_fn(int) -> bool {
    |i: int| ends_authority(rest[i])
}

/// The authority: everything after the scheme up to the first `/`, `?`
/// or `#`.
#[verifier::opaque]
pub open spec fn authority(url: Seq<char>) -> Seq<char> {
    let rest = after_scheme(url);
    match first_at(rest.len() as int, authority_end(rest)) {
        Some(i) => rest.take(i),
        None => rest,
    }
}

/// Host and port as written in a base URL. A bracketed IPv6 literal is
/// unbracketed; a port is what follows the last `:` when it is all digits.
pub open spec fn host_port_spec(url: Seq<char>) -> (Seq<char>, Option<Seq<char>>) {
    host_port_spec_of(authority(url))
}

/// Host and port of an authority.
#[verifier::opaque]
pub open spec fn host_port_spec_of(a: Seq<char>) -> (Seq<char>, Option<Seq<char>>) {
    if a.len() > 0 && a[0] == '[' && find_char(a, ']') is Some {
        let end = find_char(a, ']')->0;
        let after = a.skip(end + 1);
        (
            a.subrange(1, end),
            if after.len() > 1 && after[0] == ':' { Some(after.skip(1)) } else { None },
        )
    } else {
        match rsplit_once(a, ':') {
            Some((h, p)) => if p.len() > 0 && all_digits(p) { (h, Some(p)) } else { (a, None) },
            None => (a, None),
        }
    }
}

/// Is this host the machine itself?
pub open spec fn loopback_host(host: Seq<char>) -> bool {
    host == "127.0.0.1"@ || host == "localhost"@ || host == "::1"@ || starts_with(host, "127."@)
}

pub open spec fn describe_spec(url: Seq<char>) -> Seq<char> {
    let (host, port) = host_port_spec(url);
    match (loopback_host(host), port) {
        (true, Some(p)) => "on this node :"@ + p,
        (true, None) => "on this node"@,
        (false, Some(p)) => host + ":"@ + p,
        (false, None) => host,
    }
}

/// How an upstream is described: a host that is this machine (127.x,
/// `localhost`, `::1`) is never printed, it is "on this node" with its
/// port; any other host is printed as host, or host:port when the URL
/// gives one.
pub proof fn law_describe(url: Seq<char>)
    ensures
        ({
            let h = host_port_spec(url).0;
            let p = host_port_spec(url).1;
            let local = h == seq!['l', 'o', 'c', 'a', 'l', 'h', 'o', 's', 't'] || h == seq![':', ':', '1']
                || (h.len() >= 4 && h.take(4) == seq!['1', '2', '7', '.']);
            &&& local && p is Some ==> describe_spec(url) == "on this node :"@ + p->0
            &&& local && p is None ==> describe_spec(url) == "on this node"@
            &&& !local && p is Some ==> describe_spec(url) == h + seq![':'] + p->0
            &&& !local && p is None ==> describe_spec(url) == h
        }),
{
    reveal_strlit("localhost");
    reveal_strlit("::1");
    reveal_strlit("127.0.0.1");
    reveal_strlit("127.");
    reveal_strlit(":");
    let h = host_port_spec(url).0;
    let local = h == seq!['l', 'o', 'c', 'a', 'l', 'h', 'o', 's', 't'] || h == seq![':', ':', '1']
        || (h.len() >= 4 && h.take(4) == seq!['1', '2', '7', '.']);
    assert("localhost"@ =~= seq!['l', 'o', 'c', 'a', 'l', 'h', 'o', 's', 't']);
    assert("::1"@ =~= seq![':', ':', '1']);
    assert("127."@ =~= seq!['1', '2', '7', '.']);
    assert(":"@ =~= seq![':']);
    if h == "127.0.0.1"@ {
        assert(h.take(4) =~= seq!['1', '2', '7', '.']);
    }
    assert(loopback_host(h) == local) by {
        if starts_with(h, "127."@) {
            assert(h.take(4) =~= "127."@);
        }
        if h.len() >= 4 && h.take(4) == seq!['1', '2', '7', '.'] {
            assert(starts_with(h, "127."@));
        }
    }
}

pub open spec fn detail_spec(what: Seq<char>, url: Seq<char>, rest: Seq<char>) -> Seq<char> {
    if rest.len() == 0 {
        what + " "@ + describe_spec(url)
    } else {
        what + " "@ + describe_spec(url) + " · "@ + rest
    }
}

fn scheme_separator() -> (v: Vec<char>)
    ensures
        v@ == seq![':', '/', '/'],
{
    let mut v: Vec<char> = Vec::new();
    v.push(':');
    v.push('/');
    v.push('/');
    v
}

fn authority_range(v: &[char]) -> (r: (usize, usize))
    ensures
        r.0 <= r.1 <= v@.len(),
        v@.subrange(r.0 as int, r.1 as int) == authority(v@),
{
    let pat = scheme_separator();
    assert(v@.len() == v.len());
    let ps = pat.as_slice();
    let found = find_str_in(v, ps);
    assert(ps@ == seq![':', '/', '/']);
    let start: usize = match found {
        Some(i) => i + 3,
        None => 0,
    };
    let ghost rest = after_scheme(v@);
    assert(rest == v@.skip(start as int));
    let mut i = start;
    while i < v.len()
        invariant
            start <= i <= v@.len(),
            rest == v@.skip(start as int),
            rest == after_scheme(v@),
            forall|j: int| start <= j < i ==> !ends_authority(#[trigger] v@[j]),
        decreases v@.len() - i,
    {
        let c = v[i];
        if c == '/' || c == '?' || c == '#' {
            proof {
                assert forall|j: int| 0 <= j < i - start implies !#[trigger] authority_end(rest)(j) by {
                    assert(rest[j] == v@[start + j]);
                }
                assert(authority_end(rest)(i - start));
                lemma_first_at_some(rest.len() as int, authority_end(rest), i - start);
                assert(v@.subrange(start as int, i as int) == rest.take(i - start));
                reveal(authority);
            }
            return (start, i);
        }
        i += 1;
    }
    proof {
        assert forall|j: int| 0 <= j < rest.len() implies !#[trigger] authority_end(rest)(j) by {
            assert(rest[j] == v@[start + j]);
        }
        lemma_first_at_none(rest.len() as int, authority_end(rest));
        assert(v@.subrange(start as int, v@.len() as int) == rest);
        reveal(authority);
    }
    (start, v.len())
}

/// The bracketed form: where the `]` is, when the authority opens with `[`
/// and has one.
fn bracket_end(a: &[char]) -> (r: Option<usize>)
    ensures
        r is Some <==> (a@.len() > 0 && a@[0] == '[' && find_char(a@, ']') is Some),
        r matches Some(k) ==> find_char(a@, ']') == Some(k as int) && 0 < k < a@.len(),
{
    if a.len() == 0 || a[0] != '[' {
        return None;
    }
    let r = find_char_in(a, ']');
    r
}

/// Are `a[from..]` all decimal digits?
fn all_digits_from(a: &[char], from: usize) -> (r: bool)
    requires
        from <= a@.len(),
    ensures
        r == all_digits(a@.skip(from as int)),
{
    let mut d = from;
    while d < a.len()
        invariant
            from <= d <= a@.len(),
            forall|j: int| from <= j < d ==> is_ascii_digit(#[trigger] a@[j]),
        decreases a@.len() - d,
    {
        let c = a[d];
        if !('0' <= c && c <= '9') {
            assert(a@.skip(from as int)[d - from] == a@[d as int]);
            return false;
        }
        d += 1;
    }
    assert forall|j: int| 0 <= j < a@.skip(from as int).len()
        implies is_ascii_digit(#[trigger] a@.skip(from as int)[j]) by {
        assert(a@.skip(from as int)[j] == a@[from + j]);
    }
    true
}

/// Host and port as offsets into the authority.
fn host_port_offsets(a: &[char]) -> (r: ((usize, usize), Option<(usize, usize)>))
    ensures
        r.0.0 <= r.0.1 <= a@.len(),
        a@.subrange(r.0.0 as int, r.0.1 as int) == host_port_spec_of(a@).0,
        match (r.1, host_port_spec_of(a@).1) {
            (Some((x, y)), Some(q)) => x <= y <= a@.len() && a@.subrange(x as int, y as int) == q,
            (None, None) => true,
            _ => false,
        },
{
    assert(a@.len() == a.len());
    reveal(host_port_spec_of);
    match bracket_end(a) {
        Some(k) => {
            assert(a@.subrange(1, k as int) == host_port_spec_of(a@).0);
            if a.len() - k > 2 && a[k + 1] == ':' {
                assert(a@.skip(k + 1).skip(1) == a@.subrange(k + 2, a@.len() as int));
                assert(a@.skip(k + 1)[0] == a@[k + 1]);
                assert(host_port_spec_of(a@).1 == Some(a@.subrange(k + 2, a@.len() as int)));
                return ((1, k), Some((k + 2, a.len())));
            }
            return ((1, k), None);
        },
        None => {},
    }
    match rfind_char_in(a, ':') {
        Some(k) => {
            assert(a@.take(k as int) == a@.subrange(0, k as int));
            assert(a@.skip(k + 1) == a@.subrange(k + 1, a@.len() as int));
            if k + 1 < a.len() && all_digits_from(a, k + 1) {
                ((0, k), Some((k + 1, a.len())))
            } else {
                assert(a@.subrange(0, a@.len() as int) == a@);
                ((0, a.len()), None)
            }
        },
        None => {
            assert(a@.subrange(0, a@.len() as int) == a@);
            ((0, a.len()), None)
        },
    }
}

/// Host and port as written in a base URL. Neither is validated — this is
/// for describing a configured string, not for dialling it.
pub fn host_port(url: &str) -> (r: (&str, Option<&str>))
    ensures
        r.0@ == host_port_spec(url@).0,
        match (r.1, host_port_spec(url@).1) {
            (Some(p), Some(q)) => p@ == q,
            (None, None) => true,
            _ => false,
        },
{
    let v = chars_of(url);
    let (s, e) = authority_range(v.as_slice());
    let a = copy_range(v.as_slice(), s, e);
    let ghost au = authority(url@);
    assert(a@ == au);
    let offs = host_port_offsets(a.as_slice());
    let h0 = offs.0.0;
    let h1 = offs.0.1;
    proof {
        assert(a@.subrange(h0 as int, h1 as int) == v@.subrange(s + h0, s + h1));
    }
    let host = url.substring_char(s + h0, s + h1);
    assert(host@ == host_port_spec(url@).0);
    match offs.1 {
        Some((p0, p1)) => {
            proof {
                assert(a@.subrange(p0 as int, p1 as int) == v@.subrange(s + p0, s + p1));
            }
            let port = url.substring_char(s + p0, s + p1);
            assert(host_port_spec(url@).1 == Some(port@));
            (host, Some(port))
        },
        None => (host, None),
    }
}

/// Is this upstream on the machine the console is running on?
pub fn is_loopback(url: &str) -> (r: bool)
    ensures
        r == loopback_host(host_port_spec(url@).0),
{
    let (host, _) = host_port(url);
    let hv = chars_of(host);
    let pre = chars_of("127.");
    str_eq(host, "127.0.0.1") || str_eq(host, "localhost") || str_eq(host, "::1")
        || starts_with_exec(hv.as_slice(), pre.as_slice())
}

/// How a card should name an upstream: node-local endpoints are described,
/// not addressed, because their address means nothing to a reader.
pub fn describe(url: &str) -> (r: String)
    ensures
        r@ == describe_spec(url@),
{
    let (host, port) = host_port(url);
    let lo = is_loopback(url);
    let mut out = String::new();
    match port {
        Some(p) => {
            if lo {
                push_str(&mut out, "on this node :");
                push_str(&mut out, p);
            } else {
                push_str(&mut out, host);
                push_str(&mut out, ":");
                push_str(&mut out, p);
            }
        },
        None => {
            if lo {
                push_str(&mut out, "on this node");
            } else {
                push_str(&mut out, host);
            }
        },
    }
    out
}

/// One line naming a daemon and where it is, for a plugin's detail.
pub fn detail(what: &str, url: &str, rest: &str) -> (r: String)
    ensures
        r@ == detail_spec(what@, url@, rest@),
{
    let where_ = describe(url);
    let mut out = owned(what);
    push_str(&mut out, " ");
    push_str(&mut out, where_.as_str());
    if rest.unicode_len() > 0 {
        push_str(&mut out, " · ");
        push_str(&mut out, rest);
    }
    out
}

} // verus!
