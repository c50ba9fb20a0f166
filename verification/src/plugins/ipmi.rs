//! Machines through stormipmi: what the proxy forwards, who may write,
//! and where a serial console is dialled.

use vstd::prelude::*;
use crate::access::Viewer;
use crate::feed::{trim_end_char, trim_end_matches, trim_start_char, trim_start_matches};
use crate::text::{chars_of, owned, push_str, starts_with, starts_with_str, str_eq, strip_prefix, strip_prefix_str};

verus! {

pub const NAME: &'static str = "ipmi";

/// Reads are open; anything else only to an administrator.
pub open spec fn allowed_spec(method: Seq<char>, admin: bool) -> bool {
    method == "GET"@ || method == "HEAD"@ || method == "OPTIONS"@ || admin
}

/// May this viewer do this to a machine? `method` is the HTTP method's
/// name.
pub fn allowed(method: &str, viewer: &Viewer) -> (r: bool)
    ensures
        r == allowed_spec(method@, viewer.holds("admin"@)),
{
    str_eq(method, "GET") || str_eq(method, "HEAD") || str_eq(method, "OPTIONS") || viewer.has_role("admin")
}

/// Does a `.` or `..` segment start at `a`?
pub open spec fn dot_segment_at(p: Seq<char>, a: int) -> bool {
    &&& 0 <= a < p.len()
    &&& (a == 0 || p[a - 1] == '/')
    &&& p[a] == '.'
    &&& (a + 1 == p.len() || p[a + 1] == '/' || (p[a + 1] == '.' && (a + 2 == p.len() || p[a + 2] == '/')))
}

pub open spec fn has_dot_segment(p: Seq<char>) -> bool {
    exists|a: int| #[trigger] dot_segment_at(p, a)
}

/// The only upstream paths the proxy forwards: the Machines API, the
/// releases and hosts it needs, and the feed; never one that climbs.
pub open spec fn forwardable_spec(path: Seq<char>) -> bool {
    let p = trim_start_char(path, '/');
    !has_dot_segment(p) && (starts_with(p, "api/v1/machines"@) || starts_with(p, "api/v1/releases"@)
        || starts_with(p, "api/v1/hosts"@) || p == "api/v1/components"@)
}

pub fn forwardable(path: &str) -> (r: bool)
    ensures
        r == forwardable_spec(path@),
{
    let p = trim_start_matches(path, '/');
    let v = chars_of(p.as_str());
    let n = v.len();
    let mut a: usize = 0;
    while a < n
        invariant
            a <= n,
            n == v@.len(),
            v@ == p@,
            p@ == trim_start_char(path@, '/'),
            forall|b: int| 0 <= b < a ==> !dot_segment_at(p@, b),
        decreases n - a,
    {
        let starts = a == 0 || v[a - 1] == '/';
        if starts && v[a] == '.' {
            let one = a + 1 == n || v[a + 1] == '/';
            let two = a + 1 < n && v[a + 1] == '.' && (a + 2 == n || v[a + 2] == '/');
            if one || two {
                assert(dot_segment_at(p@, a as int));
                assert(has_dot_segment(p@));
                return false;
            }
        }
        a += 1;
    }
    let ps = p.as_str();
    starts_with_str(ps, "api/v1/machines") || starts_with_str(ps, "api/v1/releases") || starts_with_str(
        ps,
        "api/v1/hosts",
    ) || str_eq(ps, "api/v1/components")
}

/// `http://host:port` and a path: the `ws://` (or `wss://`) URL to dial.
pub open spec fn ws_url_spec(base: Seq<char>, path: Seq<char>) -> Seq<char> {
    let b = trim_end_char(base, '/');
    (match strip_prefix(b, "https://"@) {
        Some(rest) => "wss://"@ + rest,
        None => match strip_prefix(b, "http://"@) {
            Some(rest) => "ws://"@ + rest,
            None => "ws://"@ + b,
        },
    }) + path
}

pub fn ws_url(base: &str, path: &str) -> (r: String)
    ensures
        r@ == ws_url_spec(base@, path@),
{
    let b = trim_end_matches(base, '/');
    let mut out = match strip_prefix_str(b.as_str(), "https://") {
        Some(rest) => {
            let mut s = owned("wss://");
            push_str(&mut s, rest);
            s
        },
        None => match strip_prefix_str(b.as_str(), "http://") {
            Some(rest) => {
                let mut s = owned("ws://");
                push_str(&mut s, rest);
                s
            },
            None => {
                let mut s = owned("ws://");
                push_str(&mut s, b.as_str());
                s
            },
        },
    };
    push_str(&mut out, path);
    out
}

/// Machines, under Hardware beside the drives.
pub fn nav() -> (r: Vec<crate::nav::NavSection>)
    ensures
        crate::nav::sections_view(r@) == seq![("Hardware"@, 45i32, crate::nav::NavKind::Admin, seq![("Machines"@, "#/machines"@, 0i32)])],
{
    let s0_0 = crate::nav::NavSection::new("Hardware", 45).admin();
    let s0_1 = s0_0.item_at("Machines", "#/machines", 0);
    assert(crate::nav::items_view(s0_1) =~= seq![("Machines"@, "#/machines"@, 0i32)]);
    let r = vec![s0_1];
    assert(crate::nav::sections_view(r@) =~= seq![crate::nav::section_view(s0_1)]);
    r
}

} // verus!
