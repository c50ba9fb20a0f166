//! Where a proxied request goes: an upstream daemon's address joined to the
//! path the browser asked for, so upstream addresses stay server-side.

use vstd::prelude::*;
use crate::feed::{trim_end_char, trim_end_matches, trim_start_char, trim_start_matches};
use crate::text::push_str;

verus! {

/// The upstream URL for `path` (relative to `upstream`), with the query
/// string when there is one: exactly one `/` between the two.
pub open spec fn proxy_url_spec(upstream: Seq<char>, path: Seq<char>, query: Option<Seq<char>>) -> Seq<char> {
    let base = trim_end_char(upstream, '/') + "/"@ + trim_start_char(path, '/');
    match query {
        Some(q) => base + "?"@ + q,
        None => base,
    }
}

pub fn proxy_url(upstream: &str, path: &str, query: Option<&str>) -> (r: String)
    ensures
        r@ == proxy_url_spec(upstream@, path@, match query {
            Some(q) => Some(q@),
            None => None,
        }),
{
    let mut url = trim_end_matches(upstream, '/');
    push_str(&mut url, "/");
    let p = trim_start_matches(path, '/');
    push_str(&mut url, p.as_str());
    match query {
        Some(q) => {
            push_str(&mut url, "?");
            push_str(&mut url, q);
        },
        None => {},
    }
    url
}

} // verus!
