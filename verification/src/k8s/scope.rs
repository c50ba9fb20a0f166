//! What a namespace hides, read off component ids and apiserver paths
//! without consulting any object.

use vstd::prelude::*;
use crate::k8s::cache::{is_namespaced, namespaced_kind};
use crate::text::{
    chars_of, find_char, find_char_in, find_str, find_str_in, split_once, split_once_str, str_eq, strip_prefix,
    strip_prefix_str,
};

verus! {

pub open spec fn views(v: Seq<String>) -> Seq<Seq<char>> {
    v.map_values(|s: String| s@)
}

/// Is this component id outside every hidden namespace? Ids are
/// `k8s:<kind>:<key>`, the key `ns/name` for a namespaced kind; a kind this
/// console does not know is cluster-scoped and stays visible, and so does
/// anything that is not the plugin's.
pub open spec fn visible_spec(id: Seq<char>, hidden: Seq<Seq<char>>) -> bool {
    match strip_prefix(id, "k8s:"@) {
        None => true,
        Some(rest) => match split_once(rest, ':') {
            None => true,
            Some((kind, key)) => if kind == "ns"@ {
                !hidden.contains(key)
            } else if !namespaced_kind(kind) {
                true
            } else {
                match split_once(key, '/') {
                    Some((ns, _)) => !hidden.contains(ns),
                    None => true,
                }
            },
        },
    }
}

fn holds(hidden: &[String], s: &str) -> (r: bool)
    ensures
        r == views(hidden@).contains(s@),
{
    let mut i: usize = 0;
    while i < hidden.len()
        invariant
            i <= hidden@.len(),
            forall|j: int| 0 <= j < i ==> hidden@[j]@ != s@,
        decreases hidden@.len() - i,
    {
        if str_eq(hidden[i].as_str(), s) {
            assert(views(hidden@)[i as int] == s@);
            return true;
        }
        i += 1;
    }
    proof {
        if views(hidden@).contains(s@) {
            let k = choose|k: int| 0 <= k < views(hidden@).len() && views(hidden@)[k] == s@;
            assert(hidden@[k]@ == s@);
        }
    }
    false
}

pub fn visible_to(id: &str, hidden: &[String]) -> (r: bool)
    ensures
        r == visible_spec(id@, views(hidden@)),
{
    let rest = match strip_prefix_str(id, "k8s:") {
        Some(r) => r,
        None => return true,
    };
    let (kind, key) = match split_once_str(rest, ':') {
        Some(p) => p,
        None => return true,
    };
    if str_eq(kind, "ns") {
        return !holds(hidden, key);
    }
    if !is_namespaced(kind) {
        return true;
    }
    match split_once_str(key, '/') {
        Some((ns, _)) => !holds(hidden, ns),
        None => true,
    }
}

/// The namespace an apiserver path acts in: the segment after
/// `/namespaces/`, when there is one and it is not empty.
pub open spec fn namespace_in_path_spec(path: Seq<char>) -> Option<Seq<char>> {
    match find_str(path, "/namespaces/"@) {
        None => None,
        Some(i) => {
            let rest = path.skip(i + 12);
            let ns = match find_char(rest, '/') {
                Some(j) => rest.take(j),
                None => rest,
            };
            if ns.len() > 0 { Some(ns) } else { None }
        },
    }
}

pub fn namespace_in_path(path: &str) -> (r: Option<&str>)
    ensures
        match (r, namespace_in_path_spec(path@)) {
            (Some(a), Some(b)) => a@ == b,
            (None, None) => true,
            _ => false,
        },
{
    let v = chars_of(path);
    let pat = chars_of("/namespaces/");
    proof {
        reveal_strlit("/namespaces/");
    }
    assert(pat@.len() == 12);
    let n = v.len();
    let i = match find_str_in(v.as_slice(), pat.as_slice()) {
        Some(i) => i,
        None => return None,
    };
    assert(i + 12 <= n);
    let start = i + 12;
    let rest = path.substring_char(start, n);
    let rv = chars_of(rest);
    let end = match find_char_in(rv.as_slice(), '/') {
        Some(j) => j,
        None => rv.len(),
    };
    if end == 0 {
        return None;
    }
    Some(rest.substring_char(0, end))
}

/// What a viewer may see of the cluster: everything when the apiserver
/// could not say, otherwise everything outside the namespaces it hides,
/// with their count and the line that says so.
pub fn viewer_access(hidden: Option<(Vec<String>, String)>) -> (a: crate::access::Access)
    ensures
        match hidden {
            None => a is Unrestricted,
            Some((h, n)) => a matches crate::access::Access::Limited(s)
                && s.allow == crate::access::Allow::OutsideNamespaces(h)
                && s.hidden == h@.len()
                && s.note@ == n@,
        },
{
    match hidden {
        None => crate::access::Access::Unrestricted,
        Some((h, n)) => {
            let count = h.len();
            crate::access::Access::limited(crate::access::Allow::OutsideNamespaces(h), count, n.as_str())
        },
    }
}

} // verus!
