//! Which namespaces a viewer may see: asked of the apiserver as the
//! viewer, never decided here. What is decided here is how an answer is
//! read and what is said about what is not shown.

use vstd::prelude::*;
use crate::json::Json;
use crate::text::{decimal, owned, push_decimal, push_str, starts_with, starts_with_str, str_eq};

verus! {

/// How an answer was reached, for the note the UI shows.
#[derive(Debug, Clone, Copy, PartialEq, Eq)]
pub enum Source {
    /// The apiserver listed them for this identity.
    Listed,
    /// The apiserver refused the list, so each was asked about in turn.
    Probed,
    /// The apiserver could not be asked at all. Nothing is claimed and
    /// nothing is hidden.
    Unavailable,
}

/// The namespaces an identity may see, each once, and how that was found.
#[derive(Debug, Clone, PartialEq)]
pub struct Allowed {
    pub namespaces: Vec<String>,
    pub source: Source,
}

/// The line the UI shows about what it is not showing.
pub open spec fn note_spec(hidden: nat, source: Source) -> Seq<char> {
    match source {
        Source::Unavailable => "the apiserver could not be asked what you may see"@,
        _ => if hidden == 1 {
            "1 namespace you cannot view"@
        } else {
            decimal(hidden) + " namespaces you cannot view"@
        },
    }
}

pub fn note(hidden: usize, source: Source) -> (r: String)
    ensures
        r@ == note_spec(hidden as nat, source),
{
    match source {
        Source::Unavailable => owned("the apiserver could not be asked what you may see"),
        _ => {
            if hidden == 1 {
                owned("1 namespace you cannot view")
            } else {
                let mut s = String::new();
                push_decimal(&mut s, hidden as u64);
                push_str(&mut s, " namespaces you cannot view");
                s
            }
        },
    }
}

/// A namespace that is the system's, never a project: `default`,
/// `openshift`, anything under `kube-` or `openshift-`, and the ones the
/// configuration adds.
pub open spec fn system_namespace(ns: Seq<char>, extra: Seq<Seq<char>>) -> bool {
    ||| ns == "default"@
    ||| ns == "openshift"@
    ||| starts_with(ns, "kube-"@)
    ||| starts_with(ns, "openshift-"@)
    ||| extra.contains(ns)
}

pub fn is_system_namespace(ns: &str, extra: &[String]) -> (r: bool)
    ensures
        r == system_namespace(ns@, extra@.map_values(|s: String| s@)),
{
    if str_eq(ns, "default") || str_eq(ns, "openshift") || starts_with_str(ns, "kube-") || starts_with_str(
        ns,
        "openshift-",
    ) {
        return true;
    }
    let ghost ev = extra@.map_values(|s: String| s@);
    let mut i: usize = 0;
    while i < extra.len()
        invariant
            i <= extra@.len(),
            ev == extra@.map_values(|s: String| s@),
            forall|j: int| 0 <= j < i ==> ev[j] != ns@,
        decreases extra@.len() - i,
    {
        if str_eq(extra[i].as_str(), ns) {
            assert(ev[i as int] == ns@);
            return true;
        }
        i += 1;
    }
    assert(!ev.contains(ns@));
    false
}


/// `metadata.name` of every item of a list response, each once, in the
/// order they first appear.
pub open spec fn names_from(items: Seq<Json>) -> Seq<Seq<char>>
    decreases items.len(),
{
    if items.len() == 0 {
        Seq::empty()
    } else {
        let before = names_from(items.drop_last());
        match items.last().path_str(seq!["metadata"@, "name"@]) {
            Some(n) => if before.contains(n) { before } else { before.push(n) },
            None => before,
        }
    }
}

pub open spec fn names_spec(list: Json) -> Seq<Seq<char>> {
    match list.path_arr(seq!["items"@]) {
        Some(items) => names_from(items),
        None => Seq::empty(),
    }
}

pub fn names(list: &Json) -> (r: Vec<String>)
    ensures
        r@.map_values(|s: String| s@) == names_spec(*list),
{
    let mut out: Vec<String> = Vec::new();
    let keys = ["items"];
    assert(crate::json::key_views(keys@) == seq!["items"@]);
    let items = match list.arr_at(&keys) {
        Some(a) => a,
        None => {
            assert(out@.map_values(|s: String| s@) =~= Seq::<Seq<char>>::empty());
            return out;
        },
    };
    let mut i: usize = 0;
    assert(items@.take(0) =~= Seq::<Json>::empty());
    assert(out@.map_values(|s: String| s@) =~= Seq::<Seq<char>>::empty());
    while i < items.len()
        invariant
            i <= items@.len(),
            list.path_arr(seq!["items"@]) == Some(items@),
            out@.map_values(|s: String| s@) == names_from(items@.take(i as int)),
        decreases items@.len() - i,
    {
        assert(items@.take(i + 1).drop_last() == items@.take(i as int));
        assert(items@.take(i + 1).last() == items@[i as int]);
        match crate::json::str2(&items[i], "metadata", "name") {
            Some(n) => {
                let ghost before = out@.map_values(|s: String| s@);
                let mut seen = false;
                let mut j: usize = 0;
                while j < out.len()
                    invariant
                        j <= out@.len(),
                        before == out@.map_values(|s: String| s@),
                        seen <==> exists|k: int| 0 <= k < j && before[k] == n@,
                    decreases out@.len() - j,
                {
                    assert(before[j as int] == out@[j as int]@);
                    if str_eq(out[j].as_str(), n) {
                        seen = true;
                    }
                    proof {
                        if !seen {
                            assert forall|k: int| 0 <= k < j + 1 implies before[k] != n@ by {
                                if k == j {
                                } else {
                                    assert(!(0 <= k < j && before[k] == n@));
                                }
                            }
                        }
                    }
                    j += 1;
                }
                if !seen {
                    out.push(owned(n));
                    assert(out@.map_values(|s: String| s@) =~= before.push(n@));
                } else {
                    assert(before.contains(n@));
                }
                proof {
                    if !seen {
                        assert(!before.contains(n@)) by {
                            if before.contains(n@) {
                                let k = choose|k: int| 0 <= k < before.len() && before[k] == n@;
                                assert(0 <= k < j);
                            }
                        }
                    }
                }
            },
            None => {},
        }
        i += 1;
    }
    assert(items@.take(items@.len() as int) == items@);
    out
}

} // verus!
