//! Events for one object, as opposed to for a namespace or a cluster.
//!
//! Matched on `involvedObject`, which needs the API kind (`Pod`,
//! `CronJob`) and not the console's own short name. Matching on name alone
//! is wrong: a Service and a Deployment routinely share one, and an event
//! about the wrong object is worse than none, because it is acted on.

use vstd::prelude::*;
use crate::events::{Event, Events};
use crate::json::{Json, key_views, or_empty, str1, str2, text1, text2};
use crate::k8s::cache::{spec, spec_of};
use crate::text::{
    contains_exec, contains_str, owned, push_str, rsplit_once, rsplit_once_str, split_once, split_once_str,
    str_eq, strip_prefix, strip_prefix_str,
};

verus! {

/// The object a component id names: its API kind, namespace and name.
/// `k8s:pod:default/web-1` names `(Pod, default, web-1)`; a cluster-scoped
/// kind has no namespace.
pub open spec fn object_of_spec(id: Seq<char>) -> Option<(Seq<char>, Seq<char>, Seq<char>)> {
    match strip_prefix(id, "k8s:"@) {
        None => None,
        Some(rest) => match split_once(rest, ':') {
            None => None,
            Some((kind, key)) => match spec_of(kind) {
                None => None,
                Some(s) => match (s.namespaced, split_once(key, '/')) {
                    (true, Some((ns, name))) => Some((s.api_kind@, ns, name)),
                    _ => Some((s.api_kind@, Seq::empty(), key)),
                },
            },
        },
    }
}

pub fn object_of(id: &str) -> (r: Option<(&'static str, String, String)>)
    ensures
        match (r, object_of_spec(id@)) {
            (Some((k, ns, name)), Some((a, b, c))) => k@ == a && ns@ == b && name@ == c,
            (None, None) => true,
            _ => false,
        },
{
    let rest = match strip_prefix_str(id, "k8s:") {
        Some(r) => r,
        None => return None,
    };
    let (kind, key) = match split_once_str(rest, ':') {
        Some(p) => p,
        None => return None,
    };
    let s = match spec(kind) {
        Some(s) => s,
        None => return None,
    };
    if s.namespaced {
        match split_once_str(key, '/') {
            Some((ns, name)) => {
                return Some((s.api_kind, owned(ns), owned(name)));
            },
            None => {},
        }
    }
    Some((s.api_kind, String::new(), owned(key)))
}

/// A container: `k8s:container:<ns>/<pod>/<name>`. The kubelet records a
/// container's events against its pod, naming the container in
/// `fieldPath`; the pod is what is asked for.
pub open spec fn container_of_spec(id: Seq<char>) -> Option<(Seq<char>, Seq<char>, Seq<char>)> {
    match strip_prefix(id, "k8s:container:"@) {
        None => None,
        Some(rest) => match split_once(rest, '/') {
            None => None,
            Some((ns, rest2)) => match rsplit_once(rest2, '/') {
                None => None,
                Some((pod, name)) => Some((ns, pod, name)),
            },
        },
    }
}

pub fn container_of(id: &str) -> (r: Option<(String, String, String)>)
    ensures
        match (r, container_of_spec(id@)) {
            (Some((ns, pod, name)), Some((a, b, c))) => ns@ == a && pod@ == b && name@ == c,
            (None, None) => true,
            _ => false,
        },
{
    let rest = match strip_prefix_str(id, "k8s:container:") {
        Some(r) => r,
        None => return None,
    };
    let (ns, rest) = match split_once_str(rest, '/') {
        Some(p) => p,
        None => return None,
    };
    let (pod, name) = match rsplit_once_str(rest, '/') {
        Some(p) => p,
        None => return None,
    };
    Some((owned(ns), owned(pod), owned(name)))
}

/// A string under `involvedObject`, or nothing.
pub open spec fn involved(e: Json, key: Seq<char>) -> Seq<char> {
    or_empty(e.path_str(seq!["involvedObject"@, key]))
}

/// Does this event concern that object? A namespace of nothing matches any.
pub open spec fn about_spec(e: Json, kind: Seq<char>, ns: Seq<char>, name: Seq<char>) -> bool {
    involved(e, "kind"@) == kind && involved(e, "name"@) == name && (ns.len() == 0
        || involved(e, "namespace"@) == ns)
}

pub fn about(e: &Json, kind: &str, ns: &str, name: &str) -> (r: bool)
    ensures
        r == about_spec(*e, kind@, ns@, name@),
{
    let k = text2(e, "involvedObject", "kind");
    let n = text2(e, "involvedObject", "name");
    let s = text2(e, "involvedObject", "namespace");
    str_eq(k.as_str(), kind) && str_eq(n.as_str(), name) && (ns.unicode_len() == 0 || str_eq(s.as_str(), ns))
}

/// Does it concern that container within it? The field path names the
/// container in braces: `spec.containers{app}`.
pub open spec fn about_container_spec(e: Json, name: Seq<char>) -> bool {
    match e.path_str(seq!["involvedObject"@, "fieldPath"@]) {
        Some(p) => contains_str(p, "{"@ + name + "}"@),
        None => false,
    }
}

pub fn about_container(e: &Json, name: &str) -> (r: bool)
    ensures
        r == about_container_spec(*e, name@),
{
    match str2(e, "involvedObject", "fieldPath") {
        Some(p) => {
            let mut pat = owned("{");
            push_str(&mut pat, name);
            push_str(&mut pat, "}");
            contains_exec(p, pat.as_str())
        },
        None => false,
    }
}

/// When it last happened: `lastTimestamp`, else `eventTime`, else when the
/// record was made.
pub open spec fn event_time(e: Json) -> Seq<char> {
    match e.path_str(seq!["lastTimestamp"@]) {
        Some(t) => t,
        None => match e.path_str(seq!["eventTime"@]) {
            Some(t) => t,
            None => or_empty(e.path_str(seq!["metadata"@, "creationTimestamp"@])),
        },
    }
}

/// Who reported it: the component on the host, either alone, or the
/// reporting component when neither is said.
pub open spec fn event_source(e: Json) -> Seq<char> {
    let c = or_empty(e.path_str(seq!["source"@, "component"@]));
    let h = or_empty(e.path_str(seq!["source"@, "host"@]));
    if c.len() > 0 && h.len() > 0 {
        c + " on "@ + h
    } else if c.len() > 0 {
        c
    } else if h.len() > 0 {
        h
    } else {
        or_empty(e.path_str(seq!["reportingComponent"@]))
    }
}

/// One apiserver event, in the console's shape.
pub fn event(e: &Json) -> (r: Event)
    ensures
        r.time@ == event_time(*e),
        r.kind@ == or_empty(e.path_str(seq!["type"@])),
        r.reason@ == or_empty(e.path_str(seq!["reason"@])),
        r.message@ == or_empty(e.path_str(seq!["message"@])),
        r.source@ == event_source(*e),
        r.count == (match e.path_i64(seq!["count"@]) {
            Some(n) => n,
            None => 1,
        }),
{
    let time = match str1(e, "lastTimestamp") {
        Some(t) => owned(t),
        None => match str1(e, "eventTime") {
            Some(t) => owned(t),
            None => text2(e, "metadata", "creationTimestamp"),
        },
    };
    let c = text2(e, "source", "component");
    let h = text2(e, "source", "host");
    let source = if c.as_str().unicode_len() > 0 && h.as_str().unicode_len() > 0 {
        let mut s = c;
        push_str(&mut s, " on ");
        push_str(&mut s, h.as_str());
        s
    } else if c.as_str().unicode_len() > 0 {
        c
    } else if h.as_str().unicode_len() > 0 {
        h
    } else {
        text1(e, "reportingComponent")
    };
    let keys = ["count"];
    assert(key_views(keys@) == seq!["count"@]);
    Event {
        time,
        kind: text1(e, "type"),
        reason: text1(e, "reason"),
        message: text1(e, "message"),
        source,
        count: match e.i64_at(&keys) {
            Some(n) => n,
            None => 1,
        },
    }
}

/// The path to list events from: a namespace's, or the cluster's.
pub open spec fn list_path_spec(ns: Seq<char>) -> Seq<char> {
    if ns.len() == 0 {
        "/api/v1/events"@
    } else {
        "/api/v1/namespaces/"@ + ns + "/events"@
    }
}

pub fn list_path(ns: &str) -> (r: String)
    ensures
        r@ == list_path_spec(ns@),
{
    if ns.unicode_len() == 0 {
        owned("/api/v1/events")
    } else {
        let mut s = owned("/api/v1/namespaces/");
        push_str(&mut s, ns);
        push_str(&mut s, "/events");
        s
    }
}

/// What there is for an object nothing has written events about: an
/// answer, and an empty one.
pub fn empty_for(kind: &str, name: &str) -> (r: Events)
    ensures
        r.available,
        r.reason@.len() == 0,
        r.items@.len() == 0,
{
    Events::of(Vec::new())
}

} // verus!
