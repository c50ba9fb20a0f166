//! What the plugin's pages are built from: the apiserver card, event rows,
//! quota rows, and the checks a write passes before it reaches the
//! apiserver.

use vstd::prelude::*;
use crate::json::{Json, at1, at2, i64_1, str1, str2};
use crate::json::or_empty;
use crate::k8s::components::{cat, or_else};
use crate::sort::{lemma_sorted_strings, sort_stable, sorted};
use crate::text::{owned, push_decimal, push_str, split_once, split_once_str, str_eq, string_views};
use crate::view::Health;
use crate::events::{Event, Events};
use crate::k8s::objevents::{about, about_container, about_container_spec, about_spec, event, event_source, event_time, involved};
use crate::sort::Order;

verus! {

/// The apiserver card: the probe's verdict, a warning while kinds are
/// still syncing, and idle with no endpoint.
pub open spec fn apiserver_spec(probe: Option<(Health, Seq<char>)>, synced: nat, total: nat) -> (Health, Seq<char>) {
    match probe {
        Some((h, d)) => (
            if h == Health::Healthy {
                if synced == total { Health::Healthy } else { Health::Warn }
            } else {
                h
            },
            d + " · "@ + crate::text::decimal(synced) + "/"@ + crate::text::decimal(total) + " kinds synced"@,
        ),
        None => (Health::Idle, "no rustkube endpoint configured"@),
    }
}

/// How the apiserver is doing (`apiserver_state`), from what its probe
/// said and how many watched kinds have synced.
pub fn apiserver_state(probe: Option<(Health, String)>, synced: usize, total: usize) -> (r: (Health, String))
    ensures
        r.0 == apiserver_spec(crate::k8s::cilium::agent_view(probe), synced as nat, total as nat).0,
        r.1@ == apiserver_spec(crate::k8s::cilium::agent_view(probe), synced as nat, total as nat).1,
{
    match probe {
        Some((h, d)) => {
            let health = match h {
                Health::Healthy => if synced == total { Health::Healthy } else { Health::Warn },
                other => other,
            };
            let mut t = d;
            push_str(&mut t, " · ");
            push_decimal(&mut t, synced as u64);
            push_str(&mut t, "/");
            push_decimal(&mut t, total as u64);
            push_str(&mut t, " kinds synced");
            (health, t)
        },
        None => (Health::Idle, owned("no rustkube endpoint configured")),
    }
}

/// The namespace a store key is filed in, for a check against hidden
/// namespaces: a namespace's own name, a namespaced kind's `ns/` part, and
/// none for a cluster-scoped kind or a key without one.
pub open spec fn key_namespace_spec(kind: Seq<char>, key: Seq<char>) -> Option<Seq<char>> {
    if kind == "ns"@ {
        Some(key)
    } else if crate::k8s::cache::namespaced_kind(kind) {
        match split_once(key, '/') {
            Some((ns, _)) => Some(ns),
            None => None,
        }
    } else {
        None
    }
}

pub fn key_namespace<'a>(kind: &str, key: &'a str) -> (r: Option<&'a str>)
    ensures
        crate::plugins::drive::opt_str(r) == key_namespace_spec(kind@, key@),
{
    if str_eq(kind, "ns") {
        Some(key)
    } else if crate::k8s::cache::is_namespaced(kind) {
        match split_once_str(key, '/') {
            Some((ns, _)) => Some(ns),
            None => None,
        }
    } else {
        None
    }
}

/// One event as the Events page lists it.
#[derive(Debug, Clone)]
pub struct EventRow {
    pub time: String,
    pub kind: String,
    pub reason: String,
    pub object: String,
    pub namespace: String,
    pub message: String,
    pub count: i64,
}

pub open spec fn row_time(e: Json) -> Seq<char> {
    match e.path_str(seq!["lastTimestamp"@]) {
        Some(t) => t,
        None => match e.path_str(seq!["eventTime"@]) {
            Some(t) => t,
            None => or_empty(e.path_str(seq!["metadata"@, "creationTimestamp"@])),
        },
    }
}

/// An event's row (`event_row`).
pub fn event_row(e: &Json) -> (r: EventRow)
    ensures
        r.time@ == row_time(*e),
        r.kind@ == or_empty(e.path_str(seq!["type"@])),
        r.reason@ == or_empty(e.path_str(seq!["reason"@])),
        r.object@ == or_empty(e.path_str(seq!["involvedObject"@, "kind"@])) + "/"@ + or_empty(
            e.path_str(seq!["involvedObject"@, "name"@]),
        ),
        r.namespace@ == or_empty(e.path_str(seq!["involvedObject"@, "namespace"@])),
        r.message@ == or_empty(e.path_str(seq!["message"@])),
        r.count == (match e.path_i64(seq!["count"@]) {
            Some(n) => n,
            None => 1,
        }),
{
    let time = match str1(e, "lastTimestamp") {
        Some(t) => owned(t),
        None => match str1(e, "eventTime") {
            Some(t) => owned(t),
            None => crate::json::text2(e, "metadata", "creationTimestamp"),
        },
    };
    let mut object = crate::json::text2(e, "involvedObject", "kind");
    push_str(&mut object, "/");
    push_str(&mut object, crate::json::text2(e, "involvedObject", "name").as_str());
    EventRow {
        time,
        kind: crate::json::text1(e, "type"),
        reason: crate::json::text1(e, "reason"),
        object,
        namespace: crate::json::text2(e, "involvedObject", "namespace"),
        message: crate::json::text1(e, "message"),
        count: match i64_1(e, "count") {
            Some(n) => n,
            None => 1,
        },
    }
}

/// A quota as a page prints it: each resource with used against hard.
#[derive(Debug, Clone)]
pub struct QuotaRow {
    pub name: String,
    /// `(resource, hard, used)`, by resource name.
    pub resources: Vec<(String, String, String)>,
}

/// The hard limits: the status's, else the spec's.
pub open spec fn quota_hard(q: Json) -> Option<Json> {
    match q.path(seq!["status"@, "hard"@]) {
        Some(h) => Some(h),
        None => q.path(seq!["spec"@, "hard"@]),
    }
}

pub open spec fn obj_keys(m: Seq<(String, Json)>) -> Seq<Seq<char>> {
    m.map_values(|e: (String, Json)| e.0@)
}

pub open spec fn quota_keys(q: Json) -> Seq<Seq<char>> {
    match quota_hard(q) {
        Some(Json::Obj(m)) => sorted(obj_keys(m@)),
        _ => Seq::empty(),
    }
}

pub open spec fn text_in(v: Option<Json>, k: Seq<char>) -> Seq<char> {
    match v {
        Some(x) => match x.member(k) {
            Some(y) => or_empty(y.str_of()),
            None => Seq::empty(),
        },
        None => Seq::empty(),
    }
}

pub open spec fn quota_views(rs: Seq<(String, String, String)>) -> Seq<(Seq<char>, Seq<char>, Seq<char>)> {
    rs.map_values(|r: (String, String, String)| (r.0@, r.1@, r.2@))
}

pub open spec fn quota_resources(q: Json) -> Seq<(Seq<char>, Seq<char>, Seq<char>)> {
    quota_keys(q).map_values(|k: Seq<char>| (k, text_in(quota_hard(q), k), text_in(q.path(seq!["status"@, "used"@]), k)))
}

fn text_in_exec(v: Option<&Json>, k: &str) -> (r: String)
    ensures
        r@ == text_in(match v {
            Some(x) => Some(*x),
            None => None,
        }, k@),
{
    proof {
        reveal_strlit("");
        assert(""@ =~= Seq::<char>::empty());
    }
    match v {
        Some(x) => match x.get(k) {
            Some(y) => match y.as_str() {
                Some(s) => owned(s),
                None => String::new(),
            },
            None => String::new(),
        },
        None => String::new(),
    }
}

/// A quota's row (`quota_row`).
pub fn quota_row(q: &Json) -> (r: QuotaRow)
    ensures
        r.name@ == or_empty(q.path_str(seq!["metadata"@, "name"@])),
        quota_views(r.resources@) == quota_resources(*q),
{
    let hard = match at2(q, "status", "hard") {
        Some(h) => Some(h),
        None => at2(q, "spec", "hard"),
    };
    let used = at2(q, "status", "used");
    let mut keys: Vec<String> = Vec::new();
    match hard {
        Some(Json::Obj(m)) => {
            let mut i: usize = 0;
            while i < m.len()
                invariant
                    i <= m@.len(),
                    string_views(keys@) == obj_keys(m@.take(i as int)),
                decreases m@.len() - i,
            {
                let k = owned(m[i].0.as_str());
                let ghost b = string_views(keys@);
                keys.push(k);
                assert(string_views(keys@) =~= b.push(k@));
                assert(obj_keys(m@.take(i + 1)) =~= obj_keys(m@.take(i as int)).push(m@[i as int].0@));
                i += 1;
            }
            assert(m@.take(m@.len() as int) =~= m@);
        },
        _ => {
            assert(string_views(keys@) =~= Seq::<Seq<char>>::empty());
        },
    }
    let ghost unsorted = keys@;
    let keys = sort_stable(keys);
    proof {
        lemma_sorted_strings(unsorted);
        crate::sort::lemma_sorted_len(unsorted);
    }
    let ghost ks = string_views(keys@);
    assert(ks == quota_keys(*q));
    let mut resources: Vec<(String, String, String)> = Vec::new();
    let mut j: usize = 0;
    while j < keys.len()
        invariant
            j <= keys@.len(),
            ks == string_views(keys@),
            ks == quota_keys(*q),
            hard matches Some(h) ==> quota_hard(*q) == Some(*h),
            hard is None ==> quota_hard(*q) is None,
            used matches Some(u) ==> q.path(seq!["status"@, "used"@]) == Some(*u),
            used is None ==> q.path(seq!["status"@, "used"@]) is None,
            quota_views(resources@) == quota_resources(*q).take(j as int),
        decreases keys@.len() - j,
    {
        let k = keys[j].as_str();
        let row = (owned(k), text_in_exec(hard, k), text_in_exec(used, k));
        let ghost b = quota_views(resources@);
        resources.push(row);
        assert(quota_views(resources@) =~= b.push((row.0@, row.1@, row.2@)));
        assert(quota_resources(*q).take(j + 1) =~= quota_resources(*q).take(j as int).push(quota_resources(*q)[j as int]));
        j += 1;
    }
    assert(quota_resources(*q).take(keys@.len() as int) =~= quota_resources(*q));
    let name = crate::json::text2(q, "metadata", "name");
    QuotaRow { name, resources }
}

/// Whether a write may go into `ns`: a system namespace only for an
/// administrator, and a hidden one not at all (answered as absent).
pub open spec fn write_refusal_spec(ns: Seq<char>, system: bool, admin: bool, hidden: bool) -> Option<Seq<char>> {
    if system && !admin {
        Some(ns + " is a system namespace: workloads go in a project. Choose one, or create one"@)
    } else if hidden {
        Some("no namespace "@ + ns)
    } else {
        None
    }
}

pub fn write_refusal(ns: &str, system: bool, admin: bool, hidden: bool) -> (r: Option<String>)
    ensures
        crate::registry::opt_chars(r) == write_refusal_spec(ns@, system, admin, hidden),
{
    if system && !admin {
        Some(cat(ns, " is a system namespace: workloads go in a project. Choose one, or create one"))
    } else if hidden {
        Some(cat("no namespace ", ns))
    } else {
        None
    }
}

/// What became of one document of an import.
#[derive(Debug, Clone)]
pub enum Applied {
    /// Created, with the status the apiserver answered.
    Created { kind: String, name: String, status: u16 },
    /// Refused for a named object, with why.
    Refused { kind: String, name: String, status: Option<u16>, error: String },
    /// Not even an object to name.
    Invalid { error: String },
}

pub open spec fn applied_line(a: Applied) -> Seq<char> {
    match a {
        Applied::Created { kind, name, .. } => kind@ + " "@ + name@ + " created"@,
        Applied::Refused { kind, name, error, .. } => kind@ + " "@ + name@ + ": "@ + error@,
        Applied::Invalid { error } => error@,
    }
}

pub open spec fn applied_lines(rs: Seq<Applied>) -> Seq<Seq<char>> {
    rs.map_values(|a: Applied| applied_line(a))
}

/// The import's one line: each document's outcome, `; ` between.
pub fn apply_summary(rs: &Vec<Applied>) -> (r: String)
    ensures
        r@ == crate::text::join(applied_lines(rs@), "; "@),
{
    let mut lines: Vec<String> = Vec::new();
    let mut i: usize = 0;
    while i < rs.len()
        invariant
            i <= rs@.len(),
            string_views(lines@) == applied_lines(rs@).take(i as int),
        decreases rs@.len() - i,
    {
        let t = match &rs[i] {
            Applied::Created { kind, name, .. } => {
                let mut t = cat(kind.as_str(), " ");
                push_str(&mut t, name.as_str());
                push_str(&mut t, " created");
                t
            },
            Applied::Refused { kind, name, error, .. } => {
                let mut t = cat(kind.as_str(), " ");
                push_str(&mut t, name.as_str());
                push_str(&mut t, ": ");
                push_str(&mut t, error.as_str());
                t
            },
            Applied::Invalid { error } => owned(error.as_str()),
        };
        let ghost b = string_views(lines@);
        lines.push(t);
        assert(string_views(lines@) =~= b.push(t@));
        assert(applied_lines(rs@).take(i + 1) =~= applied_lines(rs@).take(i as int).push(applied_line(rs@[i as int])));
        i += 1;
    }
    assert(applied_lines(rs@).take(rs@.len() as int) =~= applied_lines(rs@));
    crate::text::join_strings(&lines, "; ")
}

/// Whether any document failed.
pub fn any_failed(rs: &Vec<Applied>) -> (r: bool)
    ensures
        r == exists|i: int| 0 <= i < rs@.len() && !(#[trigger] rs@[i] is Created),
{
    let mut i: usize = 0;
    while i < rs.len()
        invariant
            i <= rs@.len(),
            forall|j: int| 0 <= j < i ==> #[trigger] rs@[j] is Created,
        decreases rs@.len() - i,
    {
        match &rs[i] {
            Applied::Created { .. } => {},
            _ => {
                return true;
            },
        }
        i += 1;
    }
    false
}


/// An event as values: time, type, reason, message, source, count.
pub type EventV = (Seq<char>, Seq<char>, Seq<char>, Seq<char>, Seq<char>, i64);

pub open spec fn event_view(e: Event) -> EventV {
    (e.time@, e.kind@, e.reason@, e.message@, e.source@, e.count)
}

pub open spec fn events_view(es: Seq<Event>) -> Seq<EventV> {
    es.map_values(|e: Event| event_view(e))
}

/// Newer first, as events sort.
impl Order for (Seq<char>, Seq<char>, Seq<char>, Seq<char>, Seq<char>, i64) {
    open spec fn before(&self, other: &Self) -> bool {
        crate::text::str_lt(other.0, self.0)
    }
}

/// An apiserver event in the console's shape.
pub open spec fn event_of(j: Json) -> EventV {
    (
        event_time(j),
        or_empty(j.path_str(seq!["type"@])),
        or_empty(j.path_str(seq!["reason"@])),
        or_empty(j.path_str(seq!["message"@])),
        event_source(j),
        match j.path_i64(seq!["count"@]) {
            Some(n) => n,
            None => 1,
        },
    )
}

pub open spec fn items_of(list: Json) -> Seq<Json> {
    match list.path_arr(seq!["items"@]) {
        Some(a) => a,
        None => Seq::empty(),
    }
}

/// The events about one object (and one container of it, where named).
pub open spec fn about_items(items: Seq<Json>, kind: Seq<char>, ns: Seq<char>, name: Seq<char>, container: Option<Seq<char>>) -> Seq<EventV>
    decreases items.len(),
{
    if items.len() == 0 {
        Seq::empty()
    } else {
        let e = items.last();
        let keep = about_spec(e, kind, ns, name) && match container {
            Some(c) => about_container_spec(e, c),
            None => true,
        };
        about_items(items.drop_last(), kind, ns, name, container) + (if keep { seq![event_of(e)] } else { Seq::empty() })
    }
}

/// At most `cap` of them, newest first.
pub open spec fn newest_of(vs: Seq<EventV>, cap: nat) -> Seq<EventV> {
    sorted(vs).take(if cap < vs.len() { cap as int } else { vs.len() as int })
}

pub proof fn lemma_newest_views(es: Seq<Event>, cap: nat)
    ensures
        events_view(sorted(es).take(if cap < es.len() { cap as int } else { es.len() as int })) == newest_of(events_view(es), cap),
{
    let f = |e: Event| event_view(e);
    assert forall|a: Event, b: Event| #[trigger] a.before(&b) == f(a).before(&f(b)) by {}
    crate::sort::lemma_sorted_map(es, f);
    crate::sort::lemma_sorted_len(es);
    crate::sort::lemma_sorted_len(events_view(es));
    assert(events_view(es) =~= es.map_values(f));
    assert(events_view(sorted(es)) =~= sorted(es).map_values(f));
    let n = if cap < es.len() { cap as int } else { es.len() as int };
    assert(events_view(sorted(es).take(n)) =~= events_view(sorted(es)).take(n));
}

/// How many events a per-object question answers with.
pub open spec fn event_cap() -> nat {
    20
}

/// The answer to a per-object question in a namespace the viewer may not
/// see: the same as for an absent object.
pub open spec fn hidden_answer_spec(kind: Seq<char>, ns: Seq<char>, name: Seq<char>) -> Seq<char> {
    "no "@ + kind + " "@ + ns + "/"@ + name
}

pub fn hidden_answer(kind: &str, ns: &str, name: &str) -> (r: Events)
    ensures
        !r.available,
        r.reason@ == hidden_answer_spec(kind@, ns@, name@),
        r.items@.len() == 0,
{
    let mut t = cat("no ", kind);
    push_str(&mut t, " ");
    push_str(&mut t, ns);
    push_str(&mut t, "/");
    push_str(&mut t, name);
    Events::none(t.as_str())
}

/// What happened to one object, from the namespace's event list or the
/// reason it could not be had (the part of `events` after the fetch).
pub fn object_events(kind: &str, ns: &str, name: &str, container: Option<&str>, list: Result<&Json, &str>) -> (r: Events)
    ensures
        match list {
            Err(e) => !r.available && r.reason@ == "the apiserver did not answer for events: "@ + e@ && r.items@.len() == 0,
            Ok(l) => r.available && r.reason@.len() == 0 && events_view(r.items@) == newest_of(
                about_items(items_of(*l), kind@, ns@, name@, crate::plugins::drive::opt_str(container)),
                event_cap(),
            ),
        },
{
    let l = match list {
        Err(e) => {
            return Events::none(cat("the apiserver did not answer for events: ", e).as_str());
        },
        Ok(l) => l,
    };
    let none: Vec<Json> = Vec::new();
    let items = match crate::json::arr_1(l, "items") {
        Some(a) => a,
        None => &none,
    };
    assert(items@ == items_of(*l));
    let ghost cv = crate::plugins::drive::opt_str(container);
    let mut out: Vec<Event> = Vec::new();
    let mut i: usize = 0;
    assert(items@.take(0) =~= Seq::<Json>::empty());
    assert(events_view(out@) =~= Seq::<EventV>::empty());
    while i < items.len()
        invariant
            i <= items@.len(),
            cv == crate::plugins::drive::opt_str(container),
            events_view(out@) == about_items(items@.take(i as int), kind@, ns@, name@, cv),
        decreases items@.len() - i,
    {
        assert(items@.take(i + 1).drop_last() =~= items@.take(i as int));
        assert(items@.take(i + 1).last() == items@[i as int]);
        let e = &items[i];
        let keep = about(e, kind, ns, name) && match container {
            Some(c) => about_container(e, c),
            None => true,
        };
        if keep {
            let ev = event(e);
            let ghost b = events_view(out@);
            out.push(ev);
            assert(events_view(out@) =~= b.push(event_view(ev)));
        } else {
            assert(events_view(out@) =~= events_view(out@) + Seq::<EventV>::empty());
        }
        i += 1;
    }
    assert(items@.take(items@.len() as int) =~= items@);
    let ghost unsorted = out@;
    let r = Events::of(out).newest(20);
    proof {
        lemma_newest_views(unsorted, 20);
    }
    r
}

/// Whether an event is in a namespace this viewer may not see.
pub open spec fn in_hidden(e: Json, hidden: Option<Seq<Seq<char>>>) -> bool {
    match (hidden, e.path_str(seq!["involvedObject"@, "namespace"@])) {
        (Some(h), Some(ns)) => ns.len() > 0 && h.contains(ns),
        _ => false,
    }
}

/// The cluster's recent events outside the hidden namespaces, each saying
/// what it is about (`kind/name`) in place of what reported it.
pub open spec fn recent_items(items: Seq<Json>, hidden: Option<Seq<Seq<char>>>) -> Seq<EventV>
    decreases items.len(),
{
    if items.len() == 0 {
        Seq::empty()
    } else {
        let e = items.last();
        let v = event_of(e);
        recent_items(items.drop_last(), hidden) + (if !in_hidden(e, hidden) {
            seq![(v.0, v.1, v.2, v.3, involved(e, "kind"@) + "/"@ + involved(e, "name"@), v.5)]
        } else {
            Seq::empty()
        })
    }
}

pub open spec fn recent_cap() -> nat {
    60
}

pub open spec fn hidden_view(h: Option<&[String]>) -> Option<Seq<Seq<char>>> {
    match h {
        Some(v) => Some(crate::view::id_views(v@)),
        None => None,
    }
}

fn in_hidden_exec(e: &Json, hidden: Option<&[String]>) -> (r: bool)
    ensures
        r == in_hidden(*e, hidden_view(hidden)),
{
    match (hidden, str2(e, "involvedObject", "namespace")) {
        (Some(h), Some(ns)) => crate::text::char_len(ns) > 0 && crate::registry::holds_id(h, ns),
        _ => false,
    }
}

/// Recent activity across the cluster, for the dock (the part of
/// `recent_events` after the fetch).
pub fn recent_events(hidden: Option<&[String]>, list: Result<&Json, &str>) -> (r: Events)
    ensures
        match list {
            Err(e) => !r.available && r.reason@ == "the apiserver did not answer: "@ + e@ && r.items@.len() == 0,
            Ok(l) => r.available && r.reason@.len() == 0 && events_view(r.items@) == newest_of(
                recent_items(items_of(*l), hidden_view(hidden)),
                recent_cap(),
            ),
        },
{
    let l = match list {
        Err(e) => {
            return Events::none(cat("the apiserver did not answer: ", e).as_str());
        },
        Ok(l) => l,
    };
    let none: Vec<Json> = Vec::new();
    let items = match crate::json::arr_1(l, "items") {
        Some(a) => a,
        None => &none,
    };
    assert(items@ == items_of(*l));
    let ghost hv = hidden_view(hidden);
    let mut out: Vec<Event> = Vec::new();
    let mut i: usize = 0;
    assert(items@.take(0) =~= Seq::<Json>::empty());
    assert(events_view(out@) =~= Seq::<EventV>::empty());
    while i < items.len()
        invariant
            i <= items@.len(),
            hv == hidden_view(hidden),
            events_view(out@) == recent_items(items@.take(i as int), hv),
        decreases items@.len() - i,
    {
        assert(items@.take(i + 1).drop_last() =~= items@.take(i as int));
        assert(items@.take(i + 1).last() == items@[i as int]);
        let e = &items[i];
        if !in_hidden_exec(e, hidden) {
            let ev = event(e);
            let mut source = crate::json::text2(e, "involvedObject", "kind");
            push_str(&mut source, "/");
            push_str(&mut source, crate::json::text2(e, "involvedObject", "name").as_str());
            let ev = Event { source, ..ev };
            let ghost b = events_view(out@);
            out.push(ev);
            assert(events_view(out@) =~= b.push(event_view(ev)));
        } else {
            assert(events_view(out@) =~= events_view(out@) + Seq::<EventV>::empty());
        }
        i += 1;
    }
    assert(items@.take(items@.len() as int) =~= items@);
    let ghost unsorted = out@;
    let r = Events::of(out).newest(60);
    proof {
        lemma_newest_views(unsorted, 60);
    }
    r
}

/// The annotation that is not one: the whole object as JSON text, which
/// buries every annotation that means something.
pub const LAST_APPLIED: &'static str = "kubectl.kubernetes.io/last-applied-configuration";

pub open spec fn kept_annotations(m: Seq<(String, Json)>) -> Seq<(Seq<char>, Json)>
    decreases m.len(),
{
    if m.len() == 0 {
        Seq::empty()
    } else {
        let rest = kept_annotations(m.drop_last());
        if m.last().0@ == LAST_APPLIED@ {
            rest
        } else {
            rest.push((m.last().0@, m.last().1))
        }
    }
}

/// An object's annotations, minus `last-applied-configuration`; none when
/// it has no annotations object.
pub open spec fn annotations_spec(o: Json) -> Seq<(Seq<char>, Json)> {
    match o.path(seq!["metadata"@, "annotations"@]) {
        Some(Json::Obj(m)) => kept_annotations(m@),
        _ => Seq::empty(),
    }
}

pub open spec fn annotation_views<'a>(r: Seq<(&'a str, &'a Json)>) -> Seq<(Seq<char>, Json)> {
    r.map_values(|e: (&'a str, &'a Json)| (e.0@, *e.1))
}

pub fn annotations_of<'a>(object: &'a Json) -> (r: Vec<(&'a str, &'a Json)>)
    ensures
        annotation_views(r@) == annotations_spec(*object),
{
    let mut out: Vec<(&'a str, &'a Json)> = Vec::new();
    match at2(object, "metadata", "annotations") {
        Some(Json::Obj(m)) => {
            let mut i: usize = 0;
            assert(m@.take(0) =~= Seq::<(String, Json)>::empty());
            assert(annotation_views(out@) =~= Seq::<(Seq<char>, Json)>::empty());
            while i < m.len()
                invariant
                    i <= m@.len(),
                    annotation_views(out@) == kept_annotations(m@.take(i as int)),
                decreases m@.len() - i,
            {
                let ghost o0 = out@;
                proof {
                    assert(m@.take(i + 1).drop_last() =~= m@.take(i as int));
                    assert(m@.take(i + 1).last() == m@[i as int]);
                }
                if !str_eq(m[i].0.as_str(), LAST_APPLIED) {
                    let e = (m[i].0.as_str(), &m[i].1);
                    out.push(e);
                    assert(out@ =~= o0.push(e));
                    assert(annotation_views(out@) =~= annotation_views(o0).push((m@[i as int].0@, m@[i as int].1)));
                }
                i += 1;
            }
            assert(m@.take(m@.len() as int) =~= m@);
        },
        _ => {
            assert(annotation_views(out@) =~= Seq::<(Seq<char>, Json)>::empty());
        },
    }
    out
}

/// A limit range as a page prints it: its name and its limits as they are.
pub fn limit_row<'a>(l: &'a Json) -> (r: (String, Option<&'a Vec<Json>>))
    ensures
        r.0@ == or_empty(l.path_str(seq!["metadata"@, "name"@])),
        match (r.1, l.path_arr(seq!["spec"@, "limits"@])) {
            (Some(a), Some(b)) => a@ == b,
            (None, None) => true,
            _ => false,
        },
{
    (crate::json::text2(l, "metadata", "name"), crate::json::arr_2(l, "spec", "limits"))
}

/// The key the store keeps an object under: `ns/name`, or `name` for one
/// in no namespace; none without a name.
pub open spec fn object_key_spec(obj: Json) -> Option<Seq<char>> {
    match obj.member("metadata"@) {
        Some(meta) => match meta.member("name"@) {
            Some(n) => match n.str_of() {
                Some(name) => match meta.member("namespace"@) {
                    Some(ns) => match ns.str_of() {
                        Some(nst) => Some(nst + "/"@ + name),
                        None => Some(name),
                    },
                    None => Some(name),
                },
                None => None,
            },
            None => None,
        },
        None => None,
    }
}

pub fn object_key(obj: &Json) -> (r: Option<String>)
    ensures
        crate::registry::opt_chars(r) == object_key_spec(*obj),
{
    let meta = match obj.get("metadata") {
        Some(m) => m,
        None => return None,
    };
    let name = match meta.get("name") {
        Some(n) => match n.as_str() {
            Some(t) => t,
            None => return None,
        },
        None => return None,
    };
    match meta.get("namespace") {
        Some(ns) => match ns.as_str() {
            Some(nst) => {
                let mut k = owned(nst);
                push_str(&mut k, "/");
                push_str(&mut k, name);
                Some(k)
            },
            None => Some(owned(name)),
        },
        None => Some(owned(name)),
    }
}

/// One object of a namespace, by its name.
pub struct Named<'a> {
    pub name: String,
    pub object: &'a Json,
}

impl<'a> Order for Named<'a> {
    open spec fn before(&self, other: &Self) -> bool {
        crate::text::str_lt(self.name@, other.name@)
    }
}

impl<'a> crate::sort::Ranked for Named<'a> {
    fn is_before(&self, other: &Self) -> (r: bool) {
        crate::text::str_less(self.name.as_str(), other.name.as_str())
    }
}

pub open spec fn named_views<'a>(v: Seq<Named<'a>>) -> Seq<(Seq<char>, Json)> {
    v.map_values(|n: Named<'a>| (n.name@, *n.object))
}

impl Order for (Seq<char>, Json) {
    open spec fn before(&self, other: &Self) -> bool {
        crate::text::str_lt(self.0, other.0)
    }
}

/// A kind's objects in namespace `ns` (keys under `ns/`), each with its
/// name, in the order given.
pub open spec fn in_namespace(objs: Seq<(String, Json)>, ns: Seq<char>) -> Seq<(Seq<char>, Json)>
    decreases objs.len(),
{
    if objs.len() == 0 {
        Seq::empty()
    } else {
        let rest = in_namespace(objs.drop_last(), ns);
        let (k, v) = objs.last();
        if crate::text::starts_with(k@, ns + "/"@) {
            rest.push((or_empty(v.path_str(seq!["metadata"@, "name"@])), v))
        } else {
            rest
        }
    }
}

/// A kind's objects in a namespace, by name (`objects_in`).
pub fn objects_in<'a>(objs: &'a Vec<(String, Json)>, ns: &str) -> (r: Vec<Named<'a>>)
    ensures
        named_views(r@) == sorted(in_namespace(objs@, ns@)),
{
    let prefix = crate::k8s::components::cat(ns, "/");
    let mut out: Vec<Named<'a>> = Vec::new();
    let mut i: usize = 0;
    assert(objs@.take(0) =~= Seq::<(String, Json)>::empty());
    assert(named_views(out@) =~= Seq::<(Seq<char>, Json)>::empty());
    while i < objs.len()
        invariant
            i <= objs@.len(),
            prefix@ == ns@ + "/"@,
            named_views(out@) == in_namespace(objs@.take(i as int), ns@),
        decreases objs@.len() - i,
    {
        let ghost o0 = out@;
        proof {
            assert(objs@.take(i + 1).drop_last() =~= objs@.take(i as int));
            assert(objs@.take(i + 1).last() == objs@[i as int]);
        }
        if crate::text::starts_with_str(objs[i].0.as_str(), prefix.as_str()) {
            let n = Named { name: crate::json::text2(&objs[i].1, "metadata", "name"), object: &objs[i].1 };
            out.push(n);
            assert(out@ =~= o0.push(n));
            assert(named_views(out@) =~= named_views(o0).push((n.name@, *n.object)));
        }
        i += 1;
    }
    assert(objs@.take(objs@.len() as int) =~= objs@);
    let ghost unsorted = out@;
    let r = sort_stable(out);
    proof {
        crate::sort::lemma_sorted_map(unsorted, |n: Named<'a>| (n.name@, *n.object));
    }
    r
}

/// One line of a namespace's inventory: a kind, what it is called, how
/// many it has, and where that list is.
#[derive(Debug, Clone, PartialEq)]
pub struct InventoryRow {
    pub kind: &'static str,
    pub title: &'static str,
    pub count: usize,
    pub href: String,
}

pub open spec fn inventory_kinds_spec() -> Seq<crate::k8s::cache::ResourceSpec> {
    crate::k8s::cache::resources_spec().filter(|r: crate::k8s::cache::ResourceSpec| r.inventory)
}

/// The kinds a namespace's inventory counts, in catalogue order.
pub fn inventory_kinds() -> (r: Vec<crate::k8s::cache::ResourceSpec>)
    ensures
        r@ == inventory_kinds_spec(),
{
    let all = crate::k8s::cache::resources();
    let ghost a = all@;
    let mut out: Vec<crate::k8s::cache::ResourceSpec> = Vec::new();
    let mut i: usize = 0;
    assert(a.take(0).filter(|r: crate::k8s::cache::ResourceSpec| r.inventory) =~= Seq::<crate::k8s::cache::ResourceSpec>::empty());
    while i < all.len()
        invariant
            i <= a.len(),
            a == all@,
            out@ == a.take(i as int).filter(|r: crate::k8s::cache::ResourceSpec| r.inventory),
        decreases a.len() - i,
    {
        proof {
            assert(a.take(i + 1).drop_last() =~= a.take(i as int));
            reveal(Seq::filter);
        }
        if all[i].inventory {
            out.push(all[i]);
        }
        i += 1;
    }
    assert(a.take(a.len() as int) =~= a);
    out
}

/// A namespace's inventory: each counted kind with its count, linking to
/// its list narrowed to the namespace.
pub fn inventory(ns: &str, counts: &Vec<usize>) -> (r: Vec<InventoryRow>)
    requires
        counts@.len() == inventory_kinds_spec().len(),
    ensures
        r@.len() == counts@.len(),
        forall|i: int| 0 <= i < r@.len() ==> {
            &&& (#[trigger] r@[i]).kind == inventory_kinds_spec()[i].kind
            &&& r@[i].title == inventory_kinds_spec()[i].title
            &&& r@[i].count == counts@[i]
            &&& r@[i].href@ == "#/k8s/"@ + inventory_kinds_spec()[i].kind@ + "?ns="@ + ns@
        },
{
    let kinds = inventory_kinds();
    let mut out: Vec<InventoryRow> = Vec::new();
    let mut i: usize = 0;
    while i < kinds.len()
        invariant
            i <= kinds@.len(),
            kinds@ == inventory_kinds_spec(),
            counts@.len() == kinds@.len(),
            out@.len() == i,
            forall|j: int| 0 <= j < i ==> {
                &&& (#[trigger] out@[j]).kind == inventory_kinds_spec()[j].kind
                &&& out@[j].title == inventory_kinds_spec()[j].title
                &&& out@[j].count == counts@[j]
                &&& out@[j].href@ == "#/k8s/"@ + inventory_kinds_spec()[j].kind@ + "?ns="@ + ns@
            },
        decreases kinds@.len() - i,
    {
        let k = kinds[i];
        let mut href = owned("#/k8s/");
        push_str(&mut href, k.kind);
        push_str(&mut href, "?ns=");
        push_str(&mut href, ns);
        out.push(InventoryRow { kind: k.kind, title: k.title, count: counts[i], href });
        i += 1;
    }
    out
}

/// The cluster's sections: projects first, workloads, networking as
/// diagnosis, storage, events, and what no project owns.
pub fn nav() -> (r: Vec<crate::nav::NavSection>)
    ensures
        crate::nav::sections_view(r@) == seq![("Home"@, 0i32, crate::nav::NavKind::Work, seq![("Overview"@, "#/"@, 0i32), ("Projects"@, "#/projects"@, 1i32)]), ("Workloads"@, 10i32, crate::nav::NavKind::Work, seq![("Pods"@, "#/k8s/pod"@, 0i32), ("Deployments"@, "#/k8s/deploy"@, 20i32), ("StatefulSets"@, "#/k8s/sts"@, 30i32), ("DaemonSets"@, "#/k8s/ds"@, 40i32), ("Jobs"@, "#/k8s/job"@, 50i32), ("CronJobs"@, "#/k8s/cronjob"@, 60i32)]), ("Networking"@, 25i32, crate::nav::NavKind::Admin, seq![("Services"@, "#/k8s/svc"@, 0i32), ("Network policies"@, "#/k8s/netpol"@, 1i32), ("Cilium policies"@, "#/k8s/cnp"@, 2i32), ("Clusterwide policies"@, "#/k8s/ccnp"@, 3i32), ("Cilium endpoints"@, "#/k8s/cep"@, 4i32), ("Cilium nodes"@, "#/k8s/cn"@, 5i32), ("Identities"@, "#/k8s/cid"@, 6i32)]), ("Storage"@, 40i32, crate::nav::NavKind::Work, seq![("PVCs"@, "#/k8s/pvc"@, 0i32)]), ("Observe"@, 30i32, crate::nav::NavKind::Admin, seq![("Events"@, "#/k8s/events"@, 0i32)]), ("Cluster"@, 60i32, crate::nav::NavKind::Admin, seq![("Nodes"@, "#/k8s/node"@, 0i32), ("Namespaces"@, "#/k8s/ns"@, 1i32), ("Persistent volumes"@, "#/k8s/pv"@, 2i32), ("Storage classes"@, "#/k8s/sc"@, 3i32), ("Custom resources"@, "#/k8s/crd"@, 4i32), ("Cluster roles"@, "#/k8s/crole"@, 5i32)])],
{
    let s0_0 = crate::nav::NavSection::new("Home", 0);
    let s0_1 = s0_0.item("Overview", "#/");
    let s0_2 = s0_1.item("Projects", "#/projects");
    assert(crate::nav::items_view(s0_2) =~= seq![("Overview"@, "#/"@, 0i32), ("Projects"@, "#/projects"@, 1i32)]);
    let s1_0 = crate::nav::NavSection::new("Workloads", 10);
    let s1_1 = s1_0.item_at("Pods", "#/k8s/pod", 0);
    let s1_2 = s1_1.item_at("Deployments", "#/k8s/deploy", 20);
    let s1_3 = s1_2.item_at("StatefulSets", "#/k8s/sts", 30);
    let s1_4 = s1_3.item_at("DaemonSets", "#/k8s/ds", 40);
    let s1_5 = s1_4.item_at("Jobs", "#/k8s/job", 50);
    let s1_6 = s1_5.item_at("CronJobs", "#/k8s/cronjob", 60);
    assert(crate::nav::items_view(s1_6) =~= seq![("Pods"@, "#/k8s/pod"@, 0i32), ("Deployments"@, "#/k8s/deploy"@, 20i32), ("StatefulSets"@, "#/k8s/sts"@, 30i32), ("DaemonSets"@, "#/k8s/ds"@, 40i32), ("Jobs"@, "#/k8s/job"@, 50i32), ("CronJobs"@, "#/k8s/cronjob"@, 60i32)]);
    let s2_0 = crate::nav::NavSection::new("Networking", 25).admin();
    let s2_1 = s2_0.item("Services", "#/k8s/svc");
    let s2_2 = s2_1.item("Network policies", "#/k8s/netpol");
    let s2_3 = s2_2.item("Cilium policies", "#/k8s/cnp");
    let s2_4 = s2_3.item("Clusterwide policies", "#/k8s/ccnp");
    let s2_5 = s2_4.item("Cilium endpoints", "#/k8s/cep");
    let s2_6 = s2_5.item("Cilium nodes", "#/k8s/cn");
    let s2_7 = s2_6.item("Identities", "#/k8s/cid");
    assert(crate::nav::items_view(s2_7) =~= seq![("Services"@, "#/k8s/svc"@, 0i32), ("Network policies"@, "#/k8s/netpol"@, 1i32), ("Cilium policies"@, "#/k8s/cnp"@, 2i32), ("Clusterwide policies"@, "#/k8s/ccnp"@, 3i32), ("Cilium endpoints"@, "#/k8s/cep"@, 4i32), ("Cilium nodes"@, "#/k8s/cn"@, 5i32), ("Identities"@, "#/k8s/cid"@, 6i32)]);
    let s3_0 = crate::nav::NavSection::new("Storage", 40);
    let s3_1 = s3_0.item("PVCs", "#/k8s/pvc");
    assert(crate::nav::items_view(s3_1) =~= seq![("PVCs"@, "#/k8s/pvc"@, 0i32)]);
    let s4_0 = crate::nav::NavSection::new("Observe", 30).admin();
    let s4_1 = s4_0.item("Events", "#/k8s/events");
    assert(crate::nav::items_view(s4_1) =~= seq![("Events"@, "#/k8s/events"@, 0i32)]);
    let s5_0 = crate::nav::NavSection::new("Cluster", 60).admin();
    let s5_1 = s5_0.item("Nodes", "#/k8s/node");
    let s5_2 = s5_1.item("Namespaces", "#/k8s/ns");
    let s5_3 = s5_2.item("Persistent volumes", "#/k8s/pv");
    let s5_4 = s5_3.item("Storage classes", "#/k8s/sc");
    let s5_5 = s5_4.item("Custom resources", "#/k8s/crd");
    let s5_6 = s5_5.item("Cluster roles", "#/k8s/crole");
    assert(crate::nav::items_view(s5_6) =~= seq![("Nodes"@, "#/k8s/node"@, 0i32), ("Namespaces"@, "#/k8s/ns"@, 1i32), ("Persistent volumes"@, "#/k8s/pv"@, 2i32), ("Storage classes"@, "#/k8s/sc"@, 3i32), ("Custom resources"@, "#/k8s/crd"@, 4i32), ("Cluster roles"@, "#/k8s/crole"@, 5i32)]);
    let r = vec![s0_2, s1_6, s2_7, s3_1, s4_1, s5_6];
    assert(crate::nav::sections_view(r@) =~= seq![crate::nav::section_view(s0_2), crate::nav::section_view(s1_6), crate::nav::section_view(s2_7), crate::nav::section_view(s3_1), crate::nav::section_view(s4_1), crate::nav::section_view(s5_6)]);
    r
}

} // verus!
