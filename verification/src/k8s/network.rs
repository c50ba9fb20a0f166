//! What the network knows about one workload, attached to its own card:
//! whether its datapath is programmed, the identity it has, and which
//! policies select it — all read from Cilium's CRDs, the cluster's own
//! record.

use vstd::prelude::*;
use crate::json::{Json, at1, at2, at3, i64_3, str2};
use crate::k8s::cilium::{cep_health, cep_state};
use crate::k8s::components::{CV, KindObjects, MetricV, RelV, cat, kind_objects, objects_of, or_else, push_metric, toned};
use crate::registry::{comp_view, metric_view, metrics_view, rel_view, rels_view};
use crate::sort::{lemma_sorted_len, lemma_sorted_strings, sort_stable, sorted};
use crate::text::{join, join_strings, owned, push_str, str_eq, strip_prefix, strip_prefix_str, string_views};
use crate::view::{ComponentSummary, Health, Metric, Relation, RelationKind};

verus! {

/// A label name without Cilium's `k8s:` source prefix.
pub open spec fn unprefixed(k: Seq<char>) -> Seq<char> {
    match strip_prefix(k, "k8s:"@) {
        Some(r) => r,
        None => k,
    }
}

fn unprefixed_exec(k: &str) -> (r: &str)
    ensures
        r@ == unprefixed(k@),
{
    match strip_prefix_str(k, "k8s:") {
        Some(r) => r,
        None => k,
    }
}

/// The three labels Cilium adds to every identity.
pub open spec fn bookkeeping(k: Seq<char>) -> bool {
    k == "k8s:io.kubernetes.pod.namespace"@ || k == "k8s:io.cilium.k8s.policy.cluster"@
        || k == "k8s:io.cilium.k8s.policy.serviceaccount"@
}

pub open spec fn identity_part(k: Seq<char>, v: Json) -> Seq<char> {
    match v.str_of() {
        Some(s) => if s.len() > 0 { unprefixed(k) + "="@ + s } else { unprefixed(k) },
        None => unprefixed(k),
    }
}

pub open spec fn identity_parts(m: Seq<(String, Json)>) -> Seq<Seq<char>>
    decreases m.len(),
{
    if m.len() == 0 {
        Seq::empty()
    } else {
        identity_parts(m.drop_last()) + (if !bookkeeping(m.last().0@) {
            seq![identity_part(m.last().0@, m.last().1)]
        } else {
            Seq::empty()
        })
    }
}

/// What an identity number resolves to: the labels Cilium decided the
/// workload is, sorted, without its own bookkeeping.
pub open spec fn identity_labels_spec(cid: Json) -> Seq<char> {
    match cid.member("security-labels"@) {
        Some(Json::Obj(m)) => join(sorted(identity_parts(m@)), " "@),
        _ => Seq::empty(),
    }
}

pub fn identity_labels(cid: &Json) -> (r: String)
    ensures
        r@ == identity_labels_spec(*cid),
{
    let m = match cid.get("security-labels") {
        Some(Json::Obj(m)) => m,
        _ => {
            proof {
                reveal_strlit("");
            }
            return String::new();
        },
    };
    let mut parts: Vec<String> = Vec::new();
    let mut i: usize = 0;
    assert(m@.take(0) =~= Seq::<(String, Json)>::empty());
    assert(string_views(parts@) =~= Seq::<Seq<char>>::empty());
    while i < m.len()
        invariant
            i <= m@.len(),
            string_views(parts@) == identity_parts(m@.take(i as int)),
        decreases m@.len() - i,
    {
        assert(m@.take(i + 1).drop_last() =~= m@.take(i as int));
        assert(m@.take(i + 1).last() == m@[i as int]);
        let k = m[i].0.as_str();
        if !(str_eq(k, "k8s:io.kubernetes.pod.namespace") || str_eq(k, "k8s:io.cilium.k8s.policy.cluster") || str_eq(
            k,
            "k8s:io.cilium.k8s.policy.serviceaccount",
        )) {
            let name = unprefixed_exec(k);
            let t = match m[i].1.as_str() {
                Some(s) => if crate::text::char_len(s) > 0 {
                    let mut t = cat(name, "=");
                    push_str(&mut t, s);
                    t
                } else {
                    owned(name)
                },
                None => owned(name),
            };
            let ghost b = string_views(parts@);
            parts.push(t);
            assert(string_views(parts@) =~= b.push(t@));
        } else {
            assert(string_views(parts@) =~= string_views(parts@) + Seq::<Seq<char>>::empty());
        }
        i += 1;
    }
    assert(m@.take(m@.len() as int) =~= m@);
    let ghost unsorted = parts@;
    let parts = sort_stable(parts);
    proof {
        lemma_sorted_strings(unsorted);
    }
    join_strings(&parts, " ")
}

/// The labels an identity carries, prefixes dropped, in order.
pub open spec fn label_pairs(m: Seq<(String, Json)>) -> Seq<(Seq<char>, Seq<char>)> {
    m.map_values(|e: (String, Json)| (unprefixed(e.0@), or_else(e.1.str_of(), Seq::empty())))
}

pub open spec fn identity_pairs(identity: Option<Json>) -> Seq<(Seq<char>, Seq<char>)> {
    match identity {
        Some(c) => match c.member("security-labels"@) {
            Some(Json::Obj(m)) => label_pairs(m@),
            _ => Seq::empty(),
        },
        None => Seq::empty(),
    }
}

pub open spec fn pair_at(ls: Seq<(Seq<char>, Seq<char>)>, k: Seq<char>) -> spec_fn(int) -> bool {
    |i: int| ls[i].0 == k
}

/// A label's value; the later of two with one name, as a map built from
/// them keeps.
pub open spec fn lookup(ls: Seq<(Seq<char>, Seq<char>)>, k: Seq<char>) -> Option<Seq<char>> {
    match crate::text::last_at(ls.len() as int, pair_at(ls, k)) {
        Some(i) => Some(ls[i].1),
        None => None,
    }
}

pub open spec fn all_match(m: Seq<(String, Json)>, ls: Seq<(Seq<char>, Seq<char>)>) -> bool {
    forall|i: int| 0 <= i < m.len() ==> lookup(ls, unprefixed(#[trigger] m[i].0@)) == m[i].1.str_of()
}

/// Whether one selector picks these labels: a `matchExpressions` is not
/// guessed at; no `matchLabels` selects all only when the selector is an
/// empty object; else every `matchLabels` entry must hold.
pub open spec fn selector_picks(sel: Json, ls: Seq<(Seq<char>, Seq<char>)>) -> bool {
    if sel.member("matchExpressions"@) is Some {
        false
    } else {
        match sel.member("matchLabels"@) {
            Some(Json::Obj(m)) => all_match(m@, ls),
            _ => match sel {
                Json::Obj(o) => o@.len() == 0,
                _ => false,
            },
        }
    }
}

/// Whether a policy selects these labels, by the first of its endpoint,
/// pod and node selectors that it has.
pub open spec fn selects_spec(policy: Json, ls: Seq<(Seq<char>, Seq<char>)>) -> bool {
    match policy.path(seq!["spec"@, "endpointSelector"@]) {
        Some(s) => selector_picks(s, ls),
        None => match policy.path(seq!["spec"@, "podSelector"@]) {
            Some(s) => selector_picks(s, ls),
            None => match policy.path(seq!["spec"@, "nodeSelector"@]) {
                Some(s) => selector_picks(s, ls),
                None => false,
            },
        },
    }
}

fn lookup_exec<'a>(ls: &'a Vec<(String, String)>, k: &str) -> (r: Option<&'a str>)
    ensures
        crate::plugins::drive::opt_str(r) == lookup(pair_views(ls@), k@),
{
    let ghost pv = pair_views(ls@);
    let mut i = ls.len();
    while i > 0
        invariant
            i <= ls@.len(),
            pv == pair_views(ls@),
            forall|j: int| i <= j < ls@.len() ==> !#[trigger] pair_at(pv, k@)(j),
        decreases i,
    {
        i -= 1;
        if str_eq(ls[i].0.as_str(), k) {
            proof {
                crate::text::lemma_last_at_some(pv.len() as int, pair_at(pv, k@), i as int);
            }
            return Some(ls[i].1.as_str());
        }
    }
    proof {
        crate::text::lemma_last_at_none(pv.len() as int, pair_at(pv, k@));
    }
    None
}

pub open spec fn pair_views(ls: Seq<(String, String)>) -> Seq<(Seq<char>, Seq<char>)> {
    ls.map_values(|e: (String, String)| (e.0@, e.1@))
}

#[verifier::loop_isolation(false)]
fn selector_picks_exec(sel: &Json, ls: &Vec<(String, String)>) -> (r: bool)
    ensures
        r == selector_picks(*sel, pair_views(ls@)),
{
    if sel.get("matchExpressions").is_some() {
        return false;
    }
    match sel.get("matchLabels") {
        Some(Json::Obj(m)) => {
            let mut i: usize = 0;
            while i < m.len()
                invariant
                    i <= m@.len(),
                    forall|j: int| 0 <= j < i ==> lookup(pair_views(ls@), unprefixed(#[trigger] m@[j].0@)) == m@[j].1.str_of(),
                decreases m@.len() - i,
            {
                let got = lookup_exec(ls, unprefixed_exec(m[i].0.as_str()));
                let want = m[i].1.as_str();
                let same = match (got, want) {
                    (Some(a), Some(b)) => str_eq(a, b),
                    (None, None) => true,
                    _ => false,
                };
                if !same {
                    assert(lookup(pair_views(ls@), unprefixed(m@[i as int].0@)) != m@[i as int].1.str_of());
                    assert(!all_match(m@, pair_views(ls@)));
                    return false;
                }
                i += 1;
            }
            true
        },
        _ => match sel {
            Json::Obj(o) => o.len() == 0,
            _ => false,
        },
    }
}

/// Does this policy select these labels (`selects`)?
pub fn selects(policy: &Json, ls: &Vec<(String, String)>) -> (r: bool)
    ensures
        r == selects_spec(*policy, pair_views(ls@)),
{
    match at2(policy, "spec", "endpointSelector") {
        Some(s) => selector_picks_exec(s, ls),
        None => match at2(policy, "spec", "podSelector") {
            Some(s) => selector_picks_exec(s, ls),
            None => match at2(policy, "spec", "nodeSelector") {
                Some(s) => selector_picks_exec(s, ls),
                None => false,
            },
        },
    }
}

fn identity_pairs_exec(identity: Option<&Json>) -> (r: Vec<(String, String)>)
    ensures
        pair_views(r@) == identity_pairs(match identity {
            Some(c) => Some(*c),
            None => None,
        }),
{
    let mut out: Vec<(String, String)> = Vec::new();
    let m = match identity {
        Some(c) => match c.get("security-labels") {
            Some(Json::Obj(m)) => m,
            _ => {
                assert(pair_views(out@) =~= Seq::<(Seq<char>, Seq<char>)>::empty());
                return out;
            },
        },
        None => {
            assert(pair_views(out@) =~= Seq::<(Seq<char>, Seq<char>)>::empty());
            return out;
        },
    };
    let mut i: usize = 0;
    while i < m.len()
        invariant
            i <= m@.len(),
            pair_views(out@) == label_pairs(m@.take(i as int)),
        decreases m@.len() - i,
    {
        let k = owned(unprefixed_exec(m[i].0.as_str()));
        let v = match m[i].1.as_str() {
            Some(s) => owned(s),
            None => {
                proof {
                    reveal_strlit("");
                    assert(""@ =~= Seq::<char>::empty());
                }
                String::new()
            },
        };
        let ghost b = pair_views(out@);
        out.push((k, v));
        assert(pair_views(out@) =~= b.push((k@, v@)));
        assert(label_pairs(m@.take(i + 1)) =~= label_pairs(m@.take(i as int)).push(
            (unprefixed(m@[i as int].0@), or_else(m@[i as int].1.str_of(), Seq::empty())),
        ));
        i += 1;
    }
    assert(m@.take(m@.len() as int) =~= m@);
    out
}


/// The policies of one kind that select these labels, as ids; a
/// namespaced policy only within `ns`.
pub open spec fn picked(objs: Seq<(String, Json)>, prefix: Seq<char>, ns: Option<Seq<char>>, ls: Seq<(Seq<char>, Seq<char>)>) -> Seq<Seq<char>>
    decreases objs.len(),
{
    if objs.len() == 0 {
        Seq::empty()
    } else {
        let (key, obj) = objs.last();
        let in_scope = match ns {
            None => true,
            Some(n) => match crate::text::split_once(key@, '/') {
                Some((pns, _)) => pns == n,
                None => false,
            },
        };
        picked(objs.drop_last(), prefix, ns, ls) + (if in_scope && selects_spec(obj, ls) {
            seq![prefix + key@]
        } else {
            Seq::empty()
        })
    }
}

/// Which policies select one workload in `ns`, judged by its identity's
/// labels, sorted.
pub open spec fn selecting_spec(snap: Seq<KindObjects>, ns: Seq<char>, identity: Option<Json>) -> Seq<Seq<char>> {
    let ls = identity_pairs(identity);
    sorted(
        picked(objects_of(snap, "cnp"@), "k8s:cnp:"@, Some(ns), ls) + picked(objects_of(snap, "ccnp"@), "k8s:ccnp:"@, None, ls)
            + picked(objects_of(snap, "netpol"@), "k8s:netpol:"@, Some(ns), ls),
    )
}

fn push_picked(out: &mut Vec<String>, snap: &Vec<KindObjects>, kind: &str, prefix: &str, ns: Option<&str>, ls: &Vec<(String, String)>)
    ensures
        string_views(final(out)@) == string_views(old(out)@) + picked(
            objects_of(snap@, kind@),
            prefix@,
            crate::plugins::drive::opt_str(ns),
            pair_views(ls@),
        ),
{
    let none: Vec<(String, Json)> = Vec::new();
    let objs = crate::k8s::components::objects_in(snap, kind, &none);
    let ghost start = string_views(out@);
    let ghost os = objs@;
    let ghost nsv = crate::plugins::drive::opt_str(ns);
    let mut i: usize = 0;
    assert(os.take(0) =~= Seq::<(String, Json)>::empty());
    assert(string_views(out@) =~= start + Seq::<Seq<char>>::empty());
    while i < objs.len()
        invariant
            i <= os.len(),
            os == objs@,
            nsv == crate::plugins::drive::opt_str(ns),
            string_views(out@) == start + picked(os.take(i as int), prefix@, nsv, pair_views(ls@)),
        decreases os.len() - i,
    {
        assert(os.take(i + 1).drop_last() =~= os.take(i as int));
        assert(os.take(i + 1).last() == os[i as int]);
        let key = objs[i].0.as_str();
        let in_scope = match ns {
            None => true,
            Some(n) => match crate::text::split_once_str(key, '/') {
                Some((pns, _)) => str_eq(pns, n),
                None => false,
            },
        };
        if in_scope && selects(&objs[i].1, ls) {
            let t = cat(prefix, key);
            let ghost b = string_views(out@);
            out.push(t);
            assert(string_views(out@) =~= b.push(t@));
        } else {
            assert(string_views(out@) =~= string_views(out@) + Seq::<Seq<char>>::empty());
        }
        i += 1;
    }
    assert(os.take(os.len() as int) =~= os);
}

/// Which policies select one workload (`selecting`).
pub fn selecting(snap: &Vec<KindObjects>, ns: &str, identity: Option<&Json>) -> (r: Vec<String>)
    ensures
        string_views(r@) == selecting_spec(snap@, ns@, match identity {
            Some(c) => Some(*c),
            None => None,
        }),
{
    let ls = identity_pairs_exec(identity);
    let mut out: Vec<String> = Vec::new();
    assert(string_views(out@) =~= Seq::<Seq<char>>::empty());
    push_picked(&mut out, snap, "cnp", "k8s:cnp:", Some(ns), &ls);
    push_picked(&mut out, snap, "ccnp", "k8s:ccnp:", None, &ls);
    push_picked(&mut out, snap, "netpol", "k8s:netpol:", Some(ns), &ls);
    let ghost unsorted = out@;
    let out = sort_stable(out);
    proof {
        lemma_sorted_strings(unsorted);
    }
    out
}

pub open spec fn obj_at(objs: Seq<(String, Json)>, key: Seq<char>) -> spec_fn(int) -> bool {
    |i: int| objs[i].0@ == key
}

/// The object filed under `key`.
pub open spec fn find_obj(objs: Seq<(String, Json)>, key: Seq<char>) -> Option<Json> {
    match crate::text::first_at(objs.len() as int, obj_at(objs, key)) {
        Some(i) => Some(objs[i].1),
        None => None,
    }
}

fn find_obj_exec<'a>(snap: &'a Vec<KindObjects>, kind: &str, key: &str) -> (r: Option<&'a Json>)
    ensures
        match r {
            Some(j) => find_obj(objects_of(snap@, kind@), key@) == Some(*j),
            None => find_obj(objects_of(snap@, kind@), key@) is None,
        },
{
    let objs = match kind_objects(snap, kind) {
        Some(v) => v,
        None => {
            assert(objects_of(snap@, kind@).len() == 0);
            return None;
        },
    };
    let mut i: usize = 0;
    while i < objs.len()
        invariant
            i <= objs@.len(),
            objs@ == objects_of(snap@, kind@),
            forall|j: int| 0 <= j < i ==> !#[trigger] obj_at(objs@, key@)(j),
        decreases objs@.len() - i,
    {
        if str_eq(objs[i].0.as_str(), key) {
            proof {
                crate::text::lemma_first_at_some(objs@.len() as int, obj_at(objs@, key@), i as int);
            }
            return Some(&objs[i].1);
        }
        i += 1;
    }
    proof {
        crate::text::lemma_first_at_none(objs@.len() as int, obj_at(objs@, key@));
    }
    None
}

pub open spec fn datapath_tone(state: Seq<char>) -> Seq<char> {
    match cep_health(state) {
        Health::Healthy => "ok"@,
        Health::Warn => "warn"@,
        _ => "error"@,
    }
}

pub open spec fn belongs_one(name: Seq<char>, target: Seq<char>) -> RelV {
    (name, RelationKind::BelongsTo, seq![target], None)
}

/// What the network adds to a workload's card: metrics, then edges; none
/// when it has no endpoint or its key names no namespace.
pub open spec fn network_view(snap: Seq<KindObjects>, key: Seq<char>) -> Option<(Seq<MetricV>, Seq<RelV>)> {
    match find_obj(objects_of(snap, "cep"@), key) {
        None => None,
        Some(cep) => match crate::text::split_once(key, '/') {
            None => None,
            Some((ns, _)) => {
                let state = cep_state(cep);
                let m1 = if state.len() > 0 { seq![toned("datapath"@, state, datapath_tone(state))] } else { Seq::empty() };
                let (m2, r1) = match cep.path_i64(seq!["status"@, "identity"@, "id"@]) {
                    Some(id) => {
                        let n = crate::text::signed_decimal(id as int);
                        let cid = find_obj(objects_of(snap, "cid"@), n);
                        let labels = match cid {
                            Some(c) => identity_labels_spec(c),
                            None => Seq::empty(),
                        };
                        let pols = selecting_spec(snap, ns, cid);
                        (
                            seq![
                                toned("identity"@, if labels.len() == 0 { n } else { labels }, "muted"@),
                                toned("policies"@, crate::text::decimal(pols.len()), if pols.len() == 0 { "muted"@ } else { "accent"@ }),
                            ],
                            (if cid is Some { seq![belongs_one("identity"@, "k8s:cid:"@ + n)] } else { Seq::empty() }) + (if pols.len()
                                > 0 {
                                seq![("policy"@, RelationKind::BelongsTo, pols, None::<Seq<char>>)]
                            } else {
                                Seq::empty()
                            }),
                        )
                    },
                    None => (Seq::empty(), Seq::empty()),
                };
                Some((m1 + m2, r1 + seq![belongs_one("endpoint"@, "k8s:cep:"@ + key)]))
            },
        },
    }
}

/// Attach the network's view of one workload to its component
/// (`describe`): only metrics and edges are added.
pub fn describe(snap: &Vec<KindObjects>, key: &str, c: &mut ComponentSummary)
    ensures
        match network_view(snap@, key@) {
            None => *final(c) == *old(c),
            Some((ms, rs)) => {
                &&& final(c).id == old(c).id
                &&& final(c).kind == old(c).kind
                &&& final(c).label == old(c).label
                &&& final(c).health == old(c).health
                &&& final(c).detail == old(c).detail
                &&& final(c).actions == old(c).actions
                &&& final(c).link == old(c).link
                &&& metrics_view(final(c).metrics@) == metrics_view(old(c).metrics@) + ms
                &&& rels_view(final(c).relations@) == rels_view(old(c).relations@) + rs
            },
        },
{
    let cep = match find_obj_exec(snap, "cep", key) {
        Some(x) => x,
        None => {
            return;
        },
    };
    let ns = match crate::text::split_once_str(key, '/') {
        Some((ns, _)) => ns,
        None => {
            return;
        },
    };
    let ghost m0 = metrics_view(c.metrics@);
    let ghost r0 = rels_view(c.relations@);
    let state = match str2(cep, "status", "state") {
        Some(x) => x,
        None => "",
    };
    proof {
        reveal_strlit("");
        assert(state@ =~= cep_state(*cep));
    }
    if crate::text::char_len(state) > 0 {
        let h = crate::k8s::cilium::cep_health_exec(state);
        let tone = match h {
            Health::Healthy => "ok",
            Health::Warn => "warn",
            _ => "error",
        };
        push_metric(&mut c.metrics, "datapath", owned(state), Some(tone));
    }
    let ghost m1 = metrics_view(c.metrics@);
    match i64_3(cep, "status", "identity", "id") {
        Some(id) => {
            let n = crate::text::signed_string(id);
            let cid = find_obj_exec(snap, "cid", n.as_str());
            let labels = match cid {
                Some(x) => identity_labels(x),
                None => String::new(),
            };
            let pols = selecting(snap, ns, cid);
            let shown = if crate::text::char_len(labels.as_str()) == 0 { owned(n.as_str()) } else { labels };
            push_metric(&mut c.metrics, "identity", shown, Some("muted"));
            push_metric(
                &mut c.metrics,
                "policies",
                crate::text::decimal_string(pols.len() as u64),
                Some(if pols.len() == 0 { "muted" } else { "accent" }),
            );
            if cid.is_some() {
                crate::plugins::block::belongs(&mut c.relations, "identity", cat("k8s:cid:", n.as_str()));
            }
            if pols.len() > 0 {
                let r = Relation { name: owned("policy"), kind: RelationKind::BelongsTo, targets: pols, href: None };
                let ghost b = rels_view(c.relations@);
                c.relations.push(r);
                assert(rels_view(c.relations@) =~= b.push(rel_view(r)));
            }
        },
        None => {},
    }
    crate::plugins::block::belongs(&mut c.relations, "endpoint", cat("k8s:cep:", key));
    assert(network_view(snap@, key@) matches Some((ms, rs)) && metrics_view(c.metrics@) =~= m0 + ms && rels_view(c.relations@)
        =~= r0 + rs);
}


pub open spec fn obj_len(v: Option<Json>) -> Option<nat> {
    match v {
        Some(Json::Obj(m)) => Some(m@.len()),
        _ => None,
    }
}

/// Addresses used and in a node's pod pool, where the node has a pool.
pub open spec fn ipam_spec(cn: Json) -> Option<(nat, nat)> {
    match obj_len(cn.path(seq!["spec"@, "ipam"@, "pool"@])) {
        Some(total) => Some((
            match obj_len(cn.path(seq!["status"@, "ipam"@, "used"@])) {
                Some(u) => u,
                None => 0,
            },
            total,
        )),
        None => None,
    }
}

pub fn ipam(cn: &Json) -> (r: Option<(usize, usize)>)
    ensures
        match (r, ipam_spec(*cn)) {
            (Some((u, t)), Some((su, st))) => u == su && t == st,
            (None, None) => true,
            _ => false,
        },
{
    let total = match at3(cn, "spec", "ipam", "pool") {
        Some(Json::Obj(m)) => m.len(),
        _ => {
            return None;
        },
    };
    let used = match at3(cn, "status", "ipam", "used") {
        Some(Json::Obj(m)) => m.len(),
        _ => 0,
    };
    Some((used, total))
}

/// What the address count adds to a node's card: the metric, warning with
/// a tenth left and an error with none, and a healthy card turned to a
/// warning when none are left.
pub open spec fn ipam_view(cn: Json, health: Health) -> Option<(MetricV, Health)> {
    match ipam_spec(cn) {
        None => None,
        Some((used, total)) => if total == 0 {
            None
        } else {
            let free: nat = if total > used { (total - used) as nat } else { 0 };
            let tone = if free == 0 { "error"@ } else if free * 10 <= total { "warn"@ } else { "ok"@ };
            Some((
                toned("addresses"@, crate::text::decimal(free) + " free of "@ + crate::text::decimal(total), tone),
                if free == 0 && health == Health::Healthy { Health::Warn } else { health },
            ))
        },
    }
}

pub fn ipam_metric(cn: &Json, c: &mut ComponentSummary)
    ensures
        match ipam_view(*cn, old(c).health) {
            None => *final(c) == *old(c),
            Some((m, h)) => {
                &&& final(c).id == old(c).id
                &&& final(c).kind == old(c).kind
                &&& final(c).label == old(c).label
                &&& final(c).health == h
                &&& final(c).detail == old(c).detail
                &&& final(c).actions == old(c).actions
                &&& final(c).relations == old(c).relations
                &&& final(c).link == old(c).link
                &&& metrics_view(final(c).metrics@) == metrics_view(old(c).metrics@).push(m)
            },
        },
{
    let (used, total) = match ipam(cn) {
        Some(x) => x,
        None => {
            return;
        },
    };
    if total == 0 {
        return;
    }
    let free = if total > used { total - used } else { 0 };
    let tone = if free == 0 {
        "error"
    } else if free <= total / 10 {
        "warn"
    } else {
        "ok"
    };
    assert((free <= total / 10) == (free * 10 <= total)) by (nonlinear_arith)
        requires
            total > 0,
    ;
    let mut t = crate::text::decimal_string(free as u64);
    push_str(&mut t, " free of ");
    crate::text::push_decimal(&mut t, total as u64);
    push_metric(&mut c.metrics, "addresses", t, Some(tone));
    let healthy = match c.health {
        Health::Healthy => true,
        _ => false,
    };
    if free == 0 && healthy {
        c.health = Health::Warn;
    }
}

} // verus!
