//! Cilium through its CRDs: endpoints, nodes, identities and policies, the
//! core NetworkPolicy beside them, and one card that says how the CNI is
//! doing, the agent's own word included.

use vstd::prelude::*;
use crate::json::{Json, arr_1, arr_2, arr_3, at1, at2, at3, i64_3, str1, str2};
use crate::k8s::components::{
    ActionV, base, cat, objects_in, push_metric, push_ns_relation, split_key, CV, KindObjects, MetricV, RelV, base_cv, cv_of, keys, kind_objects, ns_relation_spec, objects_of, or_else,
    plain, present, split_key_spec, toned, views_of,
};
use crate::registry::{action_view, actions_view, comp_view, metric_view, metrics_view, rel_view, rels_view};
use crate::sort::{lemma_sorted_len, lemma_sorted_strings, sort_stable, sorted};
use crate::text::{
    decimal, join, join_strings, owned, push_decimal, push_signed, push_str, signed_decimal, starts_with,
    starts_with_str, str_eq, strip_prefix, strip_prefix_str, string_views,
};
use crate::view::{Action, ComponentSummary, Health, Metric, Relation, RelationKind};

verus! {

/// Whether a kind holds an object under `key`.
pub open spec fn has_key(snap: Seq<KindObjects>, kind: Seq<char>, key: Seq<char>) -> bool {
    keys(objects_of(snap, kind)).contains(key)
}

fn holds_key(snap: &Vec<KindObjects>, kind: &str, key: &str) -> (r: bool)
    ensures
        r == has_key(snap@, kind@, key@),
{
    match kind_objects(snap, kind) {
        None => {
            assert(keys(objects_of(snap@, kind@)) =~= Seq::<Seq<char>>::empty());
            false
        },
        Some(objs) => {
            let mut i: usize = 0;
            while i < objs.len()
                invariant
                    i <= objs@.len(),
                    objs@ == objects_of(snap@, kind@),
                    forall|j: int| 0 <= j < i ==> objs@[j].0@ != key@,
                decreases objs@.len() - i,
            {
                if str_eq(objs[i].0.as_str(), key) {
                    assert(keys(objs@)[i as int] == key@);
                    return true;
                }
                i += 1;
            }
            assert forall|j: int| 0 <= j < keys(objs@).len() implies keys(objs@)[j] != key@ by {
                assert(keys(objs@)[j] == objs@[j].0@);
            }
            false
        },
    }
}

/// `str::trim_start_matches` with a text pattern: every leading copy of
/// `pat` taken off.
pub open spec fn strip_all(s: Seq<char>, pat: Seq<char>) -> Seq<char>
    decreases s.len(),
{
    if pat.len() > 0 && starts_with(s, pat) {
        strip_all(s.skip(pat.len() as int), pat)
    } else {
        s
    }
}

fn strip_all_exec<'a>(s: &'a str, pat: &str) -> (r: &'a str)
    ensures
        r@ == strip_all(s@, pat@),
{
    if crate::text::char_len(pat) == 0 {
        return s;
    }
    let mut cur = s;
    loop
        invariant
            pat@.len() > 0,
            strip_all(cur@, pat@) == strip_all(s@, pat@),
        decreases cur@.len(),
    {
        match strip_prefix_str(cur, pat) {
            Some(rest) => {
                cur = rest;
            },
            None => {
                return cur;
            },
        }
    }
}

/// Whether a label shows in a summary: Cilium's own and the namespace
/// label are left out.
pub open spec fn label_shown(k: Seq<char>) -> bool {
    !starts_with(k, "k8s:io.cilium"@) && !starts_with(k, "k8s:io.kubernetes.pod.namespace"@)
}

/// `k=v` for one label, Cilium's `k8s:` prefixes dropped.
pub open spec fn label_text(k: Seq<char>, v: Json) -> Seq<char> {
    strip_all(k, "k8s:"@) + "="@ + or_else(v.str_of(), Seq::empty())
}

pub open spec fn label_parts(m: Seq<(String, Json)>) -> Seq<Seq<char>>
    decreases m.len(),
{
    if m.len() == 0 {
        Seq::empty()
    } else {
        let (k, v) = m.last();
        label_parts(m.drop_last()) + (if label_shown(k@) { seq![label_text(k@, v)] } else { Seq::empty() })
    }
}

/// `k=v, k=v` from a label map: sorted, at most `max` of them, and `+n`
/// for the rest.
pub open spec fn labels_summary_spec(v: Option<Json>, max: nat) -> Seq<char> {
    match v {
        Some(Json::Obj(m)) => {
            let parts = sorted(label_parts(m@));
            let more: nat = if parts.len() > max { (parts.len() - max) as nat } else { 0 };
            let kept = if parts.len() > max { parts.take(max as int) } else { parts };
            join(kept, ", "@) + (if more > 0 { " +"@ + decimal(more) } else { Seq::empty() })
        },
        _ => Seq::empty(),
    }
}

fn label_parts_exec(m: &Vec<(String, Json)>) -> (r: Vec<String>)
    ensures
        string_views(r@) == label_parts(m@),
{
    let mut out: Vec<String> = Vec::new();
    let mut i: usize = 0;
    assert(m@.take(0) =~= Seq::<(String, Json)>::empty());
    assert(string_views(out@) =~= Seq::<Seq<char>>::empty());
    while i < m.len()
        invariant
            i <= m@.len(),
            string_views(out@) == label_parts(m@.take(i as int)),
        decreases m@.len() - i,
    {
        assert(m@.take(i + 1).drop_last() =~= m@.take(i as int));
        assert(m@.take(i + 1).last() == m@[i as int]);
        let k = m[i].0.as_str();
        if !starts_with_str(k, "k8s:io.cilium") && !starts_with_str(k, "k8s:io.kubernetes.pod.namespace") {
            let mut t = owned(strip_all_exec(k, "k8s:"));
            push_str(&mut t, "=");
            match m[i].1.as_str() {
                Some(v) => push_str(&mut t, v),
                None => {},
            }
            proof {
                reveal_strlit("");
            }
            let ghost b = string_views(out@);
            out.push(t);
            assert(string_views(out@) =~= b.push(t@));
        } else {
            assert(seq![label_text(k@, m@[i as int].1)].len() == 1);
        }
        i += 1;
    }
    assert(m@.take(m@.len() as int) =~= m@);
    out
}

/// A label map in one line (`labels_summary`).
pub fn labels_summary(v: Option<&Json>, max: usize) -> (r: String)
    ensures
        r@ == labels_summary_spec(
            match v {
                Some(j) => Some(*j),
                None => None,
            },
            max as nat,
        ),
{
    let m = match v {
        Some(Json::Obj(m)) => m,
        _ => {
            return String::new();
        },
    };
    let parts = label_parts_exec(m);
    let ghost unsorted = parts@;
    let mut parts = sort_stable(parts);
    proof {
        lemma_sorted_strings(unsorted);
        lemma_sorted_len(unsorted);
    }
    let n = parts.len();
    let more: usize = if n > max { n - max } else { 0 };
    let ghost all = string_views(parts@);
    parts.truncate(max);
    assert(string_views(parts@) =~= if n > max { all.take(max as int) } else { all });
    let mut out = join_strings(&parts, ", ");
    if more > 0 {
        push_str(&mut out, " +");
        push_decimal(&mut out, more as u64);
    } else {
        proof {
            reveal_strlit("");
        }
    }
    out
}


pub open spec fn opt_json(o: Option<&Json>) -> Option<Json> {
    match o {
        Some(j) => Some(*j),
        None => None,
    }
}

/// How many rules a policy section lists under `key`.
pub open spec fn arr_len(sp: Json, key: Seq<char>) -> nat {
    match sp.path_arr(seq![key]) {
        Some(a) => a.len(),
        None => 0,
    }
}

/// A policy's `spec` and then each of its `specs`.
pub open spec fn policy_specs(obj: Json) -> Seq<Json> {
    (match obj.path(seq!["spec"@]) {
        Some(sp) => seq![sp],
        None => Seq::empty(),
    }) + (match obj.path_arr(seq!["specs"@]) {
        Some(a) => a,
        None => Seq::empty(),
    })
}

/// The rules under `a` and `b` across the sections.
pub open spec fn rules_in(specs: Seq<Json>, a: Seq<char>, b: Seq<char>) -> nat
    decreases specs.len(),
{
    if specs.len() == 0 {
        0
    } else {
        rules_in(specs.drop_last(), a, b) + arr_len(specs.last(), a) + arr_len(specs.last(), b)
    }
}

pub proof fn lemma_rules_prefix(s: Seq<Json>, k: int, a: Seq<char>, b: Seq<char>)
    requires
        0 <= k <= s.len(),
    ensures
        rules_in(s.take(k), a, b) <= rules_in(s, a, b),
    decreases s.len(),
{
    if k < s.len() {
        assert(s.drop_last().take(k) =~= s.take(k));
        lemma_rules_prefix(s.drop_last(), k, a, b);
    } else {
        assert(s.take(k) =~= s);
    }
}

/// The labels a section selects by: endpoints, else pods, else nodes.
pub open spec fn selector_json(sp: Json) -> Option<Json> {
    match sp.path(seq!["endpointSelector"@, "matchLabels"@]) {
        Some(x) => Some(x),
        None => match sp.path(seq!["podSelector"@, "matchLabels"@]) {
            Some(x) => Some(x),
            None => sp.path(seq!["nodeSelector"@, "matchLabels"@]),
        },
    }
}

/// The first section whose selector says anything.
pub open spec fn selector_of(specs: Seq<Json>) -> Seq<char>
    decreases specs.len(),
{
    if specs.len() == 0 {
        Seq::empty()
    } else {
        let prev = selector_of(specs.drop_last());
        if prev.len() == 0 {
            labels_summary_spec(selector_json(specs.last()), 3)
        } else {
            prev
        }
    }
}

/// The strings of an array, others skipped.
pub open spec fn str_items(a: Seq<Json>) -> Seq<Seq<char>>
    decreases a.len(),
{
    if a.len() == 0 {
        Seq::empty()
    } else {
        str_items(a.drop_last()) + match a.last().str_of() {
            Some(s) => seq![s],
            None => Seq::empty(),
        }
    }
}

pub open spec fn policy_types(obj: Json) -> Seq<char> {
    match obj.path_arr(seq!["spec"@, "policyTypes"@]) {
        Some(a) => join(str_items(a), "/"@),
        None => Seq::empty(),
    }
}

/// A policy's rule counts fit the machine's word.
pub open spec fn policy_fits(obj: Json) -> bool {
    &&& rules_in(policy_specs(obj), "ingress"@, "ingressDeny"@) <= usize::MAX
    &&& rules_in(policy_specs(obj), "egress"@, "egressDeny"@) <= usize::MAX
}

/// One line for a policy: whom it selects, how many ingress and egress
/// rules it carries (denials counted too), and its types.
pub open spec fn policy_summary_spec(obj: Json) -> Seq<char> {
    let specs = policy_specs(obj);
    let sel = selector_of(specs);
    let types = policy_types(obj);
    (if sel.len() == 0 { "all endpoints"@ } else { "selects "@ + sel }) + " · "@ + decimal(
        rules_in(specs, "ingress"@, "ingressDeny"@),
    ) + " ingress · "@ + decimal(rules_in(specs, "egress"@, "egressDeny"@)) + " egress"@ + (if types.len() == 0 {
        Seq::empty()
    } else {
        " · "@ + types
    })
}

fn arr_len_exec(sp: &Json, key: &str) -> (r: usize)
    ensures
        r == arr_len(*sp, key@),
{
    match arr_1(sp, key) {
        Some(a) => a.len(),
        None => 0,
    }
}

fn selector_exec(sp: &Json) -> (r: Option<&Json>)
    ensures
        opt_json(r) == selector_json(*sp),
{
    match at2(sp, "endpointSelector", "matchLabels") {
        Some(x) => Some(x),
        None => match at2(sp, "podSelector", "matchLabels") {
            Some(x) => Some(x),
            None => at2(sp, "nodeSelector", "matchLabels"),
        },
    }
}

/// Takes one section into the running counts and selector.
fn absorb(sp: &Json, ing: &mut usize, eg: &mut usize, sel: &mut String, Ghost(done): Ghost<Seq<Json>>, Ghost(all): Ghost<Seq<Json>>)
    requires
        *old(ing) == rules_in(done, "ingress"@, "ingressDeny"@),
        *old(eg) == rules_in(done, "egress"@, "egressDeny"@),
        old(sel)@ == selector_of(done),
        rules_in(done.push(*sp), "ingress"@, "ingressDeny"@) <= usize::MAX,
        rules_in(done.push(*sp), "egress"@, "egressDeny"@) <= usize::MAX,
    ensures
        *final(ing) == rules_in(done.push(*sp), "ingress"@, "ingressDeny"@),
        *final(eg) == rules_in(done.push(*sp), "egress"@, "egressDeny"@),
        final(sel)@ == selector_of(done.push(*sp)),
{
    assert(done.push(*sp).drop_last() =~= done);
    *ing = *ing + arr_len_exec(sp, "ingress") + arr_len_exec(sp, "ingressDeny");
    *eg = *eg + arr_len_exec(sp, "egress") + arr_len_exec(sp, "egressDeny");
    if crate::text::char_len(sel.as_str()) == 0 {
        proof {
            assert(sel@.len() == 0);
        }
        *sel = labels_summary(selector_exec(sp), 3);
    } else {
        proof {
            assert(sel@.len() != 0);
        }
    }
}

fn policy_types_exec(obj: &Json) -> (r: String)
    ensures
        r@ == policy_types(*obj),
{
    match arr_2(obj, "spec", "policyTypes") {
        None => {
            proof {
                reveal_strlit("");
            }
            String::new()
        },
        Some(a) => {
            let mut items: Vec<String> = Vec::new();
            let mut i: usize = 0;
            assert(a@.take(0) =~= Seq::<Json>::empty());
            assert(string_views(items@) =~= Seq::<Seq<char>>::empty());
            while i < a.len()
                invariant
                    i <= a@.len(),
                    string_views(items@) == str_items(a@.take(i as int)),
                decreases a@.len() - i,
            {
                assert(a@.take(i + 1).drop_last() =~= a@.take(i as int));
                assert(a@.take(i + 1).last() == a@[i as int]);
                match a[i].as_str() {
                    Some(t) => {
                        let ghost b = string_views(items@);
                        items.push(owned(t));
                        assert(string_views(items@) =~= b.push(t@));
                    },
                    None => {
                        assert(string_views(items@) =~= string_views(items@) + Seq::<Seq<char>>::empty());
                    },
                }
                i += 1;
            }
            assert(a@.take(a@.len() as int) =~= a@);
            join_strings(&items, "/")
        },
    }
}

/// One line for a Cilium or core network policy (`policy_summary`).
pub fn policy_summary(obj: &Json) -> (r: String)
    requires
        policy_fits(*obj),
    ensures
        r@ == policy_summary_spec(*obj),
{
    let ghost all = policy_specs(*obj);
    let mut ing: usize = 0;
    let mut eg: usize = 0;
    let mut sel = String::new();
    let ghost front: Seq<Json> = Seq::empty();
    proof {
        reveal_strlit("");
    }
    match at1(obj, "spec") {
        Some(sp) => {
            proof {
                front = seq![*sp];
                assert(Seq::<Json>::empty().push(*sp) =~= front);
                lemma_rules_prefix(all, 1, "ingress"@, "ingressDeny"@);
                lemma_rules_prefix(all, 1, "egress"@, "egressDeny"@);
                assert(all.take(1) =~= front);
            }
            absorb(sp, &mut ing, &mut eg, &mut sel, Ghost(Seq::empty()), Ghost(all));
        },
        None => {},
    }
    match arr_1(obj, "specs") {
        Some(arr) => {
            let mut i: usize = 0;
            assert(front + arr@.take(0) =~= front);
            while i < arr.len()
                invariant
                    i <= arr@.len(),
                    all == front + arr@,
                    policy_fits(*obj),
                    all == policy_specs(*obj),
                    ing == rules_in(front + arr@.take(i as int), "ingress"@, "ingressDeny"@),
                    eg == rules_in(front + arr@.take(i as int), "egress"@, "egressDeny"@),
                    sel@ == selector_of(front + arr@.take(i as int)),
                decreases arr@.len() - i,
            {
                let ghost done = front + arr@.take(i as int);
                proof {
                    assert(done.push(arr@[i as int]) =~= front + arr@.take(i + 1));
                    assert(all.take(front.len() + i + 1) =~= front + arr@.take(i + 1));
                    lemma_rules_prefix(all, front.len() + i + 1, "ingress"@, "ingressDeny"@);
                    lemma_rules_prefix(all, front.len() + i + 1, "egress"@, "egressDeny"@);
                }
                absorb(&arr[i], &mut ing, &mut eg, &mut sel, Ghost(done), Ghost(all));
                i += 1;
            }
            assert(front + arr@.take(arr@.len() as int) =~= all);
        },
        None => {
            assert(all =~= front);
        },
    }
    let types = policy_types_exec(obj);
    let mut out = if crate::text::char_len(sel.as_str()) == 0 {
        owned("all endpoints")
    } else {
        let mut t = owned("selects ");
        push_str(&mut t, sel.as_str());
        t
    };
    push_str(&mut out, " · ");
    push_decimal(&mut out, ing as u64);
    push_str(&mut out, " ingress · ");
    push_decimal(&mut out, eg as u64);
    push_str(&mut out, " egress");
    if crate::text::char_len(types.as_str()) > 0 {
        push_str(&mut out, " · ");
        push_str(&mut out, types.as_str());
    }
    out
}


/// What a JSON pointer's `/0` reaches: an array's first element, or an
/// object's member named `0`.
pub open spec fn first_of(v: Option<Json>) -> Option<Json> {
    match v {
        Some(Json::Arr(a)) => if a@.len() > 0 { Some(a@[0]) } else { None },
        Some(j) => j.member("0"@),
        None => None,
    }
}

fn first_of_exec(v: Option<&Json>) -> (r: Option<&Json>)
    ensures
        opt_json(r) == first_of(opt_json(v)),
{
    match v {
        Some(Json::Arr(a)) => if a.len() > 0 { Some(&a[0]) } else { None },
        Some(j) => match j.get("0") {
            Some(x) => Some(x),
            None => None,
        },
        None => None,
    }
}

/// How an endpoint's state reads.
pub open spec fn cep_health(state: Seq<char>) -> Health {
    if state == "ready"@ {
        Health::Healthy
    } else if state == "waiting-for-identity"@ || state == "waiting-to-regenerate"@ || state == "regenerating"@
        || state == "restoring"@ || state == "creating"@ {
        Health::Warn
    } else if state.len() == 0 {
        Health::Unknown
    } else {
        Health::Error
    }
}

pub(crate) fn cep_health_exec(state: &str) -> (h: Health)
    ensures
        h == cep_health(state@),
{
    if str_eq(state, "ready") {
        Health::Healthy
    } else if str_eq(state, "waiting-for-identity") || str_eq(state, "waiting-to-regenerate") || str_eq(
        state,
        "regenerating",
    ) || str_eq(state, "restoring") || str_eq(state, "creating") {
        Health::Warn
    } else if crate::text::char_len(state) == 0 {
        Health::Unknown
    } else {
        Health::Error
    }
}

pub open spec fn cep_state(obj: Json) -> Seq<char> {
    or_else(obj.path_str(seq!["status"@, "state"@]), Seq::empty())
}

pub open spec fn cep_ip(obj: Json) -> Seq<char> {
    or_else(
        match first_of(obj.path(seq!["status"@, "networking"@, "addressing"@])) {
            Some(x) => x.path_str(seq!["ipv4"@]),
            None => None,
        },
        "?"@,
    )
}

pub open spec fn one_rel(name: Seq<char>, kind: RelationKind, target: Seq<char>) -> Seq<RelV> {
    seq![(name, kind, seq![target], None::<Seq<char>>)]
}

/// An endpoint: its address, its identity and its state, wired to its
/// identity, namespace and pod where the cluster holds them.
pub open spec fn cep_cv(snap: Seq<KindObjects>, key: Seq<char>, obj: Json) -> CV {
    let state = cep_state(obj);
    let ip = cep_ip(obj);
    let id = obj.path_i64(seq!["status"@, "identity"@, "id"@]);
    let idt = match id {
        Some(i) => signed_decimal(i as int),
        None => "?"@,
    };
    let detail = ip + " · identity "@ + idt + " · "@ + (if state.len() == 0 { "no state"@ } else { state });
    let ms = seq![plain("ipv4"@, ip)] + match id {
        Some(i) => seq![toned("identity"@, signed_decimal(i as int), "muted"@)],
        None => Seq::empty(),
    };
    let rs = (match id {
        Some(i) => if has_key(snap, "cid"@, signed_decimal(i as int)) {
            one_rel("identity"@, RelationKind::HasOne, "k8s:cid:"@ + signed_decimal(i as int))
        } else {
            Seq::empty()
        },
        None => Seq::empty(),
    }) + ns_relation_spec(key) + (if has_key(snap, "pod"@, key) {
        one_rel("pod"@, RelationKind::HasOne, "k8s:pod:"@ + key)
    } else {
        Seq::empty()
    });
    let b = base_cv("cep"@, key, split_key_spec(key).1, cep_health(state), detail);
    (b.0, b.1, b.2, b.3, b.4, ms, Seq::empty(), rs, None)
}

fn push_one(rs: &mut Vec<Relation>, r: Relation)
    ensures
        rels_view(final(rs)@) == rels_view(old(rs)@).push(rel_view(r)),
{
    let ghost b = rels_view(rs@);
    rs.push(r);
    assert(rels_view(rs@) =~= b.push(rel_view(r)));
}

fn cep_component(snap: &Vec<KindObjects>, key: &str, obj: &Json) -> (c: ComponentSummary)
    ensures
        comp_view(c) == cep_cv(snap@, key@, *obj),
        crate::registry::unitless(c.metrics@),
{
    let state = match str2(obj, "status", "state") {
        Some(x) => x,
        None => "",
    };
    proof {
        reveal_strlit("");
        assert(state@ =~= cep_state(*obj));
    }
    let h = cep_health_exec(state);
    let ip = match first_of_exec(at3(obj, "status", "networking", "addressing")) {
        Some(x) => match str1(x, "ipv4") {
            Some(t) => t,
            None => "?",
        },
        None => "?",
    };
    let id = i64_3(obj, "status", "identity", "id");
    let mut detail = cat(ip, " · identity ");
    match id {
        Some(i) => push_signed(&mut detail, i),
        None => push_str(&mut detail, "?"),
    }
    push_str(&mut detail, " · ");
    if crate::text::char_len(state) == 0 {
        push_str(&mut detail, "no state");
    } else {
        push_str(&mut detail, state);
    }
    let (_, name) = split_key(key);
    let c0 = base("cep", key, name, h, detail);
    let ComponentSummary { id: cid, kind, label, health, detail, metrics: _, actions, relations: _, link } = c0;
    let mut ms: Vec<Metric> = Vec::new();
    assert(metrics_view(ms@) =~= Seq::<MetricV>::empty());
    push_metric(&mut ms, "ipv4", owned(ip), None);
    let mut rs: Vec<Relation> = Vec::new();
    assert(rels_view(rs@) =~= Seq::<RelV>::empty());
    match id {
        Some(i) => {
            let t = crate::text::signed_string(i);
            push_metric(&mut ms, "identity", crate::text::signed_string(i), Some("muted"));
            if holds_key(snap, "cid", t.as_str()) {
                push_one(&mut rs, Relation::has_one("identity", cat("k8s:cid:", t.as_str())));
            }
        },
        None => {},
    }
    let ghost r1 = rels_view(rs@);
    push_ns_relation(&mut rs, key);
    if holds_key(snap, "pod", key) {
        push_one(&mut rs, Relation::has_one("pod", cat("k8s:pod:", key)));
    }
    let c = ComponentSummary { id: cid, kind, label, health, detail, metrics: ms, actions, relations: rs, link };
    assert(metrics_view(c.metrics@) =~= cep_cv(snap@, key@, *obj).5);
    assert(rels_view(c.relations@) =~= cep_cv(snap@, key@, *obj).7);
    c
}


pub open spec fn is_internal(addrs: Seq<Json>) -> spec_fn(int) -> bool {
    |i: int| addrs[i].path_str(seq!["type"@]) == Some("InternalIP"@)
}

/// A node's internal address, from the first address typed `InternalIP`.
pub open spec fn cn_ip(obj: Json) -> Seq<char> {
    or_else(
        match obj.path_arr(seq!["spec"@, "addresses"@]) {
            Some(a) => match crate::text::first_at(a.len() as int, is_internal(a)) {
                Some(i) => a[i].path_str(seq!["ip"@]),
                None => None,
            },
            None => None,
        },
        "?"@,
    )
}

pub open spec fn cn_cidr(obj: Json) -> Seq<char> {
    or_else(
        match first_of(obj.path(seq!["spec"@, "ipam"@, "podCIDRs"@])) {
            Some(x) => x.str_of(),
            None => None,
        },
        "?"@,
    )
}

/// A Cilium node: its address and pod range, wired to the node.
pub open spec fn cn_cv(snap: Seq<KindObjects>, key: Seq<char>, obj: Json) -> CV {
    let ip = cn_ip(obj);
    let cidr = cn_cidr(obj);
    let b = base_cv("cn"@, key, key, Health::Healthy, ip + " · pod CIDR "@ + cidr);
    let ms = seq![plain("ip"@, ip), toned("pod cidr"@, cidr, "muted"@)];
    let rs = if has_key(snap, "node"@, key) {
        one_rel("node"@, RelationKind::HasOne, "k8s:node:"@ + key)
    } else {
        Seq::empty()
    };
    (b.0, b.1, b.2, b.3, b.4, ms, Seq::empty(), rs, None)
}

fn internal_ip(addrs: &Vec<Json>) -> (r: Option<&str>)
    ensures
        crate::plugins::drive::opt_str(r) == match crate::text::first_at(addrs@.len() as int, is_internal(addrs@)) {
            Some(i) => addrs@[i].path_str(seq!["ip"@]),
            None => None,
        },
{
    let mut i: usize = 0;
    while i < addrs.len()
        invariant
            i <= addrs@.len(),
            forall|j: int| 0 <= j < i ==> !#[trigger] is_internal(addrs@)(j),
        decreases addrs@.len() - i,
    {
        let t = str1(&addrs[i], "type");
        let hit = match t {
            Some(t) => str_eq(t, "InternalIP"),
            None => false,
        };
        if hit {
            proof {
                crate::text::lemma_first_at_some(addrs@.len() as int, is_internal(addrs@), i as int);
            }
            return str1(&addrs[i], "ip");
        }
        assert(!is_internal(addrs@)(i as int));
        i += 1;
    }
    proof {
        crate::text::lemma_first_at_none(addrs@.len() as int, is_internal(addrs@));
    }
    None
}

fn cn_component(snap: &Vec<KindObjects>, key: &str, obj: &Json) -> (c: ComponentSummary)
    ensures
        comp_view(c) == cn_cv(snap@, key@, *obj),
        crate::registry::unitless(c.metrics@),
{
    let ip = match arr_2(obj, "spec", "addresses") {
        Some(a) => match internal_ip(a) {
            Some(x) => x,
            None => "?",
        },
        None => "?",
    };
    let cidr = match first_of_exec(at3(obj, "spec", "ipam", "podCIDRs")) {
        Some(x) => match x.as_str() {
            Some(t) => t,
            None => "?",
        },
        None => "?",
    };
    let mut detail = cat(ip, " · pod CIDR ");
    push_str(&mut detail, cidr);
    let c0 = base("cn", key, key, Health::Healthy, detail);
    let ComponentSummary { id, kind, label, health, detail, metrics: _, actions, relations: _, link } = c0;
    let mut ms: Vec<Metric> = Vec::new();
    assert(metrics_view(ms@) =~= Seq::<MetricV>::empty());
    push_metric(&mut ms, "ip", owned(ip), None);
    push_metric(&mut ms, "pod cidr", owned(cidr), Some("muted"));
    let mut rs: Vec<Relation> = Vec::new();
    assert(rels_view(rs@) =~= Seq::<RelV>::empty());
    if holds_key(snap, "node", key) {
        push_one(&mut rs, Relation::has_one("node", cat("k8s:node:", key)));
    }
    let c = ComponentSummary { id, kind, label, health, detail, metrics: ms, actions, relations: rs, link };
    assert(metrics_view(c.metrics@) =~= cn_cv(snap@, key@, *obj).5);
    assert(rels_view(c.relations@) =~= cn_cv(snap@, key@, *obj).7);
    c
}

/// A security identity: the namespace it is for and its labels.
pub open spec fn cid_cv(key: Seq<char>, obj: Json) -> CV {
    let labels = obj.path(seq!["security-labels"@]);
    let ns = match labels {
        Some(l) => l.path_str(seq!["k8s:io.kubernetes.pod.namespace"@]),
        None => None,
    };
    let summary = labels_summary_spec(labels, 3);
    let detail = match ns {
        Some(n) => n + " · "@ + summary,
        None => summary,
    };
    let b = base_cv("cid"@, key, key, Health::Healthy, detail);
    let rs = match ns {
        Some(n) => one_rel("namespace"@, RelationKind::BelongsTo, "k8s:ns:"@ + n),
        None => Seq::empty(),
    };
    (b.0, b.1, b.2, b.3, b.4, Seq::empty(), Seq::empty(), rs, None)
}

fn cid_component(key: &str, obj: &Json) -> (c: ComponentSummary)
    ensures
        comp_view(c) == cid_cv(key@, *obj),
        crate::registry::unitless(c.metrics@),
{
    let labels = at1(obj, "security-labels");
    let ns = match labels {
        Some(l) => str1(l, "k8s:io.kubernetes.pod.namespace"),
        None => None,
    };
    let summary = labels_summary(labels, 3);
    let detail = match ns {
        Some(n) => {
            let mut d = cat(n, " · ");
            push_str(&mut d, summary.as_str());
            d
        },
        None => summary,
    };
    let c0 = base("cid", key, key, Health::Healthy, detail);
    let ComponentSummary { id, kind, label, health, detail, metrics, actions, relations: _, link } = c0;
    let mut rs: Vec<Relation> = Vec::new();
    assert(rels_view(rs@) =~= Seq::<RelV>::empty());
    match ns {
        Some(n) => push_one(&mut rs, Relation::belongs_to("namespace", cat("k8s:ns:", n))),
        None => {},
    }
    let c = ComponentSummary { id, kind, label, health, detail, metrics, actions, relations: rs, link };
    assert(rels_view(c.relations@) =~= cid_cv(key@, *obj).7);
    c
}

/// A DELETE against the apiserver path, through the console.
pub open spec fn delete_action_spec(path: Seq<char>) -> ActionV {
    ("delete"@, "Delete"@, "DELETE"@, "/api/plugins/k8s/raw"@ + path, true, true, None)
}

fn delete_action(path: String) -> (a: Action)
    ensures
        action_view(a) == delete_action_spec(path@),
{
    Action {
        id: owned("delete"),
        label: owned("Delete"),
        method: owned("DELETE"),
        path: cat("/api/plugins/k8s/raw", path.as_str()),
        enabled: true,
        danger: true,
        tone: None,
    }
}

/// A namespaced policy: its summary, its namespace, and a delete against
/// `prefix/namespaces/<ns>/<plural>/<name>` (`default` where the key has
/// no namespace).
pub open spec fn ns_policy_cv(kind: Seq<char>, api: Seq<char>, plural: Seq<char>, key: Seq<char>, obj: Json) -> CV {
    let (ns, name) = split_key_spec(key);
    let b = base_cv(kind, key, name, Health::Healthy, policy_summary_spec(obj));
    let path = api + "/namespaces/"@ + or_else(ns, "default"@) + "/"@ + plural + "/"@ + name;
    (b.0, b.1, b.2, b.3, b.4, Seq::empty(), seq![delete_action_spec(path)], ns_relation_spec(key), None)
}

pub open spec fn cnp_cv(key: Seq<char>, obj: Json) -> CV {
    ns_policy_cv("cnp"@, "/apis/cilium.io/v2"@, "ciliumnetworkpolicies"@, key, obj)
}

pub open spec fn netpol_cv(key: Seq<char>, obj: Json) -> CV {
    ns_policy_cv("netpol"@, "/apis/networking.k8s.io/v1"@, "networkpolicies"@, key, obj)
}

/// A clusterwide policy.
pub open spec fn ccnp_cv(key: Seq<char>, obj: Json) -> CV {
    let b = base_cv("ccnp"@, key, key, Health::Healthy, "clusterwide · "@ + policy_summary_spec(obj));
    let path = "/apis/cilium.io/v2/ciliumclusterwidenetworkpolicies/"@ + key;
    (b.0, b.1, b.2, b.3, b.4, Seq::empty(), seq![delete_action_spec(path)], Seq::empty(), None)
}

fn ns_policy_component(kind: &str, api: &str, plural: &str, key: &str, obj: &Json) -> (c: ComponentSummary)
    requires
        policy_fits(*obj),
    ensures
        comp_view(c) == ns_policy_cv(kind@, api@, plural@, key@, *obj),
        crate::registry::unitless(c.metrics@),
{
    let (ns, name) = split_key(key);
    let c0 = base(kind, key, name, Health::Healthy, policy_summary(obj));
    let ComponentSummary { id, kind: k, label, health, detail, metrics, actions: _, relations: _, link } = c0;
    let mut rs: Vec<Relation> = Vec::new();
    assert(rels_view(rs@) =~= Seq::<RelV>::empty());
    push_ns_relation(&mut rs, key);
    let mut path = cat(api, "/namespaces/");
    match ns {
        Some(n) => push_str(&mut path, n),
        None => push_str(&mut path, "default"),
    }
    push_str(&mut path, "/");
    push_str(&mut path, plural);
    push_str(&mut path, "/");
    push_str(&mut path, name);
    let a = delete_action(path);
    let mut acts: Vec<Action> = Vec::new();
    acts.push(a);
    let c = ComponentSummary { id, kind: k, label, health, detail, metrics, actions: acts, relations: rs, link };
    assert(actions_view(c.actions@) =~= seq![action_view(a)]);
    c
}

fn ccnp_component(key: &str, obj: &Json) -> (c: ComponentSummary)
    requires
        policy_fits(*obj),
    ensures
        comp_view(c) == ccnp_cv(key@, *obj),
        crate::registry::unitless(c.metrics@),
{
    let summary = policy_summary(obj);
    let c0 = base("ccnp", key, key, Health::Healthy, cat("clusterwide · ", summary.as_str()));
    let ComponentSummary { id, kind, label, health, detail, metrics, actions: _, relations, link } = c0;
    let a = delete_action(cat("/apis/cilium.io/v2/ciliumclusterwidenetworkpolicies/", key));
    let mut acts: Vec<Action> = Vec::new();
    acts.push(a);
    let c = ComponentSummary { id, kind, label, health, detail, metrics, actions: acts, relations, link };
    assert(actions_view(c.actions@) =~= seq![action_view(a)]);
    c
}


/// The Cilium kinds and the core NetworkPolicy.
#[derive(Clone, Copy)]
enum Net {
    Cep,
    Cn,
    Cid,
    Cnp,
    Ccnp,
    Netpol,
}

spec fn net_cv(snap: Seq<KindObjects>, k: Net, key: Seq<char>, obj: Json) -> CV {
    match k {
        Net::Cep => cep_cv(snap, key, obj),
        Net::Cn => cn_cv(snap, key, obj),
        Net::Cid => cid_cv(key, obj),
        Net::Cnp => cnp_cv(key, obj),
        Net::Ccnp => ccnp_cv(key, obj),
        Net::Netpol => netpol_cv(key, obj),
    }
}

pub open spec fn cep_fn(snap: Seq<KindObjects>) -> spec_fn(Seq<char>, Json) -> CV {
    |k: Seq<char>, o: Json| cep_cv(snap, k, o)
}

pub open spec fn cn_fn(snap: Seq<KindObjects>) -> spec_fn(Seq<char>, Json) -> CV {
    |k: Seq<char>, o: Json| cn_cv(snap, k, o)
}

pub open spec fn cid_fn() -> spec_fn(Seq<char>, Json) -> CV {
    |k: Seq<char>, o: Json| cid_cv(k, o)
}

pub open spec fn cnp_fn() -> spec_fn(Seq<char>, Json) -> CV {
    |k: Seq<char>, o: Json| cnp_cv(k, o)
}

pub open spec fn ccnp_fn() -> spec_fn(Seq<char>, Json) -> CV {
    |k: Seq<char>, o: Json| ccnp_cv(k, o)
}

pub open spec fn netpol_fn() -> spec_fn(Seq<char>, Json) -> CV {
    |k: Seq<char>, o: Json| netpol_cv(k, o)
}

spec fn net_fn(snap: Seq<KindObjects>, k: Net) -> spec_fn(Seq<char>, Json) -> CV {
    match k {
        Net::Cep => cep_fn(snap),
        Net::Cn => cn_fn(snap),
        Net::Cid => cid_fn(),
        Net::Cnp => cnp_fn(),
        Net::Ccnp => ccnp_fn(),
        Net::Netpol => netpol_fn(),
    }
}

/// Every policy's rule counts fit the machine's word.
pub open spec fn all_policies_fit(objs: Seq<(String, Json)>) -> bool {
    forall|i: int| 0 <= i < objs.len() ==> policy_fits(#[trigger] objs[i].1)
}

spec fn is_policy(k: Net) -> bool {
    k is Cnp || k is Ccnp || k is Netpol
}

fn net_component(snap: &Vec<KindObjects>, k: Net, key: &str, obj: &Json) -> (c: ComponentSummary)
    requires
        is_policy(k) ==> policy_fits(*obj),
    ensures
        comp_view(c) == (net_fn(snap@, k))(key@, *obj),
        crate::registry::unitless(c.metrics@),
{
    match k {
        Net::Cep => cep_component(snap, key, obj),
        Net::Cn => cn_component(snap, key, obj),
        Net::Cid => cid_component(key, obj),
        Net::Cnp => ns_policy_component("cnp", "/apis/cilium.io/v2", "ciliumnetworkpolicies", key, obj),
        Net::Ccnp => ccnp_component(key, obj),
        Net::Netpol => ns_policy_component("netpol", "/apis/networking.k8s.io/v1", "networkpolicies", key, obj),
    }
}

fn push_net(out: &mut Vec<ComponentSummary>, snap: &Vec<KindObjects>, objs: &Vec<(String, Json)>, k: Net)
    requires
        is_policy(k) ==> all_policies_fit(objs@),
    ensures
        cv_of(final(out)@) == cv_of(old(out)@) + views_of(objs@, net_fn(snap@, k)),
        crate::registry::all_unitless(old(out)@) ==> crate::registry::all_unitless(final(out)@),
{
    let ghost before = cv_of(out@);
    let mut i: usize = 0;
    assert(views_of(objs@.take(0), net_fn(snap@, k)) =~= Seq::<CV>::empty());
    while i < objs.len()
        invariant
            i <= objs@.len(),
            is_policy(k) ==> all_policies_fit(objs@),
            cv_of(out@) == before + views_of(objs@.take(i as int), net_fn(snap@, k)),
            crate::registry::all_unitless(old(out)@) ==> crate::registry::all_unitless(out@),
        decreases objs@.len() - i,
    {
        assert(is_policy(k) ==> policy_fits(objs@[i as int].1));
        let c = net_component(snap, k, objs[i].0.as_str(), &objs[i].1);
        let ghost b = cv_of(out@);
        let ghost o = out@;
        out.push(c);
        proof {
            if crate::registry::all_unitless(old(out)@) {
                crate::registry::lemma_all_unitless_push(o, c);
            }
        }
        assert(cv_of(out@) =~= b.push(comp_view(c)));
        assert(objs@.take(i + 1) =~= objs@.take(i as int).push(objs@[i as int]));
        assert(views_of(objs@.take(i + 1), net_fn(snap@, k)) =~= views_of(objs@.take(i as int), net_fn(snap@, k)).push(
            (net_fn(snap@, k))(objs@[i as int].0@, objs@[i as int].1),
        ));
        i += 1;
    }
    assert(objs@.take(objs@.len() as int) =~= objs@);
}

/// The component ids of a kind's objects.
pub open spec fn kind_ids(objs: Seq<(String, Json)>, kind: Seq<char>) -> Seq<Seq<char>> {
    keys(objs).map_values(|k: Seq<char>| "k8s:"@ + kind + ":"@ + k)
}

fn kind_ids_exec(objs: &Vec<(String, Json)>, kind: &str) -> (r: Vec<String>)
    ensures
        string_views(r@) == kind_ids(objs@, kind@),
{
    let mut out: Vec<String> = Vec::new();
    let mut i: usize = 0;
    while i < objs.len()
        invariant
            i <= objs@.len(),
            string_views(out@) == kind_ids(objs@.take(i as int), kind@),
        decreases objs@.len() - i,
    {
        let mut id = cat("k8s:", kind);
        push_str(&mut id, ":");
        push_str(&mut id, objs[i].0.as_str());
        let ghost b = string_views(out@);
        out.push(id);
        assert(string_views(out@) =~= b.push(id@));
        assert(kind_ids(objs@.take(i + 1), kind@) =~= kind_ids(objs@.take(i as int), kind@).push(id@));
        i += 1;
    }
    assert(objs@.take(objs@.len() as int) =~= objs@);
    out
}

/// How many endpoints are ready.
pub open spec fn ready_eps(objs: Seq<(String, Json)>) -> nat
    decreases objs.len(),
{
    if objs.len() == 0 {
        0
    } else {
        ready_eps(objs.drop_last()) + (if cep_health(cep_state(objs.last().1)) == Health::Healthy { 1nat } else { 0nat })
    }
}

fn ready_eps_exec(objs: &Vec<(String, Json)>) -> (r: usize)
    ensures
        r == ready_eps(objs@),
{
    let mut n: usize = 0;
    let mut i: usize = 0;
    assert(objs@.take(0) =~= Seq::<(String, Json)>::empty());
    while i < objs.len()
        invariant
            i <= objs@.len(),
            n == ready_eps(objs@.take(i as int)),
            n <= i,
        decreases objs@.len() - i,
    {
        assert(objs@.take(i + 1).drop_last() =~= objs@.take(i as int));
        assert(objs@.take(i + 1).last() == objs@[i as int]);
        let state = match str2(&objs[i].1, "status", "state") {
            Some(x) => x,
            None => "",
        };
        proof {
            reveal_strlit("");
            assert(state@ =~= cep_state(objs@[i as int].1));
        }
        let h = cep_health_exec(state);
        if matches!(h, Health::Healthy) {
            n += 1;
        }
        i += 1;
    }
    assert(objs@.take(objs@.len() as int) =~= objs@);
    n
}

/// What the agent's health server said, as text.
pub open spec fn agent_view(agent: Option<(Health, String)>) -> Option<(Health, Seq<char>)> {
    match agent {
        Some((h, d)) => Some((h, d@)),
        None => None,
    }
}

/// The agent answered: it said it is up, or up with trouble. A refused
/// connection is what a machine without Cilium looks like.
pub open spec fn agent_answered(agent: Option<(Health, Seq<char>)>) -> bool {
    agent matches Some((h, _)) && (h == Health::Healthy || h == Health::Warn)
}

/// The card's health and line from the CRDs alone.
pub open spec fn crd_verdict(ready: nat, eps: nat, nodes: nat) -> (Health, Seq<char>) {
    if eps == 0 && nodes == 0 {
        (Health::Idle, "no Cilium objects — agent not running or CRDs not installed"@)
    } else if eps > 0 && ready == 0 {
        (Health::Error, "0/"@ + decimal(eps) + " endpoints ready"@)
    } else if ready < eps {
        (Health::Warn, decimal(ready) + "/"@ + decimal(eps) + " endpoints ready"@)
    } else {
        (Health::Healthy, decimal(ready) + "/"@ + decimal(eps) + " endpoints ready"@)
    }
}

/// The agent's word on top of the CRDs': the worse health wins, a down
/// agent is named in the line, and the agent metric says which.
pub open spec fn with_agent(v: (Health, Seq<char>), agent: Option<(Health, Seq<char>)>) -> (Health, Seq<char>, Seq<MetricV>) {
    match agent {
        Some((Health::Healthy, _)) => (v.0, v.1, seq![toned("agent"@, "up"@, "ok"@)]),
        Some((Health::Unknown, _)) => (v.0, v.1, Seq::empty()),
        None => (v.0, v.1, Seq::empty()),
        Some((h, d)) => (
            if crate::view::severity_of(h) < crate::view::severity_of(v.0) { h } else { v.0 },
            v.1 + " · agent "@ + d,
            seq![toned("agent"@, "down"@, "error"@)],
        ),
    }
}

pub open spec fn tone_of(h: Health) -> Seq<char> {
    match h {
        Health::Healthy => "ok"@,
        Health::Warn => "warn"@,
        Health::Error => "error"@,
        _ => "muted"@,
    }
}

pub open spec fn many(name: Seq<char>, ids: Seq<Seq<char>>) -> Seq<RelV> {
    if ids.len() > 0 {
        seq![(name, RelationKind::HasMany, ids, None::<Seq<char>>)]
    } else {
        Seq::empty()
    }
}

/// The `k8s:cilium` card.
pub open spec fn card_cv(snap: Seq<KindObjects>, agent: Option<(Health, Seq<char>)>) -> CV {
    let ceps = objects_of(snap, "cep"@);
    let eps = ceps.len();
    let ready = ready_eps(ceps);
    let nodes = objects_of(snap, "cn"@).len();
    let ids = objects_of(snap, "cid"@).len();
    let pols = objects_of(snap, "cnp"@).len() + objects_of(snap, "ccnp"@).len() + objects_of(snap, "netpol"@).len();
    let (h, d, am) = with_agent(crd_verdict(ready, eps, nodes), agent);
    (
        "k8s:cilium"@,
        "cni"@,
        "Cilium"@,
        h,
        d + " · "@ + decimal(ids) + " identities · "@ + decimal(nodes) + " nodes · "@ + decimal(pols) + " policies"@,
        am + seq![
            toned("endpoints"@, decimal(ready) + "/"@ + decimal(eps), tone_of(h)),
            plain("identities"@, decimal(ids)),
            plain("nodes"@, decimal(nodes)),
            plain("policies"@, decimal(pols)),
        ],
        Seq::empty(),
        many("endpoints"@, kind_ids(ceps, "cep"@)) + many("nodes"@, kind_ids(objects_of(snap, "cn"@), "cn"@)) + many(
            "identities"@,
            kind_ids(objects_of(snap, "cid"@), "cid"@),
        ) + many("policies"@, kind_ids(objects_of(snap, "cnp"@), "cnp"@) + kind_ids(objects_of(snap, "ccnp"@), "ccnp"@)),
        Some("#/k8s/cep"@),
    )
}

/// Whether there is a card: Cilium's CRDs are served, or the agent
/// answered.
pub open spec fn card_shown(snap: Seq<KindObjects>, agent: Option<(Health, Seq<char>)>) -> bool {
    present(snap, "cep"@) || present(snap, "cn"@) || agent_answered(agent)
}

fn push_many(rs: &mut Vec<Relation>, name: &str, ids: Vec<String>)
    ensures
        rels_view(final(rs)@) == rels_view(old(rs)@) + many(name@, string_views(ids@)),
{
    let ghost b = rels_view(rs@);
    if ids.len() > 0 {
        let r = Relation::has_many(name, ids);
        rs.push(r);
        assert(rels_view(rs@) =~= b.push(rel_view(r)));
        assert(rel_view(r).2 =~= string_views(ids@));
    } else {
        assert(rels_view(rs@) =~= b + Seq::<RelV>::empty());
    }
}

fn count_text(n: usize) -> (r: String)
    ensures
        r@ == decimal(n as nat),
{
    crate::text::decimal_string(n as u64)
}

/// The policy kinds together hold no more objects than a machine word
/// counts.
pub open spec fn policies_countable(snap: Seq<KindObjects>) -> bool {
    objects_of(snap, "cnp"@).len() + objects_of(snap, "ccnp"@).len() + objects_of(snap, "netpol"@).len() <= usize::MAX
}

fn cilium_card(snap: &Vec<KindObjects>, agent: &Option<(Health, String)>) -> (c: ComponentSummary)
    requires
        policies_countable(snap@),
    ensures
        comp_view(c) == card_cv(snap@, agent_view(*agent)),
        crate::registry::unitless(c.metrics@),
{
    let none: Vec<(String, Json)> = Vec::new();
    let ceps = objects_in(snap, "cep", &none);
    let cns = objects_in(snap, "cn", &none);
    let cids = objects_in(snap, "cid", &none);
    let eps = ceps.len();
    let ready = ready_eps_exec(ceps);
    let nodes = cns.len();
    let ids = cids.len();
    let n_cnp = objects_in(snap, "cnp", &none).len();
    let n_ccnp = objects_in(snap, "ccnp", &none).len();
    let n_netpol = objects_in(snap, "netpol", &none).len();
    let pols = n_cnp + n_ccnp + n_netpol;
    let (mut health, mut detail) = if eps == 0 && nodes == 0 {
        (Health::Idle, owned("no Cilium objects — agent not running or CRDs not installed"))
    } else if eps > 0 && ready == 0 {
        let mut d = cat("0/", count_text(eps).as_str());
        push_str(&mut d, " endpoints ready");
        (Health::Error, d)
    } else {
        let mut d = count_text(ready);
        push_str(&mut d, "/");
        push_str(&mut d, count_text(eps).as_str());
        push_str(&mut d, " endpoints ready");
        (if ready < eps { Health::Warn } else { Health::Healthy }, d)
    };
    let mut ms: Vec<Metric> = Vec::new();
    assert(metrics_view(ms@) =~= Seq::<MetricV>::empty());
    match agent {
        Some((Health::Healthy, _)) => {
            push_metric(&mut ms, "agent", owned("up"), Some("ok"));
        },
        Some((Health::Unknown, _)) => {},
        None => {},
        Some((h, d)) => {
            if crate::view::severity(*h) < crate::view::severity(health) {
                health = *h;
            }
            push_str(&mut detail, " · agent ");
            push_str(&mut detail, d.as_str());
            push_metric(&mut ms, "agent", owned("down"), Some("error"));
        },
    }
    let tone = match health {
        Health::Healthy => "ok",
        Health::Warn => "warn",
        Health::Error => "error",
        _ => "muted",
    };
    let mut eps_text = count_text(ready);
    push_str(&mut eps_text, "/");
    push_str(&mut eps_text, count_text(eps).as_str());
    push_metric(&mut ms, "endpoints", eps_text, Some(tone));
    push_metric(&mut ms, "identities", count_text(ids), None);
    push_metric(&mut ms, "nodes", count_text(nodes), None);
    push_metric(&mut ms, "policies", count_text(pols), None);
    push_str(&mut detail, " · ");
    push_str(&mut detail, count_text(ids).as_str());
    push_str(&mut detail, " identities · ");
    push_str(&mut detail, count_text(nodes).as_str());
    push_str(&mut detail, " nodes · ");
    push_str(&mut detail, count_text(pols).as_str());
    push_str(&mut detail, " policies");
    let mut rs: Vec<Relation> = Vec::new();
    assert(rels_view(rs@) =~= Seq::<RelV>::empty());
    push_many(&mut rs, "endpoints", kind_ids_exec(ceps, "cep"));
    push_many(&mut rs, "nodes", kind_ids_exec(cns, "cn"));
    push_many(&mut rs, "identities", kind_ids_exec(cids, "cid"));
    let mut pol_ids = kind_ids_exec(objects_in(snap, "cnp", &none), "cnp");
    let mut more = kind_ids_exec(objects_in(snap, "ccnp", &none), "ccnp");
    let ghost a = string_views(pol_ids@);
    let ghost b = string_views(more@);
    pol_ids.append(&mut more);
    assert(string_views(pol_ids@) =~= a + b);
    push_many(&mut rs, "policies", pol_ids);
    let c = ComponentSummary {
        id: owned("k8s:cilium"),
        kind: owned("cni"),
        label: owned("Cilium"),
        health,
        detail,
        metrics: ms,
        actions: Vec::new(),
        relations: rs,
        link: Some(owned("#/k8s/cep")),
    };
    assert(actions_view(c.actions@) =~= Seq::<ActionV>::empty());
    c
}


/// Cilium's components, kind by kind, then the card where there is one.
pub open spec fn cilium_views(snap: Seq<KindObjects>, agent: Option<(Health, Seq<char>)>) -> Seq<CV> {
    views_of(objects_of(snap, "cep"@), cep_fn(snap)) + views_of(objects_of(snap, "cn"@), cn_fn(snap)) + views_of(
        objects_of(snap, "cid"@),
        cid_fn(),
    ) + views_of(objects_of(snap, "cnp"@), cnp_fn()) + views_of(objects_of(snap, "ccnp"@), ccnp_fn()) + views_of(
        objects_of(snap, "netpol"@),
        netpol_fn(),
    ) + (if card_shown(snap, agent) { seq![card_cv(snap, agent)] } else { Seq::empty() })
}

/// Every policy's counts fit the machine's word, and so do the policies
/// together.
pub open spec fn policies_fit(snap: Seq<KindObjects>) -> bool {
    &&& all_policies_fit(objects_of(snap, "cnp"@))
    &&& all_policies_fit(objects_of(snap, "ccnp"@))
    &&& all_policies_fit(objects_of(snap, "netpol"@))
    &&& policies_countable(snap)
}

/// Cilium's components appended to `out`.
#[verifier::rlimit(100)]
#[verifier::spinoff_prover]
pub fn cilium(snap: &Vec<KindObjects>, agent: &Option<(Health, String)>, out: &mut Vec<ComponentSummary>)
    requires
        policies_fit(snap@),
    ensures
        cv_of(final(out)@) == cv_of(old(out)@) + cilium_views(snap@, agent_view(*agent)),
        crate::registry::all_unitless(old(out)@) ==> crate::registry::all_unitless(final(out)@),
{
    let ghost start = cv_of(out@);
    let none: Vec<(String, Json)> = Vec::new();
    let ghost s = snap@;
    push_net(out, snap, objects_in(snap, "cep", &none), Net::Cep);
    let ghost a1 = start + views_of(objects_of(s, "cep"@), cep_fn(s));
    assert(cv_of(out@) == a1);
    push_net(out, snap, objects_in(snap, "cn", &none), Net::Cn);
    let ghost a2 = a1 + views_of(objects_of(s, "cn"@), cn_fn(s));
    assert(cv_of(out@) == a2);
    push_net(out, snap, objects_in(snap, "cid", &none), Net::Cid);
    let ghost a3 = a2 + views_of(objects_of(s, "cid"@), cid_fn());
    assert(cv_of(out@) == a3);
    push_net(out, snap, objects_in(snap, "cnp", &none), Net::Cnp);
    let ghost a4 = a3 + views_of(objects_of(s, "cnp"@), cnp_fn());
    assert(cv_of(out@) == a4);
    push_net(out, snap, objects_in(snap, "ccnp", &none), Net::Ccnp);
    let ghost a5 = a4 + views_of(objects_of(s, "ccnp"@), ccnp_fn());
    assert(cv_of(out@) == a5);
    push_net(out, snap, objects_in(snap, "netpol", &none), Net::Netpol);
    let ghost a6 = a5 + views_of(objects_of(s, "netpol"@), netpol_fn());
    assert(cv_of(out@) == a6);
    let answered = match agent {
        Some((Health::Healthy, _)) => true,
        Some((Health::Warn, _)) => true,
        _ => false,
    };
    let shown = kind_objects(snap, "cep").is_some() || kind_objects(snap, "cn").is_some() || answered;
    assert(shown == card_shown(s, agent_view(*agent)));
    let ghost tail = if card_shown(s, agent_view(*agent)) { seq![card_cv(s, agent_view(*agent))] } else { Seq::empty() };
    if shown {
        let c = cilium_card(snap, agent);
        let ghost b = cv_of(out@);
        let ghost o = out@;
        out.push(c);
        proof {
            if crate::registry::all_unitless(old(out)@) {
                crate::registry::lemma_all_unitless_push(o, c);
            }
        }
        assert(cv_of(out@) =~= b.push(comp_view(c)));
        assert(cv_of(out@) =~= a6 + tail);
    } else {
        assert(cv_of(out@) =~= a6 + tail);
    }
    assert(a6 + tail =~= start + cilium_views(s, agent_view(*agent)));
}

} // verus!
