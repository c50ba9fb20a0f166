//! The apiserver's objects, as components. Health comes from the same
//! conditions kubectl reads; relations wire pods to their namespace and
//! node, and containers to their pod, so the grid nests the way the
//! cluster hangs together.

use vstd::prelude::*;
use crate::json::{Json, arr_1, arr_2, at1, bool_1, bool_2, i64_1, i64_2, or_empty, str1, str2, str3};
use crate::registry::{action_view, actions_view, comp_view, metric_view, metrics_view, opt_chars, rel_view, rels_view};
use crate::text::{
    contains_exec, contains_str, decimal, ends_with, join, join_strings, owned, push_decimal, push_signed, push_str,
    signed_decimal, str_eq, string_views, strip_suffix, strip_suffix_str, trim_char, trim_char_range, chars_of,
    split_once, split_once_str,
};
use crate::value::{as_f64, f64_value, lemma_round_bounds, round_half_even, round_u128};
use crate::view::{Action, ComponentSummary, Health, Metric, Relation, RelationKind, id_views};

verus! {

/// `n` of a unit written whole when it is whole, else to a tenth rounded
/// half to even, with the unit's name after it.
pub open spec fn unit_text(x: nat, scale: nat, name: Seq<char>) -> Seq<char> {
    if x % scale == 0 {
        decimal(x / scale) + name
    } else {
        let t = round_half_even(10 * x, scale);
        decimal(t / 10) + "."@ + decimal(t % 10) + name
    }
}

/// Memory in the binary unit it reaches: `256Mi`, `1.5Gi`; bytes below
/// one KiB as they are.
pub open spec fn render_mem_spec(b: i64) -> Seq<char> {
    if b >= 0x4000_0000 {
        unit_text(as_f64(b as nat), 0x4000_0000, "Gi"@)
    } else if b >= 0x10_0000 {
        unit_text(as_f64(b as nat), 0x10_0000, "Mi"@)
    } else if b >= 0x400 {
        unit_text(as_f64(b as nat), 0x400, "Ki"@)
    } else {
        signed_decimal(b as int)
    }
}

fn unit_text_exec(x: u128, scale: u128, name: &str) -> (r: String)
    requires
        scale >= 0x400,
        x <= 0x1_0000_0000_0000_1000,
    ensures
        r@ == unit_text(x as nat, scale as nat, name@),
{
    let mut s = String::new();
    if x % scale == 0 {
        assert(x / scale <= x / 0x400) by (nonlinear_arith)
            requires scale >= 0x400;
        assert(x / scale <= u64::MAX);
        push_decimal(&mut s, (x / scale) as u64);
    } else {
        proof {
            lemma_round_bounds(10 * x as nat, scale as nat);
            assert((10 * x as nat) / (scale as nat) <= (10 * x as nat) / 0x400) by (nonlinear_arith)
                requires scale >= 0x400;
        }
        let t = round_u128(10 * x, scale);
        push_decimal(&mut s, (t / 10) as u64);
        push_str(&mut s, ".");
        push_decimal(&mut s, (t % 10) as u64);
    }
    push_str(&mut s, name);
    s
}

/// Memory rendered in the unit it was most likely written in.
pub fn render_mem(bytes: i64) -> (r: String)
    ensures
        r@ == render_mem_spec(bytes),
{
    if bytes >= 0x400 {
        let x = f64_value(bytes as u64);
        if bytes >= 0x4000_0000 {
            unit_text_exec(x, 0x4000_0000, "Gi")
        } else if bytes >= 0x10_0000 {
            unit_text_exec(x, 0x10_0000, "Mi")
        } else {
            unit_text_exec(x, 0x400, "Ki")
        }
    } else {
        let mut s = String::new();
        push_signed(&mut s, bytes);
        s
    }
}

/// A mirror pod's name without the node it repeats: only when it ends in
/// exactly `-<node>` and something is left before that.
pub open spec fn short_label_spec(name: Seq<char>, node: Option<Seq<char>>) -> Seq<char> {
    match node {
        Some(nd) if nd.len() > 0 => match strip_suffix(name, nd) {
            Some(head) if ends_with(head, "-"@) && head.len() > 1 => crate::feed::trim_end_char(head, '-'),
            _ => name,
        },
        _ => name,
    }
}

pub fn short_label(name: &str, node: Option<&str>) -> (r: String)
    ensures
        r@ == short_label_spec(name@, crate::plugins::drive::opt_str(node)),
{
    proof {
        reveal_strlit("-");
    }
    match node {
        Some(nd) => {
            if nd.unicode_len() > 0 {
                match strip_suffix_str(name, nd) {
                    Some(head) => {
                        if crate::text::ends_with_str(head, "-") && head.unicode_len() > 1 {
                            return crate::feed::trim_end_matches(head, '-');
                        }
                    },
                    None => {},
                }
            }
            owned(name)
        },
        None => owned(name),
    }
}


pub type MetricV = (Seq<char>, Seq<char>, Option<Seq<char>>);

pub open spec fn plain(label: Seq<char>, value: Seq<char>) -> MetricV {
    (label, value, None)
}

pub open spec fn toned(label: Seq<char>, value: Seq<char>, tone: Seq<char>) -> MetricV {
    (label, value, Some(tone))
}

pub open spec fn or_else(o: Option<Seq<char>>, d: Seq<char>) -> Seq<char> {
    match o {
        Some(s) => s,
        None => d,
    }
}

pub open spec fn int_at(v: Json, p: Seq<Seq<char>>) -> i64 {
    match v.path_i64(p) {
        Some(x) => x,
        None => 0,
    }
}

/// The state of a container, in the words `kubectl describe` uses, with
/// the reason when there is one; whether it is ready.
pub open spec fn container_state_spec(st: Option<Json>) -> (Health, Seq<char>, bool) {
    match st {
        None => (Health::Unknown, "not started"@, false),
        Some(st) => {
            let ready = st.path_bool(seq!["ready"@]) == Some(true);
            if st.path(seq!["state"@, "running"@]) is Some {
                (
                    if ready { Health::Healthy } else { Health::Warn },
                    if ready { "running"@ } else { "running · not ready"@ },
                    ready,
                )
            } else if st.path(seq!["state"@, "waiting"@]) is Some {
                let w = st.path(seq!["state"@, "waiting"@])->0;
                let reason = or_else(w.path_str(seq!["reason"@]), "waiting"@);
                let bad = contains_str(reason, "Err"@) || contains_str(reason, "CrashLoop"@) || contains_str(
                    reason,
                    "Invalid"@,
                );
                (if bad { Health::Error } else { Health::Warn }, "waiting · "@ + reason, ready)
            } else if st.path(seq!["state"@, "terminated"@]) is Some {
                let t = st.path(seq!["state"@, "terminated"@])->0;
                let code = int_at(t, seq!["exitCode"@]);
                let reason = or_else(t.path_str(seq!["reason"@]), "terminated"@);
                (
                    if code == 0 { Health::Idle } else { Health::Error },
                    "terminated · "@ + reason + " ("@ + signed_decimal(code as int) + ")"@,
                    ready,
                )
            } else {
                (Health::Unknown, "unknown"@, ready)
            }
        },
    }
}

pub fn container_state(status: Option<&Json>) -> (r: (Health, String, bool))
    ensures
        ({
            let s = container_state_spec(match status {
                Some(j) => Some(*j),
                None => None,
            });
            r.0 == s.0 && r.1@ == s.1 && r.2 == s.2
        }),
{
    let st = match status {
        Some(st) => st,
        None => return (Health::Unknown, owned("not started"), false),
    };
    let ready = match bool_1(st, "ready") {
        Some(b) => b,
        None => false,
    };
    let state = at1(st, "state");
    match state {
        Some(sv) => {
            proof {
                crate::json::lemma_path1(*st, "state"@);
                crate::json::lemma_path_cons(*st, "state"@, seq!["running"@]);
                crate::json::lemma_path_cons(*st, "state"@, seq!["waiting"@]);
                crate::json::lemma_path_cons(*st, "state"@, seq!["terminated"@]);
                assert(seq!["state"@] + seq!["running"@] =~= seq!["state"@, "running"@]);
                assert(seq!["state"@] + seq!["waiting"@] =~= seq!["state"@, "waiting"@]);
                assert(seq!["state"@] + seq!["terminated"@] =~= seq!["state"@, "terminated"@]);
            }
            if at1(sv, "running").is_some() {
                return (
                    if ready { Health::Healthy } else { Health::Warn },
                    if ready { owned("running") } else { owned("running · not ready") },
                    ready,
                );
            }
            match at1(sv, "waiting") {
                Some(w) => {
                    let reason = match str1(w, "reason") {
                        Some(r) => r,
                        None => "waiting",
                    };
                    let bad = contains_exec(reason, "Err") || contains_exec(reason, "CrashLoop") || contains_exec(
                        reason,
                        "Invalid",
                    );
                    let mut d = owned("waiting · ");
                    push_str(&mut d, reason);
                    return (if bad { Health::Error } else { Health::Warn }, d, ready);
                },
                None => {},
            }
            match at1(sv, "terminated") {
                Some(t) => {
                    let code = match i64_1(t, "exitCode") {
                        Some(c) => c,
                        None => 0,
                    };
                    let reason = match str1(t, "reason") {
                        Some(r) => r,
                        None => "terminated",
                    };
                    let mut d = owned("terminated · ");
                    push_str(&mut d, reason);
                    push_str(&mut d, " (");
                    push_signed(&mut d, code);
                    push_str(&mut d, ")");
                    return (if code == 0 { Health::Idle } else { Health::Error }, d, ready);
                },
                None => {},
            }
            (Health::Unknown, owned("unknown"), ready)
        },
        None => {
            proof {
                crate::json::lemma_path1(*st, "state"@);
                crate::json::lemma_path_cons(*st, "state"@, seq!["running"@]);
                crate::json::lemma_path_cons(*st, "state"@, seq!["waiting"@]);
                crate::json::lemma_path_cons(*st, "state"@, seq!["terminated"@]);
                assert(seq!["state"@] + seq!["running"@] =~= seq!["state"@, "running"@]);
                assert(seq!["state"@] + seq!["waiting"@] =~= seq!["state"@, "waiting"@]);
                assert(seq!["state"@] + seq!["terminated"@] =~= seq!["state"@, "terminated"@]);
            }
            (Health::Unknown, owned("unknown"), ready)
        },
    }
}


pub type ActionV = (Seq<char>, Seq<char>, Seq<char>, Seq<char>, bool, bool, Option<Seq<char>>);
pub type RelV = (Seq<char>, RelationKind, Seq<Seq<char>>, Option<Seq<char>>);
pub type CV = (Seq<char>, Seq<char>, Seq<char>, Health, Seq<char>, Seq<MetricV>, Seq<ActionV>, Seq<RelV>, Option<Seq<char>>);

pub open spec fn arr_or_empty(v: Json, p: Seq<Seq<char>>) -> Seq<Json> {
    match v.path_arr(p) {
        Some(a) => a,
        None => Seq::empty(),
    }
}

pub open spec fn named_at(sts: Seq<Json>, name: Seq<char>) -> spec_fn(int) -> bool {
    |i: int| sts[i].path_str(seq!["name"@]) == Some(name)
}

/// A container's status, matched by name and not by position.
pub open spec fn status_for(sts: Seq<Json>, name: Seq<char>) -> Option<Json> {
    match crate::text::first_at(sts.len() as int, named_at(sts, name)) {
        Some(i) => Some(sts[i]),
        None => None,
    }
}

/// What a container asks for or is allowed: cpu and memory.
pub open spec fn resource_text(spec: Json, field: Seq<char>) -> Option<Seq<char>> {
    let cpu = spec.path_str(seq!["resources"@, field, "cpu"@]);
    let mem = spec.path_str(seq!["resources"@, field, "memory"@]);
    match (cpu, mem) {
        (Some(c), Some(m)) => Some(c + " cpu · "@ + m),
        (Some(c), None) => Some(c + " cpu"@),
        (None, Some(m)) => Some(m),
        _ => None,
    }
}

pub open spec fn port_texts(ps: Seq<Json>) -> Seq<Seq<char>>
    decreases ps.len(),
{
    if ps.len() == 0 {
        Seq::empty()
    } else {
        let p = port_texts(ps.drop_last());
        match ps.last().path_i64(seq!["containerPort"@]) {
            Some(x) => p.push(signed_decimal(x as int)),
            None => p,
        }
    }
}

pub open spec fn image_metric(spec: Json) -> Seq<MetricV> {
    let image = or_else(spec.path_str(seq!["image"@]), Seq::empty());
    if image.len() > 0 { seq![toned("image"@, image, "muted"@)] } else { Seq::empty() }
}

pub open spec fn status_metric(st: Option<Json>) -> Seq<MetricV> {
    match st {
        Some(st) => {
            let r = int_at(st, seq!["restartCount"@]);
            seq![toned("restarts"@, signed_decimal(r as int), if r > 0 { "warn"@ } else { "muted"@ })] + (
            match st.path_str(seq!["imageID"@]) {
                Some(id) => seq![toned("imageID"@, id, "muted"@)],
                None => Seq::empty(),
            })
        },
        None => Seq::empty(),
    }
}

pub open spec fn resource_metric(spec: Json, field: Seq<char>) -> Seq<MetricV> {
    match resource_text(spec, field) {
        Some(t) => seq![toned(field, t, "muted"@)],
        None => Seq::empty(),
    }
}

pub open spec fn ports_metric(spec: Json) -> Seq<MetricV> {
    match spec.path_arr(seq!["ports"@]) {
        Some(ps) => if port_texts(ps).len() > 0 {
            seq![toned("ports"@, join(port_texts(ps), ", "@), "muted"@)]
        } else {
            Seq::empty()
        },
        None => Seq::empty(),
    }
}

/// A container's image, restarts and running digest, what it asks for and
/// is allowed, and its ports.
pub open spec fn container_metrics(spec: Json, st: Option<Json>) -> Seq<MetricV> {
    image_metric(spec) + status_metric(st) + resource_metric(spec, "requests"@) + resource_metric(spec, "limits"@)
        + ports_metric(spec)
}

/// One container of a pod, when its spec names it.
pub open spec fn container_cv(key: Seq<char>, spec: Json, sts: Seq<Json>, is_init: bool) -> Option<CV> {
    match spec.path_str(seq!["name"@]) {
        None => None,
        Some(name) => {
            let st = status_for(sts, name);
            let state = container_state_spec(st);
            Some((
                "k8s:container:"@ + key + "/"@ + name,
                "k8s-container"@,
                name,
                state.0,
                if is_init { "init · "@ + state.1 } else { state.1 },
                container_metrics(spec, st),
                Seq::empty(),
                seq![("pod"@, RelationKind::BelongsTo, seq!["k8s:pod:"@ + key], None::<Seq<char>>)],
                None,
            ))
        },
    }
}

pub open spec fn containers_from(key: Seq<char>, specs: Seq<Json>, sts: Seq<Json>, is_init: bool) -> Seq<CV>
    decreases specs.len(),
{
    if specs.len() == 0 {
        Seq::empty()
    } else {
        let p = containers_from(key, specs.drop_last(), sts, is_init);
        match container_cv(key, specs.last(), sts, is_init) {
            Some(c) => p.push(c),
            None => p,
        }
    }
}

/// The containers a pod declares, init containers first.
pub open spec fn containers_spec(key: Seq<char>, pod: Json) -> Seq<CV> {
    containers_from(
        key,
        arr_or_empty(pod, seq!["spec"@, "initContainers"@]),
        arr_or_empty(pod, seq!["status"@, "initContainerStatuses"@]),
        true,
    ) + containers_from(
        key,
        arr_or_empty(pod, seq!["spec"@, "containers"@]),
        arr_or_empty(pod, seq!["status"@, "containerStatuses"@]),
        false,
    )
}

pub open spec fn cv_of(cs: Seq<ComponentSummary>) -> Seq<CV> {
    cs.map_values(|c: ComponentSummary| comp_view(c))
}

pub(crate) fn cat(a: &str, b: &str) -> (r: String)
    ensures
        r@ == a@ + b@,
{
    let mut s = owned(a);
    push_str(&mut s, b);
    s
}

pub(crate) fn push_metric(ms: &mut Vec<Metric>, label: &str, value: String, tone: Option<&str>)
    ensures
        metrics_view(final(ms)@) == metrics_view(old(ms)@).push((
            label@,
            value@,
            match tone {
                Some(t) => Some(t@),
                None => None,
            },
        )),
        crate::registry::unitless(old(ms)@) ==> crate::registry::unitless(final(ms)@),
{
    let m = match tone {
        Some(t) => Metric::new(label, value).tone(t),
        None => Metric::new(label, value),
    };
    let ghost before = metrics_view(ms@);
    ms.push(m);
    assert(metrics_view(ms@) =~= before.push(metric_view(m)));
}

fn find_status<'a>(sts: &'a Vec<Json>, name: &str) -> (r: Option<&'a Json>)
    ensures
        match (r, status_for(sts@, name@)) {
            (Some(a), Some(b)) => *a == b,
            (None, None) => true,
            _ => false,
        },
{
    let mut i: usize = 0;
    while i < sts.len()
        invariant
            i <= sts@.len(),
            forall|j: int| 0 <= j < i ==> !#[trigger] named_at(sts@, name@)(j),
        decreases sts@.len() - i,
    {
        let n = str1(&sts[i], "name");
        let hit = match n {
            Some(x) => str_eq(x, name),
            None => false,
        };
        if hit {
            proof {
                crate::text::lemma_first_at_some(sts@.len() as int, named_at(sts@, name@), i as int);
            }
            return Some(&sts[i]);
        }
        i += 1;
    }
    proof {
        crate::text::lemma_first_at_none(sts@.len() as int, named_at(sts@, name@));
    }
    None
}

fn resource_exec(spec: &Json, field: &str) -> (r: Option<String>)
    ensures
        opt_chars(r) == resource_text(*spec, field@),
{
    let cpu = str3(spec, "resources", field, "cpu");
    let mem = str3(spec, "resources", field, "memory");
    match (cpu, mem) {
        (Some(c), Some(m)) => {
            let mut t = cat(c, " cpu · ");
            push_str(&mut t, m);
            Some(t)
        },
        (Some(c), None) => Some(cat(c, " cpu")),
        (None, Some(m)) => Some(owned(m)),
        _ => None,
    }
}

fn port_list(ps: &Vec<Json>) -> (r: Vec<String>)
    ensures
        string_views(r@) == port_texts(ps@),
{
    let mut out: Vec<String> = Vec::new();
    let mut i: usize = 0;
    assert(ps@.take(0) =~= Seq::<Json>::empty());
    assert(string_views(out@) =~= Seq::<Seq<char>>::empty());
    while i < ps.len()
        invariant
            i <= ps@.len(),
            string_views(out@) == port_texts(ps@.take(i as int)),
        decreases ps@.len() - i,
    {
        assert(ps@.take(i + 1).drop_last() == ps@.take(i as int));
        assert(ps@.take(i + 1).last() == ps@[i as int]);
        match i64_1(&ps[i], "containerPort") {
            Some(x) => {
                let ghost b = string_views(out@);
                out.push(crate::text::signed_string(x));
                assert(string_views(out@) =~= b.push(signed_decimal(x as int)));
            },
            None => {},
        }
        i += 1;
    }
    assert(ps@.take(ps@.len() as int) == ps@);
    out
}

fn push_image(ms: &mut Vec<Metric>, spec: &Json)
    ensures
        metrics_view(final(ms)@) == metrics_view(old(ms)@) + image_metric(*spec),
        crate::registry::unitless(old(ms)@) ==> crate::registry::unitless(final(ms)@),
{
    let ghost before = metrics_view(ms@);
    let image = match str1(spec, "image") {
        Some(i) => i,
        None => "",
    };
    proof {
        reveal_strlit("");
    }
    if image.unicode_len() > 0 {
        push_metric(ms, "image", owned(image), Some("muted"));
    }
    assert(metrics_view(ms@) =~= before + image_metric(*spec));
}

fn push_status(ms: &mut Vec<Metric>, st: Option<&Json>)
    ensures
        metrics_view(final(ms)@) == metrics_view(old(ms)@) + status_metric(match st {
            Some(j) => Some(*j),
            None => None,
        }),
        crate::registry::unitless(old(ms)@) ==> crate::registry::unitless(final(ms)@),
{
    let ghost before = metrics_view(ms@);
    match st {
        Some(st) => {
            let r = match i64_1(st, "restartCount") {
                Some(x) => x,
                None => 0,
            };
            push_metric(ms, "restarts", crate::text::signed_string(r), Some(if r > 0 { "warn" } else { "muted" }));
            match str1(st, "imageID") {
                Some(id) => {
                    push_metric(ms, "imageID", owned(id), Some("muted"));
                },
                None => {},
            }
        },
        None => {},
    }
    assert(metrics_view(ms@) =~= before + status_metric(match st {
        Some(j) => Some(*j),
        None => None,
    }));
}

fn push_resource(ms: &mut Vec<Metric>, spec: &Json, field: &str)
    ensures
        metrics_view(final(ms)@) == metrics_view(old(ms)@) + resource_metric(*spec, field@),
        crate::registry::unitless(old(ms)@) ==> crate::registry::unitless(final(ms)@),
{
    let ghost before = metrics_view(ms@);
    match resource_exec(spec, field) {
        Some(t) => {
            push_metric(ms, field, t, Some("muted"));
        },
        None => {},
    }
    assert(metrics_view(ms@) =~= before + resource_metric(*spec, field@));
}

fn push_ports(ms: &mut Vec<Metric>, spec: &Json)
    ensures
        metrics_view(final(ms)@) == metrics_view(old(ms)@) + ports_metric(*spec),
        crate::registry::unitless(old(ms)@) ==> crate::registry::unitless(final(ms)@),
{
    let ghost before = metrics_view(ms@);
    match arr_1(spec, "ports") {
        Some(ps) => {
            let list = port_list(ps);
            if list.len() > 0 {
                push_metric(ms, "ports", join_strings(&list, ", "), Some("muted"));
            }
        },
        None => {},
    }
    assert(metrics_view(ms@) =~= before + ports_metric(*spec));
}

fn container_metrics_exec(spec: &Json, st: Option<&Json>) -> (r: Vec<Metric>)
    ensures
        metrics_view(r@) == container_metrics(*spec, match st {
            Some(j) => Some(*j),
            None => None,
        }),
        crate::registry::unitless(r@),
{
    let mut ms: Vec<Metric> = Vec::new();
    assert(metrics_view(ms@) =~= Seq::<MetricV>::empty());
    push_image(&mut ms, spec);
    push_status(&mut ms, st);
    push_resource(&mut ms, spec, "requests");
    push_resource(&mut ms, spec, "limits");
    push_ports(&mut ms, spec);
    ms
}


fn container_one(key: &str, spec: &Json, sts: &Vec<Json>, is_init: bool) -> (r: Option<ComponentSummary>)
    ensures
        match (r, container_cv(key@, *spec, sts@, is_init)) {
            (Some(c), Some(v)) => comp_view(c) == v,
            (None, None) => true,
            _ => false,
        },
        r matches Some(c) ==> crate::registry::unitless(c.metrics@),
{
    let name = match str1(spec, "name") {
        Some(n) => n,
        None => return None,
    };
    let st = find_status(sts, name);
    let (health, state, _ready) = container_state(st);
    let detail = if is_init { cat("init · ", state.as_str()) } else { state };
    let metrics = container_metrics_exec(spec, st);
    let mut id = cat("k8s:container:", key);
    push_str(&mut id, "/");
    push_str(&mut id, name);
    let mut relations: Vec<Relation> = Vec::new();
    relations.push(Relation::belongs_to("pod", cat("k8s:pod:", key)));
    let c = ComponentSummary {
        id,
        kind: owned("k8s-container"),
        label: owned(name),
        health,
        detail,
        metrics,
        actions: Vec::new(),
        relations,
        link: None,
    };
    proof {
        assert(actions_view(c.actions@) =~= Seq::<ActionV>::empty());
        assert(rels_view(c.relations@) =~= seq![("pod"@, RelationKind::BelongsTo, seq!["k8s:pod:"@ + key@], None::<Seq<char>>)]);
    }
    Some(c)
}

fn containers_part(key: &str, specs: Option<&Vec<Json>>, sts: Option<&Vec<Json>>, is_init: bool, out: &mut Vec<ComponentSummary>)
    ensures
        cv_of(final(out)@) == cv_of(old(out)@) + containers_from(
            key@,
            match specs {
                Some(a) => a@,
                None => Seq::empty(),
            },
            match sts {
                Some(a) => a@,
                None => Seq::empty(),
            },
            is_init,
        ),
        crate::registry::all_unitless(old(out)@) ==> crate::registry::all_unitless(final(out)@),
{
    let empty: Vec<Json> = Vec::new();
    let specs = match specs {
        Some(a) => a,
        None => &empty,
    };
    let sts = match sts {
        Some(a) => a,
        None => &empty,
    };
    let ghost before = cv_of(out@);
    let mut i: usize = 0;
    assert(specs@.take(0) =~= Seq::<Json>::empty());
    assert(cv_of(out@) =~= before + Seq::<CV>::empty());
    while i < specs.len()
        invariant
            i <= specs@.len(),
            cv_of(out@) == before + containers_from(key@, specs@.take(i as int), sts@, is_init),
            crate::registry::all_unitless(old(out)@) ==> crate::registry::all_unitless(out@),
        decreases specs@.len() - i,
    {
        assert(specs@.take(i + 1).drop_last() == specs@.take(i as int));
        assert(specs@.take(i + 1).last() == specs@[i as int]);
        match container_one(key, &specs[i], sts, is_init) {
            Some(c) => {
                let ghost b = cv_of(out@);
                let ghost o = out@;
                out.push(c);
                assert(cv_of(out@) =~= b.push(comp_view(c)));
                proof {
                    if crate::registry::all_unitless(old(out)@) {
                        crate::registry::lemma_all_unitless_push(o, c);
                    }
                }
            },
            None => {},
        }
        i += 1;
    }
    assert(specs@.take(specs@.len() as int) == specs@);
}

/// One component per container in a pod, init containers first.
pub fn containers_of(key: &str, pod: &Json) -> (r: Vec<ComponentSummary>)
    ensures
        cv_of(r@) == containers_spec(key@, *pod),
        crate::registry::all_unitless(r@),
{
    let mut out: Vec<ComponentSummary> = Vec::new();
    assert(cv_of(out@) =~= Seq::<CV>::empty());
    containers_part(key, arr_2(pod, "spec", "initContainers"), arr_2(pod, "status", "initContainerStatuses"), true, &mut out);
    containers_part(key, arr_2(pod, "spec", "containers"), arr_2(pod, "status", "containerStatuses"), false, &mut out);
    assert(cv_of(out@) =~= containers_spec(key@, *pod));
    out
}

/// The container ids a pod declares, init containers first.
pub open spec fn ids_from(key: Seq<char>, specs: Seq<Json>) -> Seq<Seq<char>>
    decreases specs.len(),
{
    if specs.len() == 0 {
        Seq::empty()
    } else {
        let p = ids_from(key, specs.drop_last());
        match specs.last().path_str(seq!["name"@]) {
            Some(n) => p.push("k8s:container:"@ + key + "/"@ + n),
            None => p,
        }
    }
}

pub open spec fn container_ids_spec(key: Seq<char>, pod: Json) -> Seq<Seq<char>> {
    ids_from(key, arr_or_empty(pod, seq!["spec"@, "initContainers"@])) + ids_from(
        key,
        arr_or_empty(pod, seq!["spec"@, "containers"@]),
    )
}

fn ids_part(key: &str, specs: Option<&Vec<Json>>, out: &mut Vec<String>)
    ensures
        string_views(final(out)@) == string_views(old(out)@) + ids_from(
            key@,
            match specs {
                Some(a) => a@,
                None => Seq::empty(),
            },
        ),
{
    let empty: Vec<Json> = Vec::new();
    let specs = match specs {
        Some(a) => a,
        None => &empty,
    };
    let ghost before = string_views(out@);
    let mut i: usize = 0;
    assert(specs@.take(0) =~= Seq::<Json>::empty());
    assert(string_views(out@) =~= before + Seq::<Seq<char>>::empty());
    while i < specs.len()
        invariant
            i <= specs@.len(),
            string_views(out@) == before + ids_from(key@, specs@.take(i as int)),
        decreases specs@.len() - i,
    {
        assert(specs@.take(i + 1).drop_last() == specs@.take(i as int));
        assert(specs@.take(i + 1).last() == specs@[i as int]);
        match str1(&specs[i], "name") {
            Some(n) => {
                let mut id = cat("k8s:container:", key);
                push_str(&mut id, "/");
                push_str(&mut id, n);
                let ghost b = string_views(out@);
                out.push(id);
                assert(string_views(out@) =~= b.push("k8s:container:"@ + key@ + "/"@ + n@));
            },
            None => {},
        }
        i += 1;
    }
    assert(specs@.take(specs@.len() as int) == specs@);
}

pub fn container_ids(key: &str, pod: &Json) -> (r: Vec<String>)
    ensures
        string_views(r@) == container_ids_spec(key@, *pod),
{
    let mut out: Vec<String> = Vec::new();
    assert(string_views(out@) =~= Seq::<Seq<char>>::empty());
    ids_part(key, arr_2(pod, "spec", "initContainers"), &mut out);
    ids_part(key, arr_2(pod, "spec", "containers"), &mut out);
    assert(string_views(out@) =~= container_ids_spec(key@, *pod));
    out
}


/// One watched kind's objects, keyed as the store keys them (`ns/name`, or
/// `name` for a cluster-scoped kind).
#[derive(Debug)]
pub struct KindObjects {
    pub kind: String,
    pub objects: Vec<(String, Json)>,
}

pub open spec fn kind_at(snap: Seq<KindObjects>, kind: Seq<char>) -> spec_fn(int) -> bool {
    |i: int| snap[i].kind@ == kind
}

/// Whether the store holds a kind at all: a kind the apiserver does not
/// serve is absent, which is not the same as present and empty.
pub open spec fn present(snap: Seq<KindObjects>, kind: Seq<char>) -> bool {
    crate::text::first_at(snap.len() as int, kind_at(snap, kind)) is Some
}

/// A kind's objects, or none.
pub open spec fn objects_of(snap: Seq<KindObjects>, kind: Seq<char>) -> Seq<(String, Json)> {
    match crate::text::first_at(snap.len() as int, kind_at(snap, kind)) {
        Some(i) => snap[i].objects@,
        None => Seq::empty(),
    }
}

pub fn kind_objects<'a>(snap: &'a Vec<KindObjects>, kind: &str) -> (r: Option<&'a Vec<(String, Json)>>)
    ensures
        r is Some == present(snap@, kind@),
        match r {
            Some(v) => v@ == objects_of(snap@, kind@),
            None => objects_of(snap@, kind@) == Seq::<(String, Json)>::empty(),
        },
{
    let mut i: usize = 0;
    while i < snap.len()
        invariant
            i <= snap@.len(),
            forall|j: int| 0 <= j < i ==> !#[trigger] kind_at(snap@, kind@)(j),
        decreases snap@.len() - i,
    {
        if str_eq(snap[i].kind.as_str(), kind) {
            proof {
                crate::text::lemma_first_at_some(snap@.len() as int, kind_at(snap@, kind@), i as int);
            }
            return Some(&snap[i].objects);
        }
        i += 1;
    }
    proof {
        crate::text::lemma_first_at_none(snap@.len() as int, kind_at(snap@, kind@));
    }
    None
}

pub open spec fn keys(objs: Seq<(String, Json)>) -> Seq<Seq<char>> {
    objs.map_values(|o: (String, Json)| o.0@)
}

/// The ids of the objects whose key starts with `prefix`, in order.
pub open spec fn ids_under(ks: Seq<Seq<char>>, prefix: Seq<char>, kind: Seq<char>) -> Seq<Seq<char>>
    decreases ks.len(),
{
    if ks.len() == 0 {
        Seq::empty()
    } else {
        let p = ids_under(ks.drop_last(), prefix, kind);
        if crate::text::starts_with(ks.last(), prefix) {
            p.push("k8s:"@ + kind + ":"@ + ks.last())
        } else {
            p
        }
    }
}

fn ids_with_prefix(objs: Option<&Vec<(String, Json)>>, prefix: &str, kind: &str) -> (r: Vec<String>)
    ensures
        string_views(r@) == ids_under(keys(match objs {
            Some(v) => v@,
            None => Seq::empty(),
        }), prefix@, kind@),
{
    let empty: Vec<(String, Json)> = Vec::new();
    let objs = match objs {
        Some(v) => v,
        None => &empty,
    };
    let ghost ks = keys(objs@);
    let mut out: Vec<String> = Vec::new();
    let mut i: usize = 0;
    assert(ks.take(0) =~= Seq::<Seq<char>>::empty());
    assert(string_views(out@) =~= Seq::<Seq<char>>::empty());
    while i < objs.len()
        invariant
            i <= objs@.len(),
            ks == keys(objs@),
            string_views(out@) == ids_under(ks.take(i as int), prefix@, kind@),
        decreases objs@.len() - i,
    {
        assert(ks.take(i + 1).drop_last() == ks.take(i as int));
        assert(ks.take(i + 1).last() == objs@[i as int].0@);
        let k = objs[i].0.as_str();
        if crate::text::starts_with_str(k, prefix) {
            let mut id = cat("k8s:", kind);
            push_str(&mut id, ":");
            push_str(&mut id, k);
            let ghost b = string_views(out@);
            out.push(id);
            assert(string_views(out@) =~= b.push("k8s:"@ + kind@ + ":"@ + k@));
        }
        i += 1;
    }
    assert(ks.take(objs@.len() as int) == ks);
    out
}

/// A component with its id and kind in the plugin's shape.
pub open spec fn base_cv(kind: Seq<char>, key: Seq<char>, label: Seq<char>, health: Health, detail: Seq<char>) -> CV {
    ("k8s:"@ + kind + ":"@ + key, "k8s-"@ + kind, label, health, detail, Seq::empty(), Seq::empty(), Seq::empty(), None)
}

pub(crate) fn base(kind: &str, key: &str, label: &str, health: Health, detail: String) -> (c: ComponentSummary)
    ensures
        comp_view(c) == base_cv(kind@, key@, label@, health, detail@),
        crate::registry::unitless(c.metrics@),
{
    let mut id = cat("k8s:", kind);
    push_str(&mut id, ":");
    push_str(&mut id, key);
    let c = ComponentSummary::bare(id, cat("k8s-", kind), owned(label), health, detail);
    assert(metrics_view(c.metrics@) =~= Seq::<MetricV>::empty());
    assert(actions_view(c.actions@) =~= Seq::<ActionV>::empty());
    assert(rels_view(c.relations@) =~= Seq::<RelV>::empty());
    c
}

/// A namespaced key's namespace and name; a bare key is its own name.
pub open spec fn split_key_spec(key: Seq<char>) -> (Option<Seq<char>>, Seq<char>) {
    match split_once(key, '/') {
        Some((ns, name)) => (Some(ns), name),
        None => (None, key),
    }
}

pub(crate) fn split_key(key: &str) -> (r: (Option<&str>, &str))
    ensures
        crate::plugins::drive::opt_str(r.0) == split_key_spec(key@).0,
        r.1@ == split_key_spec(key@).1,
{
    match split_once_str(key, '/') {
        Some((ns, name)) => (Some(ns), name),
        None => (None, key),
    }
}

/// The edge from a namespaced object to its namespace.
pub open spec fn ns_relation_spec(key: Seq<char>) -> Seq<RelV> {
    match split_key_spec(key).0 {
        Some(ns) => seq![("namespace"@, RelationKind::BelongsTo, seq!["k8s:ns:"@ + ns], None::<Seq<char>>)],
        None => Seq::empty(),
    }
}

pub(crate) fn push_ns_relation(rs: &mut Vec<Relation>, key: &str)
    ensures
        rels_view(final(rs)@) == rels_view(old(rs)@) + ns_relation_spec(key@),
{
    let ghost before = rels_view(rs@);
    let (ns, _) = split_key(key);
    match ns {
        Some(ns) => {
            let r = Relation::belongs_to("namespace", cat("k8s:ns:", ns));
            rs.push(r);
            assert(rels_view(rs@) =~= before.push(rel_view(r)));
        },
        None => {},
    }
    assert(rels_view(rs@) =~= before + ns_relation_spec(key@));
}


/// Each object as a component.
pub open spec fn views_of(objs: Seq<(String, Json)>, f: spec_fn(Seq<char>, Json) -> CV) -> Seq<CV> {
    objs.map_values(|o: (String, Json)| f(o.0@, o.1))
}

pub open spec fn cond_at(cs: Seq<Json>, kind: Seq<char>) -> spec_fn(int) -> bool {
    |i: int| cs[i].path_str(seq!["type"@]) == Some(kind)
}

/// The status of the first condition of this type.
pub open spec fn condition_of(v: Json, kind: Seq<char>) -> Option<Seq<char>> {
    match v.path_arr(seq!["status"@, "conditions"@]) {
        Some(cs) => match crate::text::first_at(cs.len() as int, cond_at(cs, kind)) {
            Some(i) => cs[i].path_str(seq!["status"@]),
            None => None,
        },
        None => None,
    }
}

fn condition<'a>(v: &'a Json, kind: &str) -> (r: Option<&'a str>)
    ensures
        crate::plugins::drive::opt_str(r) == condition_of(*v, kind@),
{
    let cs = match arr_2(v, "status", "conditions") {
        Some(cs) => cs,
        None => return None,
    };
    let mut i: usize = 0;
    while i < cs.len()
        invariant
            i <= cs@.len(),
            v.path_arr(seq!["status"@, "conditions"@]) == Some(cs@),
            forall|j: int| 0 <= j < i ==> !#[trigger] cond_at(cs@, kind@)(j),
        decreases cs@.len() - i,
    {
        let hit = match str1(&cs[i], "type") {
            Some(t) => str_eq(t, kind),
            None => false,
        };
        if hit {
            proof {
                crate::text::lemma_first_at_some(cs@.len() as int, cond_at(cs@, kind@), i as int);
            }
            return str1(&cs[i], "status");
        }
        i += 1;
    }
    proof {
        crate::text::lemma_first_at_none(cs@.len() as int, cond_at(cs@, kind@));
    }
    None
}

/// The namespace's edges: one per kind that has objects in it.
pub open spec fn has_many_under(snap: Seq<KindObjects>, key: Seq<char>, kind: Seq<char>, name: Seq<char>) -> Seq<RelV> {
    let t = ids_under(keys(objects_of(snap, kind)), key + "/"@, kind);
    if t.len() > 0 { seq![(name, RelationKind::HasMany, t, None::<Seq<char>>)] } else { Seq::empty() }
}

pub open spec fn ns_rels(snap: Seq<KindObjects>, key: Seq<char>) -> Seq<RelV> {
    has_many_under(snap, key, "pod"@, "pods"@) + has_many_under(snap, key, "deploy"@, "deployments"@) + has_many_under(
        snap,
        key,
        "sts"@,
        "statefulsets"@,
    ) + has_many_under(snap, key, "ds"@, "daemonsets"@) + has_many_under(snap, key, "job"@, "jobs"@) + has_many_under(
        snap,
        key,
        "cronjob"@,
        "cronjobs"@,
    ) + has_many_under(snap, key, "svc"@, "services"@) + has_many_under(snap, key, "pvc"@, "pvcs"@)
}

pub open spec fn ns_health(obj: Json) -> Health {
    match obj.path_str(seq!["status"@, "phase"@]) {
        None => Health::Healthy,
        Some(p) => if p == "Active"@ {
            Health::Healthy
        } else if p == "Terminating"@ {
            Health::Warn
        } else {
            Health::Unknown
        },
    }
}

/// A namespace: its phase, how many pods it holds, an edge per kind that
/// lives in it, and its own page.
pub open spec fn ns_cv(snap: Seq<KindObjects>, key: Seq<char>, obj: Json) -> CV {
    let pods = ids_under(keys(objects_of(snap, "pod"@)), key + "/"@, "pod"@).len();
    (
        "k8s:ns:"@ + key,
        "k8s-ns"@,
        key,
        ns_health(obj),
        decimal(pods) + " pods"@,
        seq![plain("pods"@, decimal(pods))],
        Seq::empty(),
        ns_rels(snap, key),
        Some("#/k8s/ns/"@ + key),
    )
}

pub open spec fn ns_fn(snap: Seq<KindObjects>) -> spec_fn(Seq<char>, Json) -> CV {
    |k: Seq<char>, o: Json| ns_cv(snap, k, o)
}

fn push_has_many(rs: &mut Vec<Relation>, snap: &Vec<KindObjects>, key: &str, kind: &str, name: &str)
    ensures
        rels_view(final(rs)@) == rels_view(old(rs)@) + has_many_under(snap@, key@, kind@, name@),
{
    let ghost before = rels_view(rs@);
    let prefix = cat(key, "/");
    let t = ids_with_prefix(kind_objects(snap, kind), prefix.as_str(), kind);
    if t.len() > 0 {
        let r = Relation::has_many(name, t);
        rs.push(r);
        assert(rels_view(rs@) =~= before.push(rel_view(r)));
    }
    assert(rels_view(rs@) =~= before + has_many_under(snap@, key@, kind@, name@));
}

fn ns_component(snap: &Vec<KindObjects>, key: &str, obj: &Json) -> (c: ComponentSummary)
    ensures
        comp_view(c) == ns_cv(snap@, key@, *obj),
        crate::registry::unitless(c.metrics@),
{
    let health = match str2(obj, "status", "phase") {
        None => Health::Healthy,
        Some(p) => if str_eq(p, "Active") {
            Health::Healthy
        } else if str_eq(p, "Terminating") {
            Health::Warn
        } else {
            Health::Unknown
        },
    };
    let prefix = cat(key, "/");
    let pod_ids = ids_with_prefix(kind_objects(snap, "pod"), prefix.as_str(), "pod");
    let pods = pod_ids.len();
    let mut detail = String::new();
    push_decimal(&mut detail, pods as u64);
    push_str(&mut detail, " pods");
    let mut rs: Vec<Relation> = Vec::new();
    assert(rels_view(rs@) =~= Seq::<RelV>::empty());
    push_has_many(&mut rs, snap, key, "pod", "pods");
    push_has_many(&mut rs, snap, key, "deploy", "deployments");
    push_has_many(&mut rs, snap, key, "sts", "statefulsets");
    push_has_many(&mut rs, snap, key, "ds", "daemonsets");
    push_has_many(&mut rs, snap, key, "job", "jobs");
    push_has_many(&mut rs, snap, key, "cronjob", "cronjobs");
    push_has_many(&mut rs, snap, key, "svc", "services");
    push_has_many(&mut rs, snap, key, "pvc", "pvcs");
    let mut ms: Vec<Metric> = Vec::new();
    assert(metrics_view(ms@) =~= Seq::<MetricV>::empty());
    push_metric(&mut ms, "pods", crate::text::decimal_string(pods as u64), None);
    let mut id = cat("k8s:ns:", key);
    let c = ComponentSummary {
        id,
        kind: owned("k8s-ns"),
        label: owned(key),
        health,
        detail,
        metrics: ms,
        actions: Vec::new(),
        relations: rs,
        link: Some(cat("#/k8s/ns/", key)),
    };
    assert(actions_view(c.actions@) =~= Seq::<ActionV>::empty());
    assert(metrics_view(c.metrics@) =~= seq![plain("pods"@, decimal(pods as nat))]);
    assert(rels_view(c.relations@) =~= ns_rels(snap@, key@));
    c
}

/// The pods scheduled on a node, as ids.
pub open spec fn pods_on(objs: Seq<(String, Json)>, node: Seq<char>) -> Seq<Seq<char>>
    decreases objs.len(),
{
    if objs.len() == 0 {
        Seq::empty()
    } else {
        let p = pods_on(objs.drop_last(), node);
        if objs.last().1.path_str(seq!["spec"@, "nodeName"@]) == Some(node) {
            p.push("k8s:pod:"@ + objs.last().0@)
        } else {
            p
        }
    }
}

/// A node: Ready or not, cordoned or not, its kubelet, and its pods.
pub open spec fn node_cv(snap: Seq<KindObjects>, key: Seq<char>, obj: Json) -> CV {
    let ready = condition_of(obj, "Ready"@) == Some("True"@);
    let unsched = obj.path_bool(seq!["spec"@, "unschedulable"@]) == Some(true);
    let health = if ready { if unsched { Health::Warn } else { Health::Healthy } } else { Health::Error };
    let kubelet = or_else(obj.path_str(seq!["status"@, "nodeInfo"@, "kubeletVersion"@]), "?"@);
    let on = pods_on(objects_of(snap, "pod"@), key);
    (
        "k8s:node:"@ + key,
        "k8s-node"@,
        key,
        health,
        (if ready { "Ready"@ } else { "NotReady"@ }) + (if unsched { " · cordoned"@ } else { Seq::empty() }) + " · kubelet "@
            + kubelet,
        seq![plain("pods"@, decimal(on.len()))],
        Seq::empty(),
        if on.len() > 0 { seq![("pods"@, RelationKind::HasMany, on, None::<Seq<char>>)] } else { Seq::empty() },
        Some("#/grid?id=k8s:node:"@ + key),
    )
}

pub open spec fn node_fn(snap: Seq<KindObjects>) -> spec_fn(Seq<char>, Json) -> CV {
    |k: Seq<char>, o: Json| node_cv(snap, k, o)
}

fn pods_on_exec(objs: Option<&Vec<(String, Json)>>, node: &str) -> (r: Vec<String>)
    ensures
        string_views(r@) == pods_on(match objs {
            Some(v) => v@,
            None => Seq::empty(),
        }, node@),
{
    let empty: Vec<(String, Json)> = Vec::new();
    let objs = match objs {
        Some(v) => v,
        None => &empty,
    };
    let mut out: Vec<String> = Vec::new();
    let mut i: usize = 0;
    assert(objs@.take(0) =~= Seq::<(String, Json)>::empty());
    assert(string_views(out@) =~= Seq::<Seq<char>>::empty());
    while i < objs.len()
        invariant
            i <= objs@.len(),
            string_views(out@) == pods_on(objs@.take(i as int), node@),
        decreases objs@.len() - i,
    {
        assert(objs@.take(i + 1).drop_last() == objs@.take(i as int));
        assert(objs@.take(i + 1).last() == objs@[i as int]);
        let on = match str2(&objs[i].1, "spec", "nodeName") {
            Some(n) => str_eq(n, node),
            None => false,
        };
        if on {
            let ghost b = string_views(out@);
            out.push(cat("k8s:pod:", objs[i].0.as_str()));
            assert(string_views(out@) =~= b.push("k8s:pod:"@ + objs@[i as int].0@));
        }
        i += 1;
    }
    assert(objs@.take(objs@.len() as int) == objs@);
    out
}

fn node_component(snap: &Vec<KindObjects>, key: &str, obj: &Json) -> (c: ComponentSummary)
    ensures
        comp_view(c) == node_cv(snap@, key@, *obj),
        crate::registry::unitless(c.metrics@),
{
    let ready = match condition(obj, "Ready") {
        Some(s) => str_eq(s, "True"),
        None => false,
    };
    let unsched = match bool_2(obj, "spec", "unschedulable") {
        Some(b) => b,
        None => false,
    };
    let health = if ready { if unsched { Health::Warn } else { Health::Healthy } } else { Health::Error };
    let kubelet = match str3(obj, "status", "nodeInfo", "kubeletVersion") {
        Some(k) => k,
        None => "?",
    };
    let on = pods_on_exec(kind_objects(snap, "pod"), key);
    let mut detail = if ready { owned("Ready") } else { owned("NotReady") };
    if unsched {
        push_str(&mut detail, " · cordoned");
    }
    push_str(&mut detail, " · kubelet ");
    push_str(&mut detail, kubelet);
    proof {
        reveal_strlit("");
    }
    let mut ms: Vec<Metric> = Vec::new();
    assert(metrics_view(ms@) =~= Seq::<MetricV>::empty());
    push_metric(&mut ms, "pods", crate::text::decimal_string(on.len() as u64), None);
    let mut rs: Vec<Relation> = Vec::new();
    let n = on.len();
    if n > 0 {
        rs.push(Relation::has_many("pods", on));
    }
    let c = ComponentSummary {
        id: cat("k8s:node:", key),
        kind: owned("k8s-node"),
        label: owned(key),
        health,
        detail,
        metrics: ms,
        actions: Vec::new(),
        relations: rs,
        link: Some(cat("#/grid?id=k8s:node:", key)),
    };
    assert(actions_view(c.actions@) =~= Seq::<ActionV>::empty());
    assert(metrics_view(c.metrics@) =~= seq![plain("pods"@, decimal(n as nat))]);
    assert(rels_view(c.relations@) =~= (if n > 0 {
        seq![("pods"@, RelationKind::HasMany, pods_on(objects_of(snap@, "pod"@), key@), None::<Seq<char>>)]
    } else {
        Seq::empty()
    }));
    c
}


/// A pod's summed CPU and memory requests, as the plugin renders them
/// from the Kubernetes quantities its containers ask for.
#[derive(Debug, Clone)]
pub struct PodRequests {
    pub key: String,
    pub cpu: String,
    pub memory: String,
}

pub open spec fn req_at(reqs: Seq<PodRequests>, key: Seq<char>) -> spec_fn(int) -> bool {
    |i: int| reqs[i].key@ == key
}

pub open spec fn requests_for(reqs: Seq<PodRequests>, key: Seq<char>) -> (Seq<char>, Seq<char>) {
    match crate::text::first_at(reqs.len() as int, req_at(reqs, key)) {
        Some(i) => (reqs[i].cpu@, reqs[i].memory@),
        None => (Seq::empty(), Seq::empty()),
    }
}

pub open spec fn pod_health(obj: Json) -> Health {
    let phase = or_else(obj.path_str(seq!["status"@, "phase"@]), "Unknown"@);
    let ready = condition_of(obj, "Ready"@) == Some("True"@);
    if phase == "Running"@ {
        if ready { Health::Healthy } else { Health::Warn }
    } else if phase == "Succeeded"@ {
        Health::Idle
    } else if phase == "Pending"@ {
        Health::Warn
    } else if phase == "Failed"@ {
        Health::Error
    } else {
        Health::Unknown
    }
}

pub open spec fn restart_sum(cs: Seq<Json>) -> int
    decreases cs.len(),
{
    if cs.len() == 0 {
        0
    } else {
        restart_sum(cs.drop_last()) + int_at(cs.last(), seq!["restartCount"@])
    }
}

pub open spec fn ready_count(cs: Seq<Json>) -> nat
    decreases cs.len(),
{
    if cs.len() == 0 {
        0
    } else {
        ready_count(cs.drop_last()) + if cs.last().path_bool(seq!["ready"@]) == Some(true) { 1nat } else { 0nat }
    }
}

pub open spec fn statuses(obj: Json) -> Seq<Json> {
    arr_or_empty(obj, seq!["status"@, "containerStatuses"@])
}

/// Summing a pod's restarts never leaves what a 64-bit integer holds.
pub open spec fn restarts_fit(obj: Json) -> bool {
    forall|k: int| 0 <= k <= statuses(obj).len() ==> i64::MIN <= #[trigger] restart_sum(statuses(obj).take(k)) <= i64::MAX
}

pub open spec fn requests_text(cpu: Seq<char>, mem: Seq<char>) -> Seq<char> {
    if cpu.len() > 0 && mem.len() > 0 {
        cpu + " cpu · "@ + mem
    } else if cpu.len() > 0 {
        cpu + " cpu"@
    } else {
        mem
    }
}

pub open spec fn pod_metrics(obj: Json, req: (Seq<char>, Seq<char>)) -> Seq<MetricV> {
    let r = restart_sum(statuses(obj));
    (match obj.path_arr(seq!["status"@, "containerStatuses"@]) {
        Some(cs) => seq![toned(
            "ready"@,
            decimal(ready_count(cs)) + "/"@ + decimal(cs.len()),
            if ready_count(cs) == cs.len() { "muted"@ } else { "warn"@ },
        )],
        None => Seq::empty(),
    }) + seq![toned("restarts"@, signed_decimal(r), if r > 0 { "warn"@ } else { "muted"@ })] + (match obj.path_str(
        seq!["status"@, "podIP"@],
    ) {
        Some(ip) => seq![toned("IP"@, ip, "muted"@)],
        None => Seq::empty(),
    }) + (match obj.path_str(seq!["status"@, "qosClass"@]) {
        Some(q) => seq![toned("QoS"@, q, if q == "Guaranteed"@ { "muted"@ } else { "accent"@ })],
        None => Seq::empty(),
    }) + (if req.0.len() > 0 || req.1.len() > 0 {
        seq![toned("requests"@, requests_text(req.0, req.1), "muted"@)]
    } else {
        Seq::empty()
    })
}

pub open spec fn pod_rels(key: Seq<char>, obj: Json) -> Seq<RelV> {
    ns_relation_spec(key) + (match obj.path_str(seq!["spec"@, "nodeName"@]) {
        Some(nd) => seq![("node"@, RelationKind::BelongsTo, seq!["k8s:node:"@ + nd], None::<Seq<char>>)],
        None => Seq::empty(),
    }) + (if container_ids_spec(key, obj).len() > 0 {
        seq![("containers"@, RelationKind::HasMany, container_ids_spec(key, obj), None::<Seq<char>>)]
    } else {
        Seq::empty()
    })
}

/// A pod: its phase, the name without the node it repeats, its ready
/// ratio, restarts, address, QoS class and requests, its namespace and
/// node as edges up and its containers as the edge down, and delete.
pub open spec fn pod_cv(key: Seq<char>, obj: Json, req: (Seq<char>, Seq<char>)) -> CV {
    let name = split_key_spec(key).1;
    let phase = or_else(obj.path_str(seq!["status"@, "phase"@]), "Unknown"@);
    (
        "k8s:pod:"@ + key,
        "k8s-pod"@,
        short_label_spec(name, obj.path_str(seq!["spec"@, "nodeName"@])),
        pod_health(obj),
        phase,
        pod_metrics(obj, req),
        seq![("delete"@, "Delete"@, "POST"@, "/api/plugins/k8s/pods/"@ + key + "/delete"@, true, true, None::<Seq<char>>)],
        pod_rels(key, obj),
        None,
    )
}

/// Every pod followed by its containers.
pub open spec fn pods_views(objs: Seq<(String, Json)>, reqs: Seq<PodRequests>) -> Seq<CV>
    decreases objs.len(),
{
    if objs.len() == 0 {
        Seq::empty()
    } else {
        let o = objs.last();
        pods_views(objs.drop_last(), reqs) + seq![pod_cv(o.0@, o.1, requests_for(reqs, o.0@))] + containers_spec(o.0@, o.1)
    }
}

fn requests_exec<'a>(reqs: &'a [PodRequests], key: &str) -> (r: (&'a str, &'a str))
    ensures
        r.0@ == requests_for(reqs@, key@).0,
        r.1@ == requests_for(reqs@, key@).1,
{
    let mut i: usize = 0;
    while i < reqs.len()
        invariant
            i <= reqs@.len(),
            forall|j: int| 0 <= j < i ==> !#[trigger] req_at(reqs@, key@)(j),
        decreases reqs@.len() - i,
    {
        if str_eq(reqs[i].key.as_str(), key) {
            proof {
                crate::text::lemma_first_at_some(reqs@.len() as int, req_at(reqs@, key@), i as int);
            }
            return (reqs[i].cpu.as_str(), reqs[i].memory.as_str());
        }
        i += 1;
    }
    proof {
        crate::text::lemma_first_at_none(reqs@.len() as int, req_at(reqs@, key@));
        reveal_strlit("");
    }
    ("", "")
}

fn restarts_exec(obj: &Json) -> (r: i64)
    requires
        restarts_fit(*obj),
    ensures
        r == restart_sum(statuses(*obj)),
{
    let empty: Vec<Json> = Vec::new();
    let cs = match arr_2(obj, "status", "containerStatuses") {
        Some(cs) => cs,
        None => &empty,
    };
    let mut n: i64 = 0;
    let mut i: usize = 0;
    while i < cs.len()
        invariant
            i <= cs@.len(),
            cs@ == statuses(*obj),
            restarts_fit(*obj),
            n == restart_sum(cs@.take(i as int)),
        decreases cs@.len() - i,
    {
        assert(cs@.take(i + 1).drop_last() == cs@.take(i as int));
        assert(cs@.take(i + 1).last() == cs@[i as int]);
        let x = match i64_1(&cs[i], "restartCount") {
            Some(x) => x,
            None => 0,
        };
        assert(i64::MIN <= restart_sum(statuses(*obj).take(i + 1)) <= i64::MAX);
        n = n + x;
        i += 1;
    }
    assert(cs@.take(cs@.len() as int) == cs@);
    n
}

fn ready_exec(cs: &Vec<Json>) -> (r: usize)
    ensures
        r == ready_count(cs@),
{
    let mut n: usize = 0;
    let mut i: usize = 0;
    while i < cs.len()
        invariant
            i <= cs@.len(),
            n == ready_count(cs@.take(i as int)),
            n <= i,
        decreases cs@.len() - i,
    {
        assert(cs@.take(i + 1).drop_last() == cs@.take(i as int));
        assert(cs@.take(i + 1).last() == cs@[i as int]);
        if bool_1(&cs[i], "ready") == Some(true) {
            n += 1;
        }
        i += 1;
    }
    assert(cs@.take(cs@.len() as int) == cs@);
    n
}

fn pod_metrics_exec(obj: &Json, cpu: &str, mem: &str) -> (r: Vec<Metric>)
    requires
        restarts_fit(*obj),
    ensures
        metrics_view(r@) == pod_metrics(*obj, (cpu@, mem@)),
        crate::registry::unitless(r@),
{
    let mut ms: Vec<Metric> = Vec::new();
    let ghost g0 = metrics_view(ms@);
    match arr_2(obj, "status", "containerStatuses") {
        Some(cs) => {
            let ready = ready_exec(cs);
            let mut t = crate::text::decimal_string(ready as u64);
            push_str(&mut t, "/");
            push_decimal(&mut t, cs.len() as u64);
            push_metric(&mut ms, "ready", t, Some(if ready == cs.len() { "muted" } else { "warn" }));
        },
        None => {},
    }
    let ghost g1 = metrics_view(ms@);
    let r = restarts_exec(obj);
    push_metric(&mut ms, "restarts", crate::text::signed_string(r), Some(if r > 0 { "warn" } else { "muted" }));
    let ghost g2 = metrics_view(ms@);
    match str2(obj, "status", "podIP") {
        Some(ip) => {
            push_metric(&mut ms, "IP", owned(ip), Some("muted"));
        },
        None => {},
    }
    let ghost g3 = metrics_view(ms@);
    match str2(obj, "status", "qosClass") {
        Some(q) => {
            push_metric(&mut ms, "QoS", owned(q), Some(if str_eq(q, "Guaranteed") { "muted" } else { "accent" }));
        },
        None => {},
    }
    let ghost g4 = metrics_view(ms@);
    if cpu.unicode_len() > 0 || mem.unicode_len() > 0 {
        let text = if cpu.unicode_len() > 0 && mem.unicode_len() > 0 {
            let mut t = cat(cpu, " cpu · ");
            push_str(&mut t, mem);
            t
        } else if cpu.unicode_len() > 0 {
            cat(cpu, " cpu")
        } else {
            owned(mem)
        };
        push_metric(&mut ms, "requests", text, Some("muted"));
    }
    assert(metrics_view(ms@) =~= pod_metrics(*obj, (cpu@, mem@)));
    ms
}

fn pod_component(key: &str, obj: &Json, reqs: &[PodRequests]) -> (c: ComponentSummary)
    requires
        restarts_fit(*obj),
    ensures
        comp_view(c) == pod_cv(key@, *obj, requests_for(reqs@, key@)),
        crate::registry::unitless(c.metrics@),
{
    let (_, name) = split_key(key);
    let phase = match str2(obj, "status", "phase") {
        Some(p) => p,
        None => "Unknown",
    };
    let ready = match condition(obj, "Ready") {
        Some(s) => str_eq(s, "True"),
        None => false,
    };
    let health = if str_eq(phase, "Running") {
        if ready { Health::Healthy } else { Health::Warn }
    } else if str_eq(phase, "Succeeded") {
        Health::Idle
    } else if str_eq(phase, "Pending") {
        Health::Warn
    } else if str_eq(phase, "Failed") {
        Health::Error
    } else {
        Health::Unknown
    };
    let node = str2(obj, "spec", "nodeName");
    let label = short_label(name, node);
    let (cpu, mem) = requests_exec(reqs, key);
    let metrics = pod_metrics_exec(obj, cpu, mem);
    let mut rs: Vec<Relation> = Vec::new();
    assert(rels_view(rs@) =~= Seq::<RelV>::empty());
    push_ns_relation(&mut rs, key);
    let ghost r1 = rels_view(rs@);
    match node {
        Some(nd) => {
            let r = Relation::belongs_to("node", cat("k8s:node:", nd));
            rs.push(r);
            assert(rels_view(rs@) =~= r1.push(rel_view(r)));
        },
        None => {},
    }
    let ghost r2 = rels_view(rs@);
    let ids = container_ids(key, obj);
    if ids.len() > 0 {
        let r = Relation::has_many("containers", ids);
        rs.push(r);
        assert(rels_view(rs@) =~= r2.push(rel_view(r)));
    }
    assert(rels_view(rs@) =~= pod_rels(key@, *obj));
    let mut path = cat("/api/plugins/k8s/pods/", key);
    push_str(&mut path, "/delete");
    let mut actions: Vec<Action> = Vec::new();
    let a = Action {
        id: owned("delete"),
        label: owned("Delete"),
        method: owned("POST"),
        path,
        enabled: true,
        danger: true,
        tone: None,
    };
    actions.push(a);
    assert(actions_view(actions@) =~= seq![action_view(a)]);
    ComponentSummary {
        id: cat("k8s:pod:", key),
        kind: owned("k8s-pod"),
        label,
        health,
        detail: owned(phase),
        metrics,
        actions,
        relations: rs,
        link: None,
    }
}


/// A controller of replicas: idle with none wanted, fine with all ready,
/// broken with none, degraded between.
pub open spec fn workload_cv(kind: Seq<char>, key: Seq<char>, desired: i64, ready: i64) -> CV {
    let health = if desired == 0 {
        Health::Idle
    } else if ready >= desired {
        Health::Healthy
    } else if ready == 0 {
        Health::Error
    } else {
        Health::Warn
    };
    let text = signed_decimal(ready as int) + "/"@ + signed_decimal(desired as int);
    (
        "k8s:"@ + kind + ":"@ + key,
        "k8s-"@ + kind,
        split_key_spec(key).1,
        health,
        text + " ready"@,
        seq![plain("ready"@, text)],
        Seq::empty(),
        ns_relation_spec(key),
        None,
    )
}

pub open spec fn deploy_fn() -> spec_fn(Seq<char>, Json) -> CV {
    |k: Seq<char>, o: Json| workload_cv("deploy"@, k, int_at(o, seq!["spec"@, "replicas"@]), int_at(o, seq!["status"@, "readyReplicas"@]))
}

pub open spec fn sts_fn() -> spec_fn(Seq<char>, Json) -> CV {
    |k: Seq<char>, o: Json| workload_cv("sts"@, k, int_at(o, seq!["spec"@, "replicas"@]), int_at(o, seq!["status"@, "readyReplicas"@]))
}

pub open spec fn ds_fn() -> spec_fn(Seq<char>, Json) -> CV {
    |k: Seq<char>, o: Json| workload_cv(
        "ds"@,
        k,
        int_at(o, seq!["status"@, "desiredNumberScheduled"@]),
        int_at(o, seq!["status"@, "numberReady"@]),
    )
}

fn int2(v: &Json, a: &str, b: &str) -> (r: i64)
    ensures
        r == int_at(*v, seq![a@, b@]),
{
    match i64_2(v, a, b) {
        Some(x) => x,
        None => 0,
    }
}

/// A component given the edge to the namespace of its key.
pub open spec fn with_ns(c: CV, key: Seq<char>) -> CV {
    (c.0, c.1, c.2, c.3, c.4, c.5, c.6, ns_relation_spec(key), c.8)
}

fn with_ns_relation(c: ComponentSummary, key: &str) -> (r: ComponentSummary)
    requires
        rels_view(c.relations@) == Seq::<RelV>::empty(),
    ensures
        comp_view(r) == with_ns(comp_view(c), key@),
        r.metrics == c.metrics,
{
    let ComponentSummary { id, kind, label, health, detail, metrics, actions, relations, link } = c;
    let mut relations = relations;
    push_ns_relation(&mut relations, key);
    assert(rels_view(relations@) =~= ns_relation_spec(key@));
    ComponentSummary { id, kind, label, health, detail, metrics, actions, relations, link }
}

fn workload(kind: &str, key: &str, desired: i64, ready: i64) -> (c: ComponentSummary)
    ensures
        comp_view(c) == workload_cv(kind@, key@, desired, ready),
        crate::registry::unitless(c.metrics@),
{
    let (_, name) = split_key(key);
    let health = if desired == 0 {
        Health::Idle
    } else if ready >= desired {
        Health::Healthy
    } else if ready == 0 {
        Health::Error
    } else {
        Health::Warn
    };
    let mut text = crate::text::signed_string(ready);
    push_str(&mut text, "/");
    push_signed(&mut text, desired);
    let detail = cat(text.as_str(), " ready");
    let mut c = base(kind, key, name, health, detail);
    let ComponentSummary { id, kind: k, label, health: h, detail: d, metrics, actions, relations, link } = c;
    let mut metrics = metrics;
    push_metric(&mut metrics, "ready", text, None);
    assert(metrics_view(metrics@) =~= seq![plain("ready"@, signed_decimal(ready as int) + "/"@ + signed_decimal(desired as int))]);
    let c2 = ComponentSummary { id, kind: k, label, health: h, detail: d, metrics, actions, relations, link };
    with_ns_relation(c2, key)
}

/// A job: failed, active, completed or pending.
pub open spec fn job_cv(key: Seq<char>, obj: Json) -> CV {
    let active = int_at(obj, seq!["status"@, "active"@]);
    let succeeded = int_at(obj, seq!["status"@, "succeeded"@]);
    let failed = int_at(obj, seq!["status"@, "failed"@]);
    let (h, d) = if failed > 0 {
        (Health::Error, signed_decimal(failed as int) + " failed"@)
    } else if active > 0 {
        (Health::Healthy, signed_decimal(active as int) + " active"@)
    } else if succeeded > 0 {
        (Health::Idle, "completed"@)
    } else {
        (Health::Unknown, "pending"@)
    };
    with_ns(base_cv("job"@, key, split_key_spec(key).1, h, d), key)
}

pub open spec fn job_fn() -> spec_fn(Seq<char>, Json) -> CV {
    |k: Seq<char>, o: Json| job_cv(k, o)
}

fn job_component(key: &str, obj: &Json) -> (c: ComponentSummary)
    ensures
        comp_view(c) == job_cv(key@, *obj),
        crate::registry::unitless(c.metrics@),
{
    let (_, name) = split_key(key);
    let active = int2(obj, "status", "active");
    let succeeded = int2(obj, "status", "succeeded");
    let failed = int2(obj, "status", "failed");
    let (h, d) = if failed > 0 {
        (Health::Error, cat(crate::text::signed_string(failed).as_str(), " failed"))
    } else if active > 0 {
        (Health::Healthy, cat(crate::text::signed_string(active).as_str(), " active"))
    } else if succeeded > 0 {
        (Health::Idle, owned("completed"))
    } else {
        (Health::Unknown, owned("pending"))
    };
    with_ns_relation(base("job", key, name, h, d), key)
}

/// A cron job: its schedule, idle while suspended.
pub open spec fn cronjob_cv(key: Seq<char>, obj: Json) -> CV {
    let schedule = or_else(obj.path_str(seq!["spec"@, "schedule"@]), "?"@);
    let suspended = obj.path_bool(seq!["spec"@, "suspend"@]) == Some(true);
    let h = if suspended { Health::Idle } else { Health::Healthy };
    let d = schedule + (if suspended { " · suspended"@ } else { Seq::empty() });
    with_ns(base_cv("cronjob"@, key, split_key_spec(key).1, h, d), key)
}

pub open spec fn cronjob_fn() -> spec_fn(Seq<char>, Json) -> CV {
    |k: Seq<char>, o: Json| cronjob_cv(k, o)
}

fn cronjob_component(key: &str, obj: &Json) -> (c: ComponentSummary)
    ensures
        comp_view(c) == cronjob_cv(key@, *obj),
        crate::registry::unitless(c.metrics@),
{
    let (_, name) = split_key(key);
    let schedule = match str2(obj, "spec", "schedule") {
        Some(x) => x,
        None => "?",
    };
    let suspended = bool_2(obj, "spec", "suspend") == Some(true);
    let mut d = owned(schedule);
    if suspended {
        push_str(&mut d, " · suspended");
    }
    proof {
        reveal_strlit("");
    }
    with_ns_relation(base("cronjob", key, name, if suspended { Health::Idle } else { Health::Healthy }, d), key)
}

/// A service: its type and cluster address.
pub open spec fn svc_cv(key: Seq<char>, obj: Json) -> CV {
    let t = or_else(obj.path_str(seq!["spec"@, "type"@]), "ClusterIP"@);
    let ip = or_else(obj.path_str(seq!["spec"@, "clusterIP"@]), "-"@);
    with_ns(base_cv("svc"@, key, split_key_spec(key).1, Health::Healthy, t + " · "@ + ip), key)
}

pub open spec fn svc_fn() -> spec_fn(Seq<char>, Json) -> CV {
    |k: Seq<char>, o: Json| svc_cv(k, o)
}

fn svc_component(key: &str, obj: &Json) -> (c: ComponentSummary)
    ensures
        comp_view(c) == svc_cv(key@, *obj),
        crate::registry::unitless(c.metrics@),
{
    let (_, name) = split_key(key);
    let t = match str2(obj, "spec", "type") {
        Some(x) => x,
        None => "ClusterIP",
    };
    let ip = match str2(obj, "spec", "clusterIP") {
        Some(x) => x,
        None => "-",
    };
    let mut d = owned(t);
    push_str(&mut d, " · ");
    push_str(&mut d, ip);
    with_ns_relation(base("svc", key, name, Health::Healthy, d), key)
}

/// A claim: its phase and size.
pub open spec fn pvc_cv(key: Seq<char>, obj: Json) -> CV {
    let phase = or_else(obj.path_str(seq!["status"@, "phase"@]), "Unknown"@);
    let health = if phase == "Bound"@ {
        Health::Healthy
    } else if phase == "Pending"@ {
        Health::Warn
    } else if phase == "Lost"@ {
        Health::Error
    } else {
        Health::Unknown
    };
    let size = match obj.path_str(seq!["status"@, "capacity"@, "storage"@]) {
        Some(x) => x,
        None => or_else(obj.path_str(seq!["spec"@, "resources"@, "requests"@, "storage"@]), "?"@),
    };
    with_ns(base_cv("pvc"@, key, split_key_spec(key).1, health, phase + " · "@ + size), key)
}

pub open spec fn pvc_fn() -> spec_fn(Seq<char>, Json) -> CV {
    |k: Seq<char>, o: Json| pvc_cv(k, o)
}

fn pvc_component(key: &str, obj: &Json) -> (c: ComponentSummary)
    ensures
        comp_view(c) == pvc_cv(key@, *obj),
        crate::registry::unitless(c.metrics@),
{
    let (_, name) = split_key(key);
    let phase = match str2(obj, "status", "phase") {
        Some(x) => x,
        None => "Unknown",
    };
    let health = if str_eq(phase, "Bound") {
        Health::Healthy
    } else if str_eq(phase, "Pending") {
        Health::Warn
    } else if str_eq(phase, "Lost") {
        Health::Error
    } else {
        Health::Unknown
    };
    let size = match str3(obj, "status", "capacity", "storage") {
        Some(x) => x,
        None => match crate::json::str4(obj, "spec", "resources", "requests", "storage") {
            Some(x) => x,
            None => "?",
        },
    };
    let mut d = owned(phase);
    push_str(&mut d, " · ");
    push_str(&mut d, size);
    with_ns_relation(base("pvc", key, name, health, d), key)
}


/// The kinds whose components read only their own object.
#[derive(Clone, Copy)]
enum Plain {
    Deploy,
    Sts,
    Ds,
    Job,
    Cronjob,
    Svc,
    Pvc,
}

spec fn plain_fn(k: Plain) -> spec_fn(Seq<char>, Json) -> CV {
    match k {
        Plain::Deploy => deploy_fn(),
        Plain::Sts => sts_fn(),
        Plain::Ds => ds_fn(),
        Plain::Job => job_fn(),
        Plain::Cronjob => cronjob_fn(),
        Plain::Svc => svc_fn(),
        Plain::Pvc => pvc_fn(),
    }
}

fn plain_component(k: Plain, key: &str, obj: &Json) -> (c: ComponentSummary)
    ensures
        comp_view(c) == (plain_fn(k))(key@, *obj),
        crate::registry::unitless(c.metrics@),
{
    match k {
        Plain::Deploy => workload("deploy", key, int2(obj, "spec", "replicas"), int2(obj, "status", "readyReplicas")),
        Plain::Sts => workload("sts", key, int2(obj, "spec", "replicas"), int2(obj, "status", "readyReplicas")),
        Plain::Ds => workload("ds", key, int2(obj, "status", "desiredNumberScheduled"), int2(obj, "status", "numberReady")),
        Plain::Job => job_component(key, obj),
        Plain::Cronjob => cronjob_component(key, obj),
        Plain::Svc => svc_component(key, obj),
        Plain::Pvc => pvc_component(key, obj),
    }
}

/// A kind's objects, or none, by reference.
pub(crate) fn objects_in<'a>(snap: &'a Vec<KindObjects>, kind: &str, none: &'a Vec<(String, Json)>) -> (r: &'a Vec<(String, Json)>)
    requires
        none@.len() == 0,
    ensures
        r@ == objects_of(snap@, kind@),
{
    match kind_objects(snap, kind) {
        Some(v) => v,
        None => {
            assert(none@ =~= Seq::<(String, Json)>::empty());
            none
        },
    }
}

fn push_plain(out: &mut Vec<ComponentSummary>, objs: &Vec<(String, Json)>, k: Plain)
    ensures
        cv_of(final(out)@) == cv_of(old(out)@) + views_of(objs@, plain_fn(k)),
        crate::registry::all_unitless(old(out)@) ==> crate::registry::all_unitless(final(out)@),
{
    let ghost before = cv_of(out@);
    let mut i: usize = 0;
    assert(views_of(objs@.take(0), plain_fn(k)) =~= Seq::<CV>::empty());
    while i < objs.len()
        invariant
            i <= objs@.len(),
            cv_of(out@) == before + views_of(objs@.take(i as int), plain_fn(k)),
            crate::registry::all_unitless(old(out)@) ==> crate::registry::all_unitless(out@),
        decreases objs@.len() - i,
    {
        let c = plain_component(k, objs[i].0.as_str(), &objs[i].1);
        let ghost b = cv_of(out@);
        let ghost o = out@;
        out.push(c);
        assert(cv_of(out@) =~= b.push(comp_view(c)));
        proof {
            if crate::registry::all_unitless(old(out)@) {
                crate::registry::lemma_all_unitless_push(o, c);
            }
        }
        assert(objs@.take(i + 1) =~= objs@.take(i as int).push(objs@[i as int]));
        assert(views_of(objs@.take(i + 1), plain_fn(k)) =~= views_of(objs@.take(i as int), plain_fn(k)).push(
            (plain_fn(k))(objs@[i as int].0@, objs@[i as int].1),
        ));
        i += 1;
    }
    assert(objs@.take(objs@.len() as int) =~= objs@);
}

fn push_namespaces(out: &mut Vec<ComponentSummary>, snap: &Vec<KindObjects>, objs: &Vec<(String, Json)>)
    ensures
        cv_of(final(out)@) == cv_of(old(out)@) + views_of(objs@, ns_fn(snap@)),
        crate::registry::all_unitless(old(out)@) ==> crate::registry::all_unitless(final(out)@),
{
    let ghost before = cv_of(out@);
    let mut i: usize = 0;
    assert(views_of(objs@.take(0), ns_fn(snap@)) =~= Seq::<CV>::empty());
    while i < objs.len()
        invariant
            i <= objs@.len(),
            cv_of(out@) == before + views_of(objs@.take(i as int), ns_fn(snap@)),
            crate::registry::all_unitless(old(out)@) ==> crate::registry::all_unitless(out@),
        decreases objs@.len() - i,
    {
        let c = ns_component(snap, objs[i].0.as_str(), &objs[i].1);
        let ghost b = cv_of(out@);
        let ghost o = out@;
        out.push(c);
        assert(cv_of(out@) =~= b.push(comp_view(c)));
        proof {
            if crate::registry::all_unitless(old(out)@) {
                crate::registry::lemma_all_unitless_push(o, c);
            }
        }
        assert(objs@.take(i + 1) =~= objs@.take(i as int).push(objs@[i as int]));
        assert(views_of(objs@.take(i + 1), ns_fn(snap@)) =~= views_of(objs@.take(i as int), ns_fn(snap@)).push(
            (ns_fn(snap@))(objs@[i as int].0@, objs@[i as int].1),
        ));
        i += 1;
    }
    assert(objs@.take(objs@.len() as int) =~= objs@);
}

fn push_nodes(out: &mut Vec<ComponentSummary>, snap: &Vec<KindObjects>, objs: &Vec<(String, Json)>)
    ensures
        cv_of(final(out)@) == cv_of(old(out)@) + views_of(objs@, node_fn(snap@)),
        crate::registry::all_unitless(old(out)@) ==> crate::registry::all_unitless(final(out)@),
{
    let ghost before = cv_of(out@);
    let mut i: usize = 0;
    assert(views_of(objs@.take(0), node_fn(snap@)) =~= Seq::<CV>::empty());
    while i < objs.len()
        invariant
            i <= objs@.len(),
            cv_of(out@) == before + views_of(objs@.take(i as int), node_fn(snap@)),
            crate::registry::all_unitless(old(out)@) ==> crate::registry::all_unitless(out@),
        decreases objs@.len() - i,
    {
        let c = node_component(snap, objs[i].0.as_str(), &objs[i].1);
        let ghost b = cv_of(out@);
        let ghost o = out@;
        out.push(c);
        assert(cv_of(out@) =~= b.push(comp_view(c)));
        proof {
            if crate::registry::all_unitless(old(out)@) {
                crate::registry::lemma_all_unitless_push(o, c);
            }
        }
        assert(objs@.take(i + 1) =~= objs@.take(i as int).push(objs@[i as int]));
        assert(views_of(objs@.take(i + 1), node_fn(snap@)) =~= views_of(objs@.take(i as int), node_fn(snap@)).push(
            (node_fn(snap@))(objs@[i as int].0@, objs@[i as int].1),
        ));
        i += 1;
    }
    assert(objs@.take(objs@.len() as int) =~= objs@);
}

/// Every pod's restart counts add up within a signed 64-bit integer.
pub open spec fn all_restarts_fit(objs: Seq<(String, Json)>) -> bool {
    forall|i: int| 0 <= i < objs.len() ==> restarts_fit(#[trigger] objs[i].1)
}

fn push_pods(out: &mut Vec<ComponentSummary>, objs: &Vec<(String, Json)>, reqs: &[PodRequests])
    requires
        all_restarts_fit(objs@),
    ensures
        cv_of(final(out)@) == cv_of(old(out)@) + pods_views(objs@, reqs@),
        crate::registry::all_unitless(old(out)@) ==> crate::registry::all_unitless(final(out)@),
{
    let ghost before = cv_of(out@);
    let mut i: usize = 0;
    assert(objs@.take(0) =~= Seq::<(String, Json)>::empty());
    assert(cv_of(out@) =~= before + pods_views(objs@.take(0), reqs@));
    while i < objs.len()
        invariant
            i <= objs@.len(),
            all_restarts_fit(objs@),
            cv_of(out@) == before + pods_views(objs@.take(i as int), reqs@),
            crate::registry::all_unitless(old(out)@) ==> crate::registry::all_unitless(out@),
        decreases objs@.len() - i,
    {
        let key = objs[i].0.as_str();
        let obj = &objs[i].1;
        assert(restarts_fit(objs@[i as int].1));
        let c = pod_component(key, obj, reqs);
        let ghost b = cv_of(out@);
        let ghost o = out@;
        out.push(c);
        assert(cv_of(out@) =~= b.push(comp_view(c)));
        proof {
            if crate::registry::all_unitless(old(out)@) {
                crate::registry::lemma_all_unitless_push(o, c);
            }
        }
        let cs = containers_of(key, obj);
        let ghost b2 = cv_of(out@);
        let ghost o2 = out@;
        let ghost csv = cs@;
        let mut cs = cs;
        out.append(&mut cs);
        proof {
            if crate::registry::all_unitless(old(out)@) {
                crate::registry::lemma_all_unitless_append(o2, csv);
            }
        }
        assert(cv_of(out@) =~= b2 + containers_spec(key@, *obj));
        assert(objs@.take(i + 1).drop_last() =~= objs@.take(i as int));
        assert(objs@.take(i + 1).last() == objs@[i as int]);
        i += 1;
    }
    assert(objs@.take(objs@.len() as int) =~= objs@);
}

/// Everything but Cilium, kind by kind, in the plugin's order.
pub open spec fn core_views(snap: Seq<KindObjects>, reqs: Seq<PodRequests>) -> Seq<CV> {
    views_of(objects_of(snap, "ns"@), ns_fn(snap))
        + views_of(objects_of(snap, "node"@), node_fn(snap))
        + pods_views(objects_of(snap, "pod"@), reqs)
        + views_of(objects_of(snap, "deploy"@), deploy_fn())
        + views_of(objects_of(snap, "sts"@), sts_fn())
        + views_of(objects_of(snap, "ds"@), ds_fn())
        + views_of(objects_of(snap, "job"@), job_fn())
        + views_of(objects_of(snap, "cronjob"@), cronjob_fn())
        + views_of(objects_of(snap, "svc"@), svc_fn())
        + views_of(objects_of(snap, "pvc"@), pvc_fn())
}

pub fn core_components(snap: &Vec<KindObjects>, reqs: &[PodRequests]) -> (r: Vec<ComponentSummary>)
    requires
        all_restarts_fit(objects_of(snap@, "pod"@)),
    ensures
        cv_of(r@) == core_views(snap@, reqs@),
        crate::registry::all_unitless(r@),
{
    let none: Vec<(String, Json)> = Vec::new();
    let mut out: Vec<ComponentSummary> = Vec::new();
    assert(cv_of(out@) =~= Seq::<CV>::empty());
    assert(crate::registry::all_unitless(out@));
    push_namespaces(&mut out, snap, objects_in(snap, "ns", &none));
    push_nodes(&mut out, snap, objects_in(snap, "node", &none));
    push_pods(&mut out, objects_in(snap, "pod", &none), reqs);
    push_plain(&mut out, objects_in(snap, "deploy", &none), Plain::Deploy);
    push_plain(&mut out, objects_in(snap, "sts", &none), Plain::Sts);
    push_plain(&mut out, objects_in(snap, "ds", &none), Plain::Ds);
    push_plain(&mut out, objects_in(snap, "job", &none), Plain::Job);
    push_plain(&mut out, objects_in(snap, "cronjob", &none), Plain::Cronjob);
    push_plain(&mut out, objects_in(snap, "svc", &none), Plain::Svc);
    push_plain(&mut out, objects_in(snap, "pvc", &none), Plain::Pvc);
    assert(cv_of(out@) =~= core_views(snap@, reqs@));
    out
}


/// The whole cluster as components: namespaces, nodes, pods with their
/// containers, workloads, jobs, services and claims, then Cilium.
pub open spec fn map_spec(snap: Seq<KindObjects>, agent: Option<(Health, Seq<char>)>, reqs: Seq<PodRequests>) -> Seq<CV> {
    core_views(snap, reqs) + crate::k8s::cilium::cilium_views(snap, agent)
}

/// What the cluster looks like as components (`map`). `agent` is what the
/// Cilium agent's health server said, where it could be asked; `reqs` the
/// pods' summed requests, rendered.
pub fn map(snap: &Vec<KindObjects>, agent: Option<(Health, String)>, reqs: &[PodRequests]) -> (r: Vec<ComponentSummary>)
    requires
        all_restarts_fit(objects_of(snap@, "pod"@)),
        crate::k8s::cilium::policies_fit(snap@),
    ensures
        cv_of(r@) == map_spec(snap@, crate::k8s::cilium::agent_view(agent), reqs@),
        crate::registry::all_unitless(r@),
{
    let mut out = core_components(snap, reqs);
    crate::k8s::cilium::cilium(snap, &agent, &mut out);
    out
}

} // verus!
