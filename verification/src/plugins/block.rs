//! The block engine's inventory: volumes, slabs, arrays, exports and
//! drives as stormblock's REST API lists them, mapped into components
//! under one engine card.

use vstd::prelude::*;
use crate::json::{Json, arr_1, at1, bool_1, str1};
use crate::k8s::components::{ActionV, CV, MetricV, RelV, cat, or_else, plain, push_metric, toned};
use crate::registry::{action_view, actions_view, comp_view, metric_units, metric_view, metrics_view, rel_view, rels_view};
use crate::text::{decimal, join, join_strings, owned, push_decimal, push_str, str_eq, string_views};
use crate::value::{field, field_spec, human_bytes, human_bytes_spec, u64_field};
use crate::view::{Action, ComponentSummary, Health, Metric, Relation, RelationKind};

verus! {

/// A text field of a listed object (`field(v, &[key])`).
pub open spec fn fld(v: Json, key: Seq<char>) -> Option<Seq<char>> {
    field_spec(v, seq![key])
}

pub(crate) fn fld_exec(v: &Json, key: &str) -> (r: Option<String>)
    ensures
        crate::registry::opt_chars(r) == fld(*v, key@),
{
    let keys = [key];
    assert(keys@.map_values(|k: &str| k@) =~= seq![key@]);
    field(v, &keys)
}

pub(crate) fn fld_or(v: &Json, key: &str, d: &str) -> (r: String)
    ensures
        r@ == or_else(fld(*v, key@), d@),
{
    match fld_exec(v, key) {
        Some(s) => s,
        None => owned(d),
    }
}

/// A boolean member, `false` when absent.
pub open spec fn flag(v: Json, key: Seq<char>) -> bool {
    v.path_bool(seq![key]) == Some(true)
}

pub(crate) fn flag_exec(v: &Json, key: &str) -> (r: bool)
    ensures
        r == flag(*v, key@),
{
    match bool_1(v, key) {
        Some(b) => b,
        None => false,
    }
}

/// What a volume is: the engine's own word where it gives one, else read
/// from whether it is sealed and has a parent.
pub open spec fn volume_kind_spec(v: Json) -> Seq<char> {
    let has_parent = fld(v, "parent"@) is Some;
    match v.path_str(seq!["kind"@]) {
        Some(k) => if k == "volume"@ {
            if has_parent { "clone"@ } else { "volume"@ }
        } else if k == "golden"@ {
            "golden"@
        } else if k == "blank"@ {
            "blank"@
        } else if k == "media"@ {
            "media"@
        } else if k == "snapshot"@ {
            "snapshot"@
        } else if k == "template"@ {
            "template"@
        } else {
            "volume"@
        },
        None => if flag(v, "sealed"@) {
            "golden"@
        } else if has_parent {
            "clone"@
        } else {
            "volume"@
        },
    }
}

pub fn volume_kind(v: &Json) -> (r: &'static str)
    ensures
        r@ == volume_kind_spec(*v),
{
    let has_parent = fld_exec(v, "parent").is_some();
    match str1(v, "kind") {
        Some(k) => if str_eq(k, "volume") {
            if has_parent { "clone" } else { "volume" }
        } else if str_eq(k, "golden") {
            "golden"
        } else if str_eq(k, "blank") {
            "blank"
        } else if str_eq(k, "media") {
            "media"
        } else if str_eq(k, "snapshot") {
            "snapshot"
        } else if str_eq(k, "template") {
            "template"
        } else {
            "volume"
        },
        None => if flag_exec(v, "sealed") {
            "golden"
        } else if has_parent {
            "clone"
        } else {
            "volume"
        },
    }
}

/// Where a volume belongs in the console: attached to something running,
/// unattached, a volume the engine says nothing about the use of, or one
/// of the registry's images.
#[derive(Debug, Clone, Copy, PartialEq, Eq, Structural)]
pub enum Place {
    Attached,
    Unattached,
    /// A volume, and the engine does not say whether anything uses it.
    Volume,
    Image,
}

pub open spec fn place_spec(v: Json) -> Place {
    let image = match v.path_str(seq!["kind"@]) {
        Some(k) => k != "volume"@,
        None => flag(v, "sealed"@),
    };
    if image {
        Place::Image
    } else {
        match v.path_bool(seq!["in_use"@]) {
            Some(true) => Place::Attached,
            Some(false) => Place::Unattached,
            None => Place::Volume,
        }
    }
}

pub fn place(v: &Json) -> (p: Place)
    ensures
        p == place_spec(*v),
{
    let image = match str1(v, "kind") {
        Some(k) => !str_eq(k, "volume"),
        None => flag_exec(v, "sealed"),
    };
    if image {
        return Place::Image;
    }
    match bool_1(v, "in_use") {
        Some(true) => Place::Attached,
        Some(false) => Place::Unattached,
        None => Place::Volume,
    }
}

/// A text member of `o` that is there and not empty.
pub open spec fn nonempty(o: Json, key: Seq<char>) -> Option<Seq<char>> {
    match o.path_str(seq![key]) {
        Some(s) => if s.len() > 0 { Some(s) } else { None },
        None => None,
    }
}

fn nonempty_exec<'a>(o: &'a Json, key: &str) -> (r: Option<&'a str>)
    ensures
        crate::plugins::drive::opt_str(r) == nonempty(*o, key@),
{
    match str1(o, key) {
        Some(s) => if crate::text::char_len(s) > 0 { Some(s) } else { None },
        None => None,
    }
}

/// Who uses a volume, in words, and where that is in the console when it
/// is there.
pub open spec fn consumer_spec(v: Json) -> Option<(Seq<char>, Option<Seq<char>>)> {
    match v.path(seq!["consumer"@]) {
        None => None,
        Some(c) => match (nonempty(c, "kind"@), nonempty(c, "name"@)) {
            (Some(kind), Some(name)) => {
                let ns = nonempty(c, "namespace"@);
                let words = match ns {
                    Some(n) => kind + " "@ + n + "/"@ + name,
                    None => kind + " "@ + name,
                };
                let target = match ns {
                    Some(n) => if kind == "PersistentVolumeClaim"@ {
                        Some("k8s:pvc:"@ + n + "/"@ + name)
                    } else if kind == "Pod"@ {
                        Some("k8s:pod:"@ + n + "/"@ + name)
                    } else if kind == "VirtualMachine"@ || kind == "VirtualMachineInstance"@ {
                        Some("vm:machine:"@ + n + "/"@ + name)
                    } else {
                        None
                    },
                    None => None,
                };
                Some((words, target))
            },
            _ => None,
        },
    }
}

fn ns_name(prefix: &str, ns: &str, name: &str) -> (r: String)
    ensures
        r@ == prefix@ + ns@ + "/"@ + name@,
{
    let mut t = cat(prefix, ns);
    push_str(&mut t, "/");
    push_str(&mut t, name);
    t
}

pub fn consumer(v: &Json) -> (r: Option<(String, Option<String>)>)
    ensures
        match (r, consumer_spec(*v)) {
            (Some((w, t)), Some((sw, st))) => w@ == sw && crate::registry::opt_chars(t) == st,
            (None, None) => true,
            _ => false,
        },
{
    let c = match at1(v, "consumer") {
        Some(c) => c,
        None => {
            return None;
        },
    };
    let kind = match nonempty_exec(c, "kind") {
        Some(k) => k,
        None => {
            return None;
        },
    };
    let name = match nonempty_exec(c, "name") {
        Some(n) => n,
        None => {
            return None;
        },
    };
    let ns = nonempty_exec(c, "namespace");
    let words = match ns {
        Some(n) => {
            let mut t = cat(kind, " ");
            push_str(&mut t, n);
            push_str(&mut t, "/");
            push_str(&mut t, name);
            t
        },
        None => {
            let mut t = cat(kind, " ");
            push_str(&mut t, name);
            t
        },
    };
    let target = match ns {
        Some(n) => if str_eq(kind, "PersistentVolumeClaim") {
            Some(ns_name("k8s:pvc:", n, name))
        } else if str_eq(kind, "Pod") {
            Some(ns_name("k8s:pod:", n, name))
        } else if str_eq(kind, "VirtualMachine") || str_eq(kind, "VirtualMachineInstance") {
            Some(ns_name("vm:machine:", n, name))
        } else {
            None
        },
        None => None,
    };
    Some((words, target))
}

pub open spec fn suffix(pre: Seq<char>, o: Option<Seq<char>>) -> Seq<char> {
    match o {
        Some(d) => pre + d,
        None => Seq::empty(),
    }
}

pub open spec fn member_u64(v: Json, key: Seq<char>) -> Option<u64> {
    match v.member(key) {
        Some(x) => x.u64_of(),
        None => None,
    }
}

pub open spec fn num_suffix(pre: Seq<char>, o: Option<u64>) -> Seq<char> {
    match o {
        Some(x) => pre + decimal(x as nat),
        None => Seq::empty(),
    }
}

/// How one attachment serves a volume, in words.
pub open spec fn attach_text(a: Json) -> Seq<char> {
    or_else(a.path_str(seq!["transport"@]), "?"@) + suffix(" "@, a.path_str(seq!["device"@])) + suffix(
        " → "@,
        a.path_str(seq!["mounted_at"@]),
    ) + num_suffix(" nsid "@, member_u64(a, "nsid"@)) + num_suffix(" lun "@, member_u64(a, "lun"@))
}

fn push_suffix(out: &mut String, pre: &str, o: Option<&str>)
    ensures
        final(out)@ == old(out)@ + suffix(pre@, crate::plugins::drive::opt_str(o)),
{
    match o {
        Some(d) => {
            push_str(out, pre);
            push_str(out, d);
        },
        None => {
            assert(out@ =~= out@ + Seq::<char>::empty());
        },
    }
}

fn push_num_suffix(out: &mut String, pre: &str, o: Option<u64>)
    ensures
        final(out)@ == old(out)@ + num_suffix(pre@, o),
{
    match o {
        Some(n) => {
            push_str(out, pre);
            push_decimal(out, n);
        },
        None => {
            assert(out@ =~= out@ + Seq::<char>::empty());
        },
    }
}

/// How a volume is being served, one entry per attachment.
pub open spec fn attachments_spec(v: Json) -> Seq<Seq<char>> {
    match v.path_arr(seq!["attachments"@]) {
        Some(a) => a.map_values(|x: Json| attach_text(x)),
        None => Seq::empty(),
    }
}

fn attach_exec(a: &Json) -> (r: String)
    ensures
        r@ == attach_text(*a),
{
    let mut out = match str1(a, "transport") {
        Some(t) => owned(t),
        None => owned("?"),
    };
    push_suffix(&mut out, " ", str1(a, "device"));
    push_suffix(&mut out, " → ", str1(a, "mounted_at"));
    push_num_suffix(&mut out, " nsid ", u64_field(a, "nsid"));
    push_num_suffix(&mut out, " lun ", u64_field(a, "lun"));
    out
}

pub fn attachments(v: &Json) -> (r: Vec<String>)
    ensures
        string_views(r@) == attachments_spec(*v),
{
    let mut out: Vec<String> = Vec::new();
    match arr_1(v, "attachments") {
        None => {
            assert(string_views(out@) =~= attachments_spec(*v));
        },
        Some(a) => {
            let mut i: usize = 0;
            while i < a.len()
                invariant
                    i <= a@.len(),
                    string_views(out@) == a@.take(i as int).map_values(|x: Json| attach_text(x)),
                decreases a@.len() - i,
            {
                let t = attach_exec(&a[i]);
                let ghost b = string_views(out@);
                out.push(t);
                assert(string_views(out@) =~= b.push(t@));
                assert(a@.take(i + 1).map_values(|x: Json| attach_text(x)) =~= a@.take(i as int).map_values(
                    |x: Json| attach_text(x),
                ).push(attach_text(a@[i as int])));
                i += 1;
            }
            assert(a@.take(a@.len() as int) =~= a@);
        },
    }
    out
}

/// What claims a volume: `kind/name` or `kind/namespace/name`, when the
/// owner names both a kind and a name.
pub open spec fn owner_spec(v: Json) -> Option<Seq<char>> {
    match v.path(seq!["owner"@]) {
        None => None,
        Some(o) => {
            let kind = or_else(o.path_str(seq!["kind"@]), Seq::empty());
            let name = or_else(o.path_str(seq!["name"@]), Seq::empty());
            if kind.len() == 0 || name.len() == 0 {
                None
            } else {
                let ns = or_else(o.path_str(seq!["namespace"@]), Seq::empty());
                Some(if ns.len() == 0 { kind + "/"@ + name } else { kind + "/"@ + ns + "/"@ + name })
            }
        },
    }
}

fn owner(v: &Json) -> (r: Option<String>)
    ensures
        crate::registry::opt_chars(r) == owner_spec(*v),
{
    let o = match at1(v, "owner") {
        Some(o) => o,
        None => {
            return None;
        },
    };
    proof {
        reveal_strlit("");
    }
    let kind = match str1(o, "kind") {
        Some(k) => k,
        None => "",
    };
    let name = match str1(o, "name") {
        Some(n) => n,
        None => "",
    };
    if crate::text::char_len(kind) == 0 || crate::text::char_len(name) == 0 {
        return None;
    }
    let ns = match str1(o, "namespace") {
        Some(n) => n,
        None => "",
    };
    let mut t = cat(kind, "/");
    if crate::text::char_len(ns) > 0 {
        push_str(&mut t, ns);
        push_str(&mut t, "/");
    }
    push_str(&mut t, name);
    Some(t)
}


pub open spec fn health_word(w: Seq<char>) -> Health {
    if w == "healthy"@ {
        Health::Healthy
    } else if w == "degraded"@ {
        Health::Warn
    } else if w == "failed"@ {
        Health::Error
    } else {
        Health::Unknown
    }
}

fn health_word_exec(w: &str) -> (h: Health)
    ensures
        h == health_word(w@),
{
    if str_eq(w, "healthy") {
        Health::Healthy
    } else if str_eq(w, "degraded") {
        Health::Warn
    } else if str_eq(w, "failed") {
        Health::Error
    } else {
        Health::Unknown
    }
}

pub open spec fn kind_tone(kind: Seq<char>) -> Seq<char> {
    if kind == "golden"@ { "accent"@ } else if kind == "clone"@ { "ok"@ } else { "muted"@ }
}

pub open spec fn mark(b: bool) -> Seq<char> {
    if b { "✓"@ } else { "·"@ }
}

/// A volume's kind, size and cost as metrics, kind first.
pub open spec fn size_metrics(kind: Seq<char>, size: Seq<char>, alloc: Seq<char>, shared: Seq<char>) -> Seq<MetricV> {
    seq![toned("kind"@, kind, kind_tone(kind)), plain("size"@, size), plain("allocated"@, alloc)] + (if shared.len() > 0
        && shared != "0 B"@ {
        seq![toned("shared"@, shared, "muted"@)]
    } else {
        Seq::empty()
    })
}

/// The marks, then what else the engine said.
pub open spec fn mark_metrics(
    sealed: bool,
    healthy: bool,
    writable: bool,
    redundancy: Seq<char>,
    physical: Option<u64>,
    role: Option<Seq<char>>,
) -> Seq<MetricV> {
    seq![
        toned("sealed"@, mark(sealed), if sealed { "accent"@ } else { "muted"@ }),
        toned("healthy"@, if healthy { "✓"@ } else { "✗"@ }, if healthy { "ok"@ } else { "error"@ }),
    ] + (if !writable && !sealed { seq![toned("read-only"@, "✓"@, "warn"@)] } else { Seq::empty() }) + (if redundancy
        != "none"@ {
        seq![toned("redundancy"@, redundancy, "muted"@)]
    } else {
        Seq::empty()
    }) + (match physical {
        Some(p) => seq![toned("physical"@, human_bytes_spec(p), "muted"@)],
        None => Seq::empty(),
    }) + (match role {
        Some(r) => seq![toned("role"@, r, "muted"@)],
        None => Seq::empty(),
    })
}

/// Who uses it, how it is served, and who claims it.
pub open spec fn use_metrics(
    used_by: Option<(Seq<char>, Option<Seq<char>>)>,
    served: Seq<Seq<char>>,
    in_use: Option<bool>,
    image: bool,
    owner: Option<Seq<char>>,
    kind: Seq<char>,
) -> Seq<MetricV> {
    (match used_by {
        Some((w, _)) => seq![toned("consumer"@, w, "accent"@)],
        None => Seq::empty(),
    }) + (if served.len() > 0 {
        seq![toned("attached"@, join(served, ", "@), "ok"@)]
    } else if in_use == Some(false) && !image {
        seq![toned("attached"@, "nothing"@, "warn"@)]
    } else {
        Seq::empty()
    }) + (match owner {
        Some(o) => if used_by is Some { Seq::empty() } else { seq![toned("owner"@, o, "accent"@)] },
        None => if kind == "clone"@ { seq![toned("owner"@, "unclaimed"@, "warn"@)] } else { Seq::empty() },
    })
}

fn push_size_metrics(ms: &mut Vec<Metric>, kind: &str, size: &str, alloc: &str, shared: &str)
    ensures
        metrics_view(final(ms)@) == metrics_view(old(ms)@) + size_metrics(kind@, size@, alloc@, shared@),
        crate::registry::unitless(old(ms)@) ==> crate::registry::unitless(final(ms)@),
{
    let ghost m0 = metrics_view(ms@);
    let tone = if str_eq(kind, "golden") { "accent" } else if str_eq(kind, "clone") { "ok" } else { "muted" };
    push_metric(ms, "kind", owned(kind), Some(tone));
    push_metric(ms, "size", owned(size), None);
    push_metric(ms, "allocated", owned(alloc), None);
    let ghost m1 = metrics_view(ms@);
    if crate::text::char_len(shared) > 0 && !str_eq(shared, "0 B") {
        push_metric(ms, "shared", owned(shared), Some("muted"));
    }
    assert(metrics_view(ms@) =~= m0 + size_metrics(kind@, size@, alloc@, shared@));
}

fn push_mark_metrics(
    ms: &mut Vec<Metric>,
    sealed: bool,
    healthy: bool,
    writable: bool,
    redundancy: &str,
    physical: Option<u64>,
    role: Option<String>,
)
    ensures
        metrics_view(final(ms)@) == metrics_view(old(ms)@) + mark_metrics(
            sealed,
            healthy,
            writable,
            redundancy@,
            physical,
            crate::registry::opt_chars(role),
        ),
        crate::registry::unitless(old(ms)@) ==> crate::registry::unitless(final(ms)@),
{
    let ghost m0 = metrics_view(ms@);
    push_metric(ms, "sealed", owned(if sealed { "✓" } else { "·" }), Some(if sealed { "accent" } else { "muted" }));
    push_metric(ms, "healthy", owned(if healthy { "✓" } else { "✗" }), Some(if healthy { "ok" } else { "error" }));
    let ghost m1 = metrics_view(ms@);
    if !writable && !sealed {
        push_metric(ms, "read-only", owned("✓"), Some("warn"));
    }
    let ghost m2 = metrics_view(ms@);
    if !str_eq(redundancy, "none") {
        push_metric(ms, "redundancy", owned(redundancy), Some("muted"));
    }
    let ghost m3 = metrics_view(ms@);
    match physical {
        Some(p) => push_metric(ms, "physical", human_bytes(p), Some("muted")),
        None => {},
    }
    let ghost m4 = metrics_view(ms@);
    match role {
        Some(r) => push_metric(ms, "role", r, Some("muted")),
        None => {},
    }
    assert(metrics_view(ms@) =~= m0 + mark_metrics(
        sealed,
        healthy,
        writable,
        redundancy@,
        physical,
        crate::registry::opt_chars(role),
    ));
}

fn push_use_metrics(
    ms: &mut Vec<Metric>,
    used_by: &Option<(String, Option<String>)>,
    served: &Vec<String>,
    in_use: Option<bool>,
    image: bool,
    owner: Option<String>,
    kind: &str,
)
    ensures
        metrics_view(final(ms)@) == metrics_view(old(ms)@) + use_metrics(
            match used_by {
                Some((w, t)) => Some((w@, crate::registry::opt_chars(*t))),
                None => None,
            },
            string_views(served@),
            in_use,
            image,
            crate::registry::opt_chars(owner),
            kind@,
        ),
        crate::registry::unitless(old(ms)@) ==> crate::registry::unitless(final(ms)@),
{
    let ghost m0 = metrics_view(ms@);
    match used_by {
        Some((w, _)) => push_metric(ms, "consumer", owned(w.as_str()), Some("accent")),
        None => {},
    }
    let ghost m1 = metrics_view(ms@);
    if served.len() > 0 {
        push_metric(ms, "attached", join_strings(served, ", "), Some("ok"));
    } else if in_use == Some(false) && !image {
        push_metric(ms, "attached", owned("nothing"), Some("warn"));
    }
    let ghost m2 = metrics_view(ms@);
    match owner {
        Some(o) => if used_by.is_none() {
            push_metric(ms, "owner", o, Some("accent"));
        },
        None => if str_eq(kind, "clone") {
            push_metric(ms, "owner", owned("unclaimed"), Some("warn"));
        },
    }
    assert(metrics_view(ms@) =~= m0 + use_metrics(
        match used_by {
            Some((w, t)) => Some((w@, crate::registry::opt_chars(*t))),
            None => None,
        },
        string_views(served@),
        in_use,
        image,
        crate::registry::opt_chars(owner),
        kind@,
    ));
}


/// A volume's edges: to the engine, up to its parent, to its array, and
/// to its consumer where the console has it.
pub open spec fn volume_rels(v: Json) -> Seq<RelV> {
    seq![("engine"@, RelationKind::BelongsTo, seq!["sb:engine"@], None::<Seq<char>>)] + (match fld(v, "parent"@) {
        Some(p) => seq![("parent"@, RelationKind::BelongsTo, seq!["sb:volume:"@ + p], None::<Seq<char>>)],
        None => Seq::empty(),
    }) + (match fld(v, "array_id"@) {
        Some(a) => seq![("array"@, RelationKind::BelongsTo, seq!["sb:array:"@ + a], None::<Seq<char>>)],
        None => Seq::empty(),
    }) + (match consumer_spec(v) {
        Some((_, Some(t))) => seq![("consumer"@, RelationKind::BelongsTo, seq![t], None::<Seq<char>>)],
        _ => Seq::empty(),
    })
}

/// What a volume is and what it costs, in one line.
pub open spec fn volume_detail(kind: Seq<char>, used_by: Option<(Seq<char>, Option<Seq<char>>)>, alloc: Seq<char>, size: Seq<char>) -> Seq<char> {
    let words = match used_by {
        Some((w, _)) => w,
        None => Seq::empty(),
    };
    if (kind == "clone"@ || kind == "volume"@) && used_by is Some {
        kind + " · "@ + words + " · "@ + alloc + " of "@ + size + " written"@
    } else if kind == "clone"@ {
        kind + " · "@ + alloc + " of "@ + size + " written"@
    } else {
        kind + " · "@ + size
    }
}

/// A volume as a component.
pub open spec fn volume_cv(v: Json) -> CV {
    let id = or_else(fld(v, "id"@), Seq::empty());
    let health = health_word(or_else(fld(v, "health"@), "unknown"@));
    let size = or_else(fld(v, "virtual_size_human"@), Seq::empty());
    let alloc = or_else(fld(v, "allocated_human"@), Seq::empty());
    let shared = or_else(fld(v, "shared_human"@), Seq::empty());
    let redundancy = or_else(fld(v, "redundancy"@), "none"@);
    let sealed = flag(v, "sealed"@);
    let writable = flag(v, "writable"@);
    let kind = volume_kind_spec(v);
    let in_use = v.path_bool(seq!["in_use"@]);
    let used_by = consumer_spec(v);
    (
        "sb:volume:"@ + id,
        "volume"@,
        or_else(fld(v, "name"@), id),
        health,
        volume_detail(kind, used_by, alloc, size),
        size_metrics(kind, size, alloc, shared) + mark_metrics(
            sealed,
            health == Health::Healthy,
            writable,
            redundancy,
            member_u64(v, "physical_bytes"@),
            fld(v, "role"@),
        ) + use_metrics(used_by, attachments_spec(v), in_use, place_spec(v) == Place::Image, owner_spec(v), kind),
        seq![
            (
                "delete"@,
                if in_use == Some(true) { "Delete (in use)"@ } else { "Delete"@ },
                "DELETE"@,
                "/api/plugins/sb/proxy/api/v1/volumes/"@ + id,
                in_use != Some(true),
                true,
                None,
            ),
        ],
        volume_rels(v),
        None,
    )
}

pub(crate) fn belongs(rs: &mut Vec<Relation>, name: &str, target: String)
    ensures
        rels_view(final(rs)@) == rels_view(old(rs)@).push((name@, RelationKind::BelongsTo, seq![target@], None)),
{
    let r = Relation::belongs_to(name, target);
    let ghost b = rels_view(rs@);
    rs.push(r);
    assert(rels_view(rs@) =~= b.push(rel_view(r)));
}

fn volume_relations(v: &Json, used_by: &Option<(String, Option<String>)>) -> (r: Vec<Relation>)
    requires
        match (*used_by, consumer_spec(*v)) {
            (Some((w, t)), Some((sw, st))) => w@ == sw && crate::registry::opt_chars(t) == st,
            (None, None) => true,
            _ => false,
        },
    ensures
        rels_view(r@) == volume_rels(*v),
{
    let mut rs: Vec<Relation> = Vec::new();
    assert(rels_view(rs@) =~= Seq::<RelV>::empty());
    belongs(&mut rs, "engine", owned("sb:engine"));
    let ghost r1 = rels_view(rs@);
    match fld_exec(v, "parent") {
        Some(p) => belongs(&mut rs, "parent", cat("sb:volume:", p.as_str())),
        None => {},
    }
    let ghost r2 = rels_view(rs@);
    match fld_exec(v, "array_id") {
        Some(a) => belongs(&mut rs, "array", cat("sb:array:", a.as_str())),
        None => {},
    }
    let ghost r3 = rels_view(rs@);
    match used_by {
        Some((_, Some(t))) => belongs(&mut rs, "consumer", owned(t.as_str())),
        _ => {},
    }
    assert(rels_view(rs@) =~= volume_rels(*v));
    rs
}

/// A volume as a component (`volume`).
pub fn volume(v: &Json) -> (c: ComponentSummary)
    ensures
        comp_view(c) == volume_cv(*v),
        crate::registry::unitless(c.metrics@),
{
    let id = fld_or(v, "id", "");
    proof {
        reveal_strlit("");
        assert(""@ =~= Seq::<char>::empty());
    }
    let health = health_word_exec(fld_or(v, "health", "unknown").as_str());
    let size = fld_or(v, "virtual_size_human", "");
    let alloc = fld_or(v, "allocated_human", "");
    let shared = fld_or(v, "shared_human", "");
    let redundancy = fld_or(v, "redundancy", "none");
    let sealed = flag_exec(v, "sealed");
    let writable = flag_exec(v, "writable");
    let kind = volume_kind(v);
    let in_use = bool_1(v, "in_use");
    let used_by = consumer(v);
    let served = attachments(v);
    let image = match place(v) {
        Place::Image => true,
        _ => false,
    };
    let healthy = match health {
        Health::Healthy => true,
        _ => false,
    };
    assert(match used_by {
        Some((w, t)) => Some((w@, crate::registry::opt_chars(t))),
        None => None,
    } == consumer_spec(*v));
    assert(healthy == (health == Health::Healthy));
    assert(image == (place_spec(*v) == Place::Image));
    let mut ms: Vec<Metric> = Vec::new();
    assert(metrics_view(ms@) =~= Seq::<MetricV>::empty());
    assert(crate::registry::unitless(ms@));
    push_size_metrics(&mut ms, kind, size.as_str(), alloc.as_str(), shared.as_str());
    let ghost m1 = metrics_view(ms@);
    assert(m1 == size_metrics(volume_kind_spec(*v), size@, alloc@, shared@));
    let physical = u64_field(v, "physical_bytes");
    let role = fld_exec(v, "role");
    push_mark_metrics(&mut ms, sealed, healthy, writable, redundancy.as_str(), physical, role);
    let ghost m2 = metrics_view(ms@);
    assert(m2 == m1 + mark_metrics(sealed, healthy, writable, redundancy@, member_u64(*v, "physical_bytes"@), fld(*v, "role"@)));
    let own = owner(v);
    push_use_metrics(&mut ms, &used_by, &served, in_use, image, own, kind);
    assert(metrics_view(ms@) == m2 + use_metrics(consumer_spec(*v), attachments_spec(*v), in_use, image, owner_spec(*v), kind@));
    let relations = volume_relations(v, &used_by);
    let consumer_words = match &used_by {
        Some((w, _)) => Some(w.as_str()),
        None => None,
    };
    let detail = if (str_eq(kind, "clone") || str_eq(kind, "volume")) && consumer_words.is_some() {
        let mut t = cat(kind, " · ");
        match consumer_words {
            Some(w) => push_str(&mut t, w),
            None => {},
        }
        push_str(&mut t, " · ");
        push_str(&mut t, alloc.as_str());
        push_str(&mut t, " of ");
        push_str(&mut t, size.as_str());
        push_str(&mut t, " written");
        t
    } else if str_eq(kind, "clone") {
        let mut t = cat(kind, " · ");
        push_str(&mut t, alloc.as_str());
        push_str(&mut t, " of ");
        push_str(&mut t, size.as_str());
        push_str(&mut t, " written");
        t
    } else {
        let mut t = cat(kind, " · ");
        push_str(&mut t, size.as_str());
        t
    };
    let busy = in_use == Some(true);
    let a = Action {
        id: owned("delete"),
        label: owned(if busy { "Delete (in use)" } else { "Delete" }),
        method: owned("DELETE"),
        path: cat("/api/plugins/sb/proxy/api/v1/volumes/", id.as_str()),
        enabled: !busy,
        danger: true,
        tone: None,
    };
    let mut actions: Vec<Action> = Vec::new();
    actions.push(a);
    let label = match fld_exec(v, "name") {
        Some(n) => n,
        None => owned(id.as_str()),
    };
    let c = ComponentSummary {
        id: cat("sb:volume:", id.as_str()),
        kind: owned("volume"),
        label,
        health,
        detail,
        metrics: ms,
        actions,
        relations,
        link: None,
    };
    assert(actions_view(c.actions@) =~= volume_cv(*v).6);
    c
}


pub open spec fn or_zero(o: Option<u64>) -> u64 {
    match o {
        Some(x) => x,
        None => 0,
    }
}

/// A slab's numbers are ones the engine can report: no more free than in
/// total, and a hundred times either fits in 64 bits.
pub open spec fn slab_sane(v: Json) -> bool {
    let total = or_zero(member_u64(v, "total_bytes"@));
    let free = or_zero(member_u64(v, "free_bytes"@));
    &&& total > 0 ==> free <= total
    &&& total * 100 <= u64::MAX
    &&& free * 100 <= u64::MAX
}

pub open spec fn slab_health(total: u64, free: u64) -> Health {
    if total == 0 {
        Health::Unknown
    } else if free * 100 < total * 5 {
        Health::Error
    } else if free * 100 < total * 15 {
        Health::Warn
    } else {
        Health::Healthy
    }
}

pub open spec fn fill_tone(h: Health) -> Seq<char> {
    match h {
        Health::Healthy => "ok"@,
        Health::Warn => "warn"@,
        _ => "error"@,
    }
}

/// The drive a slab is cut from, from `drive=<id>+<offset>`.
pub open spec fn slab_drive(domain: Seq<char>) -> Seq<char> {
    match crate::text::strip_prefix(domain, "drive="@) {
        Some(d) => match crate::text::split_once(d, '+') {
            Some((a, _)) => a,
            None => d,
        },
        None => Seq::empty(),
    }
}

pub open spec fn used_pct(total: u64, free: u64) -> nat {
    if total > 0 { ((total - free) * 100 / (total as int)) as nat } else { 0 }
}

/// A slab: where it is, how full, warning when nearly so.
pub open spec fn slab_cv(v: Json) -> CV {
    let id = or_else(fld(v, "id"@), Seq::empty());
    let total = or_zero(member_u64(v, "total_bytes"@));
    let free = or_zero(member_u64(v, "free_bytes"@));
    let health = slab_health(total, free);
    let tier = or_else(fld(v, "tier"@), Seq::empty());
    let domain = or_else(fld(v, "domain"@), Seq::empty());
    let drive = slab_drive(domain);
    (
        "sb:slab:"@ + id,
        "slab"@,
        if drive.len() == 0 { tier + " · "@ + domain } else { drive + " · "@ + tier },
        health,
        human_bytes_spec(free) + " free of "@ + human_bytes_spec(total) + " · "@ + decimal(
            or_zero(member_u64(v, "free_slots"@)) as nat,
        ) + " slots of "@ + human_bytes_spec(or_zero(member_u64(v, "slot_size"@))),
        seq![
            toned("free"@, human_bytes_spec(free), fill_tone(health)),
            toned("capacity"@, human_bytes_spec(total), "muted"@),
            toned("drive"@, if drive.len() == 0 { "—"@ } else { drive }, "muted"@),
            toned("role"@, or_else(fld(v, "role"@), "—"@), "muted"@),
            toned("used"@, decimal(used_pct(total, free)), fill_tone(health)),
            plain("free"@, human_bytes_spec(free)),
            toned("total"@, human_bytes_spec(total), "muted"@),
        ],
        Seq::empty(),
        seq![("engine"@, RelationKind::BelongsTo, seq!["sb:engine"@], None::<Seq<char>>)],
        None,
    )
}

/// The units of a slab's metrics: the used share is a percentage.
pub open spec fn slab_units() -> Seq<Option<Seq<char>>> {
    seq![None, None, None, None, Some("%"@), None, None]
}

fn engine_edge() -> (r: Vec<Relation>)
    ensures
        rels_view(r@) == seq![("engine"@, RelationKind::BelongsTo, seq!["sb:engine"@], None::<Seq<char>>)],
{
    let mut rs: Vec<Relation> = Vec::new();
    assert(rels_view(rs@) =~= Seq::<RelV>::empty());
    belongs(&mut rs, "engine", owned("sb:engine"));
    rs
}

fn slab_drive_exec(domain: &str) -> (r: String)
    ensures
        r@ == slab_drive(domain@),
{
    match crate::text::strip_prefix_str(domain, "drive=") {
        Some(d) => match crate::text::split_once_str(d, '+') {
            Some((a, _)) => owned(a),
            None => owned(d),
        },
        None => {
            proof {
                reveal_strlit("");
            }
            String::new()
        },
    }
}

/// A slab as a component (`slab`).
pub fn slab(v: &Json) -> (c: ComponentSummary)
    requires
        slab_sane(*v),
    ensures
        comp_view(c) == slab_cv(*v),
        metric_units(c.metrics@) == slab_units(),
{
    proof {
        reveal_strlit("");
        assert(""@ =~= Seq::<char>::empty());
    }
    let id = fld_or(v, "id", "");
    let total = match u64_field(v, "total_bytes") {
        Some(x) => x,
        None => 0,
    };
    let free = match u64_field(v, "free_bytes") {
        Some(x) => x,
        None => 0,
    };
    let pct: u64 = if total > 0 { (total - free) * 100 / total } else { 0 };
    let health = if total == 0 {
        Health::Unknown
    } else if free * 100 < total * 5 {
        Health::Error
    } else if free * 100 < total * 15 {
        Health::Warn
    } else {
        Health::Healthy
    };
    let tone = match health {
        Health::Healthy => "ok",
        Health::Warn => "warn",
        _ => "error",
    };
    let tier = fld_or(v, "tier", "");
    let domain = fld_or(v, "domain", "");
    let drive = slab_drive_exec(domain.as_str());
    let no_drive = crate::text::char_len(drive.as_str()) == 0;
    let label = if no_drive {
        let mut t = cat(tier.as_str(), " · ");
        push_str(&mut t, domain.as_str());
        t
    } else {
        let mut t = cat(drive.as_str(), " · ");
        push_str(&mut t, tier.as_str());
        t
    };
    let slots = match u64_field(v, "free_slots") {
        Some(x) => x,
        None => 0,
    };
    let slot_size = match u64_field(v, "slot_size") {
        Some(x) => x,
        None => 0,
    };
    let mut detail = human_bytes(free);
    push_str(&mut detail, " free of ");
    push_str(&mut detail, human_bytes(total).as_str());
    push_str(&mut detail, " · ");
    push_decimal(&mut detail, slots);
    push_str(&mut detail, " slots of ");
    push_str(&mut detail, human_bytes(slot_size).as_str());
    let role = match fld_exec(v, "role") {
        Some(r) => r,
        None => owned("—"),
    };
    let m_free = Metric::new("free", human_bytes(free)).tone(tone);
    let m_cap = Metric::new("capacity", human_bytes(total)).tone("muted");
    let m_drive = Metric::new("drive", if no_drive { owned("—") } else { drive }).tone("muted");
    let m_role = Metric::new("role", role).tone("muted");
    let m_used = Metric::new("used", crate::text::decimal_string(pct)).unit("%").tone(tone);
    let m_free2 = Metric::new("free", human_bytes(free));
    let m_total = Metric::new("total", human_bytes(total)).tone("muted");
    let metrics = vec![m_free, m_cap, m_drive, m_role, m_used, m_free2, m_total];
    assert(metrics_view(metrics@) =~= seq![
        metric_view(m_free),
        metric_view(m_cap),
        metric_view(m_drive),
        metric_view(m_role),
        metric_view(m_used),
        metric_view(m_free2),
        metric_view(m_total),
    ]);
    assert(metric_units(metrics@) =~= slab_units());
    let c = ComponentSummary {
        id: cat("sb:slab:", id.as_str()),
        kind: owned("slab"),
        label,
        health,
        detail,
        metrics,
        actions: Vec::new(),
        relations: engine_edge(),
        link: None,
    };
    assert(actions_view(c.actions@) =~= Seq::<ActionV>::empty());
    c
}


pub open spec fn engine_rel() -> Seq<RelV> {
    seq![("engine"@, RelationKind::BelongsTo, seq!["sb:engine"@], None::<Seq<char>>)]
}

/// An array: its level and members, capacity and stripe.
pub open spec fn array_cv(v: Json) -> CV {
    let id = or_else(fld(v, "id"@), Seq::empty());
    let members = or_else(fld(v, "member_count"@), "0"@);
    let cap = or_else(fld(v, "capacity_human"@), Seq::empty());
    (
        "sb:array:"@ + id,
        "array"@,
        or_else(fld(v, "level"@), Seq::empty()) + " × "@ + members,
        Health::Healthy,
        cap + " · stripe "@ + or_else(fld(v, "stripe_human"@), Seq::empty()),
        seq![plain("capacity"@, cap), plain("members"@, members)],
        Seq::empty(),
        engine_rel(),
        None,
    )
}

pub fn array(v: &Json) -> (c: ComponentSummary)
    ensures
        comp_view(c) == array_cv(*v),
        crate::registry::unitless(c.metrics@),
{
    proof {
        reveal_strlit("");
        assert(""@ =~= Seq::<char>::empty());
    }
    let id = fld_or(v, "id", "");
    let members = fld_or(v, "member_count", "0");
    let cap = fld_or(v, "capacity_human", "");
    let mut label = fld_or(v, "level", "");
    push_str(&mut label, " × ");
    push_str(&mut label, members.as_str());
    let mut detail = owned(cap.as_str());
    push_str(&mut detail, " · stripe ");
    push_str(&mut detail, fld_or(v, "stripe_human", "").as_str());
    let mut ms: Vec<Metric> = Vec::new();
    assert(metrics_view(ms@) =~= Seq::<MetricV>::empty());
    push_metric(&mut ms, "capacity", cap, None);
    push_metric(&mut ms, "members", members, None);
    let c = ComponentSummary {
        id: cat("sb:array:", id.as_str()),
        kind: owned("array"),
        label,
        health: Health::Healthy,
        detail,
        metrics: ms,
        actions: Vec::new(),
        relations: engine_edge(),
        link: None,
    };
    assert(actions_view(c.actions@) =~= Seq::<ActionV>::empty());
    c
}

pub open spec fn export_health(status: Seq<char>) -> Health {
    if status == "active"@ || status == "up"@ || status == "exported"@ {
        Health::Healthy
    } else if status.len() == 0 {
        Health::Unknown
    } else {
        Health::Warn
    }
}

pub open spec fn opt_plain(label: Seq<char>, o: Option<Seq<char>>) -> Seq<MetricV> {
    match o {
        Some(x) => seq![plain(label, x)],
        None => Seq::empty(),
    }
}

/// An export: its protocol and target, its state, and the volume it serves.
pub open spec fn export_cv(v: Json) -> CV {
    let id = or_else(fld(v, "id"@), Seq::empty());
    let status = or_else(fld(v, "status"@), Seq::empty());
    let protocol = or_else(fld(v, "protocol"@), Seq::empty());
    (
        "sb:export:"@ + id,
        "export"@,
        protocol + " "@ + or_else(fld(v, "target_id"@), Seq::empty()),
        export_health(status),
        status,
        seq![plain("protocol"@, protocol)] + opt_plain("lun"@, fld(v, "lun_id"@)) + opt_plain("nsid"@, fld(v, "nsid"@)),
        Seq::empty(),
        engine_rel() + match fld(v, "volume_id"@) {
            Some(x) => seq![("volume"@, RelationKind::BelongsTo, seq!["sb:volume:"@ + x], None::<Seq<char>>)],
            None => Seq::empty(),
        },
        None,
    )
}

pub fn export(v: &Json) -> (c: ComponentSummary)
    ensures
        comp_view(c) == export_cv(*v),
        crate::registry::unitless(c.metrics@),
{
    proof {
        reveal_strlit("");
        assert(""@ =~= Seq::<char>::empty());
    }
    let id = fld_or(v, "id", "");
    let status = fld_or(v, "status", "");
    let health = if str_eq(status.as_str(), "active") || str_eq(status.as_str(), "up") || str_eq(status.as_str(), "exported") {
        Health::Healthy
    } else if crate::text::char_len(status.as_str()) == 0 {
        Health::Unknown
    } else {
        Health::Warn
    };
    let protocol = fld_or(v, "protocol", "");
    let mut label = cat(protocol.as_str(), " ");
    push_str(&mut label, fld_or(v, "target_id", "").as_str());
    let mut rs = engine_edge();
    match fld_exec(v, "volume_id") {
        Some(x) => belongs(&mut rs, "volume", cat("sb:volume:", x.as_str())),
        None => {},
    }
    let mut ms: Vec<Metric> = Vec::new();
    assert(metrics_view(ms@) =~= Seq::<MetricV>::empty());
    push_metric(&mut ms, "protocol", protocol, None);
    let ghost m1 = metrics_view(ms@);
    match fld_exec(v, "lun_id") {
        Some(l) => push_metric(&mut ms, "lun", l, None),
        None => {},
    }
    let ghost m2 = metrics_view(ms@);
    match fld_exec(v, "nsid") {
        Some(n) => push_metric(&mut ms, "nsid", n, None),
        None => {},
    }
    assert(metrics_view(ms@) =~= export_cv(*v).5);
    assert(rels_view(rs@) =~= export_cv(*v).7);
    let c = ComponentSummary {
        id: cat("sb:export:", id.as_str()),
        kind: owned("export"),
        label,
        health,
        detail: status,
        metrics: ms,
        actions: Vec::new(),
        relations: rs,
        link: None,
    };
    assert(actions_view(c.actions@) =~= Seq::<ActionV>::empty());
    c
}

/// A drive: its name, capacity and model.
pub open spec fn drive_cv(v: Json) -> CV {
    let cap = or_else(fld(v, "capacity_human"@), Seq::empty());
    (
        "sb:drive:"@ + or_else(field_spec(v, seq!["uuid"@, "id"@]), Seq::empty()),
        "drive"@,
        or_else(field_spec(v, seq!["name"@, "path"@, "device"@, "uuid"@, "id"@]), Seq::empty()),
        Health::Healthy,
        cap + match fld(v, "model"@) {
            Some(m) => " · "@ + m,
            None => Seq::empty(),
        },
        seq![plain("capacity"@, cap)],
        Seq::empty(),
        engine_rel(),
        None,
    )
}

pub fn drive(v: &Json) -> (c: ComponentSummary)
    ensures
        comp_view(c) == drive_cv(*v),
        crate::registry::unitless(c.metrics@),
{
    proof {
        reveal_strlit("");
        assert(""@ =~= Seq::<char>::empty());
    }
    let ids = ["uuid", "id"];
    assert(ids@.map_values(|k: &str| k@) =~= seq!["uuid"@, "id"@]);
    let id = match field(v, &ids) {
        Some(x) => x,
        None => String::new(),
    };
    let names = ["name", "path", "device", "uuid", "id"];
    assert(names@.map_values(|k: &str| k@) =~= seq!["name"@, "path"@, "device"@, "uuid"@, "id"@]);
    let label = match field(v, &names) {
        Some(x) => x,
        None => String::new(),
    };
    let cap = fld_or(v, "capacity_human", "");
    let mut detail = owned(cap.as_str());
    match fld_exec(v, "model") {
        Some(m) => {
            push_str(&mut detail, " · ");
            push_str(&mut detail, m.as_str());
        },
        None => {},
    }
    let mut ms: Vec<Metric> = Vec::new();
    assert(metrics_view(ms@) =~= Seq::<MetricV>::empty());
    push_metric(&mut ms, "capacity", cap, None);
    let c = ComponentSummary {
        id: cat("sb:drive:", id.as_str()),
        kind: owned("drive"),
        label,
        health: Health::Healthy,
        detail,
        metrics: ms,
        actions: Vec::new(),
        relations: engine_edge(),
        link: None,
    };
    assert(actions_view(c.actions@) =~= Seq::<ActionV>::empty());
    c
}

/// One `has_many` per group that holds anything.
pub open spec fn group_rels(groups: Seq<(Seq<char>, Seq<Seq<char>>)>) -> Seq<RelV>
    decreases groups.len(),
{
    if groups.len() == 0 {
        Seq::empty()
    } else {
        group_rels(groups.drop_last()) + (if groups.last().1.len() > 0 {
            seq![(groups.last().0, RelationKind::HasMany, groups.last().1, None::<Seq<char>>)]
        } else {
            Seq::empty()
        })
    }
}

/// The engine card.
pub open spec fn engine_cv(health: Health, detail: Seq<char>, metrics: Seq<MetricV>, groups: Seq<(Seq<char>, Seq<Seq<char>>)>) -> CV {
    ("sb:engine"@, "engine"@, "stormblock"@, health, detail, metrics, Seq::empty(), group_rels(groups), Some(
        "#/grid?id=sb:engine&rel=volumes"@,
    ))
}

pub open spec fn group_views(groups: Seq<(&str, Vec<String>)>) -> Seq<(Seq<char>, Seq<Seq<char>>)> {
    groups.map_values(|g: (&str, Vec<String>)| (g.0@, crate::view::id_views(g.1@)))
}

/// One `has_many` per group that holds anything.
pub fn group_relations(groups: Vec<(&str, Vec<String>)>) -> (r: Vec<Relation>)
    ensures
        rels_view(r@) == group_rels(group_views(groups@)),
{
    let ghost gs = group_views(groups@);
    let mut rs: Vec<Relation> = Vec::new();
    let mut rest = groups;
    let n = rest.len();
    let mut k: usize = 0;
    assert(gs.take(0) =~= Seq::<(Seq<char>, Seq<Seq<char>>)>::empty());
    assert(rels_view(rs@) =~= Seq::<RelV>::empty());
    while k < n
        invariant
            n == gs.len(),
            k <= n,
            group_views(rest@) == gs.skip(k as int),
            rest@.len() == n - k,
            rels_view(rs@) == group_rels(gs.take(k as int)),
        decreases n - k,
    {
        let ghost before = rest@;
        let (name, ids) = rest.remove(0);
        assert(group_views(rest@) =~= group_views(before).skip(1));
        assert(gs.skip(k as int).skip(1) =~= gs.skip(k + 1));
        assert(gs.skip(k as int)[0] == gs[k as int]);
        assert(group_views(before)[0] == (name@, crate::view::id_views(ids@)));
        assert(gs.take(k + 1).drop_last() =~= gs.take(k as int));
        assert(gs.take(k + 1).last() == gs[k as int]);
        if ids.len() > 0 {
            let r = Relation::has_many(name, ids);
            let ghost b = rels_view(rs@);
            rs.push(r);
            assert(rels_view(rs@) =~= b.push(rel_view(r)));
        } else {
            assert(rels_view(rs@) =~= rels_view(rs@) + Seq::<RelV>::empty());
        }
        k += 1;
    }
    assert(gs.take(n as int) =~= gs);
    rs
}

pub fn engine(health: Health, detail: &str, metrics: Vec<Metric>, groups: Vec<(&str, Vec<String>)>) -> (c: ComponentSummary)
    ensures
        comp_view(c) == engine_cv(health, detail@, metrics_view(metrics@), group_views(groups@)),
        c.metrics == metrics,
{
    let rs = group_relations(groups);
    let c = ComponentSummary {
        id: owned("sb:engine"),
        kind: owned("engine"),
        label: owned("stormblock"),
        health,
        detail: owned(detail),
        metrics,
        actions: Vec::new(),
        relations: rs,
        link: Some(owned("#/grid?id=sb:engine&rel=volumes")),
    };
    assert(actions_view(c.actions@) =~= Seq::<ActionV>::empty());
    c
}


/// The ids of the volumes whose place is `a` or `b`.
pub open spec fn ids_placed(vs: Seq<Json>, a: Place, b: Place) -> Seq<Seq<char>>
    decreases vs.len(),
{
    if vs.len() == 0 {
        Seq::empty()
    } else {
        let p = place_spec(vs.last());
        ids_placed(vs.drop_last(), a, b) + (if p == a || p == b { seq![volume_cv(vs.last()).0] } else { Seq::empty() })
    }
}

/// Whether the engine says anything about use: some volume carries
/// `in_use` (stormblock v18.1.0 and later).
pub open spec fn knows_use(vs: Seq<Json>) -> bool {
    exists|i: int| 0 <= i < vs.len() && (#[trigger] vs[i]).member("in_use"@) is Some
}

pub open spec fn bytes_sum(ss: Seq<Json>, key: Seq<char>) -> nat
    decreases ss.len(),
{
    if ss.len() == 0 {
        0
    } else {
        bytes_sum(ss.drop_last(), key) + or_zero(member_u64(ss.last(), key)) as nat
    }
}

pub open spec fn not_healthy(cs: Seq<CV>) -> nat
    decreases cs.len(),
{
    if cs.len() == 0 {
        0
    } else {
        not_healthy(cs.drop_last()) + (if cs.last().3 != Health::Healthy { 1nat } else { 0nat })
    }
}

pub open spec fn first_ids(cs: Seq<CV>) -> Seq<Seq<char>> {
    cs.map_values(|c: CV| c.0)
}

pub open spec fn views_by(vs: Seq<Json>, f: spec_fn(Json) -> CV) -> Seq<CV> {
    vs.map_values(|v: Json| f(v))
}

pub open spec fn volume_fn() -> spec_fn(Json) -> CV {
    |v: Json| volume_cv(v)
}

pub open spec fn slab_fn() -> spec_fn(Json) -> CV {
    |v: Json| slab_cv(v)
}

pub open spec fn array_fn() -> spec_fn(Json) -> CV {
    |v: Json| array_cv(v)
}

pub open spec fn export_fn() -> spec_fn(Json) -> CV {
    |v: Json| export_cv(v)
}

pub open spec fn drive_fn() -> spec_fn(Json) -> CV {
    |v: Json| drive_cv(v)
}

/// The engine's line: what is attached, what is not, how many images;
/// how many volumes are not healthy; the slabs and their free space.
pub open spec fn engine_detail(knows: bool, att: nat, un: nat, img: nat, bad: nat, slabs: nat, free: u64, total: u64) -> Seq<char> {
    (if knows {
        decimal(att) + " attached · "@ + decimal(un) + " unattached · "@ + decimal(img) + " images"@
    } else {
        decimal(att) + " volumes · "@ + decimal(img)
            + " images — this engine does not say what is attached (stormblock v18.1.0)"@
    }) + (if bad > 0 { " ("@ + decimal(bad) + " not healthy)"@ } else { Seq::empty() }) + " · "@ + decimal(slabs)
        + " slabs · "@ + human_bytes_spec(free) + " free of "@ + human_bytes_spec(total)
}

/// Every slab is one the engine can report, and their free and total
/// bytes each add up within 64 bits.
pub open spec fn slabs_sane(ss: Seq<Json>) -> bool {
    &&& forall|i: int| 0 <= i < ss.len() ==> slab_sane(#[trigger] ss[i])
    &&& bytes_sum(ss, "free_bytes"@) <= u64::MAX
    &&& bytes_sum(ss, "total_bytes"@) <= u64::MAX
}

/// The engine's inventory as components: the engine card grouping
/// everything, then volumes, slabs, arrays, exports and drives; with the
/// engine's health and line.
pub open spec fn inventory_spec(vs: Seq<Json>, ss: Seq<Json>, ars: Seq<Json>, es: Seq<Json>, ds: Seq<Json>) -> (Health, Seq<char>, Seq<CV>) {
    let vols = views_by(vs, volume_fn());
    let att = ids_placed(vs, Place::Attached, Place::Volume);
    let un = ids_placed(vs, Place::Unattached, Place::Unattached);
    let img = ids_placed(vs, Place::Image, Place::Image);
    let sl = views_by(ss, slab_fn());
    let ar = views_by(ars, array_fn());
    let ex = views_by(es, export_fn());
    let dr = views_by(ds, drive_fn());
    let free = bytes_sum(ss, "free_bytes"@) as u64;
    let total = bytes_sum(ss, "total_bytes"@) as u64;
    let bad = not_healthy(vols);
    let health = if bad > 0 { Health::Warn } else { Health::Healthy };
    let detail = engine_detail(knows_use(vs), att.len(), un.len(), img.len(), bad, sl.len(), free, total);
    let metrics = seq![
        toned("attached"@, decimal(att.len()), "accent"@),
        toned("unattached"@, decimal(un.len()), if un.len() > 0 { "warn"@ } else { "muted"@ }),
        toned("images"@, decimal(img.len()), "muted"@),
        plain("slabs"@, decimal(sl.len())),
        plain("free"@, human_bytes_spec(free)),
        plain("exports"@, decimal(ex.len())),
    ];
    let groups = seq![
        ("volumes"@, att),
        ("unattached"@, un),
        ("images"@, img),
        ("slabs"@, first_ids(sl)),
        ("arrays"@, first_ids(ar)),
        ("exports"@, first_ids(ex)),
        ("drives"@, first_ids(dr)),
    ];
    (health, detail, seq![engine_cv(health, detail, metrics, groups)] + vols + sl + ar + ex + dr)
}

/// What the engine card says when the engine cannot be reached.
pub open spec fn unreachable_spec(e: Seq<char>) -> (Health, Seq<char>, Seq<CV>) {
    let detail = "unreachable: "@ + e;
    (Health::Error, detail, seq![engine_cv(Health::Error, detail, Seq::empty(), Seq::empty())])
}

pub fn unreachable(e: &str) -> (r: (Health, String, Vec<ComponentSummary>))
    ensures
        r.0 == unreachable_spec(e@).0,
        r.1@ == unreachable_spec(e@).1,
        crate::k8s::components::cv_of(r.2@) == unreachable_spec(e@).2,
{
    let detail = cat("unreachable: ", e);
    let ms: Vec<Metric> = Vec::new();
    assert(metrics_view(ms@) =~= Seq::<MetricV>::empty());
    let gs: Vec<(&str, Vec<String>)> = Vec::new();
    assert(group_views(gs@) =~= Seq::<(Seq<char>, Seq<Seq<char>>)>::empty());
    let c = engine(Health::Error, detail.as_str(), ms, gs);
    let mut out: Vec<ComponentSummary> = Vec::new();
    out.push(c);
    assert(crate::k8s::components::cv_of(out@) =~= seq![comp_view(c)]);
    (Health::Error, detail, out)
}

/// A list that could not be read counts as empty.
pub open spec fn listed(l: Option<Vec<Json>>) -> Seq<Json> {
    match l {
        Some(v) => v@,
        None => Seq::empty(),
    }
}

fn or_none(l: Option<Vec<Json>>) -> (r: Vec<Json>)
    ensures
        r@ == listed(l),
{
    match l {
        Some(v) => v,
        None => Vec::new(),
    }
}

/// One poll of the engine, from what its lists gave: without the volumes
/// the engine is unreachable and nothing else is shown; any other list
/// that failed is shown as empty.
pub fn poll_result(
    volumes: Result<Vec<Json>, String>,
    slabs: Option<Vec<Json>>,
    arrays: Option<Vec<Json>>,
    exports: Option<Vec<Json>>,
    drives: Option<Vec<Json>>,
) -> (r: (Health, String, Vec<ComponentSummary>))
    requires
        slabs_sane(listed(slabs)),
    ensures
        ({
            let want = match volumes {
                Err(e) => unreachable_spec(e@),
                Ok(vs) => inventory_spec(vs@, listed(slabs), listed(arrays), listed(exports), listed(drives)),
            };
            &&& r.0 == want.0
            &&& r.1@ == want.1
            &&& crate::k8s::components::cv_of(r.2@) == want.2
        }),
{
    match volumes {
        Err(e) => unreachable(e.as_str()),
        Ok(vs) => {
            let ss = or_none(slabs);
            let ars = or_none(arrays);
            let es = or_none(exports);
            let ds = or_none(drives);
            inventory(&vs, &ss, &ars, &es, &ds)
        },
    }
}

/// The other kinds, each mapped on its own.
#[derive(Clone, Copy)]
enum Other {
    Array,
    Export,
    Drive,
}

spec fn other_fn(k: Other) -> spec_fn(Json) -> CV {
    match k {
        Other::Array => array_fn(),
        Other::Export => export_fn(),
        Other::Drive => drive_fn(),
    }
}

fn map_other(vs: &Vec<Json>, k: Other) -> (r: (Vec<ComponentSummary>, Vec<String>))
    ensures
        crate::k8s::components::cv_of(r.0@) == views_by(vs@, other_fn(k)),
        crate::view::id_views(r.1@) == first_ids(views_by(vs@, other_fn(k))),
        crate::registry::all_unitless(r.0@),
{
    let mut cs: Vec<ComponentSummary> = Vec::new();
    let mut ids: Vec<String> = Vec::new();
    let mut i: usize = 0;
    while i < vs.len()
        invariant
            i <= vs@.len(),
            crate::k8s::components::cv_of(cs@) == views_by(vs@.take(i as int), other_fn(k)),
            crate::view::id_views(ids@) == first_ids(views_by(vs@.take(i as int), other_fn(k))),
            crate::registry::all_unitless(cs@),
        decreases vs@.len() - i,
    {
        let c = match k {
            Other::Array => array(&vs[i]),
            Other::Export => export(&vs[i]),
            Other::Drive => drive(&vs[i]),
        };
        let id = owned(c.id.as_str());
        let ghost b = crate::k8s::components::cv_of(cs@);
        let ghost bi = crate::view::id_views(ids@);
        let ghost cs0 = cs@;
        cs.push(c);
        ids.push(id);
        assert(cs@ =~= cs0.push(c));
        assert(crate::k8s::components::cv_of(cs@) =~= b.push(comp_view(c)));
        assert(crate::view::id_views(ids@) =~= bi.push(id@));
        assert(vs@.take(i + 1) =~= vs@.take(i as int).push(vs@[i as int]));
        assert(views_by(vs@.take(i + 1), other_fn(k)) =~= views_by(vs@.take(i as int), other_fn(k)).push((other_fn(k))(vs@[i as int])));
        assert(first_ids(views_by(vs@.take(i + 1), other_fn(k))) =~= first_ids(views_by(vs@.take(i as int), other_fn(k))).push(comp_view(c).0));
        i += 1;
    }
    assert(vs@.take(vs@.len() as int) =~= vs@);
    (cs, ids)
}


pub proof fn lemma_bytes_prefix(ss: Seq<Json>, k: int, key: Seq<char>)
    requires
        0 <= k <= ss.len(),
    ensures
        bytes_sum(ss.take(k), key) <= bytes_sum(ss, key),
    decreases ss.len(),
{
    if k < ss.len() {
        assert(ss.drop_last().take(k) =~= ss.take(k));
        lemma_bytes_prefix(ss.drop_last(), k, key);
    } else {
        assert(ss.take(k) =~= ss);
    }
}

/// The volumes mapped, with their ids sorted into where they belong.
struct Volumes {
    cs: Vec<ComponentSummary>,
    attached: Vec<String>,
    unattached: Vec<String>,
    images: Vec<String>,
    bad: usize,
    knows: bool,
}

fn map_volumes(vs: &Vec<Json>) -> (r: Volumes)
    ensures
        crate::k8s::components::cv_of(r.cs@) == views_by(vs@, volume_fn()),
        crate::view::id_views(r.attached@) == ids_placed(vs@, Place::Attached, Place::Volume),
        crate::view::id_views(r.unattached@) == ids_placed(vs@, Place::Unattached, Place::Unattached),
        crate::view::id_views(r.images@) == ids_placed(vs@, Place::Image, Place::Image),
        r.bad == not_healthy(views_by(vs@, volume_fn())),
        r.knows == knows_use(vs@),
        crate::registry::all_unitless(r.cs@),
{
    let mut cs: Vec<ComponentSummary> = Vec::new();
    let mut attached: Vec<String> = Vec::new();
    let mut unattached: Vec<String> = Vec::new();
    let mut images: Vec<String> = Vec::new();
    let mut bad: usize = 0;
    let mut knows = false;
    let mut i: usize = 0;
    assert(vs@.take(0) =~= Seq::<Json>::empty());
    while i < vs.len()
        invariant
            i <= vs@.len(),
            crate::k8s::components::cv_of(cs@) == views_by(vs@.take(i as int), volume_fn()),
            crate::view::id_views(attached@) == ids_placed(vs@.take(i as int), Place::Attached, Place::Volume),
            crate::view::id_views(unattached@) == ids_placed(vs@.take(i as int), Place::Unattached, Place::Unattached),
            crate::view::id_views(images@) == ids_placed(vs@.take(i as int), Place::Image, Place::Image),
            bad == not_healthy(views_by(vs@.take(i as int), volume_fn())),
            bad <= i,
            knows == knows_use(vs@.take(i as int)),
            crate::registry::all_unitless(cs@),
        decreases vs@.len() - i,
    {
        let ghost t = vs@.take(i as int);
        let ghost t1 = vs@.take(i + 1);
        assert(t1.drop_last() =~= t);
        assert(t1.last() == vs@[i as int]);
        assert(views_by(t1, volume_fn()) =~= views_by(t, volume_fn()).push(volume_cv(vs@[i as int])));
        assert(views_by(t1, volume_fn()).drop_last() =~= views_by(t, volume_fn()));
        let v = &vs[i];
        let c = volume(v);
        let id = owned(c.id.as_str());
        match place(v) {
            Place::Attached | Place::Volume => {
                let ghost b = crate::view::id_views(attached@);
                attached.push(id);
                assert(crate::view::id_views(attached@) =~= b.push(id@));
            },
            Place::Unattached => {
                let ghost b = crate::view::id_views(unattached@);
                unattached.push(id);
                assert(crate::view::id_views(unattached@) =~= b.push(id@));
            },
            Place::Image => {
                let ghost b = crate::view::id_views(images@);
                images.push(id);
                assert(crate::view::id_views(images@) =~= b.push(id@));
            },
        }
        assert(ids_placed(t1, Place::Attached, Place::Volume) =~= ids_placed(t, Place::Attached, Place::Volume) + (
        if place_spec(vs@[i as int]) == Place::Attached || place_spec(vs@[i as int]) == Place::Volume {
            seq![volume_cv(vs@[i as int]).0]
        } else {
            Seq::empty()
        }));
        let healthy = match c.health {
            Health::Healthy => true,
            _ => false,
        };
        if !healthy {
            bad += 1;
        }
        let has = v.get("in_use").is_some();
        proof {
            if knows || has {
                if has {
                    assert(t1[i as int] == vs@[i as int]);
                } else {
                    let w = choose|j: int| 0 <= j < t.len() && (#[trigger] t[j]).member("in_use"@) is Some;
                    assert(t1[w] == t[w]);
                }
            } else {
                assert forall|j: int| 0 <= j < t1.len() implies !((#[trigger] t1[j]).member("in_use"@) is Some) by {
                    if j < i {
                        assert(t1[j] == t[j]);
                    }
                }
            }
        }
        knows = knows || has;
        let ghost b = crate::k8s::components::cv_of(cs@);
        cs.push(c);
        assert(crate::k8s::components::cv_of(cs@) =~= b.push(comp_view(c)));
        i += 1;
    }
    assert(vs@.take(vs@.len() as int) =~= vs@);
    Volumes { cs, attached, unattached, images, bad, knows }
}

fn map_slabs(ss: &Vec<Json>) -> (r: (Vec<ComponentSummary>, Vec<String>, u64, u64))
    requires
        slabs_sane(ss@),
    ensures
        crate::k8s::components::cv_of(r.0@) == views_by(ss@, slab_fn()),
        crate::view::id_views(r.1@) == first_ids(views_by(ss@, slab_fn())),
        r.2 == bytes_sum(ss@, "free_bytes"@),
        r.3 == bytes_sum(ss@, "total_bytes"@),
        forall|k: int| 0 <= k < r.0@.len() ==> metric_units((#[trigger] r.0@[k]).metrics@) == slab_units(),
{
    let mut cs: Vec<ComponentSummary> = Vec::new();
    let mut ids: Vec<String> = Vec::new();
    let mut free: u64 = 0;
    let mut total: u64 = 0;
    let mut i: usize = 0;
    assert(ss@.take(0) =~= Seq::<Json>::empty());
    while i < ss.len()
        invariant
            i <= ss@.len(),
            slabs_sane(ss@),
            crate::k8s::components::cv_of(cs@) == views_by(ss@.take(i as int), slab_fn()),
            crate::view::id_views(ids@) == first_ids(views_by(ss@.take(i as int), slab_fn())),
            free == bytes_sum(ss@.take(i as int), "free_bytes"@),
            total == bytes_sum(ss@.take(i as int), "total_bytes"@),
            forall|k: int| 0 <= k < cs@.len() ==> metric_units((#[trigger] cs@[k]).metrics@) == slab_units(),
        decreases ss@.len() - i,
    {
        let ghost t = ss@.take(i as int);
        let ghost t1 = ss@.take(i + 1);
        assert(t1.drop_last() =~= t);
        assert(t1.last() == ss@[i as int]);
        proof {
            lemma_bytes_prefix(ss@, i + 1, "free_bytes"@);
            lemma_bytes_prefix(ss@, i + 1, "total_bytes"@);
        }
        assert(slab_sane(ss@[i as int]));
        let c = slab(&ss[i]);
        let id = owned(c.id.as_str());
        let f = match u64_field(&ss[i], "free_bytes") {
            Some(x) => x,
            None => 0,
        };
        let tt = match u64_field(&ss[i], "total_bytes") {
            Some(x) => x,
            None => 0,
        };
        free = free + f;
        total = total + tt;
        let ghost b = crate::k8s::components::cv_of(cs@);
        let ghost bi = crate::view::id_views(ids@);
        let ghost cs0 = cs@;
        cs.push(c);
        ids.push(id);
        assert(cs@ =~= cs0.push(c));
        assert(crate::k8s::components::cv_of(cs@) =~= b.push(comp_view(c)));
        assert(crate::view::id_views(ids@) =~= bi.push(id@));
        assert(views_by(t1, slab_fn()) =~= views_by(t, slab_fn()).push(slab_cv(ss@[i as int])));
        assert(first_ids(views_by(t1, slab_fn())) =~= first_ids(views_by(t, slab_fn())).push(comp_view(c).0));
        i += 1;
    }
    assert(ss@.take(ss@.len() as int) =~= ss@);
    (cs, ids, free, total)
}

fn count_metric(ms: &mut Vec<Metric>, label: &str, n: usize, tone: Option<&str>)
    ensures
        metrics_view(final(ms)@) == metrics_view(old(ms)@).push((
            label@,
            decimal(n as nat),
            match tone {
                Some(t) => Some(t@),
                None => None,
            },
        )),
        crate::registry::unitless(old(ms)@) ==> crate::registry::unitless(final(ms)@),
{
    push_metric(ms, label, crate::text::decimal_string(n as u64), tone);
}

/// The engine's inventory (the part of `poll` after the lists are
/// fetched): the components, the engine's health and its line.
pub fn inventory(vs: &Vec<Json>, ss: &Vec<Json>, ars: &Vec<Json>, es: &Vec<Json>, ds: &Vec<Json>) -> (r: (Health, String, Vec<ComponentSummary>))
    requires
        slabs_sane(ss@),
    ensures
        r.0 == inventory_spec(vs@, ss@, ars@, es@, ds@).0,
        r.1@ == inventory_spec(vs@, ss@, ars@, es@, ds@).1,
        crate::k8s::components::cv_of(r.2@) == inventory_spec(vs@, ss@, ars@, es@, ds@).2,
        // The slabs follow the card and the volumes, each with its units.
        forall|k: int| 0 <= k < views_by(ss@, slab_fn()).len()
            ==> metric_units((#[trigger] r.2@[1 + views_by(vs@, volume_fn()).len() + k]).metrics@) == slab_units(),
        // Every other component's metrics carry no unit.
        forall|k: int| 0 <= k < r.2@.len() && !(1 + views_by(vs@, volume_fn()).len() <= k < 1 + views_by(vs@, volume_fn()).len() + views_by(ss@, slab_fn()).len())
            ==> crate::registry::unitless((#[trigger] r.2@[k]).metrics@),
{
    let Volumes { cs: vols, attached, unattached, images, bad, knows } = map_volumes(vs);
    let (sl, sl_ids, free, total) = map_slabs(ss);
    let (ar, ar_ids) = map_other(ars, Other::Array);
    let (ex, ex_ids) = map_other(es, Other::Export);
    let (dr, dr_ids) = map_other(ds, Other::Drive);
    let (n_att, n_un, n_img) = (attached.len(), unattached.len(), images.len());
    let health = if bad > 0 { Health::Warn } else { Health::Healthy };
    let mut detail = crate::text::decimal_string(n_att as u64);
    if knows {
        push_str(&mut detail, " attached · ");
        push_decimal(&mut detail, n_un as u64);
        push_str(&mut detail, " unattached · ");
        push_decimal(&mut detail, n_img as u64);
        push_str(&mut detail, " images");
    } else {
        push_str(&mut detail, " volumes · ");
        push_decimal(&mut detail, n_img as u64);
        push_str(&mut detail, " images — this engine does not say what is attached (stormblock v18.1.0)");
    }
    if bad > 0 {
        push_str(&mut detail, " (");
        push_decimal(&mut detail, bad as u64);
        push_str(&mut detail, " not healthy)");
    } else {
        proof {
            reveal_strlit("");
        }
    }
    push_str(&mut detail, " · ");
    push_decimal(&mut detail, sl.len() as u64);
    push_str(&mut detail, " slabs · ");
    push_str(&mut detail, human_bytes(free).as_str());
    push_str(&mut detail, " free of ");
    push_str(&mut detail, human_bytes(total).as_str());
    let mut ms: Vec<Metric> = Vec::new();
    assert(metrics_view(ms@) =~= Seq::<MetricV>::empty());
    assert(crate::registry::unitless(ms@));
    count_metric(&mut ms, "attached", n_att, Some("accent"));
    count_metric(&mut ms, "unattached", n_un, Some(if n_un > 0 { "warn" } else { "muted" }));
    count_metric(&mut ms, "images", n_img, Some("muted"));
    count_metric(&mut ms, "slabs", sl.len(), None);
    push_metric(&mut ms, "free", human_bytes(free), None);
    count_metric(&mut ms, "exports", ex.len(), None);
    let groups = vec![
        ("volumes", attached),
        ("unattached", unattached),
        ("images", images),
        ("slabs", sl_ids),
        ("arrays", ar_ids),
        ("exports", ex_ids),
        ("drives", dr_ids),
    ];
    let ghost want = inventory_spec(vs@, ss@, ars@, es@, ds@);
    assert(group_views(groups@) =~= seq![
        ("volumes"@, ids_placed(vs@, Place::Attached, Place::Volume)),
        ("unattached"@, ids_placed(vs@, Place::Unattached, Place::Unattached)),
        ("images"@, ids_placed(vs@, Place::Image, Place::Image)),
        ("slabs"@, first_ids(views_by(ss@, slab_fn()))),
        ("arrays"@, first_ids(views_by(ars@, array_fn()))),
        ("exports"@, first_ids(views_by(es@, export_fn()))),
        ("drives"@, first_ids(views_by(ds@, drive_fn()))),
    ]);
    assert(views_by(ars@, other_fn(Other::Array)) == views_by(ars@, array_fn()));
    assert(views_by(es@, other_fn(Other::Export)) == views_by(es@, export_fn()));
    assert(views_by(ds@, other_fn(Other::Drive)) == views_by(ds@, drive_fn()));
    assert(metrics_view(ms@) =~= seq![
        toned("attached"@, decimal(ids_placed(vs@, Place::Attached, Place::Volume).len()), "accent"@),
        toned("unattached"@, decimal(ids_placed(vs@, Place::Unattached, Place::Unattached).len()), if ids_placed(vs@, Place::Unattached, Place::Unattached).len() > 0 { "warn"@ } else { "muted"@ }),
        toned("images"@, decimal(ids_placed(vs@, Place::Image, Place::Image).len()), "muted"@),
        plain("slabs"@, decimal(views_by(ss@, slab_fn()).len())),
        plain("free"@, human_bytes_spec(bytes_sum(ss@, "free_bytes"@) as u64)),
        plain("exports"@, decimal(views_by(es@, export_fn()).len())),
    ]);
    assert(health == want.0);
    assert(detail@ == want.1);
    let c = engine(health, detail.as_str(), ms, groups);
    assert(comp_view(c) == want.2[0]);
    let mut out: Vec<ComponentSummary> = Vec::new();
    out.push(c);
    let ghost o0 = crate::k8s::components::cv_of(out@);
    let mut vols = vols;
    let mut sl = sl;
    let mut ar = ar;
    let mut ex = ex;
    let mut dr = dr;
    let ghost a = crate::k8s::components::cv_of(vols@);
    let ghost b = crate::k8s::components::cv_of(sl@);
    let ghost c2 = crate::k8s::components::cv_of(ar@);
    let ghost d = crate::k8s::components::cv_of(ex@);
    let ghost e = crate::k8s::components::cv_of(dr@);
    let ghost vv = vols@;
    let ghost sv = sl@;
    let ghost av = ar@;
    let ghost ev = ex@;
    let ghost dv = dr@;
    let ghost cc = c;
    assert(vv.len() == views_by(vs@, volume_fn()).len());
    assert(sv.len() == views_by(ss@, slab_fn()).len());
    out.append(&mut vols);
    out.append(&mut sl);
    out.append(&mut ar);
    out.append(&mut ex);
    out.append(&mut dr);
    assert(crate::k8s::components::cv_of(out@) =~= o0 + a + b + c2 + d + e);
    assert(o0 =~= seq![comp_view(c)]);
    assert forall|k: int| 0 <= k < sv.len() implies out@[1 + vv.len() + k] == sv[k] by {}
    assert(out@ =~= seq![cc] + vv + sv + av + ev + dv);
    assert forall|k: int| 0 <= k < out@.len() && !(1 + vv.len() <= k < 1 + vv.len() + sv.len())
        implies crate::registry::unitless((#[trigger] out@[k]).metrics@) by {
        let n1 = 1 + vv.len();
        let n2 = n1 + sv.len();
        let n3 = n2 + av.len();
        let n4 = n3 + ev.len();
        if k == 0 {
        } else if k < n1 {
            assert(out@[k] == vv[k - 1]);
        } else if k < n3 {
            assert(out@[k] == av[k - n2]);
        } else if k < n4 {
            assert(out@[k] == ev[k - n3]);
        } else {
            assert(out@[k] == dv[k - n4]);
        }
    }
    (health, detail, out)
}

/// The Storage section: what is attached to something running, what is
/// not, and the engine's slabs, arrays and exports.
pub fn nav() -> (r: Vec<crate::nav::NavSection>)
    ensures
        crate::nav::sections_view(r@) == seq![(
            "Storage"@,
            40i32,
            crate::nav::NavKind::Admin,
            seq![
                ("Volumes"@, "#/grid?id=sb:engine&rel=volumes"@, 0i32),
                ("Unattached volumes"@, "#/grid?id=sb:engine&rel=unattached"@, 1i32),
                ("Slabs"@, "#/grid?id=sb:engine&rel=slabs"@, 2i32),
                ("Arrays"@, "#/grid?id=sb:engine&rel=arrays"@, 3i32),
                ("Exports"@, "#/grid?id=sb:engine&rel=exports"@, 4i32),
            ],
        )],
{
    let s0 = crate::nav::NavSection::new("Storage", 40).admin();
    let s1 = s0.item("Volumes", "#/grid?id=sb:engine&rel=volumes");
    let s2 = s1.item("Unattached volumes", "#/grid?id=sb:engine&rel=unattached");
    let s3 = s2.item("Slabs", "#/grid?id=sb:engine&rel=slabs");
    let s4 = s3.item("Arrays", "#/grid?id=sb:engine&rel=arrays");
    let s5 = s4.item("Exports", "#/grid?id=sb:engine&rel=exports");
    proof {
        assert(s5.items@[0] == s1.items@[0]) by {
            assert(s5.items@[0] == s4.items@.take(4)[0]);
            assert(s4.items@[0] == s3.items@.take(3)[0]);
            assert(s3.items@[0] == s2.items@.take(2)[0]);
            assert(s2.items@[0] == s1.items@.take(1)[0]);
        }
        assert(crate::nav::items_view(s5) =~= seq![
            ("Volumes"@, "#/grid?id=sb:engine&rel=volumes"@, 0i32),
            ("Unattached volumes"@, "#/grid?id=sb:engine&rel=unattached"@, 1i32),
            ("Slabs"@, "#/grid?id=sb:engine&rel=slabs"@, 2i32),
            ("Arrays"@, "#/grid?id=sb:engine&rel=arrays"@, 3i32),
            ("Exports"@, "#/grid?id=sb:engine&rel=exports"@, 4i32),
        ]);
    }
    let r = vec![s5];
    assert(crate::nav::sections_view(r@) =~= seq![crate::nav::section_view(s5)]);
    r
}

/// The bearer token stormblock is read with: trimmed, and none when that
/// leaves nothing.
pub open spec fn token_spec(token: Option<Seq<char>>) -> Option<Seq<char>> {
    match token {
        Some(t) => if crate::text::trim(t).len() > 0 { Some(crate::text::trim(t)) } else { None },
        None => None,
    }
}

pub fn token_of(token: Option<String>) -> (r: Option<String>)
    ensures
        crate::registry::opt_chars(r) == token_spec(crate::registry::opt_chars(token)),
{
    match token {
        Some(t) => {
            let x = crate::text::trim_str(t.as_str());
            if x.unicode_len() > 0 { Some(owned(x)) } else { None }
        },
        None => None,
    }
}

} // verus!
