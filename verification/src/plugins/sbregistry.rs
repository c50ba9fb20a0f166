//! The registry plugin: sbregistry's readiness, its goldens, clones,
//! pallets and pushed images, under one registry card.

use vstd::prelude::*;
use vstd::utf8::encode_utf8;
use crate::json::{Json, arr_1, at1, bool_1};
use crate::k8s::cilium::str_items;
use crate::k8s::components::{ActionV, CV, MetricV, RelV, cat, or_else, plain, push_metric, toned};
use crate::plugins::block::{belongs, fld, fld_exec, fld_or, flag, flag_exec, group_relations, group_rels, group_views, member_u64, or_zero};
use crate::plugins::catalog::{belongs_v, chars_upto, opt_toned, str_list};
use crate::registry::{actions_view, comp_view, metrics_view, opt_chars, rel_view, rels_view};
use crate::text::{decimal, join, join_strings, owned, push_decimal, push_str, str_eq, string_views};
use crate::value::{field, field_spec, u64_field};
use crate::view::{ComponentSummary, Health, Metric, Relation, RelationKind};

verus! {

/// The first warm-up error: `step: message`, the message cut to ninety
/// characters with an ellipsis when it was longer (in bytes).
pub open spec fn first_error(warm: Option<Json>) -> Option<Seq<char>> {
    match warm {
        Some(w) => match w.member("errors"@) {
            Some(Json::Obj(m)) => if m@.len() > 0 {
                let msg = or_else(m@[0].1.str_of(), Seq::empty());
                Some(m@[0].0@ + ": "@ + chars_upto(msg, 90) + (if encode_utf8(msg).len() > 90 { "…"@ } else { Seq::empty() }))
            } else {
                None
            },
            _ => None,
        },
        None => None,
    }
}

pub open spec fn warm_num(warm: Option<Json>, key: Seq<char>) -> u64 {
    match warm {
        Some(w) => or_zero(member_u64(w, key)),
        None => 0,
    }
}

/// sbregistry's readyz: not ready is a warning with the warm-up count;
/// ready with a failed warm-up step is a warning naming the first error.
pub open spec fn readiness_spec(v: Json) -> (Health, Seq<char>) {
    let warm = v.member("warmup"@);
    let complete = match warm {
        Some(w) => w.path_bool(seq!["complete"@]) == Some(true),
        None => false,
    };
    let failed = warm_num(warm, "failed"@);
    let done = warm_num(warm, "done"@);
    let total = warm_num(warm, "total"@);
    let counts = decimal(done as nat) + "/"@ + decimal(total as nat);
    if v.path_bool(seq!["ready"@]) != Some(true) {
        (Health::Warn, "not ready · warm-up "@ + counts)
    } else if failed == 0 {
        if complete {
            (Health::Healthy, "ready · warm-up complete ("@ + counts + ")"@)
        } else {
            (Health::Healthy, "ready · warming up "@ + counts)
        }
    } else {
        match first_error(warm) {
            Some(e) => (Health::Warn, "ready · "@ + decimal(failed as nat) + " warm-up step failed · "@ + e),
            None => (Health::Warn, "ready · "@ + decimal(failed as nat) + " warm-up step failed"@),
        }
    }
}

fn first_error_exec(warm: Option<&Json>) -> (r: Option<String>)
    ensures
        opt_chars(r) == first_error(match warm {
            Some(w) => Some(*w),
            None => None,
        }),
{
    let w = match warm {
        Some(w) => w,
        None => {
            return None;
        },
    };
    match w.get("errors") {
        Some(Json::Obj(m)) => if m.len() > 0 {
            let step = m[0].0.as_str();
            let msg = match m[0].1.as_str() {
                Some(t) => t,
                None => "",
            };
            proof {
                reveal_strlit("");
                assert(""@ =~= Seq::<char>::empty());
            }
            let n = crate::text::char_len(msg);
            let short = if n > 90 {
                let x = msg.substring_char(0, 90);
                assert(x@ =~= msg@.take(90));
                x
            } else {
                msg
            };
            let mut t = cat(step, ": ");
            push_str(&mut t, short);
            let long = msg.as_bytes().len() > 90;
            assert(long == (encode_utf8(msg@).len() > 90));
            if long {
                push_str(&mut t, "…");
            } else {
                assert(t@ =~= t@ + Seq::<char>::empty());
            }
            assert(m@.len() > 0);
            assert(t@ == first_error(Some(*w))->0);
            Some(t)
        } else {
            None
        },
        _ => None,
    }
}

fn warm_num_exec(warm: Option<&Json>, key: &str) -> (r: u64)
    ensures
        r == warm_num(match warm {
            Some(w) => Some(*w),
            None => None,
        }, key@),
{
    match warm {
        Some(w) => match u64_field(w, key) {
            Some(x) => x,
            None => 0,
        },
        None => 0,
    }
}

/// What sbregistry's readiness says (`readiness`).
pub fn readiness(v: &Json) -> (r: (Health, String))
    ensures
        r.0 == readiness_spec(*v).0,
        r.1@ == readiness_spec(*v).1,
{
    let warm = v.get("warmup");
    let complete = match warm {
        Some(w) => flag_exec(w, "complete"),
        None => false,
    };
    let failed = warm_num_exec(warm, "failed");
    let done = warm_num_exec(warm, "done");
    let total = warm_num_exec(warm, "total");
    let mut counts = crate::text::decimal_string(done);
    push_str(&mut counts, "/");
    push_decimal(&mut counts, total);
    let ready = match bool_1(v, "ready") {
        Some(b) => b,
        None => false,
    };
    if !ready {
        return (Health::Warn, cat("not ready · warm-up ", counts.as_str()));
    }
    if failed == 0 {
        if complete {
            let mut t = cat("ready · warm-up complete (", counts.as_str());
            push_str(&mut t, ")");
            (Health::Healthy, t)
        } else {
            (Health::Healthy, cat("ready · warming up ", counts.as_str()))
        }
    } else {
        let mut t = owned("ready · ");
        push_decimal(&mut t, failed);
        match first_error_exec(warm) {
            Some(e) => {
                push_str(&mut t, " warm-up step failed · ");
                push_str(&mut t, e.as_str());
            },
            None => push_str(&mut t, " warm-up step failed"),
        }
        (Health::Warn, t)
    }
}

/// The registry card.
pub open spec fn registry_cv(health: Health, detail: Seq<char>, metrics: Seq<MetricV>, groups: Seq<(Seq<char>, Seq<Seq<char>>)>) -> CV {
    ("reg:registry"@, "registry"@, "sbregistry"@, health, detail, metrics, Seq::empty(), group_rels(groups), Some(
        "#/grid?id=reg:registry&rel=goldens"@,
    ))
}

pub fn registry(health: Health, detail: &str, metrics: Vec<Metric>, groups: Vec<(&str, Vec<String>)>) -> (c: ComponentSummary)
    ensures
        comp_view(c) == registry_cv(health, detail@, metrics_view(metrics@), group_views(groups@)),
        c.metrics == metrics,
{
    let c = ComponentSummary {
        id: owned("reg:registry"),
        kind: owned("registry"),
        label: owned("sbregistry"),
        health,
        detail: owned(detail),
        metrics,
        actions: Vec::new(),
        relations: group_relations(groups),
        link: Some(owned("#/grid?id=reg:registry&rel=goldens")),
    };
    assert(actions_view(c.actions@) =~= Seq::<ActionV>::empty());
    c
}

pub open spec fn on_registry() -> Seq<RelV> {
    seq![belongs_v("registry"@, "reg:registry"@)]
}

/// A golden: verified or not, with its image, digest and template.
pub open spec fn golden_cv(v: Json) -> CV {
    let name = or_else(fld(v, "name"@), Seq::empty());
    let verified = flag(v, "verified"@);
    (
        "reg:golden:"@ + name,
        "golden"@,
        name,
        if verified { Health::Healthy } else { Health::Warn },
        or_else(fld(v, "image"@), Seq::empty()) + match fld(v, "digest"@) {
            Some(d) => " @ "@ + chars_upto(d, 19),
            None => Seq::empty(),
        } + " · template "@ + or_else(fld(v, "template_name"@), Seq::empty()),
        seq![toned("verified"@, if verified { "true"@ } else { "false"@ }, if verified { "ok"@ } else { "warn"@ })],
        Seq::empty(),
        on_registry(),
        None,
    )
}

fn upto_exec(s: &str, n: usize) -> (r: String)
    ensures
        r@ == chars_upto(s@, n as nat),
{
    let len = crate::text::char_len(s);
    if len > n {
        let x = s.substring_char(0, n);
        assert(x@ =~= s@.take(n as int));
        owned(x)
    } else {
        owned(s)
    }
}

fn registry_edge() -> (r: Vec<Relation>)
    ensures
        rels_view(r@) == on_registry(),
{
    let mut rs: Vec<Relation> = Vec::new();
    assert(rels_view(rs@) =~= Seq::<RelV>::empty());
    belongs(&mut rs, "registry", owned("reg:registry"));
    rs
}

pub fn golden(v: &Json) -> (c: ComponentSummary)
    ensures
        comp_view(c) == golden_cv(*v),
        crate::registry::unitless(c.metrics@),
{
    proof {
        reveal_strlit("");
        assert(""@ =~= Seq::<char>::empty());
    }
    let name = fld_or(v, "name", "");
    let verified = flag_exec(v, "verified");
    let mut detail = fld_or(v, "image", "");
    match fld_exec(v, "digest") {
        Some(d) => {
            push_str(&mut detail, " @ ");
            push_str(&mut detail, upto_exec(d.as_str(), 19).as_str());
        },
        None => {},
    }
    push_str(&mut detail, " · template ");
    push_str(&mut detail, fld_or(v, "template_name", "").as_str());
    let mut ms: Vec<Metric> = Vec::new();
    assert(metrics_view(ms@) =~= Seq::<MetricV>::empty());
    push_metric(&mut ms, "verified", owned(if verified { "true" } else { "false" }), Some(if verified { "ok" } else { "warn" }));
    let c = ComponentSummary {
        id: cat("reg:golden:", name.as_str()),
        kind: owned("golden"),
        label: name,
        health: if verified { Health::Healthy } else { Health::Warn },
        detail,
        metrics: ms,
        actions: Vec::new(),
        relations: registry_edge(),
        link: None,
    };
    assert(actions_view(c.actions@) =~= Seq::<ActionV>::empty());
    c
}

/// Whether a clone is attached: its `attach` is there and not null.
pub open spec fn attached(v: Json) -> bool {
    match v.member("attach"@) {
        Some(Json::Null) => false,
        Some(_) => true,
        None => false,
    }
}

/// A clone: of which golden, from which template, attached or not.
pub open spec fn clone_cv(v: Json) -> CV {
    let id = or_else(fld(v, "id"@), Seq::empty());
    let golden = or_else(fld(v, "golden"@), Seq::empty());
    (
        "reg:clone:"@ + id,
        "clone"@,
        or_else(fld(v, "volume_name"@), id),
        Health::Healthy,
        "of "@ + golden + " · template "@ + or_else(fld(v, "template"@), Seq::empty()) + (if attached(v) {
            " · attached"@
        } else {
            Seq::empty()
        }),
        Seq::empty(),
        Seq::empty(),
        on_registry() + (if golden.len() > 0 { seq![belongs_v("golden"@, "reg:golden:"@ + golden)] } else { Seq::empty() })
            + match fld(v, "volume_id"@) {
            Some(x) => seq![("volume"@, RelationKind::HasOne, seq!["sb:volume:"@ + x], None::<Seq<char>>)],
            None => Seq::empty(),
        },
        None,
    )
}

pub fn clone_(v: &Json) -> (c: ComponentSummary)
    ensures
        comp_view(c) == clone_cv(*v),
        crate::registry::unitless(c.metrics@),
{
    proof {
        reveal_strlit("");
        assert(""@ =~= Seq::<char>::empty());
    }
    let id = fld_or(v, "id", "");
    let golden = fld_or(v, "golden", "");
    let mut rs = registry_edge();
    if crate::text::char_len(golden.as_str()) > 0 {
        belongs(&mut rs, "golden", cat("reg:golden:", golden.as_str()));
    }
    let ghost r2 = rels_view(rs@);
    match fld_exec(v, "volume_id") {
        Some(x) => {
            let r = Relation::has_one("volume", cat("sb:volume:", x.as_str()));
            let ghost b = rels_view(rs@);
            rs.push(r);
            assert(rels_view(rs@) =~= b.push(rel_view(r)));
        },
        None => {},
    }
    assert(rels_view(rs@) =~= clone_cv(*v).7);
    let is_attached = match v.get("attach") {
        Some(Json::Null) => false,
        Some(_) => true,
        None => false,
    };
    let mut detail = cat("of ", golden.as_str());
    push_str(&mut detail, " · template ");
    push_str(&mut detail, fld_or(v, "template", "").as_str());
    if is_attached {
        push_str(&mut detail, " · attached");
    }
    let label = match fld_exec(v, "volume_name") {
        Some(n) => n,
        None => owned(id.as_str()),
    };
    let c = ComponentSummary {
        id: cat("reg:clone:", id.as_str()),
        kind: owned("clone"),
        label,
        health: Health::Healthy,
        detail,
        metrics: Vec::new(),
        actions: Vec::new(),
        relations: rs,
        link: None,
    };
    assert(actions_view(c.actions@) =~= Seq::<ActionV>::empty());
    assert(metrics_view(c.metrics@) =~= Seq::<MetricV>::empty());
    c
}

pub open spec fn is_hex(c: char) -> bool {
    ('0' <= c <= '9') || ('a' <= c <= 'f') || ('A' <= c <= 'F')
}

pub open spec fn all_hex(s: Seq<char>) -> bool {
    forall|i: int| 0 <= i < s.len() ==> is_hex(#[trigger] s[i])
}

/// The twelve hex after `sha256:` that name a golden `img-<twelve>`; none
/// when there are not twelve hex digits there.
pub open spec fn short_digest_spec(d: Seq<char>) -> Option<Seq<char>> {
    let hex = match crate::text::strip_prefix(d, "sha256:"@) {
        Some(h) => h,
        None => d,
    };
    let twelve = chars_upto(hex, 12);
    if twelve.len() == 12 && all_hex(twelve) {
        Some(twelve)
    } else {
        None
    }
}

fn all_hex_exec(v: &Vec<char>) -> (r: bool)
    ensures
        r == all_hex(v@),
{
    let mut i: usize = 0;
    while i < v.len()
        invariant
            i <= v@.len(),
            forall|k: int| 0 <= k < i ==> is_hex(#[trigger] v@[k]),
        decreases v@.len() - i,
    {
        let c = v[i];
        if !(('0' <= c && c <= '9') || ('a' <= c && c <= 'f') || ('A' <= c && c <= 'F')) {
            assert(!is_hex(v@[i as int]));
            return false;
        }
        i += 1;
    }
    true
}

pub fn short_digest(d: &str) -> (r: Option<String>)
    ensures
        opt_chars(r) == short_digest_spec(d@),
{
    let hex = match crate::text::strip_prefix_str(d, "sha256:") {
        Some(h) => h,
        None => d,
    };
    let t = upto_exec(hex, 12);
    let v = crate::text::chars_of(t.as_str());
    if v.len() == 12 && all_hex_exec(&v) {
        Some(t)
    } else {
        None
    }
}

/// How long ago a push was, in minutes, hours or days; nothing for no
/// time or one in the future.
pub open spec fn since_spec(unix: u64, now: u64) -> Seq<char> {
    if unix == 0 || unix > now {
        Seq::empty()
    } else {
        let secs = (now - unix) as nat;
        if secs <= 90 {
            "just now"@
        } else if secs < 3600 {
            decimal(secs / 60) + "m ago"@
        } else if secs < 86_400 {
            decimal(secs / 3600) + "h ago"@
        } else {
            decimal(secs / 86_400) + "d ago"@
        }
    }
}

pub fn since(unix: u64, now: u64) -> (r: String)
    ensures
        r@ == since_spec(unix, now),
{
    if unix == 0 || unix > now {
        proof {
            reveal_strlit("");
        }
        return String::new();
    }
    let secs = now - unix;
    if secs <= 90 {
        owned("just now")
    } else if secs < 3600 {
        let mut t = crate::text::decimal_string(secs / 60);
        push_str(&mut t, "m ago");
        t
    } else if secs < 86_400 {
        let mut t = crate::text::decimal_string(secs / 3600);
        push_str(&mut t, "h ago");
        t
    } else {
        let mut t = crate::text::decimal_string(secs / 86_400);
        push_str(&mut t, "d ago");
        t
    }
}


pub open spec fn cfg_strs(cfg: Option<Json>, key: Seq<char>) -> Seq<Seq<char>> {
    match cfg {
        Some(c) => str_list(c, key),
        None => Seq::empty(),
    }
}

pub open spec fn cfg_field(cfg: Option<Json>, key: Seq<char>) -> Option<Seq<char>> {
    match cfg {
        Some(c) => fld(c, key),
        None => None,
    }
}

/// A pushed image's metrics: the digest's twelve, what runs (entrypoint
/// then command), its user and working directory, and how many env
/// entries it sets.
pub open spec fn pushed_metrics(v: Json) -> Seq<MetricV> {
    let digest = or_else(fld(v, "digest"@), Seq::empty());
    let cfg = v.member("config"@);
    let command = cfg_strs(cfg, "Entrypoint"@) + cfg_strs(cfg, "Cmd"@);
    let env = cfg_strs(cfg, "Env"@);
    opt_toned("digest"@, short_digest_spec(digest), "muted"@) + (if command.len() > 0 {
        seq![toned("command"@, join(command, " "@), "accent"@)]
    } else {
        Seq::empty()
    }) + opt_toned("user"@, cfg_field(cfg, "User"@), "warn"@) + opt_toned("workdir"@, cfg_field(cfg, "WorkingDir"@), "muted"@)
        + (if env.len() > 0 { seq![toned("env"@, decimal(env.len()), "muted"@)] } else { Seq::empty() })
}

pub open spec fn pushed_detail(v: Json, now: u64) -> Seq<char> {
    let digest = or_else(fld(v, "digest"@), Seq::empty());
    let when = since_spec(or_zero(member_u64(v, "pushed_unix"@)), now);
    join(
        (if digest.len() > 0 { seq![chars_upto(digest, 19)] } else { Seq::empty() }) + (if when.len() > 0 {
            seq!["pushed "@ + when]
        } else {
            Seq::empty()
        }) + (if v.member("config"@) is None { seq!["no config recorded"@] } else { Seq::empty() }),
        " · "@,
    )
}

/// One pushed image: what it runs and who as, and the golden built from
/// it (`img-<twelve hex>`, the naming goldens coordinate on).
pub open spec fn pushed_cv(v: Json, now: u64) -> CV {
    let digest = or_else(fld(v, "digest"@), Seq::empty());
    let reference = or_else(fld(v, "image"@), Seq::empty());
    (
        "reg:image:"@ + digest,
        "image"@,
        if reference.len() == 0 { digest } else { reference },
        Health::Healthy,
        pushed_detail(v, now),
        pushed_metrics(v),
        Seq::empty(),
        on_registry() + match short_digest_spec(digest) {
            Some(sd) => seq![("golden"@, RelationKind::HasOne, seq!["reg:golden:img-"@ + sd], None::<Seq<char>>)],
            None => Seq::empty(),
        },
        None,
    )
}

fn cfg_strs_exec(cfg: Option<&Json>, key: &str) -> (r: Vec<String>)
    ensures
        string_views(r@) == cfg_strs(match cfg {
            Some(c) => Some(*c),
            None => None,
        }, key@),
{
    match cfg {
        Some(c) => crate::plugins::catalog::str_list_exec(c, key),
        None => {
            let r: Vec<String> = Vec::new();
            assert(string_views(r@) =~= Seq::<Seq<char>>::empty());
            r
        },
    }
}

fn push_opt(ms: &mut Vec<Metric>, label: &str, o: Option<String>, tone: &str)
    ensures
        metrics_view(final(ms)@) == metrics_view(old(ms)@) + opt_toned(label@, opt_chars(o), tone@),
        crate::registry::unitless(old(ms)@) ==> crate::registry::unitless(final(ms)@),
{
    match o {
        Some(x) => push_metric(ms, label, x, Some(tone)),
        None => {
            assert(metrics_view(ms@) =~= metrics_view(ms@) + Seq::<MetricV>::empty());
        },
    }
}

fn pushed_metrics_exec(v: &Json) -> (r: Vec<Metric>)
    ensures
        metrics_view(r@) == pushed_metrics(*v),
        crate::registry::unitless(r@),
{
    proof {
        reveal_strlit("");
        assert(""@ =~= Seq::<char>::empty());
    }
    let digest = fld_or(v, "digest", "");
    let cfg = v.get("config");
    let mut command = cfg_strs_exec(cfg, "Entrypoint");
    let mut cmd = cfg_strs_exec(cfg, "Cmd");
    let ghost a = string_views(command@);
    let ghost b = string_views(cmd@);
    command.append(&mut cmd);
    assert(string_views(command@) =~= a + b);
    let env = cfg_strs_exec(cfg, "Env");
    let mut ms: Vec<Metric> = Vec::new();
    assert(metrics_view(ms@) =~= Seq::<MetricV>::empty());
    push_opt(&mut ms, "digest", short_digest(digest.as_str()), "muted");
    let ghost m1 = metrics_view(ms@);
    if command.len() > 0 {
        push_metric(&mut ms, "command", join_strings(&command, " "), Some("accent"));
    }
    let ghost m2 = metrics_view(ms@);
    let user = match cfg {
        Some(c) => fld_exec(c, "User"),
        None => None,
    };
    push_opt(&mut ms, "user", user, "warn");
    let wd = match cfg {
        Some(c) => fld_exec(c, "WorkingDir"),
        None => None,
    };
    push_opt(&mut ms, "workdir", wd, "muted");
    let ghost m3 = metrics_view(ms@);
    if env.len() > 0 {
        push_metric(&mut ms, "env", crate::text::decimal_string(env.len() as u64), Some("muted"));
    }
    assert(metrics_view(ms@) =~= pushed_metrics(*v));
    ms
}

fn push_part(parts: &mut Vec<String>, t: String)
    ensures
        string_views(final(parts)@) == string_views(old(parts)@).push(t@),
{
    let ghost b = string_views(parts@);
    parts.push(t);
    assert(string_views(parts@) =~= b.push(t@));
}

fn pushed_detail_exec(v: &Json, now: u64) -> (r: String)
    ensures
        r@ == pushed_detail(*v, now),
{
    proof {
        reveal_strlit("");
        assert(""@ =~= Seq::<char>::empty());
    }
    let digest = fld_or(v, "digest", "");
    let pushed = match u64_field(v, "pushed_unix") {
        Some(x) => x,
        None => 0,
    };
    let mut parts: Vec<String> = Vec::new();
    assert(string_views(parts@) =~= Seq::<Seq<char>>::empty());
    if crate::text::char_len(digest.as_str()) > 0 {
        push_part(&mut parts, upto_exec(digest.as_str(), 19));
    }
    let ghost p1 = string_views(parts@);
    let when = since(pushed, now);
    if crate::text::char_len(when.as_str()) > 0 {
        push_part(&mut parts, cat("pushed ", when.as_str()));
    }
    let ghost p2 = string_views(parts@);
    if v.get("config").is_none() {
        push_part(&mut parts, owned("no config recorded"));
    }
    assert(string_views(parts@) =~= (if digest@.len() > 0 { seq![chars_upto(digest@, 19)] } else { Seq::empty() }) + (
    if when@.len() > 0 {
        seq!["pushed "@ + when@]
    } else {
        Seq::empty()
    }) + (if v.member("config"@) is None { seq!["no config recorded"@] } else { Seq::empty() }));
    join_strings(&parts, " · ")
}

/// One pushed image (`image`), `now` being seconds since the epoch.
pub fn pushed_image(v: &Json, now: u64) -> (c: ComponentSummary)
    ensures
        comp_view(c) == pushed_cv(*v, now),
        crate::registry::unitless(c.metrics@),
{
    proof {
        reveal_strlit("");
        assert(""@ =~= Seq::<char>::empty());
    }
    let digest = fld_or(v, "digest", "");
    let reference = fld_or(v, "image", "");
    let mut rs = registry_edge();
    match short_digest(digest.as_str()) {
        Some(sd) => {
            let r = Relation::has_one("golden", cat("reg:golden:img-", sd.as_str()));
            let ghost b = rels_view(rs@);
            rs.push(r);
            assert(rels_view(rs@) =~= b.push(rel_view(r)));
        },
        None => {},
    }
    assert(rels_view(rs@) =~= pushed_cv(*v, now).7);
    let label = if crate::text::char_len(reference.as_str()) == 0 { owned(digest.as_str()) } else { reference };
    let c = ComponentSummary {
        id: cat("reg:image:", digest.as_str()),
        kind: owned("image"),
        label,
        health: Health::Healthy,
        detail: pushed_detail_exec(v, now),
        metrics: pushed_metrics_exec(v),
        actions: Vec::new(),
        relations: rs,
        link: None,
    };
    assert(actions_view(c.actions@) =~= Seq::<ActionV>::empty());
    c
}

/// `key value` for each of `keys` the object has, in order.
pub open spec fn present_parts(v: Json, keys: Seq<Seq<char>>) -> Seq<Seq<char>>
    decreases keys.len(),
{
    if keys.len() == 0 {
        Seq::empty()
    } else {
        present_parts(v, keys.drop_last()) + match fld(v, keys.last()) {
            Some(x) => seq![keys.last() + " "@ + x],
            None => Seq::empty(),
        }
    }
}

pub open spec fn generic_keys() -> Seq<Seq<char>> {
    seq!["state"@, "status"@, "digest"@, "size_human"@, "created"@, "role"@]
}

/// Anything else the registry lists: identity from whichever usual key is
/// there, and one line from the first three descriptive ones.
pub open spec fn generic_cv(v: Json, kind: Seq<char>) -> CV {
    let id = or_else(field_spec(v, seq!["id"@, "name"@, "digest"@, "ref"@]), Seq::empty());
    (
        "reg:"@ + kind + ":"@ + id,
        kind,
        or_else(field_spec(v, seq!["name"@, "ref"@, "image"@, "id"@, "digest"@]), id),
        Health::Healthy,
        join(crate::plugins::catalog::take_upto(present_parts(v, generic_keys()), 3), " · "@),
        Seq::empty(),
        Seq::empty(),
        on_registry(),
        None,
    )
}

pub fn generic(v: &Json, kind: &str) -> (c: ComponentSummary)
    ensures
        comp_view(c) == generic_cv(*v, kind@),
        crate::registry::unitless(c.metrics@),
{
    proof {
        reveal_strlit("");
        assert(""@ =~= Seq::<char>::empty());
    }
    let ids = ["id", "name", "digest", "ref"];
    assert(ids@.map_values(|k: &str| k@) =~= seq!["id"@, "name"@, "digest"@, "ref"@]);
    let id = match field(v, &ids) {
        Some(x) => x,
        None => String::new(),
    };
    let names = ["name", "ref", "image", "id", "digest"];
    assert(names@.map_values(|k: &str| k@) =~= seq!["name"@, "ref"@, "image"@, "id"@, "digest"@]);
    let label = match field(v, &names) {
        Some(x) => x,
        None => owned(id.as_str()),
    };
    let keys = ["state", "status", "digest", "size_human", "created", "role"];
    let ghost ks = keys@.map_values(|k: &str| k@);
    assert(ks =~= generic_keys());
    let mut parts: Vec<String> = Vec::new();
    let mut i: usize = 0;
    assert(ks.take(0) =~= Seq::<Seq<char>>::empty());
    assert(string_views(parts@) =~= Seq::<Seq<char>>::empty());
    while i < 6
        invariant
            i <= 6,
            keys@.len() == 6,
            ks == keys@.map_values(|k: &str| k@),
            string_views(parts@) == present_parts(*v, ks.take(i as int)),
        decreases 6 - i,
    {
        assert(ks.take(i + 1).drop_last() =~= ks.take(i as int));
        assert(ks.take(i + 1).last() == keys@[i as int]@);
        match fld_exec(v, keys[i]) {
            Some(x) => {
                let mut t = cat(keys[i], " ");
                push_str(&mut t, x.as_str());
                push_part(&mut parts, t);
            },
            None => {
                assert(string_views(parts@) =~= string_views(parts@) + Seq::<Seq<char>>::empty());
            },
        }
        i += 1;
    }
    assert(ks.take(6) =~= ks);
    let ghost all = string_views(parts@);
    parts.truncate(3);
    assert(string_views(parts@) =~= crate::plugins::catalog::take_upto(all, 3));
    let c = ComponentSummary {
        id: {
            let mut t = cat("reg:", kind);
            push_str(&mut t, ":");
            push_str(&mut t, id.as_str());
            t
        },
        kind: owned(kind),
        label,
        health: Health::Healthy,
        detail: join_strings(&parts, " · "),
        metrics: Vec::new(),
        actions: Vec::new(),
        relations: registry_edge(),
        link: None,
    };
    assert(actions_view(c.actions@) =~= Seq::<ActionV>::empty());
    assert(metrics_view(c.metrics@) =~= Seq::<MetricV>::empty());
    c
}


/// A listing's items: the array itself, or its `items` member when that
/// is an array, else none.
pub open spec fn items_spec(v: Json) -> Seq<Json> {
    match v {
        Json::Arr(a) => a@,
        _ => match v.member("items"@) {
            Some(Json::Arr(a)) => a@,
            _ => Seq::empty(),
        },
    }
}

/// The `items` member when it is an array, else none.
pub open spec fn member_items(v: Json) -> Seq<Json> {
    match v.member("items"@) {
        Some(Json::Arr(a)) => a@,
        _ => Seq::empty(),
    }
}

/// A listing's `items` array, taken out of the reply.
pub fn member_items_of(v: Json) -> (r: Vec<Json>)
    ensures
        r@ == member_items(v),
{
    let ghost orig = v;
    match v {
        Json::Obj(m) => {
            let ghost ms = m@;
            let mut m = m;
            let mut i: usize = 0;
            while i < m.len()
                invariant
                    i <= m@.len(),
                    m@ == ms,
                    orig == Json::Obj(m),
                    orig == v,
                    forall|j: int| 0 <= j < i ==> !#[trigger] crate::json::member_key(ms, "items"@)(j),
                decreases m@.len() - i,
            {
                if str_eq(m[i].0.as_str(), "items") {
                    proof {
                        crate::text::lemma_first_at_some(ms.len() as int, crate::json::member_key(ms, "items"@), i as int);
                    }
                    assert(orig.member("items"@) == Some(ms[i as int].1));
                    let (_, item) = m.remove(i);
                    assert(item == ms[i as int].1);
                    let r = match item {
                        Json::Arr(a) => a,
                        _ => Vec::new(),
                    };
                    assert(r@ == member_items(orig));
                    return r;
                }
                i += 1;
            }
            proof {
                crate::text::lemma_first_at_none(ms.len() as int, crate::json::member_key(ms, "items"@));
            }
            Vec::new()
        },
        _ => Vec::new(),
    }
}

/// A listing's items (`items`).
pub fn items_of(v: Json) -> (r: Vec<Json>)
    ensures
        r@ == items_spec(v),
{
    match v {
        Json::Arr(a) => a,
        other => member_items_of(other),
    }
}

pub open spec fn golden_fn() -> spec_fn(Json) -> CV {
    |v: Json| golden_cv(v)
}

pub open spec fn clone_fn() -> spec_fn(Json) -> CV {
    |v: Json| clone_cv(v)
}

pub open spec fn pallet_fn() -> spec_fn(Json) -> CV {
    |v: Json| generic_cv(v, "pallet"@)
}

pub open spec fn pushed_fn(now: u64) -> spec_fn(Json) -> CV {
    |v: Json| pushed_cv(v, now)
}

/// The registry as components: its card grouping everything, then the
/// goldens, clones, pallets and pushed images; with its health and line.
pub open spec fn registry_spec(ready: Json, gs: Seq<Json>, cs: Seq<Json>, ps: Seq<Json>, is: Seq<Json>, now: u64) -> (Health, Seq<char>, Seq<CV>) {
    let (health, detail) = readiness_spec(ready);
    let g = crate::plugins::block::views_by(gs, golden_fn());
    let c = crate::plugins::block::views_by(cs, clone_fn());
    let p = crate::plugins::block::views_by(ps, pallet_fn());
    let i = crate::plugins::block::views_by(is, pushed_fn(now));
    let metrics = seq![
        toned("goldens"@, decimal(g.len()), "accent"@),
        plain("clones"@, decimal(c.len())),
        plain("pallets"@, decimal(p.len())),
        plain("images"@, decimal(i.len())),
    ];
    let groups = seq![
        ("goldens"@, crate::plugins::block::first_ids(g)),
        ("clones"@, crate::plugins::block::first_ids(c)),
        ("pallets"@, crate::plugins::block::first_ids(p)),
        ("images"@, crate::plugins::block::first_ids(i)),
    ];
    (health, detail, seq![registry_cv(health, detail, metrics, groups)] + g + c + p + i)
}

#[derive(Clone, Copy)]
enum Listed {
    Golden,
    Clone,
    Pallet,
    Pushed,
}

spec fn listed_fn(k: Listed, now: u64) -> spec_fn(Json) -> CV {
    match k {
        Listed::Golden => golden_fn(),
        Listed::Clone => clone_fn(),
        Listed::Pallet => pallet_fn(),
        Listed::Pushed => pushed_fn(now),
    }
}

fn map_listed(vs: &Vec<Json>, k: Listed, now: u64) -> (r: (Vec<ComponentSummary>, Vec<String>))
    ensures
        crate::k8s::components::cv_of(r.0@) == crate::plugins::block::views_by(vs@, listed_fn(k, now)),
        crate::view::id_views(r.1@) == crate::plugins::block::first_ids(crate::plugins::block::views_by(vs@, listed_fn(k, now))),
{
    let mut cs: Vec<ComponentSummary> = Vec::new();
    let mut ids: Vec<String> = Vec::new();
    let mut i: usize = 0;
    while i < vs.len()
        invariant
            i <= vs@.len(),
            crate::k8s::components::cv_of(cs@) == crate::plugins::block::views_by(vs@.take(i as int), listed_fn(k, now)),
            crate::view::id_views(ids@) == crate::plugins::block::first_ids(
                crate::plugins::block::views_by(vs@.take(i as int), listed_fn(k, now)),
            ),
        decreases vs@.len() - i,
    {
        let c = match k {
            Listed::Golden => golden(&vs[i]),
            Listed::Clone => clone_(&vs[i]),
            Listed::Pallet => generic(&vs[i], "pallet"),
            Listed::Pushed => pushed_image(&vs[i], now),
        };
        let id = owned(c.id.as_str());
        let ghost b = crate::k8s::components::cv_of(cs@);
        let ghost bi = crate::view::id_views(ids@);
        cs.push(c);
        ids.push(id);
        assert(crate::k8s::components::cv_of(cs@) =~= b.push(comp_view(c)));
        assert(crate::view::id_views(ids@) =~= bi.push(id@));
        assert(vs@.take(i + 1) =~= vs@.take(i as int).push(vs@[i as int]));
        assert(crate::plugins::block::views_by(vs@.take(i + 1), listed_fn(k, now)) =~= crate::plugins::block::views_by(
            vs@.take(i as int),
            listed_fn(k, now),
        ).push((listed_fn(k, now))(vs@[i as int])));
        assert(crate::plugins::block::first_ids(crate::plugins::block::views_by(vs@.take(i + 1), listed_fn(k, now)))
            =~= crate::plugins::block::first_ids(crate::plugins::block::views_by(vs@.take(i as int), listed_fn(k, now))).push(
            comp_view(c).0,
        ));
        i += 1;
    }
    assert(vs@.take(vs@.len() as int) =~= vs@);
    (cs, ids)
}

/// The registry's components (the part of `poll` after the fetches).
pub fn inventory(ready: &Json, gs: &Vec<Json>, cs: &Vec<Json>, ps: &Vec<Json>, is: &Vec<Json>, now: u64) -> (r: (
    Health,
    String,
    Vec<ComponentSummary>,
))
    ensures
        r.0 == registry_spec(*ready, gs@, cs@, ps@, is@, now).0,
        r.1@ == registry_spec(*ready, gs@, cs@, ps@, is@, now).1,
        crate::k8s::components::cv_of(r.2@) == registry_spec(*ready, gs@, cs@, ps@, is@, now).2,
{
    let (health, detail) = readiness(ready);
    let (g, g_ids) = map_listed(gs, Listed::Golden, now);
    let (c, c_ids) = map_listed(cs, Listed::Clone, now);
    let (p, p_ids) = map_listed(ps, Listed::Pallet, now);
    let (i, i_ids) = map_listed(is, Listed::Pushed, now);
    let mut ms: Vec<Metric> = Vec::new();
    assert(metrics_view(ms@) =~= Seq::<MetricV>::empty());
    push_metric(&mut ms, "goldens", crate::text::decimal_string(g.len() as u64), Some("accent"));
    push_metric(&mut ms, "clones", crate::text::decimal_string(c.len() as u64), None);
    push_metric(&mut ms, "pallets", crate::text::decimal_string(p.len() as u64), None);
    push_metric(&mut ms, "images", crate::text::decimal_string(i.len() as u64), None);
    let groups = vec![("goldens", g_ids), ("clones", c_ids), ("pallets", p_ids), ("images", i_ids)];
    let ghost want = registry_spec(*ready, gs@, cs@, ps@, is@, now);
    assert(crate::plugins::block::views_by(gs@, listed_fn(Listed::Golden, now)) == crate::plugins::block::views_by(gs@, golden_fn()));
    assert(crate::plugins::block::views_by(cs@, listed_fn(Listed::Clone, now)) == crate::plugins::block::views_by(cs@, clone_fn()));
    assert(crate::plugins::block::views_by(ps@, listed_fn(Listed::Pallet, now)) == crate::plugins::block::views_by(ps@, pallet_fn()));
    assert(crate::plugins::block::views_by(is@, listed_fn(Listed::Pushed, now)) == crate::plugins::block::views_by(is@, pushed_fn(now)));
    assert(group_views(groups@) =~= seq![
        ("goldens"@, crate::plugins::block::first_ids(crate::plugins::block::views_by(gs@, golden_fn()))),
        ("clones"@, crate::plugins::block::first_ids(crate::plugins::block::views_by(cs@, clone_fn()))),
        ("pallets"@, crate::plugins::block::first_ids(crate::plugins::block::views_by(ps@, pallet_fn()))),
        ("images"@, crate::plugins::block::first_ids(crate::plugins::block::views_by(is@, pushed_fn(now)))),
    ]);
    let card = registry(health, detail.as_str(), ms, groups);
    assert(comp_view(card) == want.2[0]);
    let mut out: Vec<ComponentSummary> = Vec::new();
    out.push(card);
    let ghost o0 = crate::k8s::components::cv_of(out@);
    let mut g = g;
    let mut c = c;
    let mut p = p;
    let mut i = i;
    let ghost a = crate::k8s::components::cv_of(g@);
    let ghost b = crate::k8s::components::cv_of(c@);
    let ghost cc = crate::k8s::components::cv_of(p@);
    let ghost d = crate::k8s::components::cv_of(i@);
    out.append(&mut g);
    out.append(&mut c);
    out.append(&mut p);
    out.append(&mut i);
    assert(crate::k8s::components::cv_of(out@) =~= o0 + a + b + cc + d);
    assert(o0 =~= seq![comp_view(card)]);
    (health, detail, out)
}

/// What the registry card says when sbregistry cannot be reached.
pub fn unreachable(e: &str) -> (r: (Health, String, Vec<ComponentSummary>))
    ensures
        r.0 == Health::Error,
        r.1@ == "unreachable: "@ + e@,
        crate::k8s::components::cv_of(r.2@) == seq![registry_cv(Health::Error, "unreachable: "@ + e@, Seq::empty(), Seq::empty())],
{
    let detail = cat("unreachable: ", e);
    let ms: Vec<Metric> = Vec::new();
    assert(metrics_view(ms@) =~= Seq::<MetricV>::empty());
    let gs: Vec<(&str, Vec<String>)> = Vec::new();
    assert(group_views(gs@) =~= Seq::<(Seq<char>, Seq<Seq<char>>)>::empty());
    let c = registry(Health::Error, detail.as_str(), ms, gs);
    let mut out: Vec<ComponentSummary> = Vec::new();
    out.push(c);
    assert(crate::k8s::components::cv_of(out@) =~= seq![comp_view(c)]);
    (Health::Error, detail, out)
}

/// The Images section: goldens, clones, pallets and pushed images.
pub fn nav() -> (r: Vec<crate::nav::NavSection>)
    ensures
        crate::nav::sections_view(r@) == seq![("Images"@, 50i32, crate::nav::NavKind::Work, seq![("Goldens"@, "#/grid?id=reg:registry&rel=goldens"@, 0i32), ("Clones"@, "#/grid?id=reg:registry&rel=clones"@, 1i32), ("Pallets"@, "#/grid?id=reg:registry&rel=pallets"@, 2i32), ("Images"@, "#/grid?id=reg:registry&rel=images"@, 3i32)])],
{
    let s0_0 = crate::nav::NavSection::new("Images", 50);
    let s0_1 = s0_0.item("Goldens", "#/grid?id=reg:registry&rel=goldens");
    let s0_2 = s0_1.item("Clones", "#/grid?id=reg:registry&rel=clones");
    let s0_3 = s0_2.item("Pallets", "#/grid?id=reg:registry&rel=pallets");
    let s0_4 = s0_3.item("Images", "#/grid?id=reg:registry&rel=images");
    assert(crate::nav::items_view(s0_4) =~= seq![("Goldens"@, "#/grid?id=reg:registry&rel=goldens"@, 0i32), ("Clones"@, "#/grid?id=reg:registry&rel=clones"@, 1i32), ("Pallets"@, "#/grid?id=reg:registry&rel=pallets"@, 2i32), ("Images"@, "#/grid?id=reg:registry&rel=images"@, 3i32)]);
    let r = vec![s0_4];
    assert(crate::nav::sections_view(r@) =~= seq![crate::nav::section_view(s0_4)]);
    r
}

} // verus!
