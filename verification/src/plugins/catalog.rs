//! The registry's catalog: goldens, blanks and media as images, each with
//! its base as an upward edge and its clones counted, and the media jobs
//! merged in so an image still arriving says where from and how far.

use vstd::prelude::*;
use crate::json::{Json, arr_1, at1, bool_1};
use crate::k8s::cilium::str_items;
use crate::k8s::components::{CV, MetricV, RelV, cat, or_else, plain, push_metric, toned};
use crate::plugins::block::{belongs, fld, fld_exec, fld_or, member_u64, or_zero};
use crate::registry::{actions_view, comp_view, metrics_view, opt_chars, rel_view, rels_view};
use crate::text::{
    chars_of, decimal, find_str, find_str_in, join, join_strings, owned, push_decimal, push_str, split_once,
    split_once_str, str_eq, string_views,
};
use crate::value::{human_bytes, human_bytes_spec, u64_field};
use crate::view::{ComponentSummary, Health, Metric, Relation, RelationKind};

verus! {

/// The catalog's kinds, in the order the page groups them (`KINDS`).
pub open spec fn kinds_spec() -> Seq<Seq<char>> {
    seq!["component"@, "blank"@, "media"@, "golden"@, "base"@, "slab_golden"@, "release_part"@, "sealed"@]
}

pub fn kinds() -> (r: Vec<&'static str>)
    ensures
        r@.map_values(|k: &str| k@) == kinds_spec(),
{
    let r = vec!["component", "blank", "media", "golden", "base", "slab_golden", "release_part", "sealed"];
    assert(r@.map_values(|k: &str| k@) =~= kinds_spec());
    r
}

/// Where an image lives when it is not here.
pub open spec fn remote(v: Json) -> Option<Seq<char>> {
    match fld(v, "location"@) {
        Some(l) => if l != "local"@ { Some(l) } else { None },
        None => None,
    }
}

fn remote_exec(v: &Json) -> (r: Option<String>)
    ensures
        opt_chars(r) == remote(*v),
{
    match fld_exec(v, "location") {
        Some(l) => if !str_eq(l.as_str(), "local") { Some(l) } else { None },
        None => None,
    }
}

pub open spec fn cat_id(loc: Option<Seq<char>>, name: Seq<char>) -> Seq<char> {
    match loc {
        Some(l) => "reg:cat:"@ + l + "/"@ + name,
        None => "reg:cat:"@ + name,
    }
}

fn cat_id_exec(loc: &Option<String>, name: &str) -> (r: String)
    ensures
        r@ == cat_id(opt_chars(*loc), name@),
{
    match loc {
        Some(l) => {
            let mut t = cat("reg:cat:", l.as_str());
            push_str(&mut t, "/");
            push_str(&mut t, name);
            t
        },
        None => cat("reg:cat:", name),
    }
}

/// A catalog image's id: `reg:cat:<name>`, or `reg:cat:<location>/<name>`
/// for a peer's.
pub open spec fn id_spec(v: Json) -> Seq<char> {
    cat_id(remote(v), or_else(fld(v, "name"@), Seq::empty()))
}

pub fn id(v: &Json) -> (r: String)
    ensures
        r@ == id_spec(*v),
{
    proof {
        reveal_strlit("");
        assert(""@ =~= Seq::<char>::empty());
    }
    let name = fld_or(v, "name", "");
    cat_id_exec(&remote_exec(v), name.as_str())
}

/// The host part of a source URL: between `://` and the next `/`; the
/// whole source when it has no scheme.
pub open spec fn source_host(s: Seq<char>) -> Seq<char> {
    match find_str(s, "://"@) {
        Some(i) => {
            let r = s.skip(i + 3);
            let piece = match find_str(r, "://"@) {
                Some(j) => r.take(j),
                None => r,
            };
            match split_once(piece, '/') {
                Some((a, _)) => a,
                None => piece,
            }
        },
        None => s,
    }
}

fn source_host_exec(s: &str) -> (r: String)
    ensures
        r@ == source_host(s@),
{
    let v = chars_of(s);
    let p = chars_of("://");
    proof {
        reveal_strlit("://");
    }
    match find_str_in(v.as_slice(), p.as_slice()) {
        None => owned(s),
        Some(i) => {
            let n = v.len();
            assert(p@.len() == 3);
            assert(i + 3 <= n);
            let r = s.substring_char(i + 3, n);
            assert(r@ =~= s@.skip(i + 3));
            let rv = chars_of(r);
            let piece = match find_str_in(rv.as_slice(), p.as_slice()) {
                Some(j) => {
                    let x = r.substring_char(0, j);
                    assert(x@ =~= r@.take(j as int));
                    x
                },
                None => r,
            };
            match split_once_str(piece, '/') {
                Some((a, _)) => owned(a),
                None => owned(piece),
            }
        },
    }
}

/// A media job, with its `percent` as the view renders it: the float
/// rounded to a whole number (`{:.0}`).
#[derive(Debug)]
pub struct Job {
    pub record: Json,
    pub percent: Option<String>,
}

/// Whether a job is still the thing to say: fetching, importing, or
/// failed.
pub open spec fn active_spec(job: Json) -> bool {
    match fld(job, "phase"@) {
        Some(p) => p == "fetching"@ || p == "importing"@ || p == "failed"@,
        None => false,
    }
}

fn active(job: &Json) -> (r: bool)
    ensures
        r == active_spec(*job),
{
    match fld_exec(job, "phase") {
        Some(p) => str_eq(p.as_str(), "fetching") || str_eq(p.as_str(), "importing") || str_eq(p.as_str(), "failed"),
        None => false,
    }
}

/// A job's progress in words.
pub open spec fn progress_spec(job: Json, percent: Option<Seq<char>>) -> (Health, Seq<char>) {
    let phase = or_else(fld(job, "phase"@), Seq::empty());
    let host = source_host(or_else(fld(job, "source"@), Seq::empty()));
    if phase == "fetching"@ {
        (Health::Warn, match percent {
            Some(p) => "downloading from "@ + host + ", "@ + p + "%"@,
            None => "downloading from "@ + host + ", "@ + human_bytes_spec(or_zero(member_u64(job, "bytes"@)))
                + " so far"@,
        })
    } else if phase == "importing"@ {
        (Health::Warn, "importing into the engine (from "@ + host + ")"@)
    } else if phase == "failed"@ {
        (
            Health::Error,
            "failed ("@ + or_else(fld(job, "fault"@), "unknown"@) + "): "@ + or_else(fld(job, "error"@), Seq::empty()),
        )
    } else {
        (Health::Healthy, "fetched from "@ + host)
    }
}

pub fn progress(job: &Job) -> (r: (Health, String))
    ensures
        r.0 == progress_spec(job.record, opt_chars(job.percent)).0,
        r.1@ == progress_spec(job.record, opt_chars(job.percent)).1,
{
    proof {
        reveal_strlit("");
        assert(""@ =~= Seq::<char>::empty());
    }
    let j = &job.record;
    let phase = fld_or(j, "phase", "");
    let host = source_host_exec(fld_or(j, "source", "").as_str());
    if str_eq(phase.as_str(), "fetching") {
        let mut t = cat("downloading from ", host.as_str());
        push_str(&mut t, ", ");
        match &job.percent {
            Some(p) => {
                push_str(&mut t, p.as_str());
                push_str(&mut t, "%");
            },
            None => {
                let b = match u64_field(j, "bytes") {
                    Some(x) => x,
                    None => 0,
                };
                push_str(&mut t, human_bytes(b).as_str());
                push_str(&mut t, " so far");
            },
        }
        (Health::Warn, t)
    } else if str_eq(phase.as_str(), "importing") {
        let mut t = cat("importing into the engine (from ", host.as_str());
        push_str(&mut t, ")");
        (Health::Warn, t)
    } else if str_eq(phase.as_str(), "failed") {
        let mut t = cat("failed (", fld_or(j, "fault", "unknown").as_str());
        push_str(&mut t, "): ");
        push_str(&mut t, fld_or(j, "error", "").as_str());
        (Health::Error, t)
    } else {
        (Health::Healthy, cat("fetched from ", host.as_str()))
    }
}


/// The strings of an array member.
pub open spec fn str_list(v: Json, key: Seq<char>) -> Seq<Seq<char>> {
    match v.path_arr(seq![key]) {
        Some(a) => str_items(a),
        None => Seq::empty(),
    }
}

pub(crate) fn str_list_exec(v: &Json, key: &str) -> (r: Vec<String>)
    ensures
        string_views(r@) == str_list(*v, key@),
{
    let mut out: Vec<String> = Vec::new();
    match arr_1(v, key) {
        None => {
            assert(string_views(out@) =~= Seq::<Seq<char>>::empty());
        },
        Some(a) => {
            let mut i: usize = 0;
            assert(a@.take(0) =~= Seq::<Json>::empty());
            assert(string_views(out@) =~= Seq::<Seq<char>>::empty());
            while i < a.len()
                invariant
                    i <= a@.len(),
                    string_views(out@) == str_items(a@.take(i as int)),
                decreases a@.len() - i,
            {
                assert(a@.take(i + 1).drop_last() =~= a@.take(i as int));
                assert(a@.take(i + 1).last() == a@[i as int]);
                match a[i].as_str() {
                    Some(t) => {
                        let ghost b = string_views(out@);
                        out.push(owned(t));
                        assert(string_views(out@) =~= b.push(t@));
                    },
                    None => {
                        assert(string_views(out@) =~= string_views(out@) + Seq::<Seq<char>>::empty());
                    },
                }
                i += 1;
            }
            assert(a@.take(a@.len() as int) =~= a@);
        },
    }
    out
}

pub open spec fn job_at(jobs: Seq<Job>, name: Seq<char>) -> spec_fn(int) -> bool {
    |i: int| fld(jobs[i].record, "golden"@) == Some(name) && active_spec(jobs[i].record)
}

/// The first job naming this image that is still the thing to say.
pub open spec fn job_for(jobs: Seq<Job>, name: Seq<char>) -> Option<Job> {
    match crate::text::first_at(jobs.len() as int, job_at(jobs, name)) {
        Some(i) => Some(jobs[i]),
        None => None,
    }
}

fn job_for_exec<'a>(jobs: &'a [Job], name: &str) -> (r: Option<&'a Job>)
    ensures
        match r {
            Some(j) => job_for(jobs@, name@) == Some(*j),
            None => job_for(jobs@, name@) is None,
        },
{
    let mut i: usize = 0;
    while i < jobs.len()
        invariant
            i <= jobs@.len(),
            forall|k: int| 0 <= k < i ==> !#[trigger] job_at(jobs@, name@)(k),
        decreases jobs@.len() - i,
    {
        let g = fld_exec(&jobs[i].record, "golden");
        let named = match &g {
            Some(x) => str_eq(x.as_str(), name),
            None => false,
        };
        if named && active(&jobs[i].record) {
            proof {
                crate::text::lemma_first_at_some(jobs@.len() as int, job_at(jobs@, name@), i as int);
            }
            return Some(&jobs[i]);
        }
        i += 1;
    }
    proof {
        crate::text::lemma_first_at_none(jobs@.len() as int, job_at(jobs@, name@));
    }
    None
}

pub open spec fn take_upto(s: Seq<Seq<char>>, n: nat) -> Seq<Seq<char>> {
    if s.len() > n { s.take(n as int) } else { s }
}

pub open spec fn chars_upto(s: Seq<char>, n: nat) -> Seq<char> {
    if s.len() > n { s.take(n as int) } else { s }
}

/// The part of a digest after its algorithm, to twelve characters.
pub open spec fn digest_short(d: Seq<char>) -> Seq<char> {
    chars_upto(
        match split_once(d, ':') {
            Some((_, rest)) => match split_once(rest, ':') {
                Some((a, _)) => a,
                None => rest,
            },
            None => d,
        },
        12,
    )
}

pub open spec fn releases_text(rs: Seq<Seq<char>>) -> Seq<char> {
    if rs.len() > 1 { rs.last() + " (+"@ + decimal((rs.len() - 1) as nat) + " older)"@ } else { rs.last() }
}

pub open spec fn clones_text(names: Seq<Seq<char>>) -> Seq<char> {
    let shown = take_upto(names, 4);
    let more = names.len() - shown.len();
    if more > 0 { join(shown, ", "@) + " (+"@ + decimal(more as nat) + ")"@ } else { join(shown, ", "@) }
}

/// What the row says first, and its health: a job's progress, else a
/// template still being written, else nothing.
pub open spec fn image_state(v: Json, jobs: Seq<Job>) -> (Health, Seq<char>) {
    let name = or_else(fld(v, "name"@), Seq::empty());
    match job_for(jobs, name) {
        Some(j) => progress_spec(j.record, opt_chars(j.percent)),
        None => if v.path_bool(seq!["sealed"@]) != Some(false) {
            (Health::Healthy, Seq::empty())
        } else {
            (Health::Warn, "being written"@ + match fld(v, "state"@) {
                Some(s) => " ("@ + s + ")"@,
                None => Seq::empty(),
            })
        },
    }
}

pub open spec fn image_detail(v: Json, first: Seq<char>) -> Seq<char> {
    let what = match fld(v, "component"@) {
        Some(c) => c,
        None => or_else(fld(v, "source"@), Seq::empty()),
    };
    join(
        (if first.len() > 0 { seq![first] } else { Seq::empty() }) + seq![or_else(fld(v, "kind"@), "sealed"@)] + (if what.len()
            > 0 {
            seq![what]
        } else {
            Seq::empty()
        }) + match member_u64(v, "virtual_size_bytes"@) {
            Some(b) => seq![human_bytes_spec(b)],
            None => Seq::empty(),
        },
        " · "@,
    )
}

pub open spec fn opt_toned(label: Seq<char>, o: Option<Seq<char>>, tone: Seq<char>) -> Seq<MetricV> {
    match o {
        Some(x) => seq![toned(label, x, tone)],
        None => Seq::empty(),
    }
}

/// An image's metrics: kind and clones, then what the record holds.
pub open spec fn image_metrics(v: Json) -> Seq<MetricV> {
    let clones = or_zero(member_u64(v, "clones"@));
    let rs = str_list(v, "releases"@);
    let names = str_list(v, "clone_names"@);
    seq![
        toned("kind"@, or_else(fld(v, "kind"@), "sealed"@), "accent"@),
        toned("clones"@, decimal(clones as nat), if clones > 0 { "ok"@ } else { "muted"@ }),
    ] + opt_toned("base"@, fld(v, "parent"@), "muted"@) + (if rs.len() > 0 {
        seq![plain("releases"@, releases_text(rs))]
    } else {
        Seq::empty()
    }) + opt_toned(
        "allocated"@,
        match member_u64(v, "allocated_bytes"@) {
            Some(b) => Some(human_bytes_spec(b)),
            None => None,
        },
        "muted"@,
    ) + opt_toned(
        "digest"@,
        match fld(v, "digest"@) {
            Some(d) => Some(digest_short(d)),
            None => None,
        },
        "muted"@,
    ) + opt_toned("location"@, remote(v), "warn"@) + (if names.len() > 0 {
        seq![toned("cloned as"@, clones_text(names), "muted"@)]
    } else {
        Seq::empty()
    })
}

pub open spec fn belongs_v(name: Seq<char>, target: Seq<char>) -> RelV {
    (name, RelationKind::BelongsTo, seq![target], None)
}

/// Up to the registry, up to its base, and down to the engine volume it
/// is.
pub open spec fn image_rels(v: Json) -> Seq<RelV> {
    seq![belongs_v("registry"@, "reg:registry"@)] + match fld(v, "parent"@) {
        Some(p) => seq![belongs_v("base"@, cat_id(remote(v), p))],
        None => Seq::empty(),
    } + match fld(v, "volume_id"@) {
        Some(x) => seq![belongs_v("volume"@, "sb:volume:"@ + x)],
        None => Seq::empty(),
    }
}

/// One catalog image as a component.
pub open spec fn image_cv(v: Json, jobs: Seq<Job>) -> CV {
    let (health, first) = image_state(v, jobs);
    (
        id_spec(v),
        "catalog-image"@,
        or_else(fld(v, "name"@), Seq::empty()),
        health,
        image_detail(v, first),
        image_metrics(v),
        Seq::empty(),
        image_rels(v),
        None,
    )
}


fn image_state_exec(v: &Json, jobs: &[Job]) -> (r: (Health, String))
    ensures
        r.0 == image_state(*v, jobs@).0,
        r.1@ == image_state(*v, jobs@).1,
{
    proof {
        reveal_strlit("");
        assert(""@ =~= Seq::<char>::empty());
    }
    let name = fld_or(v, "name", "");
    match job_for_exec(jobs, name.as_str()) {
        Some(j) => progress(j),
        None => {
            let sealed = match bool_1(v, "sealed") {
                Some(b) => b,
                None => true,
            };
            if sealed {
                (Health::Healthy, String::new())
            } else {
                let mut t = owned("being written");
                match fld_exec(v, "state") {
                    Some(st) => {
                        push_str(&mut t, " (");
                        push_str(&mut t, st.as_str());
                        push_str(&mut t, ")");
                    },
                    None => {},
                }
                (Health::Warn, t)
            }
        },
    }
}

fn push_text(parts: &mut Vec<String>, t: String)
    ensures
        string_views(final(parts)@) == string_views(old(parts)@).push(t@),
{
    let ghost b = string_views(parts@);
    parts.push(t);
    assert(string_views(parts@) =~= b.push(t@));
}

fn image_detail_exec(v: &Json, first: String) -> (r: String)
    ensures
        r@ == image_detail(*v, first@),
{
    proof {
        reveal_strlit("");
        assert(""@ =~= Seq::<char>::empty());
    }
    let mut parts: Vec<String> = Vec::new();
    assert(string_views(parts@) =~= Seq::<Seq<char>>::empty());
    if crate::text::char_len(first.as_str()) > 0 {
        push_text(&mut parts, first);
    }
    let ghost p1 = string_views(parts@);
    push_text(&mut parts, fld_or(v, "kind", "sealed"));
    let ghost p2 = string_views(parts@);
    let what = match fld_exec(v, "component") {
        Some(c) => c,
        None => fld_or(v, "source", ""),
    };
    if crate::text::char_len(what.as_str()) > 0 {
        push_text(&mut parts, what);
    }
    let ghost p3 = string_views(parts@);
    match u64_field(v, "virtual_size_bytes") {
        Some(b) => push_text(&mut parts, human_bytes(b)),
        None => {},
    }
    assert(string_views(parts@) =~= (if first@.len() > 0 { seq![first@] } else { Seq::empty() }) + seq![
        or_else(fld(*v, "kind"@), "sealed"@),
    ] + (if what@.len() > 0 { seq![what@] } else { Seq::empty() }) + match member_u64(*v, "virtual_size_bytes"@) {
        Some(b) => seq![human_bytes_spec(b)],
        None => Seq::empty(),
    });
    join_strings(&parts, " · ")
}

fn digest_short_exec(d: &str) -> (r: String)
    ensures
        r@ == digest_short(d@),
{
    let x = match split_once_str(d, ':') {
        Some((_, rest)) => match split_once_str(rest, ':') {
            Some((a, _)) => a,
            None => rest,
        },
        None => d,
    };
    let n = crate::text::char_len(x);
    if n > 12 {
        let y = x.substring_char(0, 12);
        assert(y@ =~= x@.take(12));
        owned(y)
    } else {
        owned(x)
    }
}

fn releases_exec(rs: &Vec<String>) -> (r: String)
    requires
        rs@.len() > 0,
    ensures
        r@ == releases_text(string_views(rs@)),
{
    let n = rs.len();
    let mut t = owned(rs[n - 1].as_str());
    assert(string_views(rs@).last() == rs@[n - 1]@);
    if n > 1 {
        push_str(&mut t, " (+");
        push_decimal(&mut t, (n - 1) as u64);
        push_str(&mut t, " older)");
    }
    t
}

fn clones_exec(names: &Vec<String>) -> (r: String)
    ensures
        r@ == clones_text(string_views(names@)),
{
    let n = names.len();
    let mut shown: Vec<String> = Vec::new();
    let mut i: usize = 0;
    while i < n && i < 4
        invariant
            n == names@.len(),
            i <= n,
            i <= 4,
            string_views(shown@) == string_views(names@).take(i as int),
        decreases n - i,
    {
        let t = owned(names[i].as_str());
        let ghost b = string_views(shown@);
        shown.push(t);
        assert(string_views(shown@) =~= b.push(t@));
        assert(string_views(names@).take(i + 1) =~= string_views(names@).take(i as int).push(names@[i as int]@));
        i += 1;
    }
    assert(string_views(shown@) =~= take_upto(string_views(names@), 4));
    let more = n - i;
    let mut t = join_strings(&shown, ", ");
    if more > 0 {
        push_str(&mut t, " (+");
        push_decimal(&mut t, more as u64);
        push_str(&mut t, ")");
    }
    t
}

fn push_opt_toned(ms: &mut Vec<Metric>, label: &str, o: Option<String>, tone: &str)
    ensures
        metrics_view(final(ms)@) == metrics_view(old(ms)@) + opt_toned(label@, opt_chars(o), tone@),
        crate::registry::unitless(old(ms)@) ==> crate::registry::unitless(final(ms)@),
{
    match o {
        Some(x) => push_metric(ms, label, x, Some(tone)),
        None => {
            assert(metrics_view(ms@) =~= metrics_view(ms@) + Seq::<MetricV>::empty());
        },
    }
}

fn image_metrics_exec(v: &Json) -> (r: Vec<Metric>)
    ensures
        metrics_view(r@) == image_metrics(*v),
        crate::registry::unitless(r@),
{
    let mut ms: Vec<Metric> = Vec::new();
    assert(metrics_view(ms@) =~= Seq::<MetricV>::empty());
    let clones = match u64_field(v, "clones") {
        Some(c) => c,
        None => 0,
    };
    push_metric(&mut ms, "kind", fld_or(v, "kind", "sealed"), Some("accent"));
    push_metric(&mut ms, "clones", crate::text::decimal_string(clones), Some(if clones > 0 { "ok" } else { "muted" }));
    let ghost m0 = metrics_view(ms@);
    push_opt_toned(&mut ms, "base", fld_exec(v, "parent"), "muted");
    let ghost m1 = metrics_view(ms@);
    let rs = str_list_exec(v, "releases");
    if rs.len() > 0 {
        push_metric(&mut ms, "releases", releases_exec(&rs), None);
    }
    let ghost m2 = metrics_view(ms@);
    let alloc = match u64_field(v, "allocated_bytes") {
        Some(b) => Some(human_bytes(b)),
        None => None,
    };
    push_opt_toned(&mut ms, "allocated", alloc, "muted");
    let ghost m3 = metrics_view(ms@);
    let digest = match fld_exec(v, "digest") {
        Some(d) => Some(digest_short_exec(d.as_str())),
        None => None,
    };
    push_opt_toned(&mut ms, "digest", digest, "muted");
    let ghost m4 = metrics_view(ms@);
    push_opt_toned(&mut ms, "location", remote_exec(v), "warn");
    let ghost m5 = metrics_view(ms@);
    let names = str_list_exec(v, "clone_names");
    if names.len() > 0 {
        push_metric(&mut ms, "cloned as", clones_exec(&names), Some("muted"));
    }
    assert(metrics_view(ms@) =~= image_metrics(*v));
    ms
}

fn image_rels_exec(v: &Json) -> (r: Vec<Relation>)
    ensures
        rels_view(r@) == image_rels(*v),
{
    let mut rs: Vec<Relation> = Vec::new();
    assert(rels_view(rs@) =~= Seq::<RelV>::empty());
    belongs(&mut rs, "registry", owned("reg:registry"));
    let ghost r1 = rels_view(rs@);
    match fld_exec(v, "parent") {
        Some(p) => belongs(&mut rs, "base", cat_id_exec(&remote_exec(v), p.as_str())),
        None => {},
    }
    let ghost r2 = rels_view(rs@);
    match fld_exec(v, "volume_id") {
        Some(x) => belongs(&mut rs, "volume", cat("sb:volume:", x.as_str())),
        None => {},
    }
    assert(rels_view(rs@) =~= image_rels(*v));
    rs
}

/// One catalog image (`image`).
pub fn image(v: &Json, jobs: &[Job]) -> (c: ComponentSummary)
    ensures
        comp_view(c) == image_cv(*v, jobs@),
        crate::registry::unitless(c.metrics@),
{
    proof {
        reveal_strlit("");
        assert(""@ =~= Seq::<char>::empty());
    }
    let (health, first) = image_state_exec(v, jobs);
    let c = ComponentSummary {
        id: id(v),
        kind: owned("catalog-image"),
        label: fld_or(v, "name", ""),
        health,
        detail: image_detail_exec(v, first),
        metrics: image_metrics_exec(v),
        actions: Vec::new(),
        relations: image_rels_exec(v),
        link: None,
    };
    assert(actions_view(c.actions@) =~= Seq::<crate::k8s::components::ActionV>::empty());
    c
}

/// A media job with no image to belong to yet.
pub open spec fn orphan_spec(j: Job, known: Seq<Seq<char>>) -> Option<CV> {
    let r = j.record;
    if !active_spec(r) {
        None
    } else if (match fld(r, "golden"@) {
        Some(g) => known.contains(g),
        None => false,
    }) {
        None
    } else {
        let repo = or_else(fld(r, "repository"@), Seq::empty());
        let reference = or_else(fld(r, "reference"@), "latest"@);
        let (health, words) = progress_spec(r, opt_chars(j.percent));
        let attempts = or_zero(member_u64(r, "attempts"@));
        let resumed = or_zero(member_u64(r, "resumed_from"@));
        Some(
            (
                "reg:job:"@ + repo + ":"@ + reference,
                "media-job"@,
                repo + ":"@ + reference,
                health,
                words,
                seq![toned("kind"@, "media"@, "accent"@)] + (if attempts > 1 {
                    seq![toned("attempts"@, decimal(attempts as nat), "warn"@)]
                } else {
                    Seq::empty()
                }) + (if resumed > 0 { seq![toned("resumed from"@, human_bytes_spec(resumed), "muted"@)] } else { Seq::empty() }),
                Seq::empty(),
                seq![belongs_v("registry"@, "reg:registry"@)],
                None,
            ),
        )
    }
}

pub fn orphan_job(j: &Job, known: &[String]) -> (r: Option<ComponentSummary>)
    ensures
        match r {
            Some(c) => orphan_spec(*j, crate::view::id_views(known@)) == Some(comp_view(c)),
            None => orphan_spec(*j, crate::view::id_views(known@)) is None,
        },
        r matches Some(c) ==> crate::registry::unitless(c.metrics@),
{
    let rec = &j.record;
    if !active(rec) {
        return None;
    }
    match fld_exec(rec, "golden") {
        Some(g) => if crate::registry::holds_id(known, g.as_str()) {
            return None;
        },
        None => {},
    }
    proof {
        reveal_strlit("");
        assert(""@ =~= Seq::<char>::empty());
    }
    let repo = fld_or(rec, "repository", "");
    let reference = fld_or(rec, "reference", "latest");
    let (health, words) = progress(j);
    let mut ms: Vec<Metric> = Vec::new();
    assert(metrics_view(ms@) =~= Seq::<MetricV>::empty());
    push_metric(&mut ms, "kind", owned("media"), Some("accent"));
    let attempts = match u64_field(rec, "attempts") {
        Some(a) => a,
        None => 0,
    };
    if attempts > 1 {
        push_metric(&mut ms, "attempts", crate::text::decimal_string(attempts), Some("warn"));
    }
    let ghost m1 = metrics_view(ms@);
    let resumed = match u64_field(rec, "resumed_from") {
        Some(a) => a,
        None => 0,
    };
    if resumed > 0 {
        push_metric(&mut ms, "resumed from", human_bytes(resumed), Some("muted"));
    }
    let mut label = cat(repo.as_str(), ":");
    push_str(&mut label, reference.as_str());
    let mut rs: Vec<Relation> = Vec::new();
    assert(rels_view(rs@) =~= Seq::<RelV>::empty());
    belongs(&mut rs, "registry", owned("reg:registry"));
    let c = ComponentSummary {
        id: cat("reg:job:", label.as_str()),
        kind: owned("media-job"),
        label,
        health,
        detail: words,
        metrics: ms,
        actions: Vec::new(),
        relations: rs,
        link: None,
    };
    assert(actions_view(c.actions@) =~= Seq::<crate::k8s::components::ActionV>::empty());
    let ghost want = orphan_spec(*j, crate::view::id_views(known@));
    assert(want matches Some(w) && metrics_view(c.metrics@) =~= w.5);
    Some(c)
}

} // verus!
