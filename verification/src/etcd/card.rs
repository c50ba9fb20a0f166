//! The datastore's card: what one poll of fastetcd saw, turned into the
//! store's component and one component per member.
//!
//! Two sources: `/health` and `/metrics`, which fastetcd serves today, and
//! etcd's v3 JSON gateway, which it may not. Numbers come from the gateway
//! when it answered and from the scrape otherwise; what neither can show
//! is said once, on the card.

use vstd::prelude::*;
use crate::etcd::gateway::{Alarm, Error, Member, Status, alarm_views};
use crate::registry::{action_view, actions_view, metric_view, metrics_view, opt_chars, rel_view, rels_view};
use crate::text::{decimal, join, join_strings, owned, push_decimal, push_str, str_eq, string_views};
use crate::value::{human_bytes, human_bytes_spec};
use crate::view::{Action, ComponentSummary, Health, Metric, Relation, RelationKind, id_views};

verus! {

pub const API: &'static str = "/api/plugins/etcd";
pub const STORE: &'static str = "etcd:store";
pub const GATEWAY_GAP: &'static str = "members, leader, raft term and index, alarms by member, the keyspace and the maintenance verbs need etcd's v3 JSON gateway, which fastetcd does not serve yet (fastetcd#28)";
pub const TRAFFIC_GAP: &'static str = "fastetcd exports no request or watch counters yet (fastetcd#29)";

/// How full the store is, as the scrape's ratio reads: whether it has
/// reached four fifths, and the percentage written whole and to a tenth.
#[derive(Debug, Clone)]
pub struct Space {
    pub high: bool,
    pub whole: String,
    pub tenths: String,
}

/// The scrape's readings, each as a non-negative integer where it had one.
#[derive(Debug, Clone)]
pub struct Readings {
    /// `etcd_debugging_mvcc_current_revision`
    pub revision: Option<u64>,
    /// `etcd_debugging_mvcc_compact_revision`
    pub compacted: Option<u64>,
    /// `etcd_mvcc_db_total_size_in_bytes`
    pub db: Option<u64>,
    /// `etcd_mvcc_db_total_size_in_use_in_bytes`
    pub in_use: Option<u64>,
    /// `etcd_server_quota_backend_bytes`
    pub quota: Option<u64>,
    /// `fastetcd_disk_available_bytes`
    pub disk_free: Option<u64>,
    /// `fastetcd_store_snapshot_size_in_bytes`
    pub snapshots: Option<u64>,
    /// `etcd_server_has_leader`
    pub has_leader: Option<u64>,
    /// `etcd_server_leader_changes_seen_total_total`, the name
    /// `prometheus_client` exposes.
    pub leader_changes: Option<u64>,
    /// `etcd_server_leader_changes_seen_total`
    pub leader_changes_alt: Option<u64>,
    /// `fastetcd_nospace_alarm_active`
    pub nospace: Option<u64>,
    /// `etcd_debugging_mvcc_watcher_total`
    pub watchers: Option<u64>,
    /// `etcd_debugging_mvcc_slow_watcher_total`
    pub slow_watchers: Option<u64>,
    /// `fastetcd_store_space_used_ratio`
    pub space: Option<Space>,
}

/// What one poll found.
#[derive(Debug)]
pub struct Seen {
    /// `/health`: healthy, answered unhealthy, or not reached.
    pub alive: Option<bool>,
    pub alive_err: String,
    pub metrics: Option<Readings>,
    pub metrics_err: String,
    pub status: Option<Status>,
    pub members: Vec<Member>,
    pub alarms: Vec<Alarm>,
    pub gateway_err: Option<Error>,
    /// Objects under `/registry/`, when counted.
    pub objects: Option<u64>,
    /// Per-second rates, labelled and written to a tenth.
    pub rates: Vec<(String, String)>,
}

pub open spec fn reading(seen: Seen, f: spec_fn(Readings) -> Option<u64>) -> Option<u64> {
    match seen.metrics {
        Some(r) => f(r),
        None => None,
    }
}

pub open spec fn revision_of(seen: Seen) -> Option<u64> {
    match seen.status {
        Some(s) => Some(s.revision),
        None => reading(seen, |r: Readings| r.revision),
    }
}

pub open spec fn compacted_of(seen: Seen) -> Option<u64> {
    reading(seen, |r: Readings| r.compacted)
}

pub open spec fn db_of(seen: Seen) -> Option<u64> {
    match seen.status {
        Some(s) if s.db_size > 0 => Some(s.db_size),
        _ => reading(seen, |r: Readings| r.db),
    }
}

pub open spec fn in_use_of(seen: Seen) -> Option<u64> {
    match seen.status {
        Some(s) if s.db_size_in_use > 0 => Some(s.db_size_in_use),
        _ => reading(seen, |r: Readings| r.in_use),
    }
}

pub open spec fn quota_of(seen: Seen) -> Option<u64> {
    match reading(seen, |r: Readings| r.quota) {
        Some(q) if q > 0 => Some(q),
        _ => None,
    }
}

pub open spec fn space_of(seen: Seen) -> Option<Space> {
    match seen.metrics {
        Some(r) => r.space,
        None => None,
    }
}

pub open spec fn has_leader_of(seen: Seen) -> Option<bool> {
    match seen.status {
        Some(s) => Some(s.leader@ != "0"@ && s.leader@.len() > 0),
        None => match reading(seen, |r: Readings| r.has_leader) {
            Some(v) => Some(v == 1),
            None => None,
        },
    }
}

pub open spec fn leader_changes_of(seen: Seen) -> Option<u64> {
    match reading(seen, |r: Readings| r.leader_changes) {
        Some(c) => Some(c),
        None => reading(seen, |r: Readings| r.leader_changes_alt),
    }
}

/// A list without runs: each element not equal to the one before it
/// (`Vec::dedup`).
pub open spec fn dedup(s: Seq<Seq<char>>) -> Seq<Seq<char>>
    decreases s.len(),
{
    if s.len() <= 1 {
        s
    } else {
        let p = dedup(s.drop_last());
        if s.last() == s[s.len() - 2] { p } else { p.push(s.last()) }
    }
}

pub open spec fn alarm_names(a: Seq<Alarm>) -> Seq<Seq<char>> {
    a.map_values(|x: Alarm| x.alarm@)
}

/// The alarms: the gateway's list by name; the scrape knows NOSPACE only.
pub open spec fn alarms_of(seen: Seen) -> Seq<Seq<char>> {
    let names = alarm_names(seen.alarms@);
    dedup(if names.len() == 0 && reading(seen, |r: Readings| r.nospace) == Some(1u64) {
        seq!["NOSPACE"@]
    } else {
        names
    })
}

pub open spec fn reached(seen: Seen) -> bool {
    seen.alive is Some || seen.metrics is Some || seen.status is Some
}

/// The verdict and why, worst first.
pub open spec fn verdict(seen: Seen) -> (Health, Seq<char>) {
    let alarms = alarms_of(seen);
    if !reached(seen) {
        (Health::Error, "unreachable: "@ + seen.alive_err@)
    } else if seen.alive == Some(false) {
        (Health::Error, "answers /health unhealthy"@)
    } else if alarms.len() > 0 {
        (Health::Error, "alarm "@ + join(alarms, ", "@) + " — writes are refused"@)
    } else if has_leader_of(seen) == Some(false) {
        (Health::Error, "no leader — the store cannot commit"@)
    } else if space_of(seen) matches Some(sp) && sp.high {
        (Health::Warn, space_of(seen)->0.whole@ + "% of its space used"@)
    } else if seen.metrics is None {
        (Health::Warn, "metrics not reachable: "@ + seen.metrics_err@)
    } else {
        (Health::Healthy, Seq::empty())
    }
}


pub type MetricV = (Seq<char>, Seq<char>, Option<Seq<char>>);

pub open spec fn plain(label: Seq<char>, value: Seq<char>) -> MetricV {
    (label, value, None)
}

pub open spec fn toned(label: Seq<char>, value: Seq<char>, tone: Seq<char>) -> MetricV {
    (label, value, Some(tone))
}

pub open spec fn count_metric(o: Option<u64>, label: Seq<char>) -> Seq<MetricV> {
    match o {
        Some(x) => seq![plain(label, decimal(x as nat))],
        None => Seq::empty(),
    }
}

pub open spec fn bytes_metric(o: Option<u64>, label: Seq<char>) -> Seq<MetricV> {
    match o {
        Some(x) => seq![plain(label, human_bytes_spec(x))],
        None => Seq::empty(),
    }
}

/// What a defragmentation would give back, when the file is bigger than
/// what is in use; a warning when that is half the file or more.
pub open spec fn defrag_metric(db: Option<u64>, in_use: u64) -> Seq<MetricV> {
    match db {
        Some(d) => if d > in_use {
            let free = (d - in_use) as u64;
            if free * 2 >= d {
                seq![toned("defrag frees"@, human_bytes_spec(free), "warn"@)]
            } else {
                seq![plain("defrag frees"@, human_bytes_spec(free))]
            }
        } else {
            Seq::empty()
        },
        None => Seq::empty(),
    }
}

pub open spec fn rate_views(r: Seq<(String, String)>) -> Seq<MetricV> {
    r.map_values(|e: (String, String)| plain(e.0@, e.1@))
}

/// What the gateway's status adds: raft term and index, version, members.
pub open spec fn status_metrics(seen: Seen) -> Seq<MetricV> {
    match seen.status {
        Some(st) => seq![plain("raft term"@, decimal(st.raft_term as nat)), plain("raft index"@, decimal(st.raft_index as nat))]
            + (if st.version@.len() > 0 { seq![plain("version"@, st.version@)] } else { Seq::empty() })
            + seq![plain("members"@, decimal(seen.members@.len()))],
        None => Seq::empty(),
    }
}

pub open spec fn revision_metric(seen: Seen) -> Seq<MetricV> {
    match revision_of(seen) {
        Some(r) => seq![toned("revision"@, decimal(r as nat), "accent"@)],
        None => Seq::empty(),
    }
}

pub open spec fn usage_metrics(seen: Seen) -> Seq<MetricV> {
    match in_use_of(seen) {
        Some(u) => seq![plain("in use"@, human_bytes_spec(u))] + defrag_metric(db_of(seen), u),
        None => Seq::empty(),
    }
}

pub open spec fn space_metric(seen: Seen) -> Seq<MetricV> {
    match space_of(seen) {
        Some(sp) => if sp.high {
            seq![toned("space used"@, sp.tenths@ + "%"@, "warn"@)]
        } else {
            seq![plain("space used"@, sp.tenths@ + "%"@)]
        },
        None => Seq::empty(),
    }
}

pub open spec fn alarms_metric(seen: Seen) -> Seq<MetricV> {
    let alarms = alarms_of(seen);
    seq![plain("alarms"@, if alarms.len() == 0 { "none"@ } else { join(alarms, ", "@) })]
}

pub open spec fn leader_metric(seen: Seen) -> Seq<MetricV> {
    match has_leader_of(seen) {
        Some(l) => if l {
            seq![plain("leader"@, "yes"@)]
        } else {
            seq![toned("leader"@, "none"@, "warn"@)]
        },
        None => Seq::empty(),
    }
}

pub open spec fn slow_metric(seen: Seen) -> Seq<MetricV> {
    match reading(seen, |r: Readings| r.slow_watchers) {
        Some(w) => if w > 0 {
            seq![toned("lagging watchers"@, decimal(w as nat), "warn"@)]
        } else {
            seq![plain("lagging watchers"@, decimal(w as nat))]
        },
        None => Seq::empty(),
    }
}

/// The store's metrics, in the order the card shows them.
pub open spec fn store_metrics(seen: Seen) -> Seq<MetricV> {
    revision_metric(seen) + count_metric(compacted_of(seen), "compacted to"@) + count_metric(seen.objects, "objects"@)
        + bytes_metric(db_of(seen), "db size"@) + usage_metrics(seen) + bytes_metric(quota_of(seen), "quota"@)
        + space_metric(seen) + bytes_metric(reading(seen, |r: Readings| r.disk_free), "disk free"@) + bytes_metric(
        reading(seen, |r: Readings| r.snapshots),
        "snapshots"@,
    ) + alarms_metric(seen) + leader_metric(seen) + count_metric(leader_changes_of(seen), "leader changes"@)
        + status_metrics(seen) + rate_views(seen.rates@) + count_metric(reading(seen, |r: Readings| r.watchers), "watchers"@)
        + slow_metric(seen)
}

/// What the card cannot show, said once.
pub open spec fn gaps(seen: Seen) -> Seq<Seq<char>> {
    (if reached(seen) && seen.status is None {
        seq![
            match seen.gateway_err {
                Some(Error::Failed(e)) => "the v3 gateway failed: "@ + e@,
                _ => GATEWAY_GAP@,
            },
        ]
    } else {
        Seq::empty()
    }) + (if seen.metrics is Some && seen.rates@.len() == 0 && reading(seen, |r: Readings| r.watchers) is None {
        seq![TRAFFIC_GAP@]
    } else {
        Seq::empty()
    })
}

/// The card's line: why, the revision, the size (against the quota when
/// there is one), and the member count when the gateway gave one.
pub open spec fn summary_parts(seen: Seen) -> Seq<Seq<char>> {
    let why = verdict(seen).1;
    (if why.len() > 0 { seq![why] } else { Seq::empty() }) + (match revision_of(seen) {
        Some(r) => seq!["revision "@ + decimal(r as nat)],
        None => Seq::empty(),
    }) + (match (db_of(seen), quota_of(seen)) {
        (Some(d), Some(q)) => seq![human_bytes_spec(d) + " of "@ + human_bytes_spec(q)],
        (Some(d), None) => seq![human_bytes_spec(d)],
        _ => Seq::empty(),
    }) + (if seen.status is Some { seq![decimal(seen.members@.len()) + " members"@] } else { Seq::empty() })
}

pub open spec fn summary_of(seen: Seen) -> Seq<char> {
    join(summary_parts(seen), " · "@)
}

pub open spec fn store_detail(seen: Seen) -> Seq<char> {
    if gaps(seen).len() == 0 {
        summary_of(seen)
    } else {
        summary_of(seen) + ". Not shown: "@ + join(gaps(seen), "; "@)
    }
}

/// A verb that asks before it acts.
pub open spec fn danger_view(id: Seq<char>, label: Seq<char>, path: Seq<char>) -> (Seq<char>, Seq<char>, Seq<char>, Seq<char>, bool, bool, Option<Seq<char>>) {
    (id, label, "POST"@, path, true, true, None)
}

pub open spec fn disarm_store(a: Seq<Alarm>) -> Seq<(Seq<char>, Seq<char>, Seq<char>, Seq<char>, bool, bool, Option<Seq<char>>)> {
    a.map_values(|x: Alarm| danger_view(
        "disarm-"@ + x.alarm@ + "-"@ + x.member_id@,
        "Disarm "@ + x.alarm@,
        "/api/plugins/etcd/disarm?member="@ + x.member_id@ + "&alarm="@ + x.alarm@,
    ))
}

/// Verbs only where something can perform them: with the gateway, compact
/// (when there is something to compact), defragment, and each alarm's
/// disarm.
pub open spec fn store_actions(seen: Seen) -> Seq<(Seq<char>, Seq<char>, Seq<char>, Seq<char>, bool, bool, Option<Seq<char>>)> {
    if seen.status is Some {
        (match revision_of(seen) {
            Some(r) => if (match compacted_of(seen) {
                Some(c) => c < r,
                None => true,
            }) {
                seq![danger_view("compact"@, "Compact to "@ + decimal(r as nat), "/api/plugins/etcd/compact?revision="@ + decimal(r as nat))]
            } else {
                Seq::empty()
            },
            None => Seq::empty(),
        }) + seq![danger_view("defragment"@, "Defragment"@, "/api/plugins/etcd/defragment"@)] + disarm_store(seen.alarms@)
    } else {
        Seq::empty()
    }
}

pub open spec fn member_id_spec(id: Seq<char>) -> Seq<char> {
    "etcd:member:"@ + id
}

pub open spec fn member_ids(m: Seq<Member>) -> Seq<Seq<char>> {
    m.map_values(|x: Member| member_id_spec(x.id@))
}

pub open spec fn store_relations(seen: Seen, serves: Option<Seq<char>>) -> Seq<(Seq<char>, RelationKind, Seq<Seq<char>>, Option<Seq<char>>)> {
    (if seen.members@.len() > 0 {
        seq![("members"@, RelationKind::HasMany, member_ids(seen.members@), None::<Seq<char>>)]
    } else {
        Seq::empty()
    }) + (match serves {
        Some(s) => seq![("serves"@, RelationKind::HasOne, seq![s], None::<Seq<char>>)],
        None => Seq::empty(),
    })
}

/// The store's component.
pub open spec fn store_ok(c: ComponentSummary, seen: Seen, serves: Option<Seq<char>>) -> bool {
    &&& c.id@ == STORE@
    &&& c.kind@ == "datastore"@
    &&& c.label@ == "fastetcd"@
    &&& c.health == verdict(seen).0
    &&& c.detail@ == store_detail(seen)
    &&& metrics_view(c.metrics@) == store_metrics(seen)
    &&& actions_view(c.actions@) == store_actions(seen)
    &&& rels_view(c.relations@) == store_relations(seen, serves)
    &&& opt_chars(c.link) == Some("#/grid?id=etcd:store"@)
}


pub open spec fn leader_of(seen: Seen) -> Seq<char> {
    match seen.status {
        Some(s) => s.leader@,
        None => Seq::empty(),
    }
}

pub open spec fn me_of(seen: Seen) -> Seq<char> {
    match seen.status {
        Some(s) => s.member_id@,
        None => Seq::empty(),
    }
}

/// The alarms raised on one member, as (member, alarm).
pub open spec fn alarms_for(a: Seq<(Seq<char>, Seq<char>)>, id: Seq<char>) -> Seq<(Seq<char>, Seq<char>)>
    decreases a.len(),
{
    if a.len() == 0 {
        Seq::empty()
    } else {
        let p = alarms_for(a.drop_last(), id);
        if a.last().0 == id { p.push(a.last()) } else { p }
    }
}

pub open spec fn second(a: Seq<(Seq<char>, Seq<char>)>) -> Seq<Seq<char>> {
    a.map_values(|p: (Seq<char>, Seq<char>)| p.1)
}

pub open spec fn role_of(mem: Member, leader: Seq<char>) -> Seq<char> {
    if mem.is_learner {
        "learner"@
    } else if mem.id@ == leader {
        "leader"@
    } else {
        "follower"@
    }
}

pub open spec fn member_verdict(mem: Member, seen: Seen) -> (Health, Seq<char>) {
    let mine = alarms_for(alarm_views(seen.alarms@), mem.id@);
    let leader = leader_of(seen);
    if mine.len() > 0 {
        (Health::Error, "alarm "@ + join(second(mine), ", "@))
    } else if leader.len() == 0 || leader == "0"@ {
        (Health::Warn, "no leader"@)
    } else if mem.client_urls@.len() == 0 {
        (Health::Warn, "not started — no client URLs"@)
    } else {
        (Health::Healthy, Seq::empty())
    }
}

pub open spec fn member_metrics(mem: Member, seen: Seen) -> Seq<MetricV> {
    let leader = leader_of(seen);
    seq![
        toned("role"@, role_of(mem, leader), if mem.id@ == leader { "accent"@ } else { "muted"@ }),
        plain("id"@, mem.id@),
    ] + (if mem.client_urls@.len() > 0 { seq![plain("client"@, mem.client_urls@[0]@)] } else { Seq::empty() })
        + (if mem.peer_urls@.len() > 0 { seq![plain("peer"@, mem.peer_urls@[0]@)] } else { Seq::empty() })
        + (if mem.id@ == me_of(seen) { seq![plain("answering"@, "this node's store"@)] } else { Seq::empty() })
}

pub open spec fn member_detail(mem: Member, seen: Seen) -> Seq<char> {
    let role = role_of(mem, leader_of(seen));
    let why = member_verdict(mem, seen).1;
    let d = if why.len() > 0 { why + " · "@ + role } else { role };
    if mem.client_urls@.len() > 0 { d + " · "@ + join(string_views(mem.client_urls@), ", "@) } else { d }
}

pub open spec fn disarm_member(a: Seq<(Seq<char>, Seq<char>)>) -> Seq<(Seq<char>, Seq<char>, Seq<char>, Seq<char>, bool, bool, Option<Seq<char>>)> {
    a.map_values(|x: (Seq<char>, Seq<char>)| danger_view(
        "disarm-"@ + x.1,
        "Disarm "@ + x.1,
        "/api/plugins/etcd/disarm?member="@ + x.0 + "&alarm="@ + x.1,
    ))
}

pub open spec fn member_actions(mem: Member, seen: Seen) -> Seq<(Seq<char>, Seq<char>, Seq<char>, Seq<char>, bool, bool, Option<Seq<char>>)> {
    (if mem.client_urls@.len() > 0 {
        seq![danger_view("defragment"@, "Defragment"@, "/api/plugins/etcd/defragment?member="@ + mem.id@)]
    } else {
        Seq::empty()
    }) + disarm_member(alarms_for(alarm_views(seen.alarms@), mem.id@))
}

/// One member's component.
pub open spec fn member_ok(c: ComponentSummary, mem: Member, seen: Seen) -> bool {
    &&& c.id@ == member_id_spec(mem.id@)
    &&& c.kind@ == "member"@
    &&& c.label@ == (if mem.name@.len() == 0 { mem.id@ } else { mem.name@ })
    &&& c.health == member_verdict(mem, seen).0
    &&& c.detail@ == member_detail(mem, seen)
    &&& metrics_view(c.metrics@) == member_metrics(mem, seen)
    &&& actions_view(c.actions@) == member_actions(mem, seen)
    &&& rels_view(c.relations@) == seq![("store"@, RelationKind::BelongsTo, seq![STORE@], None::<Seq<char>>)]
    &&& c.link is None
}

/// What `build` needs of a poll: a file no more than twice the size of
/// what a defragmentation would free can be compared without overflow.
pub open spec fn buildable(seen: Seen) -> bool {
    match (db_of(seen), in_use_of(seen)) {
        (Some(d), Some(u)) => d > u ==> (d - u) * 2 <= u64::MAX,
        _ => true,
    }
}

fn danger(id: String, label: String, path: String) -> (a: Action)
    ensures
        action_view(a) == danger_view(id@, label@, path@),
{
    Action { id, label, method: owned("POST"), path, enabled: true, danger: true, tone: None }
}

fn cat2(a: &str, b: &str) -> (r: String)
    ensures
        r@ == a@ + b@,
{
    let mut s = owned(a);
    push_str(&mut s, b);
    s
}

fn push_metric(ms: &mut Vec<Metric>, label: &str, value: String, tone: Option<&str>)
    ensures
        metrics_view(final(ms)@) == metrics_view(old(ms)@).push((
            label@,
            value@,
            match tone {
                Some(t) => Some(t@),
                None => None,
            },
        )),
        crate::registry::unitless(old(ms)@) ==> crate::registry::unitless(final(ms)@),
{
    let m = match tone {
        Some(t) => Metric::new(label, value).tone(t),
        None => Metric::new(label, value),
    };
    let ghost before = metrics_view(ms@);
    ms.push(m);
    assert(metrics_view(ms@) =~= before.push(metric_view(m)));
}



fn revision_exec(seen: &Seen) -> (r: Option<u64>)
    ensures
        r == revision_of(*seen),
{
    match &seen.status {
        Some(st) => Some(st.revision),
        None => match &seen.metrics {
            Some(m) => m.revision,
            None => None,
        },
    }
}

fn compacted_exec(seen: &Seen) -> (r: Option<u64>)
    ensures
        r == compacted_of(*seen),
{
    match &seen.metrics {
        Some(m) => m.compacted,
        None => None,
    }
}

fn db_exec(seen: &Seen) -> (r: Option<u64>)
    ensures
        r == db_of(*seen),
{
    match &seen.status {
        Some(st) => {
            if st.db_size > 0 {
                return Some(st.db_size);
            }
        },
        None => {},
    }
    match &seen.metrics {
        Some(m) => m.db,
        None => None,
    }
}

fn in_use_exec(seen: &Seen) -> (r: Option<u64>)
    ensures
        r == in_use_of(*seen),
{
    match &seen.status {
        Some(st) => {
            if st.db_size_in_use > 0 {
                return Some(st.db_size_in_use);
            }
        },
        None => {},
    }
    match &seen.metrics {
        Some(m) => m.in_use,
        None => None,
    }
}

fn quota_exec(seen: &Seen) -> (r: Option<u64>)
    ensures
        r == quota_of(*seen),
{
    match &seen.metrics {
        Some(m) => match m.quota {
            Some(q) => if q > 0 { Some(q) } else { None },
            None => None,
        },
        None => None,
    }
}

fn has_leader_exec(seen: &Seen) -> (r: Option<bool>)
    ensures
        r == has_leader_of(*seen),
{
    match &seen.status {
        Some(st) => Some(!str_eq(st.leader.as_str(), "0") && st.leader.as_str().unicode_len() > 0),
        None => match &seen.metrics {
            Some(m) => match m.has_leader {
                Some(v) => Some(v == 1),
                None => None,
            },
            None => None,
        },
    }
}

fn leader_changes_exec(seen: &Seen) -> (r: Option<u64>)
    ensures
        r == leader_changes_of(*seen),
{
    match &seen.metrics {
        Some(m) => match m.leader_changes {
            Some(c) => Some(c),
            None => m.leader_changes_alt,
        },
        None => None,
    }
}

fn dedup_exec(v: Vec<String>) -> (r: Vec<String>)
    ensures
        string_views(r@) == dedup(string_views(v@)),
{
    let ghost all = string_views(v@);
    let mut out: Vec<String> = Vec::new();
    let mut i: usize = 0;
    assert(all.take(0) =~= Seq::<Seq<char>>::empty());
    assert(string_views(out@) =~= Seq::<Seq<char>>::empty());
    while i < v.len()
        invariant
            i <= v@.len(),
            all == string_views(v@),
            string_views(out@) == dedup(all.take(i as int)),
        decreases v@.len() - i,
    {
        assert(all.take(i + 1).drop_last() == all.take(i as int));
        assert(all.take(i + 1).last() == v@[i as int]@);
        if i == 0 || !str_eq(v[i].as_str(), v[i - 1].as_str()) {
            let ghost before = string_views(out@);
            out.push(owned(v[i].as_str()));
            assert(string_views(out@) =~= before.push(v@[i as int]@));
            proof {
                if i == 0 {
                    assert(all.take(1) =~= seq![v@[0]@]);
                }
            }
        } else {
            assert(all.take(i + 1)[i - 1] == v@[i - 1]@);
        }
        i += 1;
    }
    assert(all.take(v@.len() as int) == all);
    out
}

fn alarms_exec(seen: &Seen) -> (r: Vec<String>)
    ensures
        string_views(r@) == alarms_of(*seen),
{
    let mut names: Vec<String> = Vec::new();
    let mut i: usize = 0;
    while i < seen.alarms.len()
        invariant
            i <= seen.alarms@.len(),
            string_views(names@) == alarm_names(seen.alarms@).take(i as int),
        decreases seen.alarms@.len() - i,
    {
        let ghost before = string_views(names@);
        names.push(owned(seen.alarms[i].alarm.as_str()));
        assert(string_views(names@) =~= before.push(seen.alarms@[i as int].alarm@));
        assert(alarm_names(seen.alarms@).take(i + 1) =~= alarm_names(seen.alarms@).take(i as int).push(seen.alarms@[i as int].alarm@));
        i += 1;
    }
    assert(alarm_names(seen.alarms@).take(seen.alarms@.len() as int) =~= alarm_names(seen.alarms@));
    let nospace = match &seen.metrics {
        Some(m) => m.nospace,
        None => None,
    };
    if names.len() == 0 && nospace == Some(1u64) {
        let mut v: Vec<String> = Vec::new();
        v.push(owned("NOSPACE"));
        assert(string_views(v@) =~= seq!["NOSPACE"@]);
        dedup_exec(v)
    } else {
        dedup_exec(names)
    }
}

fn verdict_exec(seen: &Seen, alarms: &Vec<String>) -> (r: (Health, String))
    requires
        string_views(alarms@) == alarms_of(*seen),
    ensures
        r.0 == verdict(*seen).0,
        r.1@ == verdict(*seen).1,
{
    if seen.alive.is_none() && seen.metrics.is_none() && seen.status.is_none() {
        return (Health::Error, cat2("unreachable: ", seen.alive_err.as_str()));
    }
    if seen.alive == Some(false) {
        return (Health::Error, owned("answers /health unhealthy"));
    }
    if alarms.len() > 0 {
        let mut s = owned("alarm ");
        let j = join_strings(alarms, ", ");
        push_str(&mut s, j.as_str());
        push_str(&mut s, " — writes are refused");
        return (Health::Error, s);
    }
    if has_leader_exec(seen) == Some(false) {
        return (Health::Error, owned("no leader — the store cannot commit"));
    }
    match &seen.metrics {
        Some(m) => match &m.space {
            Some(sp) => {
                if sp.high {
                    return (Health::Warn, cat2(sp.whole.as_str(), "% of its space used"));
                }
            },
            None => {},
        },
        None => {
            return (Health::Warn, cat2("metrics not reachable: ", seen.metrics_err.as_str()));
        },
    }
    (Health::Healthy, String::new())
}


fn push_count(ms: &mut Vec<Metric>, o: Option<u64>, label: &str)
    ensures
        metrics_view(final(ms)@) == metrics_view(old(ms)@) + count_metric(o, label@),
        crate::registry::unitless(old(ms)@) ==> crate::registry::unitless(final(ms)@),
{
    match o {
        Some(x) => {
            let ghost before = metrics_view(ms@);
            push_metric(ms, label, crate::text::decimal_string(x), None);
            assert(metrics_view(ms@) =~= before + count_metric(o, label@));
        },
        None => {
            assert(metrics_view(ms@) =~= metrics_view(ms@) + Seq::<MetricV>::empty());
        },
    }
}

fn push_bytes(ms: &mut Vec<Metric>, o: Option<u64>, label: &str)
    ensures
        metrics_view(final(ms)@) == metrics_view(old(ms)@) + bytes_metric(o, label@),
        crate::registry::unitless(old(ms)@) ==> crate::registry::unitless(final(ms)@),
{
    match o {
        Some(x) => {
            let ghost before = metrics_view(ms@);
            push_metric(ms, label, human_bytes(x), None);
            assert(metrics_view(ms@) =~= before + bytes_metric(o, label@));
        },
        None => {
            assert(metrics_view(ms@) =~= metrics_view(ms@) + Seq::<MetricV>::empty());
        },
    }
}

fn push_revision(ms: &mut Vec<Metric>, seen: &Seen)
    ensures
        metrics_view(final(ms)@) == metrics_view(old(ms)@) + revision_metric(*seen),
        crate::registry::unitless(old(ms)@) ==> crate::registry::unitless(final(ms)@),
{
    let ghost before = metrics_view(ms@);
    match revision_exec(seen) {
        Some(r) => {
            push_metric(ms, "revision", crate::text::decimal_string(r), Some("accent"));
        },
        None => {},
    }
    assert(metrics_view(ms@) =~= before + revision_metric(*seen));
}

fn push_usage(ms: &mut Vec<Metric>, seen: &Seen)
    requires
        buildable(*seen),
    ensures
        metrics_view(final(ms)@) == metrics_view(old(ms)@) + usage_metrics(*seen),
        crate::registry::unitless(old(ms)@) ==> crate::registry::unitless(final(ms)@),
{
    let ghost before = metrics_view(ms@);
    let db = db_exec(seen);
    match in_use_exec(seen) {
        Some(u) => {
            push_metric(ms, "in use", human_bytes(u), None);
            match db {
                Some(d) => {
                    if d > u {
                        let free = d - u;
                        if free as u128 * 2 >= d as u128 {
                            push_metric(ms, "defrag frees", human_bytes(free), Some("warn"));
                        } else {
                            push_metric(ms, "defrag frees", human_bytes(free), None);
                        }
                    }
                },
                None => {},
            }
        },
        None => {},
    }
    assert(metrics_view(ms@) =~= before + usage_metrics(*seen));
}

fn push_space(ms: &mut Vec<Metric>, seen: &Seen)
    ensures
        metrics_view(final(ms)@) == metrics_view(old(ms)@) + space_metric(*seen),
        crate::registry::unitless(old(ms)@) ==> crate::registry::unitless(final(ms)@),
{
    let ghost before = metrics_view(ms@);
    match &seen.metrics {
        Some(m) => match &m.space {
            Some(sp) => {
                let v = cat2(sp.tenths.as_str(), "%");
                if sp.high {
                    push_metric(ms, "space used", v, Some("warn"));
                } else {
                    push_metric(ms, "space used", v, None);
                }
            },
            None => {},
        },
        None => {},
    }
    assert(metrics_view(ms@) =~= before + space_metric(*seen));
}

fn push_alarms(ms: &mut Vec<Metric>, seen: &Seen, alarms: &Vec<String>)
    requires
        string_views(alarms@) == alarms_of(*seen),
    ensures
        metrics_view(final(ms)@) == metrics_view(old(ms)@) + alarms_metric(*seen),
        crate::registry::unitless(old(ms)@) ==> crate::registry::unitless(final(ms)@),
{
    let ghost before = metrics_view(ms@);
    let av = if alarms.len() == 0 { owned("none") } else { join_strings(alarms, ", ") };
    push_metric(ms, "alarms", av, None);
    assert(metrics_view(ms@) =~= before + alarms_metric(*seen));
}

fn push_leader(ms: &mut Vec<Metric>, seen: &Seen)
    ensures
        metrics_view(final(ms)@) == metrics_view(old(ms)@) + leader_metric(*seen),
        crate::registry::unitless(old(ms)@) ==> crate::registry::unitless(final(ms)@),
{
    let ghost before = metrics_view(ms@);
    match has_leader_exec(seen) {
        Some(l) => {
            if l {
                push_metric(ms, "leader", owned("yes"), None);
            } else {
                push_metric(ms, "leader", owned("none"), Some("warn"));
            }
        },
        None => {},
    }
    assert(metrics_view(ms@) =~= before + leader_metric(*seen));
}

fn push_status(ms: &mut Vec<Metric>, seen: &Seen)
    ensures
        metrics_view(final(ms)@) == metrics_view(old(ms)@) + status_metrics(*seen),
        crate::registry::unitless(old(ms)@) ==> crate::registry::unitless(final(ms)@),
{
    let ghost before = metrics_view(ms@);
    match &seen.status {
        Some(st) => {
            push_metric(ms, "raft term", crate::text::decimal_string(st.raft_term), None);
            push_metric(ms, "raft index", crate::text::decimal_string(st.raft_index), None);
            if st.version.as_str().unicode_len() > 0 {
                push_metric(ms, "version", owned(st.version.as_str()), None);
            }
            push_metric(ms, "members", crate::text::decimal_string(seen.members.len() as u64), None);
        },
        None => {},
    }
    assert(metrics_view(ms@) =~= before + status_metrics(*seen));
}

fn push_rates(ms: &mut Vec<Metric>, seen: &Seen)
    ensures
        metrics_view(final(ms)@) == metrics_view(old(ms)@) + rate_views(seen.rates@),
        crate::registry::unitless(old(ms)@) ==> crate::registry::unitless(final(ms)@),
{
    let ghost before = metrics_view(ms@);
    let mut i: usize = 0;
    while i < seen.rates.len()
        invariant
            i <= seen.rates@.len(),
            metrics_view(ms@) == before + rate_views(seen.rates@).take(i as int),
            crate::registry::unitless(old(ms)@) ==> crate::registry::unitless(ms@),
        decreases seen.rates@.len() - i,
    {
        push_metric(ms, seen.rates[i].0.as_str(), owned(seen.rates[i].1.as_str()), None);
        assert(rate_views(seen.rates@).take(i + 1) =~= rate_views(seen.rates@).take(i as int).push(
            plain(seen.rates@[i as int].0@, seen.rates@[i as int].1@),
        ));
        assert(metrics_view(ms@) =~= before + rate_views(seen.rates@).take(i + 1));
        i += 1;
    }
    assert(rate_views(seen.rates@).take(seen.rates@.len() as int) =~= rate_views(seen.rates@));
}

fn push_slow(ms: &mut Vec<Metric>, seen: &Seen)
    ensures
        metrics_view(final(ms)@) == metrics_view(old(ms)@) + slow_metric(*seen),
        crate::registry::unitless(old(ms)@) ==> crate::registry::unitless(final(ms)@),
{
    let ghost before = metrics_view(ms@);
    let slow = match &seen.metrics {
        Some(m) => m.slow_watchers,
        None => None,
    };
    match slow {
        Some(w) => {
            if w > 0 {
                push_metric(ms, "lagging watchers", crate::text::decimal_string(w), Some("warn"));
            } else {
                push_metric(ms, "lagging watchers", crate::text::decimal_string(w), None);
            }
        },
        None => {},
    }
    assert(metrics_view(ms@) =~= before + slow_metric(*seen));
}

fn store_metrics_exec(seen: &Seen, alarms: &Vec<String>) -> (r: Vec<Metric>)
    requires
        string_views(alarms@) == alarms_of(*seen),
        buildable(*seen),
    ensures
        metrics_view(r@) == store_metrics(*seen),
        crate::registry::unitless(r@),
{
    let mut ms: Vec<Metric> = Vec::new();
    assert(metrics_view(ms@) =~= Seq::<MetricV>::empty());
    let (disk_free, snapshots, watchers) = match &seen.metrics {
        Some(m) => (m.disk_free, m.snapshots, m.watchers),
        None => (None, None, None),
    };
    push_revision(&mut ms, seen);
    push_count(&mut ms, compacted_exec(seen), "compacted to");
    push_count(&mut ms, seen.objects, "objects");
    push_bytes(&mut ms, db_exec(seen), "db size");
    push_usage(&mut ms, seen);
    push_bytes(&mut ms, quota_exec(seen), "quota");
    push_space(&mut ms, seen);
    push_bytes(&mut ms, disk_free, "disk free");
    push_bytes(&mut ms, snapshots, "snapshots");
    push_alarms(&mut ms, seen, alarms);
    push_leader(&mut ms, seen);
    push_count(&mut ms, leader_changes_exec(seen), "leader changes");
    push_status(&mut ms, seen);
    push_rates(&mut ms, seen);
    push_count(&mut ms, watchers, "watchers");
    push_slow(&mut ms, seen);
    assert(metrics_view(ms@) =~= store_metrics(*seen));
    ms
}


fn gaps_exec(seen: &Seen) -> (r: Vec<String>)
    ensures
        string_views(r@) == gaps(*seen),
{
    let mut out: Vec<String> = Vec::new();
    let reached = seen.alive.is_some() || seen.metrics.is_some() || seen.status.is_some();
    if reached && seen.status.is_none() {
        let g = match &seen.gateway_err {
            Some(Error::Failed(e)) => cat2("the v3 gateway failed: ", e.as_str()),
            _ => owned(GATEWAY_GAP),
        };
        out.push(g);
    }
    let watchers = match &seen.metrics {
        Some(m) => m.watchers,
        None => None,
    };
    if seen.metrics.is_some() && seen.rates.len() == 0 && watchers.is_none() {
        out.push(owned(TRAFFIC_GAP));
    }
    assert(string_views(out@) =~= gaps(*seen));
    out
}

fn summary_exec(seen: &Seen, why: &String) -> (r: String)
    requires
        why@ == verdict(*seen).1,
    ensures
        r@ == summary_of(*seen),
{
    let mut parts: Vec<String> = Vec::new();
    if why.as_str().unicode_len() > 0 {
        parts.push(owned(why.as_str()));
    }
    match revision_exec(seen) {
        Some(r) => {
            let mut p = owned("revision ");
            push_decimal(&mut p, r);
            parts.push(p);
        },
        None => {},
    }
    match (db_exec(seen), quota_exec(seen)) {
        (Some(d), Some(q)) => {
            let mut p = human_bytes(d);
            push_str(&mut p, " of ");
            let hq = human_bytes(q);
            push_str(&mut p, hq.as_str());
            parts.push(p);
        },
        (Some(d), None) => {
            parts.push(human_bytes(d));
        },
        _ => {},
    }
    if seen.status.is_some() {
        let mut p = String::new();
        push_decimal(&mut p, seen.members.len() as u64);
        push_str(&mut p, " members");
        parts.push(p);
    }
    assert(string_views(parts@) =~= summary_parts(*seen));
    join_strings(&parts, " · ")
}

fn disarm_action(a: &Alarm, with_member: bool) -> (r: Action)
    ensures
        with_member ==> action_view(r) == danger_view(
            "disarm-"@ + a.alarm@ + "-"@ + a.member_id@,
            "Disarm "@ + a.alarm@,
            "/api/plugins/etcd/disarm?member="@ + a.member_id@ + "&alarm="@ + a.alarm@,
        ),
        !with_member ==> action_view(r) == danger_view(
            "disarm-"@ + a.alarm@,
            "Disarm "@ + a.alarm@,
            "/api/plugins/etcd/disarm?member="@ + a.member_id@ + "&alarm="@ + a.alarm@,
        ),
{
    let mut id = cat2("disarm-", a.alarm.as_str());
    if with_member {
        push_str(&mut id, "-");
        push_str(&mut id, a.member_id.as_str());
    }
    let label = cat2("Disarm ", a.alarm.as_str());
    let mut path = cat2("/api/plugins/etcd/disarm?member=", a.member_id.as_str());
    push_str(&mut path, "&alarm=");
    push_str(&mut path, a.alarm.as_str());
    danger(id, label, path)
}

fn store_actions_exec(seen: &Seen) -> (r: Vec<Action>)
    ensures
        actions_view(r@) == store_actions(*seen),
{
    let mut out: Vec<Action> = Vec::new();
    if seen.status.is_none() {
        assert(actions_view(out@) =~= store_actions(*seen));
        return out;
    }
    match revision_exec(seen) {
        Some(r) => {
            let fresh = match compacted_exec(seen) {
                Some(c) => c < r,
                None => true,
            };
            if fresh {
                let mut label = owned("Compact to ");
                push_decimal(&mut label, r);
                let mut path = owned("/api/plugins/etcd/compact?revision=");
                push_decimal(&mut path, r);
                out.push(danger(owned("compact"), label, path));
            }
        },
        None => {},
    }
    out.push(danger(owned("defragment"), owned("Defragment"), owned("/api/plugins/etcd/defragment")));
    let ghost head = actions_view(out@);
    let mut i: usize = 0;
    while i < seen.alarms.len()
        invariant
            i <= seen.alarms@.len(),
            actions_view(out@) == head + disarm_store(seen.alarms@).take(i as int),
        decreases seen.alarms@.len() - i,
    {
        let ghost b = actions_view(out@);
        let a = disarm_action(&seen.alarms[i], true);
        out.push(a);
        assert(actions_view(out@) =~= b.push(action_view(a)));
        assert(disarm_store(seen.alarms@).take(i + 1) =~= disarm_store(seen.alarms@).take(i as int).push(action_view(a)));
        i += 1;
    }
    assert(disarm_store(seen.alarms@).take(seen.alarms@.len() as int) =~= disarm_store(seen.alarms@));
    assert(actions_view(out@) =~= store_actions(*seen));
    out
}

fn member_id_exec(id: &str) -> (r: String)
    ensures
        r@ == member_id_spec(id@),
{
    cat2("etcd:member:", id)
}

fn store_relations_exec(seen: &Seen, serves: Option<&str>) -> (r: Vec<Relation>)
    ensures
        rels_view(r@) == store_relations(*seen, crate::plugins::drive::opt_str(serves)),
{
    let mut out: Vec<Relation> = Vec::new();
    if seen.members.len() > 0 {
        let mut ids: Vec<String> = Vec::new();
        let mut i: usize = 0;
        while i < seen.members.len()
            invariant
                i <= seen.members@.len(),
                id_views(ids@) == member_ids(seen.members@).take(i as int),
            decreases seen.members@.len() - i,
        {
            let ghost b = id_views(ids@);
            ids.push(member_id_exec(seen.members[i].id.as_str()));
            assert(id_views(ids@) =~= b.push(member_id_spec(seen.members@[i as int].id@)));
            assert(member_ids(seen.members@).take(i + 1) =~= member_ids(seen.members@).take(i as int).push(
                member_id_spec(seen.members@[i as int].id@),
            ));
            i += 1;
        }
        assert(member_ids(seen.members@).take(seen.members@.len() as int) =~= member_ids(seen.members@));
        out.push(Relation::has_many("members", ids));
    }
    match serves {
        Some(s) => {
            out.push(Relation::has_one("serves", owned(s)));
        },
        None => {},
    }
    assert(rels_view(out@) =~= store_relations(*seen, crate::plugins::drive::opt_str(serves)));
    out
}


fn leader_exec(seen: &Seen) -> (r: &str)
    ensures
        r@ == leader_of(*seen),
{
    proof {
        reveal_strlit("");
    }
    match &seen.status {
        Some(st) => st.leader.as_str(),
        None => "",
    }
}

fn me_exec(seen: &Seen) -> (r: &str)
    ensures
        r@ == me_of(*seen),
{
    proof {
        reveal_strlit("");
    }
    match &seen.status {
        Some(st) => st.member_id.as_str(),
        None => "",
    }
}

fn member_component(mem: &Member, seen: &Seen) -> (c: ComponentSummary)
    ensures
        member_ok(c, *mem, *seen),
        crate::registry::unitless(c.metrics@),
{
    let leader = leader_exec(seen);
    let me = me_exec(seen);
    let is_leader = str_eq(mem.id.as_str(), leader);
    let role = if mem.is_learner { "learner" } else if is_leader { "leader" } else { "follower" };
    // The alarms raised on this member, by index.
    let ghost all = alarm_views(seen.alarms@);
    let mut mine: Vec<usize> = Vec::new();
    let mut names: Vec<String> = Vec::new();
    let ghost mut got: Seq<(Seq<char>, Seq<char>)> = Seq::empty();
    let mut i: usize = 0;
    assert(all.take(0) =~= Seq::<(Seq<char>, Seq<char>)>::empty());
    assert(string_views(names@) =~= Seq::<Seq<char>>::empty());
    while i < seen.alarms.len()
        invariant
            i <= seen.alarms@.len(),
            all == alarm_views(seen.alarms@),
            got == alarms_for(all.take(i as int), mem.id@),
            string_views(names@) == second(got),
            mine@.len() == got.len(),
            forall|k: int| 0 <= k < mine@.len() ==> (#[trigger] mine@[k]) < seen.alarms@.len() && all[mine@[k] as int] == got[k],
        decreases seen.alarms@.len() - i,
    {
        assert(all.take(i + 1).drop_last() == all.take(i as int));
        assert(all.take(i + 1).last() == all[i as int]);
        if str_eq(seen.alarms[i].member_id.as_str(), mem.id.as_str()) {
            let ghost bn = string_views(names@);
            let ghost bg = got;
            names.push(owned(seen.alarms[i].alarm.as_str()));
            mine.push(i);
            proof {
                got = got.push(all[i as int]);
            }
            assert(string_views(names@) =~= bn.push(all[i as int].1));
            assert(second(got) =~= second(bg).push(all[i as int].1));
        }
        i += 1;
    }
    assert(all.take(seen.alarms@.len() as int) == all);
    let (health, why) = if mine.len() > 0 {
        let mut w = owned("alarm ");
        let j = join_strings(&names, ", ");
        push_str(&mut w, j.as_str());
        (Health::Error, w)
    } else if leader.unicode_len() == 0 || str_eq(leader, "0") {
        (Health::Warn, owned("no leader"))
    } else if mem.client_urls.len() == 0 {
        (Health::Warn, owned("not started — no client URLs"))
    } else {
        (Health::Healthy, String::new())
    };
    let mut metrics: Vec<Metric> = Vec::new();
    assert(crate::registry::unitless(metrics@));
    push_metric(&mut metrics, "role", owned(role), Some(if is_leader { "accent" } else { "muted" }));
    push_metric(&mut metrics, "id", owned(mem.id.as_str()), None);
    if mem.client_urls.len() > 0 {
        push_metric(&mut metrics, "client", owned(mem.client_urls[0].as_str()), None);
    }
    if mem.peer_urls.len() > 0 {
        push_metric(&mut metrics, "peer", owned(mem.peer_urls[0].as_str()), None);
    }
    if str_eq(mem.id.as_str(), me) {
        push_metric(&mut metrics, "answering", owned("this node's store"), None);
    }
    assert(metrics_view(metrics@) =~= member_metrics(*mem, *seen));
    let mut detail = if why.as_str().unicode_len() > 0 {
        let mut d = owned(why.as_str());
        push_str(&mut d, " · ");
        push_str(&mut d, role);
        d
    } else {
        owned(role)
    };
    if mem.client_urls.len() > 0 {
        push_str(&mut detail, " · ");
        let j = join_strings(&mem.client_urls, ", ");
        push_str(&mut detail, j.as_str());
    }
    let mut actions: Vec<Action> = Vec::new();
    if mem.client_urls.len() > 0 {
        let path = cat2("/api/plugins/etcd/defragment?member=", mem.id.as_str());
        actions.push(danger(owned("defragment"), owned("Defragment"), path));
    }
    let ghost head = actions_view(actions@);
    let mut k: usize = 0;
    while k < mine.len()
        invariant
            k <= mine@.len(),
            mine@.len() == got.len(),
            forall|q: int| 0 <= q < mine@.len() ==> (#[trigger] mine@[q]) < seen.alarms@.len() && all[mine@[q] as int] == got[q],
            all == alarm_views(seen.alarms@),
            actions_view(actions@) == head + disarm_member(got).take(k as int),
        decreases mine@.len() - k,
    {
        let ghost b = actions_view(actions@);
        let idx = mine[k];
        let a = disarm_action(&seen.alarms[idx], false);
        actions.push(a);
        assert(all[idx as int] == got[k as int]);
        assert(actions_view(actions@) =~= b.push(action_view(a)));
        assert(disarm_member(got).take(k + 1) =~= disarm_member(got).take(k as int).push(action_view(a)));
        k += 1;
    }
    assert(disarm_member(got).take(got.len() as int) =~= disarm_member(got));
    assert(actions_view(actions@) =~= member_actions(*mem, *seen));
    let mut relations: Vec<Relation> = Vec::new();
    relations.push(Relation::belongs_to("store", owned(STORE)));
    assert(rels_view(relations@) =~= seq![("store"@, RelationKind::BelongsTo, seq![STORE@], None::<Seq<char>>)]);
    ComponentSummary {
        id: member_id_exec(mem.id.as_str()),
        kind: owned("member"),
        label: if mem.name.as_str().unicode_len() == 0 { owned(mem.id.as_str()) } else { owned(mem.name.as_str()) },
        health,
        detail,
        metrics,
        actions,
        relations,
        link: None,
    }
}

/// The whole mapping of a poll: the verdict, the card's line, and the
/// store's component followed by one per member.
pub fn build(seen: &Seen, serves: Option<&str>) -> (r: (Health, String, Vec<ComponentSummary>))
    requires
        buildable(*seen),
    ensures
        r.0 == verdict(*seen).0,
        r.1@ == summary_of(*seen),
        r.2@.len() == 1 + seen.members@.len(),
        store_ok(r.2@[0], *seen, crate::plugins::drive::opt_str(serves)),
        forall|i: int| 0 <= i < seen.members@.len() ==> member_ok(#[trigger] r.2@[i + 1], seen.members@[i], *seen),
        crate::registry::all_unitless(r.2@),
{
    let alarms = alarms_exec(seen);
    let (health, why) = verdict_exec(seen, &alarms);
    let summary = summary_exec(seen, &why);
    let gaps = gaps_exec(seen);
    let detail = if gaps.len() == 0 {
        owned(summary.as_str())
    } else {
        let mut d = owned(summary.as_str());
        push_str(&mut d, ". Not shown: ");
        let j = join_strings(&gaps, "; ");
        push_str(&mut d, j.as_str());
        d
    };
    let metrics = store_metrics_exec(seen, &alarms);
    let actions = store_actions_exec(seen);
    let relations = store_relations_exec(seen, serves);
    let store = ComponentSummary {
        id: owned(STORE),
        kind: owned("datastore"),
        label: owned("fastetcd"),
        health,
        detail,
        metrics,
        actions,
        relations,
        link: Some(owned("#/grid?id=etcd:store")),
    };
    let mut out: Vec<ComponentSummary> = Vec::new();
    out.push(store);
    let mut i: usize = 0;
    while i < seen.members.len()
        invariant
            i <= seen.members@.len(),
            out@.len() == 1 + i,
            store_ok(out@[0], *seen, crate::plugins::drive::opt_str(serves)),
            forall|j: int| 0 <= j < i ==> member_ok(#[trigger] out@[j + 1], seen.members@[j], *seen),
            crate::registry::all_unitless(out@),
        decreases seen.members@.len() - i,
    {
        out.push(member_component(&seen.members[i], seen));
        i += 1;
    }
    (health, summary, out)
}

/// The datastore's section: shut, because somebody comes here to find out
/// why the cluster is slow or refusing writes.
pub fn nav() -> (r: Vec<crate::nav::NavSection>)
    ensures
        crate::nav::sections_view(r@) == seq![("Datastore"@, 55i32, crate::nav::NavKind::Admin, seq![("fastetcd"@, "#/grid?id=etcd:store"@, 0i32), ("Members"@, "#/grid?id=etcd:store&rel=members"@, 1i32), ("Keyspace"@, "#/etcd/keys"@, 2i32)])],
{
    let s0_0 = crate::nav::NavSection::new("Datastore", 55).admin();
    let s0_1 = s0_0.item("fastetcd", "#/grid?id=etcd:store");
    let s0_2 = s0_1.item("Members", "#/grid?id=etcd:store&rel=members");
    let s0_3 = s0_2.item("Keyspace", "#/etcd/keys");
    assert(crate::nav::items_view(s0_3) =~= seq![("fastetcd"@, "#/grid?id=etcd:store"@, 0i32), ("Members"@, "#/grid?id=etcd:store&rel=members"@, 1i32), ("Keyspace"@, "#/etcd/keys"@, 2i32)]);
    let r = vec![s0_3];
    assert(crate::nav::sections_view(r@) =~= seq![crate::nav::section_view(s0_3)]);
    r
}

} // verus!
