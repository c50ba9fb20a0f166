//! The fleet: every node heard on the log group, this node's stormd
//! services folded in under it, and a node's own page assembled from what
//! its ports answer.

use vstd::prelude::*;
use vstd::utf8::encode_utf8;
use crate::feed::{healths, worst_first};
use crate::k8s::components::{cat, push_metric, CV, MetricV, RelV, plain, toned};
use crate::logs::beacon::{Beacon, comma_list};
use crate::logs::ring::HostSummary;
use crate::registry::{comp_view, holds_id, id_list, ids_of, metric_view, metrics_view, opt_chars, prune_relations, pruned, rel_view, rels_view};
use crate::sort::{Order, Ranked, sort_stable, sorted};
use crate::view::id_views;
use crate::text::{
    decimal, join, join_strings, owned, parse_u64, push_char, push_decimal, push_signed, push_str, signed_decimal,
    str_eq, string_views,
};
use crate::value::{as_f64, f64_value, lemma_round_bounds, round_half_even, round_u128};
use crate::view::{ComponentSummary, Health, Metric, Relation, RelationKind};

verus! {

/// `x` bytes in a unit of `scale`: whole from ten units up, else to a
/// tenth, rounded half to even.
pub open spec fn scaled(x: nat, scale: nat, name: Seq<char>) -> Seq<char> {
    if x >= 10 * scale {
        decimal(round_half_even(x, scale)) + " "@ + name
    } else {
        let t = round_half_even(10 * x, scale);
        decimal(t / 10) + "."@ + decimal(t % 10) + " "@ + name
    }
}

/// Bytes in binary units, the way memory is sold: `16 GB`, `1.5 GB`,
/// `512 B`, from the exact value of the size as a double.
pub open spec fn binary_bytes(n: u64) -> Seq<char> {
    let x = as_f64(n as nat);
    if n >= 0x100_0000_0000 {
        scaled(x, 0x100_0000_0000, "TB"@)
    } else if n >= 0x4000_0000 {
        scaled(x, 0x4000_0000, "GB"@)
    } else if n >= 0x10_0000 {
        scaled(x, 0x10_0000, "MB"@)
    } else if n >= 0x400 {
        scaled(x, 0x400, "KB"@)
    } else {
        decimal(n as nat) + " B"@
    }
}

fn scaled_exec(x: u128, scale: u128, name: &str) -> (r: String)
    requires
        0x400 <= scale <= 0x100_0000_0000,
        x <= 0x1_0000_0000_0000_1000,
    ensures
        r@ == scaled(x as nat, scale as nat, name@),
{
    let mut s = String::new();
    if x >= 10 * scale {
        proof {
            lemma_round_bounds(x as nat, scale as nat);
            assert((x as nat) / (scale as nat) <= (x as nat) / 0x400) by (nonlinear_arith)
                requires scale >= 0x400;
        }
        push_decimal(&mut s, round_u128(x, scale) as u64);
    } else {
        proof {
            lemma_round_bounds(10 * x as nat, scale as nat);
            assert((10 * x as nat) / (scale as nat) <= (10 * x as nat) / 0x400) by (nonlinear_arith)
                requires scale >= 0x400;
        }
        let t = round_u128(10 * x, scale);
        push_decimal(&mut s, (t / 10) as u64);
        push_str(&mut s, ".");
        push_decimal(&mut s, (t % 10) as u64);
    }
    push_str(&mut s, " ");
    push_str(&mut s, name);
    s
}

/// Bytes as an operator reads them (`human_bytes`).
pub fn human_bytes(n: u64) -> (r: String)
    ensures
        r@ == binary_bytes(n),
{
    if n >= 0x400 {
        let x = f64_value(n);
        if n >= 0x100_0000_0000 {
            scaled_exec(x, 0x100_0000_0000, "TB")
        } else if n >= 0x4000_0000 {
            scaled_exec(x, 0x4000_0000, "GB")
        } else if n >= 0x10_0000 {
            scaled_exec(x, 0x10_0000, "MB")
        } else {
            scaled_exec(x, 0x400, "KB")
        }
    } else {
        let mut s = crate::text::decimal_string(n);
        push_str(&mut s, " B");
        s
    }
}

/// A byte kept as it is in a hash route.
pub open spec fn unreserved(b: u8) -> bool {
    (65 <= b <= 90) || (97 <= b <= 122) || (48 <= b <= 57) || b == 45 || b == 95 || b == 46 || b == 126
}

/// An upper-case hexadecimal digit.
pub open spec fn upper_hex(d: int) -> char {
    if d < 10 { (48 + d) as char } else { (55 + d) as char }
}

pub open spec fn url_byte(b: u8) -> Seq<char> {
    if unreserved(b) {
        seq![b as char]
    } else {
        seq!['%', upper_hex((b / 16) as int), upper_hex((b % 16) as int)]
    }
}

pub open spec fn url_bytes(bs: Seq<u8>) -> Seq<char>
    decreases bs.len(),
{
    if bs.len() == 0 {
        Seq::empty()
    } else {
        url_bytes(bs.drop_last()) + url_byte(bs.last())
    }
}

fn upper_hex_exec(d: u8) -> (c: char)
    requires
        d < 16,
    ensures
        c == upper_hex(d as int),
{
    if d < 10 {
        ((48 + d) as char)
    } else {
        ((55 + d) as char)
    }
}

/// A path segment percent-encoded, byte by byte of its UTF-8
/// (`urlencode`).
pub fn urlencode(s: &str) -> (r: String)
    ensures
        r@ == url_bytes(encode_utf8(s@)),
{
    let bs = s.as_bytes();
    let mut out = String::new();
    let mut i: usize = 0;
    assert(bs@.take(0) =~= Seq::<u8>::empty());
    while i < bs.len()
        invariant
            i <= bs@.len(),
            bs@ == encode_utf8(s@),
            out@ == url_bytes(bs@.take(i as int)),
        decreases bs@.len() - i,
    {
        let b = bs[i];
        assert(bs@.take(i + 1).drop_last() =~= bs@.take(i as int));
        assert(bs@.take(i + 1).last() == b);
        if (65 <= b && b <= 90) || (97 <= b && b <= 122) || (48 <= b && b <= 57) || b == 45 || b == 95 || b == 46
            || b == 126 {
            push_char(&mut out, b as char);
        } else {
            push_char(&mut out, '%');
            push_char(&mut out, upper_hex_exec(b / 16));
            push_char(&mut out, upper_hex_exec(b % 16));
        }
        i += 1;
    }
    assert(bs@.take(bs@.len() as int) =~= bs@);
    out
}

/// A number a beacon carried under `key`.
pub open spec fn beacon_num(b: Beacon, key: Seq<char>) -> Option<u64> {
    match b.param(key) {
        Some(v) => parse_u64(v),
        None => None,
    }
}

pub open spec fn opt_part(o: Option<Seq<char>>) -> Seq<Seq<char>> {
    match o {
        Some(t) => seq![t],
        None => Seq::empty(),
    }
}

/// The clauses of a node's shape, in order, each only where the beacon
/// carried it.
pub open spec fn describe_parts(b: Beacon) -> Seq<Seq<char>> {
    opt_part(
        match beacon_num(b, "cores"@) {
            Some(c) => Some(decimal(c as nat) + " cores"@),
            None => None,
        },
    ) + opt_part(
        match beacon_num(b, "mem_bytes"@) {
            Some(m) => Some(binary_bytes(m) + " RAM"@),
            None => None,
        },
    ) + opt_part(
        match beacon_num(b, "drives"@) {
            Some(d) => Some(decimal(d as nat) + " drive"@ + (if d == 1 { Seq::empty() } else { "s"@ })),
            None => None,
        },
    ) + opt_part(b.param("role"@)) + opt_part(
        match b.param("release"@) {
            Some(r) => Some("release "@ + r),
            None => None,
        },
    )
}

/// A node's shape in one clause, from its beacon.
pub open spec fn describe_spec(b: Beacon) -> Seq<char> {
    let parts = describe_parts(b);
    if parts.len() == 0 {
        "beacon carries no known fields"@
    } else {
        join(parts, " · "@)
    }
}

fn push_part(parts: &mut Vec<String>, t: String)
    ensures
        string_views(final(parts)@) == string_views(old(parts)@).push(t@),
{
    let ghost b = string_views(parts@);
    parts.push(t);
    assert(string_views(parts@) =~= b.push(t@));
}

/// A node's shape in one clause (`describe`).
pub fn describe(b: &Beacon) -> (r: String)
    ensures
        r@ == describe_spec(*b),
{
    let mut parts: Vec<String> = Vec::new();
    assert(string_views(parts@) =~= Seq::<Seq<char>>::empty());
    let ghost p0 = string_views(parts@);
    match b.cores() {
        Some(c) => {
            let mut t = crate::text::decimal_string(c);
            push_str(&mut t, " cores");
            push_part(&mut parts, t);
        },
        None => {},
    }
    match b.mem_bytes() {
        Some(m) => {
            let mut t = human_bytes(m);
            push_str(&mut t, " RAM");
            push_part(&mut parts, t);
        },
        None => {},
    }
    match b.drives() {
        Some(d) => {
            let mut t = crate::text::decimal_string(d);
            push_str(&mut t, " drive");
            if d != 1 {
                push_str(&mut t, "s");
            } else {
                proof {
                    reveal_strlit("");
                }
            }
            push_part(&mut parts, t);
        },
        None => {},
    }
    match b.role() {
        Some(r) => push_part(&mut parts, owned(r)),
        None => {},
    }
    match b.release() {
        Some(r) => push_part(&mut parts, cat("release ", r)),
        None => {},
    }
    assert(string_views(parts@) =~= describe_parts(*b));
    if parts.len() == 0 {
        owned("beacon carries no known fields")
    } else {
        join_strings(&parts, " · ")
    }
}

/// The beacon's facts as metrics, each only where it was carried.
pub open spec fn beacon_metrics(b: Beacon) -> Seq<MetricV> {
    (match beacon_num(b, "cores"@) {
        Some(c) => seq![plain("cores"@, decimal(c as nat))],
        None => Seq::empty(),
    }) + (match beacon_num(b, "mem_bytes"@) {
        Some(m) => seq![plain("memory"@, binary_bytes(m))],
        None => Seq::empty(),
    }) + (match beacon_num(b, "drives"@) {
        Some(d) => seq![plain("drives"@, decimal(d as nat))],
        None => Seq::empty(),
    }) + (match (beacon_num(b, "running"@), beacon_num(b, "failed"@)) {
        (Some(r), Some(f)) => seq![
            toned(
                "workloads"@,
                decimal(r as nat) + " up, "@ + decimal(f as nat) + " down"@,
                if f > 0 { "warn"@ } else { "muted"@ },
            ),
        ],
        _ => Seq::empty(),
    }) + (match b.param("pallets"@) {
        Some(v) => if comma_list(v).len() > 0 {
            seq![toned("pallets"@, decimal(comma_list(v).len()), "muted"@)]
        } else {
            Seq::empty()
        },
        None => Seq::empty(),
    })
}

/// A node card's metrics: the beacon's facts where there are any, then
/// its log events and, for this node, its services.
pub open spec fn node_metrics_spec(count: i64, is_local: bool, services: nat, beacon: Option<Beacon>) -> Seq<MetricV> {
    (match beacon {
        Some(b) => beacon_metrics(b),
        None => Seq::empty(),
    }) + seq![
        toned("events"@, signed_decimal(count as int), "muted"@),
        toned("services"@, if is_local { decimal(services) } else { "—"@ }, "muted"@),
    ]
}

fn push_beacon_metrics(m: &mut Vec<Metric>, b: &Beacon)
    ensures
        metrics_view(final(m)@) == metrics_view(old(m)@) + beacon_metrics(*b),
        crate::registry::unitless(old(m)@) ==> crate::registry::unitless(final(m)@),
{
    let ghost m0 = metrics_view(m@);
    match b.cores() {
        Some(c) => push_metric(m, "cores", crate::text::decimal_string(c), None),
        None => {},
    }
    let ghost m1 = metrics_view(m@);
    match b.mem_bytes() {
        Some(x) => push_metric(m, "memory", human_bytes(x), None),
        None => {},
    }
    let ghost m2 = metrics_view(m@);
    match b.drives() {
        Some(d) => push_metric(m, "drives", crate::text::decimal_string(d), None),
        None => {},
    }
    let ghost m3 = metrics_view(m@);
    match (b.running(), b.failed()) {
        (Some(r), Some(f)) => {
            let mut t = crate::text::decimal_string(r);
            push_str(&mut t, " up, ");
            push_decimal(&mut t, f);
            push_str(&mut t, " down");
            push_metric(m, "workloads", t, Some(if f > 0 { "warn" } else { "muted" }));
        },
        _ => {},
    }
    let ghost m4 = metrics_view(m@);
    let pallets = b.pallets();
    proof {
        assert(pallets@.map_values(|p: &str| p@).len() == pallets@.len());
    }
    if pallets.len() > 0 {
        push_metric(m, "pallets", crate::text::decimal_string(pallets.len() as u64), Some("muted"));
    }
    assert(metrics_view(m@) =~= m0 + beacon_metrics(*b));
}

/// Metrics for a node card (`node_metrics`).
pub fn node_metrics(h: &HostSummary, is_local: bool, services: usize, beacon: Option<&Beacon>) -> (r: Vec<Metric>)
    ensures
        metrics_view(r@) == node_metrics_spec(
            h.count,
            is_local,
            services as nat,
            match beacon {
                Some(b) => Some(*b),
                None => None,
            },
        ),
        crate::registry::unitless(r@),
{
    let mut m: Vec<Metric> = Vec::new();
    assert(metrics_view(m@) =~= Seq::<MetricV>::empty());
    match beacon {
        Some(b) => push_beacon_metrics(&mut m, b),
        None => {},
    }
    push_metric(&mut m, "events", crate::text::signed_string(h.count), Some("muted"));
    let services_text = if is_local { crate::text::decimal_string(services as u64) } else { owned("—") };
    push_metric(&mut m, "services", services_text, Some("muted"));
    m
}

/// The line a node page opens with, given what answered (`note`).
pub open spec fn note_spec(addr: Seq<char>, found: nat, silent: nat) -> Seq<char> {
    if addr.len() == 0 {
        "this node has been heard on the log group but never with an address — nothing can be asked of it until it sends another line"@
    } else if found == 0 {
        "nothing answered on "@ + decimal(silent)
            + " known ports. The node is talking on the log group, so it is up — its services may still be starting, or it may be reachable only on another interface"@
    } else {
        decimal(found) + " services answering, "@ + decimal(silent) + " ports quiet"@
    }
}

pub fn note(addr: &str, found: usize, silent: usize) -> (r: String)
    ensures
        r@ == note_spec(addr@, found as nat, silent as nat),
{
    if crate::text::char_len(addr) == 0 {
        return owned(
            "this node has been heard on the log group but never with an address — nothing can be asked of it until it sends another line",
        );
    }
    if found == 0 {
        let mut s = owned("nothing answered on ");
        push_decimal(&mut s, silent as u64);
        push_str(
            &mut s,
            " known ports. The node is talking on the log group, so it is up — its services may still be starting, or it may be reachable only on another interface",
        );
        s
    } else {
        let mut s = crate::text::decimal_string(found as u64);
        push_str(&mut s, " services answering, ");
        push_decimal(&mut s, silent as u64);
        push_str(&mut s, " ports quiet");
        s
    }
}


/// The instant an RFC 3339 timestamp names, as seconds and nanoseconds
/// since the Unix epoch; `None` where chrono does not parse it.
pub uninterp spec fn rfc3339_parsed(s: Seq<char>) -> Option<(i64, u32)>;

/// `chrono::DateTime::parse_from_rfc3339`, read back as `timestamp()` and
/// `timestamp_subsec_nanos()`. Claimed: the result is the named parse of
/// the text, and a parsed instant lies in chrono's range (under 262,144
/// years from the epoch either way) with under two seconds of nanoseconds
/// (a leap second reads as 1e9 and more).
#[verifier::external_body]
fn rfc3339_instant(s: &str) -> (r: Option<(i64, u32)>)
    ensures
        r == rfc3339_parsed(s@),
        r matches Some((secs, nanos)) ==> -9_000_000_000_000 <= secs <= 9_000_000_000_000 && nanos < 2_000_000_000,
{
    chrono::DateTime::parse_from_rfc3339(s).ok().map(|t| (t.timestamp(), t.timestamp_subsec_nanos()))
}

/// Integer division rounded toward zero.
pub open spec fn trunc_div(t: int, d: int) -> int {
    if t >= 0 { t / d } else { -((-t) / d) }
}

/// Whole seconds from the last line's timestamp to now, rounded toward
/// zero; `i64::MAX` where the timestamp does not parse.
pub open spec fn age_spec(last_ts: Seq<char>, now_secs: i64, now_nanos: u32) -> i64 {
    match rfc3339_parsed(last_ts) {
        Some((s, n)) => trunc_div((now_secs - s) * 1_000_000_000 + (now_nanos - n), 1_000_000_000) as i64,
        None => i64::MAX,
    }
}

/// How long ago a host was last heard, in seconds.
pub fn host_age(last_ts: &str, now_secs: i64, now_nanos: u32) -> (a: i64)
    requires
        -9_000_000_000_000 <= now_secs <= 9_000_000_000_000,
        now_nanos < 2_000_000_000,
    ensures
        a == age_spec(last_ts@, now_secs, now_nanos),
{
    match rfc3339_instant(last_ts) {
        None => i64::MAX,
        Some((s, n)) => {
            let total: i128 = (now_secs as i128 - s as i128) * 1_000_000_000 + (now_nanos as i128 - n as i128);
            let q: i128 = if total >= 0 { total / 1_000_000_000 } else { -((-total) / 1_000_000_000) };
            proof {
                assert(-20_000_000_000_000_000_000_000i128 <= total <= 20_000_000_000_000_000_000_000i128);
                assert(trunc_div(total as int, 1_000_000_000) == q);
                assert(-20_000_000_000_000 <= q <= 20_000_000_000_000) by (nonlinear_arith)
                    requires
                        q == trunc_div(total as int, 1_000_000_000),
                        -20_000_000_000_000_000_000_000 <= total <= 20_000_000_000_000_000_000_000;
            }
            q as i64
        },
    }
}

/// One stormd instance on this node, as its feed last saw it.
#[derive(Debug)]
pub struct ServiceState {
    pub name: String,
    pub port: u16,
    pub components: Vec<ComponentSummary>,
    pub health: Health,
    pub detail: String,
}

/// Where the fleet plugin runs: the group it listens on, the address its
/// local services are reached at, and this node's name.
#[derive(Debug, Clone)]
pub struct FleetConfig {
    pub mcast_group: String,
    pub host: String,
    pub hostname: String,
}

/// A host heard on the group, with how long ago it was last heard put in
/// words the view crate's way (used once that is ten minutes or more).
#[derive(Debug, Clone)]
pub struct Heard {
    pub summary: HostSummary,
    pub ago: String,
}

/// Hosts in name order.
impl Order for Heard {
    open spec fn before(&self, other: &Self) -> bool {
        crate::text::str_lt(self.summary.host@, other.summary.host@)
    }
}

impl Ranked for Heard {
    fn is_before(&self, other: &Self) -> (r: bool) {
        crate::text::str_less(self.summary.host.as_str(), other.summary.host.as_str())
    }
}

pub open spec fn sys_id(name: Seq<char>) -> Seq<char> {
    "fleet:svc:"@ + name + ":system"@
}

/// The components a service's feed contributes: its system card and its
/// processes.
pub open spec fn listed(c: ComponentSummary) -> bool {
    c.kind@ == "system"@ || c.kind@ == "process"@
}

pub open spec fn listed_ids(cs: Seq<ComponentSummary>) -> Seq<Seq<char>>
    decreases cs.len(),
{
    if cs.len() == 0 {
        Seq::empty()
    } else {
        listed_ids(cs.drop_last()) + (if listed(cs.last()) { seq![cs.last().id@] } else { Seq::empty() })
    }
}

pub open spec fn port_metric(port: u16) -> MetricV {
    toned("port"@, decimal(port as nat), "muted"@)
}

pub open spec fn on_local_node() -> RelV {
    ("node"@, RelationKind::BelongsTo, seq!["fleet:node:local"@], None)
}

/// Straight to a service's own lines.
pub open spec fn logs_link(name: Seq<char>) -> Seq<char> {
    "#/logs?app="@ + url_bytes(encode_utf8(name))
}

/// A kept component: its relations re-pointed at what was kept, and the
/// system card turned into the service's card.
pub open spec fn kept_cv(c: ComponentSummary, name: Seq<char>, port: u16, keep: Seq<Seq<char>>) -> CV {
    let v = comp_view(c);
    let rs = pruned(v.7, keep);
    if v.0 == sys_id(name) {
        (
            v.0,
            "service"@,
            v.2,
            v.3,
            v.4,
            seq![port_metric(port)] + v.5,
            v.6,
            rs.push(on_local_node()),
            match v.8 {
                Some(l) => Some(l),
                None => Some(logs_link(name)),
            },
        )
    } else {
        (v.0, v.1, v.2, v.3, v.4, v.5, v.6, rs, v.8)
    }
}

pub open spec fn kept_views(cs: Seq<ComponentSummary>, name: Seq<char>, port: u16, keep: Seq<Seq<char>>) -> Seq<CV>
    decreases cs.len(),
{
    if cs.len() == 0 {
        Seq::empty()
    } else {
        kept_views(cs.drop_last(), name, port, keep) + (if keep.contains(cs.last().id@) {
            seq![kept_cv(cs.last(), name, port, keep)]
        } else {
            Seq::empty()
        })
    }
}

/// A service whose feed is down, where the service was.
pub open spec fn down_cv(name: Seq<char>, port: u16, health: Health, detail: Seq<char>) -> CV {
    (sys_id(name), "service"@, name, health, detail, seq![port_metric(port)], Seq::empty(), seq![on_local_node()], Some(logs_link(name)))
}

pub open spec fn service_views(s: ServiceState) -> Seq<CV> {
    let keep = listed_ids(s.components@);
    kept_views(s.components@, s.name@, s.port, keep) + (if keep.contains(sys_id(s.name@)) {
        Seq::empty()
    } else {
        seq![down_cv(s.name@, s.port, s.health, s.detail@)]
    })
}

pub open spec fn services_views(ss: Seq<ServiceState>) -> Seq<CV>
    decreases ss.len(),
{
    if ss.len() == 0 {
        Seq::empty()
    } else {
        services_views(ss.drop_last()) + service_views(ss.last())
    }
}

pub open spec fn service_ids(ss: Seq<ServiceState>) -> Seq<Seq<char>> {
    ss.map_values(|s: ServiceState| sys_id(s.name@))
}

fn listed_ids_exec(cs: &Vec<ComponentSummary>) -> (r: Vec<String>)
    ensures
        id_views(r@) == listed_ids(cs@),
{
    let mut out: Vec<String> = Vec::new();
    let mut i: usize = 0;
    assert(cs@.take(0) =~= Seq::<ComponentSummary>::empty());
    assert(id_views(out@) =~= Seq::<Seq<char>>::empty());
    while i < cs.len()
        invariant
            i <= cs@.len(),
            id_views(out@) == listed_ids(cs@.take(i as int)),
        decreases cs@.len() - i,
    {
        assert(cs@.take(i + 1).drop_last() =~= cs@.take(i as int));
        assert(cs@.take(i + 1).last() == cs@[i as int]);
        if str_eq(cs[i].kind.as_str(), "system") || str_eq(cs[i].kind.as_str(), "process") {
            let ghost b = id_views(out@);
            let id = owned(cs[i].id.as_str());
            out.push(id);
            assert(id_views(out@) =~= b.push(id@));
        } else {
            assert(id_views(out@) =~= id_views(out@) + Seq::<Seq<char>>::empty());
        }
        i += 1;
    }
    assert(cs@.take(cs@.len() as int) =~= cs@);
    out
}

fn keep_component(c: ComponentSummary, name: &str, port: u16, keep: &Vec<String>) -> (r: ComponentSummary)
    ensures
        comp_view(r) == kept_cv(c, name@, port, id_views(keep@)),
{
    let ComponentSummary { id, kind, label, health, detail, metrics, actions, relations, link } = c;
    let relations = prune_relations(relations, keep.as_slice());
    let sid = {
        let mut t = cat("fleet:svc:", name);
        push_str(&mut t, ":system");
        t
    };
    if str_eq(id.as_str(), sid.as_str()) {
        let mut metrics = metrics;
        let ghost m0 = metrics_view(metrics@);
        let pm = Metric::new("port", crate::text::decimal_string(port as u64)).tone("muted");
        metrics.insert(0, pm);
        assert(metrics_view(metrics@) =~= seq![metric_view(pm)] + m0);
        let mut relations = relations;
        let r = Relation::belongs_to("node", owned("fleet:node:local"));
        let ghost r0 = rels_view(relations@);
        relations.push(r);
        assert(rels_view(relations@) =~= r0.push(rel_view(r)));
        let link = match link {
            Some(l) => Some(l),
            None => Some(cat("#/logs?app=", urlencode(name).as_str())),
        };
        ComponentSummary { id, kind: owned("service"), label, health, detail, metrics, actions, relations, link }
    } else {
        ComponentSummary { id, kind, label, health, detail, metrics, actions, relations, link }
    }
}

fn push_service(out: &mut Vec<ComponentSummary>, s: ServiceState)
    ensures
        crate::k8s::components::cv_of(final(out)@) == crate::k8s::components::cv_of(old(out)@) + service_views(s),
        old(out)@.len() <= final(out)@.len(),
        forall|k: int| 0 <= k < old(out)@.len() ==> #[trigger] final(out)@[k] == old(out)@[k],
{
    let ghost out0 = out@;
    let ghost start = crate::k8s::components::cv_of(out@);
    let ServiceState { name, port, components, health, detail } = s;
    let keep = listed_ids_exec(&components);
    let ghost cs = components@;
    let ghost kv = id_views(keep@);
    let mut rest = components;
    let mut k: usize = 0;
    let n = rest.len();
    assert(cs.take(0) =~= Seq::<ComponentSummary>::empty());
    assert(cs.skip(0) =~= cs);
    while k < n
        invariant
            n == cs.len(),
            k <= n,
            rest@ == cs.skip(k as int),
            kv == id_views(keep@),
            crate::k8s::components::cv_of(out@) == start + kept_views(cs.take(k as int), name@, port, kv),
            out0.len() <= out@.len(),
            forall|q: int| 0 <= q < out0.len() ==> #[trigger] out@[q] == out0[q],
        decreases n - k,
    {
        let c = rest.remove(0);
        assert(c == cs[k as int]);
        assert(rest@ =~= cs.skip(k + 1));
        assert(cs.take(k + 1).drop_last() =~= cs.take(k as int));
        assert(cs.take(k + 1).last() == c);
        if holds_id(keep.as_slice(), c.id.as_str()) {
            let kc = keep_component(c, name.as_str(), port, &keep);
            let ghost b = crate::k8s::components::cv_of(out@);
            out.push(kc);
            assert(crate::k8s::components::cv_of(out@) =~= b.push(comp_view(kc)));
        } else {
            assert(kept_views(cs.take(k + 1), name@, port, kv) =~= kept_views(cs.take(k as int), name@, port, kv));
        }
        k += 1;
    }
    assert(cs.take(n as int) =~= cs);
    let sid = {
        let mut t = cat("fleet:svc:", name.as_str());
        push_str(&mut t, ":system");
        t
    };
    let ghost mid = crate::k8s::components::cv_of(out@);
    if !holds_id(keep.as_slice(), sid.as_str()) {
        let mut metrics: Vec<Metric> = Vec::new();
        assert(metrics_view(metrics@) =~= Seq::<MetricV>::empty());
        push_metric(&mut metrics, "port", crate::text::decimal_string(port as u64), Some("muted"));
        let r = Relation::belongs_to("node", owned("fleet:node:local"));
        let mut relations: Vec<Relation> = Vec::new();
        relations.push(r);
        assert(rels_view(relations@) =~= seq![rel_view(r)]);
        let link = Some(cat("#/logs?app=", urlencode(name.as_str()).as_str()));
        let label = owned(name.as_str());
        let c = ComponentSummary {
            id: sid,
            kind: owned("service"),
            label,
            health,
            detail,
            metrics,
            actions: Vec::new(),
            relations,
            link,
        };
        assert(crate::registry::actions_view(c.actions@) =~= Seq::<crate::k8s::components::ActionV>::empty());
        out.push(c);
        assert(crate::k8s::components::cv_of(out@) =~= mid.push(comp_view(c)));
    }
}


/// A host's health and when it was last heard, in words.
pub open spec fn seen_text(age: i64, ago: Seq<char>) -> (Health, Seq<char>) {
    if age < 120 {
        (Health::Healthy, "just now"@)
    } else if age < 600 {
        (Health::Warn, decimal((age / 60) as nat) + " min ago"@)
    } else if age == i64::MAX {
        (Health::Unknown, "unknown"@)
    } else {
        (Health::Error, ago + " ago"@)
    }
}

/// A node card's health follows how long ago its host was last heard:
/// healthy only within the last two minutes, a warning until ten, an error
/// from ten minutes on, and unknown when its last timestamp cannot be read.
pub proof fn law_node_health(cfg: FleetConfig, h: Heard, svc: Seq<Seq<char>>, beacons: Seq<Beacon>, now_secs: i64, now_nanos: u32)
    ensures
        ({
            let age = age_spec(h.summary.last_ts@, now_secs, now_nanos);
            let health = node_cv(cfg, h, svc, beacons, now_secs, now_nanos).3;
            &&& health == Health::Healthy <==> age < 120
            &&& 120 <= age < 600 ==> health == Health::Warn
            &&& 600 <= age && rfc3339_parsed(h.summary.last_ts@) is Some && age != i64::MAX ==> health == Health::Error
            &&& rfc3339_parsed(h.summary.last_ts@) is None ==> health == Health::Unknown
        }),
{
}

pub open spec fn beacon_at(bs: Seq<Beacon>, host: Seq<char>) -> spec_fn(int) -> bool {
    |i: int| bs[i].host@ == host
}

/// The beacon a host sent, if any.
pub open spec fn beacon_for(bs: Seq<Beacon>, host: Seq<char>) -> Option<Beacon> {
    match crate::text::first_at(bs.len() as int, beacon_at(bs, host)) {
        Some(i) => Some(bs[i]),
        None => None,
    }
}

fn beacon_for_exec<'a>(bs: &'a [Beacon], host: &str) -> (r: Option<&'a Beacon>)
    ensures
        match r {
            Some(b) => beacon_for(bs@, host@) == Some(*b),
            None => beacon_for(bs@, host@) is None,
        },
{
    let mut i: usize = 0;
    while i < bs.len()
        invariant
            i <= bs@.len(),
            forall|j: int| 0 <= j < i ==> !#[trigger] beacon_at(bs@, host@)(j),
        decreases bs@.len() - i,
    {
        if str_eq(bs[i].host.as_str(), host) {
            proof {
                crate::text::lemma_first_at_some(bs@.len() as int, beacon_at(bs@, host@), i as int);
            }
            return Some(&bs[i]);
        }
        i += 1;
    }
    proof {
        crate::text::lemma_first_at_none(bs@.len() as int, beacon_at(bs@, host@));
    }
    None
}

pub open spec fn local_id() -> Seq<char> {
    "fleet:node:local"@
}

pub open spec fn services_rel(svc: Seq<Seq<char>>) -> Seq<RelV> {
    seq![("services"@, RelationKind::HasMany, svc, None)]
}

/// A host heard on the group, as a node card.
pub open spec fn node_cv(cfg: FleetConfig, h: Heard, svc: Seq<Seq<char>>, beacons: Seq<Beacon>, now_secs: i64, now_nanos: u32) -> CV {
    let s = h.summary;
    let is_local = s.host@ == cfg.hostname@;
    let (health, seen) = seen_text(age_spec(s.last_ts@, now_secs, now_nanos), h.ago@);
    let addr = if s.addr@.len() == 0 { "no address yet"@ } else { s.addr@ };
    let here = if is_local { " · this node"@ } else { Seq::empty() };
    let b = beacon_for(beacons, s.host@);
    let detail = match b {
        Some(b) => addr + here + " · "@ + describe_spec(b) + " · last seen "@ + seen,
        None => addr + here + " · "@ + signed_decimal(s.count as int) + " log events · last seen "@ + seen,
    };
    (
        if is_local { local_id() } else { "fleet:node:"@ + s.host@ },
        "node"@,
        s.host@,
        health,
        detail,
        node_metrics_spec(s.count, is_local, svc.len(), b),
        Seq::empty(),
        if is_local && svc.len() > 0 { services_rel(svc) } else { Seq::empty() },
        Some("#/node/"@ + s.host@),
    )
}

pub open spec fn is_loopback(host: Seq<char>) -> bool {
    host == "127.0.0.1"@ || host == "localhost"@ || host == "::1"@
}

/// This node, when it has not been heard on the group yet: it exists,
/// because the console is running on it.
pub open spec fn local_cv(cfg: FleetConfig, svc: Seq<Seq<char>>) -> CV {
    let n = svc.len();
    (
        local_id(),
        "node"@,
        cfg.hostname@,
        if n == 0 { Health::Idle } else { Health::Healthy },
        if !is_loopback(cfg.host@) {
            "services at "@ + cfg.host@ + " · "@ + decimal(n) + " found"@
        } else {
            "this node · "@ + decimal(n) + " services · not yet heard on "@ + cfg.mcast_group@
        },
        seq![toned("services"@, decimal(n), "muted"@)],
        Seq::empty(),
        if n == 0 { Seq::empty() } else { services_rel(svc) },
        Some("#/node/"@ + cfg.hostname@),
    )
}

pub open spec fn nodes_views(cfg: FleetConfig, hs: Seq<Heard>, svc: Seq<Seq<char>>, beacons: Seq<Beacon>, now_secs: i64, now_nanos: u32) -> Seq<CV> {
    hs.map_values(|h: Heard| node_cv(cfg, h, svc, beacons, now_secs, now_nanos))
}

pub open spec fn cv_ids(cs: Seq<CV>) -> Seq<Seq<char>> {
    cs.map_values(|c: CV| c.0)
}

/// The fleet as components: every heard node in name order (this node
/// added when it has not been heard), then this node's services.
pub open spec fn fleet_views(
    cfg: FleetConfig,
    services: Seq<ServiceState>,
    heard: Seq<Heard>,
    beacons: Seq<Beacon>,
    now_secs: i64,
    now_nanos: u32,
) -> Seq<CV> {
    let svc = service_ids(services);
    let ns = nodes_views(cfg, sorted(heard), svc, beacons, now_secs, now_nanos);
    ns + (if cv_ids(ns).contains(local_id()) { Seq::empty() } else { seq![local_cv(cfg, svc)] }) + services_views(services)
}

proof fn lemma_heard_order()
    ensures
        crate::sort::strict_order::<Heard>(),
{
    assert forall|a: Heard| !#[trigger] a.before(&a) by {
        crate::text::lemma_str_lt_irreflexive(a.summary.host@);
    }
    assert forall|a: Heard, b: Heard, c: Heard| #[trigger] a.before(&b) && #[trigger] b.before(&c) implies a.before(&c) by {
        crate::text::lemma_str_lt_transitive(a.summary.host@, b.summary.host@, c.summary.host@);
    }
}

/// Every host heard on the group is a node card, and the node cards come
/// first, in name order: one card per host heard, its label the host's
/// name, its kind `node`.
pub proof fn law_fleet_nodes(
    cfg: FleetConfig,
    services: Seq<ServiceState>,
    heard: Seq<Heard>,
    beacons: Seq<Beacon>,
    now_secs: i64,
    now_nanos: u32,
)
    ensures
        ({
            let vs = fleet_views(cfg, services, heard, beacons, now_secs, now_nanos);
            &&& forall|i: int| 0 <= i < heard.len() ==> exists|k: int| 0 <= k < heard.len()
                && (#[trigger] vs[k]).2 == (#[trigger] heard[i]).summary.host@ && vs[k].1 == "node"@
            &&& forall|a: int, b: int| #![trigger vs[a], vs[b]] 0 <= a < b < heard.len() ==> !crate::text::str_lt(vs[b].2, vs[a].2)
        }),
{
    let svc = service_ids(services);
    let hs = sorted(heard);
    let ns = nodes_views(cfg, hs, svc, beacons, now_secs, now_nanos);
    let vs = fleet_views(cfg, services, heard, beacons, now_secs, now_nanos);
    crate::sort::lemma_sorted_members(heard);
    lemma_heard_order();
    crate::sort::lemma_sorted_ordered(heard);
    assert forall|k: int| 0 <= k < hs.len() implies (#[trigger] vs[k]) == node_cv(cfg, hs[k], svc, beacons, now_secs, now_nanos) by {
        assert(vs[k] == ns[k]);
    }
    assert forall|i: int| 0 <= i < heard.len() implies exists|k: int| 0 <= k < heard.len()
        && (#[trigger] vs[k]).2 == (#[trigger] heard[i]).summary.host@ && vs[k].1 == "node"@ by {
        assert(hs.contains(heard[i]));
        let k = choose|k: int| 0 <= k < hs.len() && hs[k] == heard[i];
        assert(vs[k] == node_cv(cfg, hs[k], svc, beacons, now_secs, now_nanos));
    }
    assert forall|a: int, b: int| #![trigger vs[a], vs[b]] 0 <= a < b < heard.len() implies !crate::text::str_lt(vs[b].2, vs[a].2) by {
        assert(vs[a] == node_cv(cfg, hs[a], svc, beacons, now_secs, now_nanos));
        assert(vs[b] == node_cv(cfg, hs[b], svc, beacons, now_secs, now_nanos));
        assert(!hs[b].before(&hs[a]));
    }
}

/// How many node cards lead the fleet's components: one per host heard,
/// and the local node's when it was not heard.
pub open spec fn fleet_node_count(
    cfg: FleetConfig,
    services: Seq<ServiceState>,
    heard: Seq<Heard>,
    beacons: Seq<Beacon>,
    now_secs: i64,
    now_nanos: u32,
) -> int {
    let svc = service_ids(services);
    let ns = nodes_views(cfg, sorted(heard), svc, beacons, now_secs, now_nanos);
    ns.len() + (if cv_ids(ns).contains(local_id()) { 0int } else { 1int })
}

fn node_component(cfg: &FleetConfig, h: &Heard, svc: &Vec<String>, beacons: &[Beacon], now_secs: i64, now_nanos: u32) -> (c: ComponentSummary)
    requires
        -9_000_000_000_000 <= now_secs <= 9_000_000_000_000,
        now_nanos < 2_000_000_000,
    ensures
        comp_view(c) == node_cv(*cfg, *h, id_views(svc@), beacons@, now_secs, now_nanos),
        crate::registry::unitless(c.metrics@),
        c.health == Health::Healthy <==> age_spec(h.summary.last_ts@, now_secs, now_nanos) < 120,
        600 <= age_spec(h.summary.last_ts@, now_secs, now_nanos) < i64::MAX ==> c.health == Health::Error,
{
    proof {
        law_node_health(*cfg, *h, id_views(svc@), beacons@, now_secs, now_nanos);
    }
    let s = &h.summary;
    let is_local = str_eq(s.host.as_str(), cfg.hostname.as_str());
    let age = host_age(s.last_ts.as_str(), now_secs, now_nanos);
    let (health, seen) = if age < 120 {
        (Health::Healthy, owned("just now"))
    } else if age < 600 {
        let mut t = crate::text::decimal_string((age / 60) as u64);
        push_str(&mut t, " min ago");
        (Health::Warn, t)
    } else if age == i64::MAX {
        (Health::Unknown, owned("unknown"))
    } else {
        (Health::Error, cat(h.ago.as_str(), " ago"))
    };
    let mut detail = if crate::text::char_len(s.addr.as_str()) == 0 { owned("no address yet") } else { owned(s.addr.as_str()) };
    if is_local {
        push_str(&mut detail, " · this node");
    } else {
        proof {
            reveal_strlit("");
        }
    }
    push_str(&mut detail, " · ");
    let b = beacon_for_exec(beacons, s.host.as_str());
    match b {
        Some(b) => {
            push_str(&mut detail, describe(b).as_str());
            push_str(&mut detail, " · last seen ");
        },
        None => {
            push_signed(&mut detail, s.count);
            push_str(&mut detail, " log events · last seen ");
        },
    }
    push_str(&mut detail, seen.as_str());
    let metrics = node_metrics(s, is_local, svc.len(), b);
    let mut relations: Vec<Relation> = Vec::new();
    if is_local && svc.len() > 0 {
        let mut ids: Vec<String> = Vec::new();
        let mut i: usize = 0;
        while i < svc.len()
            invariant
                i <= svc@.len(),
                id_views(ids@) == id_views(svc@).take(i as int),
            decreases svc@.len() - i,
        {
            let ghost b0 = id_views(ids@);
            let t = owned(svc[i].as_str());
            ids.push(t);
            assert(id_views(ids@) =~= b0.push(t@));
            assert(id_views(svc@).take(i + 1) =~= id_views(svc@).take(i as int).push(svc@[i as int]@));
            i += 1;
        }
        assert(id_views(svc@).take(svc@.len() as int) =~= id_views(svc@));
        let r = Relation::has_many("services", ids);
        relations.push(r);
        assert(rels_view(relations@) =~= services_rel(id_views(svc@)));
    } else {
        assert(rels_view(relations@) =~= Seq::<RelV>::empty());
    }
    let id = if is_local { owned("fleet:node:local") } else { cat("fleet:node:", s.host.as_str()) };
    let c = ComponentSummary {
        id,
        kind: owned("node"),
        label: owned(s.host.as_str()),
        health,
        detail,
        metrics,
        actions: Vec::new(),
        relations,
        link: Some(cat("#/node/", s.host.as_str())),
    };
    assert(crate::registry::actions_view(c.actions@) =~= Seq::<crate::k8s::components::ActionV>::empty());
    c
}

fn local_component(cfg: &FleetConfig, svc: &Vec<String>) -> (c: ComponentSummary)
    ensures
        comp_view(c) == local_cv(*cfg, id_views(svc@)),
        crate::registry::unitless(c.metrics@),
{
    let n = svc.len();
    let h = cfg.host.as_str();
    let remote = !(str_eq(h, "127.0.0.1") || str_eq(h, "localhost") || str_eq(h, "::1"));
    let detail = if remote {
        let mut t = cat("services at ", h);
        push_str(&mut t, " · ");
        push_decimal(&mut t, n as u64);
        push_str(&mut t, " found");
        t
    } else {
        let mut t = owned("this node · ");
        push_decimal(&mut t, n as u64);
        push_str(&mut t, " services · not yet heard on ");
        push_str(&mut t, cfg.mcast_group.as_str());
        t
    };
    let mut metrics: Vec<Metric> = Vec::new();
    assert(metrics_view(metrics@) =~= Seq::<MetricV>::empty());
    assert(crate::registry::unitless(metrics@));
    push_metric(&mut metrics, "services", crate::text::decimal_string(n as u64), Some("muted"));
    let mut relations: Vec<Relation> = Vec::new();
    if n > 0 {
        let mut ids: Vec<String> = Vec::new();
        let mut i: usize = 0;
        while i < svc.len()
            invariant
                i <= svc@.len(),
                id_views(ids@) == id_views(svc@).take(i as int),
            decreases svc@.len() - i,
        {
            let ghost b0 = id_views(ids@);
            let t = owned(svc[i].as_str());
            ids.push(t);
            assert(id_views(ids@) =~= b0.push(t@));
            assert(id_views(svc@).take(i + 1) =~= id_views(svc@).take(i as int).push(svc@[i as int]@));
            i += 1;
        }
        assert(id_views(svc@).take(svc@.len() as int) =~= id_views(svc@));
        let r = Relation::has_many("services", ids);
        relations.push(r);
        assert(rels_view(relations@) =~= services_rel(id_views(svc@)));
    } else {
        assert(rels_view(relations@) =~= Seq::<RelV>::empty());
    }
    let c = ComponentSummary {
        id: owned("fleet:node:local"),
        kind: owned("node"),
        label: owned(cfg.hostname.as_str()),
        health: if n == 0 { Health::Idle } else { Health::Healthy },
        detail,
        metrics,
        actions: Vec::new(),
        relations,
        link: Some(cat("#/node/", cfg.hostname.as_str())),
    };
    assert(crate::registry::actions_view(c.actions@) =~= Seq::<crate::k8s::components::ActionV>::empty());
    c
}

/// The fleet's components (`FleetPlugin::components`), from this node's
/// services as their feeds last saw them, the hosts the collector has
/// heard, their beacons, and the time now.
pub fn components(
    cfg: &FleetConfig,
    services: Vec<ServiceState>,
    heard: Vec<Heard>,
    beacons: &[Beacon],
    now_secs: i64,
    now_nanos: u32,
) -> (r: Vec<ComponentSummary>)
    requires
        -9_000_000_000_000 <= now_secs <= 9_000_000_000_000,
        now_nanos < 2_000_000_000,
    ensures
        crate::k8s::components::cv_of(r@) == fleet_views(*cfg, services@, heard@, beacons@, now_secs, now_nanos),
        // The node cards, which lead, carry no units; the services' own
        // components come as their feeds sent them.
        forall|k: int| 0 <= k < fleet_node_count(*cfg, services@, heard@, beacons@, now_secs, now_nanos)
            ==> crate::registry::unitless((#[trigger] r@[k]).metrics@),
{
    let ghost ss = services@;
    // Service ids first, so the local node can point at them.
    let mut svc_ids: Vec<String> = Vec::new();
    let mut i: usize = 0;
    while i < services.len()
        invariant
            i <= services@.len(),
            ss == services@,
            id_views(svc_ids@) == service_ids(ss).take(i as int),
        decreases services@.len() - i,
    {
        let mut t = cat("fleet:svc:", services[i].name.as_str());
        push_str(&mut t, ":system");
        let ghost b0 = id_views(svc_ids@);
        svc_ids.push(t);
        assert(id_views(svc_ids@) =~= b0.push(t@));
        assert(service_ids(ss).take(i + 1) =~= service_ids(ss).take(i as int).push(sys_id(ss[i as int].name@)));
        i += 1;
    }
    assert(service_ids(ss).take(ss.len() as int) =~= service_ids(ss));
    let ghost svc = service_ids(ss);
    // Nodes: every host heard, in name order.
    let hosts = sort_stable(heard);
    let ghost hs = hosts@;
    let mut nodes: Vec<ComponentSummary> = Vec::new();
    let mut k: usize = 0;
    while k < hosts.len()
        invariant
            k <= hosts@.len(),
            hs == hosts@,
            svc == id_views(svc_ids@),
            -9_000_000_000_000 <= now_secs <= 9_000_000_000_000,
            now_nanos < 2_000_000_000,
            crate::k8s::components::cv_of(nodes@) == nodes_views(*cfg, hs.take(k as int), svc, beacons@, now_secs, now_nanos),
            crate::registry::all_unitless(nodes@),
        decreases hosts@.len() - k,
    {
        let c = node_component(cfg, &hosts[k], &svc_ids, beacons, now_secs, now_nanos);
        let ghost b0 = crate::k8s::components::cv_of(nodes@);
        nodes.push(c);
        assert(crate::k8s::components::cv_of(nodes@) =~= b0.push(comp_view(c)));
        assert(hs.take(k + 1) =~= hs.take(k as int).push(hs[k as int]));
        assert(nodes_views(*cfg, hs.take(k + 1), svc, beacons@, now_secs, now_nanos) =~= nodes_views(
            *cfg,
            hs.take(k as int),
            svc,
            beacons@,
            now_secs,
            now_nanos,
        ).push(node_cv(*cfg, hs[k as int], svc, beacons@, now_secs, now_nanos)));
        k += 1;
    }
    assert(hs.take(hs.len() as int) =~= hs);
    let ghost ns = crate::k8s::components::cv_of(nodes@);
    let node_ids = id_list(&nodes);
    assert(id_views(node_ids@) =~= cv_ids(ns));
    if !holds_id(node_ids.as_slice(), "fleet:node:local") {
        let c = local_component(cfg, &svc_ids);
        nodes.push(c);
        assert(crate::k8s::components::cv_of(nodes@) =~= ns.push(comp_view(c)));
    } else {
        assert(crate::k8s::components::cv_of(nodes@) =~= ns + Seq::<CV>::empty());
    }
    // Then each service's components.
    let ghost front = crate::k8s::components::cv_of(nodes@);
    let ghost front_cs = nodes@;
    assert(crate::registry::all_unitless(front_cs));
    let mut rest = services;
    let n = rest.len();
    let mut j: usize = 0;
    assert(ss.take(0) =~= Seq::<ServiceState>::empty());
    assert(ss.skip(0) =~= ss);
    while j < n
        invariant
            n == ss.len(),
            j <= n,
            rest@ == ss.skip(j as int),
            crate::k8s::components::cv_of(nodes@) == front + services_views(ss.take(j as int)),
            front_cs.len() <= nodes@.len(),
            forall|q: int| 0 <= q < front_cs.len() ==> #[trigger] nodes@[q] == front_cs[q],
        decreases n - j,
    {
        let s = rest.remove(0);
        assert(s == ss[j as int]);
        assert(rest@ =~= ss.skip(j + 1));
        assert(ss.take(j + 1).drop_last() =~= ss.take(j as int));
        assert(ss.take(j + 1).last() == s);
        let ghost b0 = crate::k8s::components::cv_of(nodes@);
        push_service(&mut nodes, s);
        assert(front + services_views(ss.take(j + 1)) =~= b0 + service_views(s));
        j += 1;
    }
    assert(ss.take(n as int) =~= ss);
    assert(front_cs.len() == front.len());
    assert forall|k: int| 0 <= k < fleet_node_count(*cfg, services@, heard@, beacons@, now_secs, now_nanos)
        implies crate::registry::unitless((#[trigger] nodes@[k]).metrics@) by {
        assert(nodes@[k] == front_cs[k]);
    }
    nodes
}


/// The StormCOS port layout as a node presents it: each port serves a
/// stormview feed, named by the daemon expected there (`NODE_PORTS`).
pub open spec fn node_ports_spec() -> Seq<(u16, Seq<char>)> {
    seq![
        (9080u16, "stormd"@),
        (9081u16, "fastetcd (stormd)"@),
        (9082u16, "kube-apiserver (stormd)"@),
        (9083u16, "kube-controller-manager (stormd)"@),
        (9084u16, "kube-scheduler (stormd)"@),
        (9085u16, "rustkube-node (stormd)"@),
        (9092u16, "stormdrive"@),
        (9093u16, "stormstorage"@),
        (9094u16, "stormconsole"@),
        (9097u16, "stormipmi"@),
        (9192u16, "stormdrive (stormd)"@),
        (9193u16, "stormstorage (stormd)"@),
        (9194u16, "stormconsole (stormd)"@),
        (9195u16, "stormvm (stormd)"@),
        (9196u16, "cadvisor (stormd)"@),
        (9197u16, "stormipmi (stormd)"@),
        (9199u16, "vmcloud-image-operator (stormd)"@),
        (180u16, "stormlb (stormd)"@),
    ]
}

pub open spec fn port_views(v: Seq<(u16, &str)>) -> Seq<(u16, Seq<char>)> {
    v.map_values(|e: (u16, &str)| (e.0, e.1@))
}

pub fn node_ports() -> (r: Vec<(u16, &'static str)>)
    ensures
        port_views(r@) == node_ports_spec(),
{
    let r = vec![
        (9080u16, "stormd"),
        (9081u16, "fastetcd (stormd)"),
        (9082u16, "kube-apiserver (stormd)"),
        (9083u16, "kube-controller-manager (stormd)"),
        (9084u16, "kube-scheduler (stormd)"),
        (9085u16, "rustkube-node (stormd)"),
        (9092u16, "stormdrive"),
        (9093u16, "stormstorage"),
        (9094u16, "stormconsole"),
        (9097u16, "stormipmi"),
        (9192u16, "stormdrive (stormd)"),
        (9193u16, "stormstorage (stormd)"),
        (9194u16, "stormconsole (stormd)"),
        (9195u16, "stormvm (stormd)"),
        (9196u16, "cadvisor (stormd)"),
        (9197u16, "stormipmi (stormd)"),
        (9199u16, "vmcloud-image-operator (stormd)"),
        (180u16, "stormlb (stormd)"),
    ];
    assert(port_views(r@) =~= node_ports_spec());
    r
}

/// How many components have health `h`.
pub open spec fn count_of(cs: Seq<ComponentSummary>, h: Health) -> nat
    decreases cs.len(),
{
    if cs.len() == 0 {
        0
    } else {
        count_of(cs.drop_last(), h) + (if cs.last().health == h { 1nat } else { 0nat })
    }
}

pub open spec fn count_part(n: nat, label: Seq<char>) -> Seq<Seq<char>> {
    if n > 0 { seq![decimal(n) + " "@ + label] } else { Seq::empty() }
}

/// The shape of a feed: how many are failed, degraded, ready and idle.
pub open spec fn shape(cs: Seq<ComponentSummary>) -> Seq<char> {
    join(
        count_part(count_of(cs, Health::Error), "failed"@) + count_part(count_of(cs, Health::Warn), "degraded"@)
            + count_part(count_of(cs, Health::Healthy), "ready"@) + count_part(count_of(cs, Health::Idle), "idle"@),
        " · "@,
    )
}

/// A daemon's verdict on itself, or the feed's worst case and its shape.
pub open spec fn node_summary(cs: Seq<ComponentSummary>) -> (Health, Seq<char>) {
    match crate::text::first_at(cs.len() as int, crate::feed::system_at(cs)) {
        Some(i) => (cs[i].health, cs[i].detail@),
        None => (worst_first(healths(cs)), shape(cs)),
    }
}

fn count_exec(cs: &Vec<ComponentSummary>, h: Health) -> (r: usize)
    ensures
        r == count_of(cs@, h),
{
    let mut n: usize = 0;
    let mut i: usize = 0;
    assert(cs@.take(0) =~= Seq::<ComponentSummary>::empty());
    while i < cs.len()
        invariant
            i <= cs@.len(),
            n == count_of(cs@.take(i as int), h),
            n <= i,
        decreases cs@.len() - i,
    {
        assert(cs@.take(i + 1).drop_last() =~= cs@.take(i as int));
        assert(cs@.take(i + 1).last() == cs@[i as int]);
        let same = match (cs[i].health, h) {
            (Health::Healthy, Health::Healthy) => true,
            (Health::Warn, Health::Warn) => true,
            (Health::Error, Health::Error) => true,
            (Health::Idle, Health::Idle) => true,
            (Health::Unknown, Health::Unknown) => true,
            _ => false,
        };
        if same {
            n += 1;
        }
        i += 1;
    }
    assert(cs@.take(cs@.len() as int) =~= cs@);
    n
}

fn push_count(parts: &mut Vec<String>, n: usize, label: &str)
    ensures
        string_views(final(parts)@) == string_views(old(parts)@) + count_part(n as nat, label@),
{
    if n > 0 {
        let mut t = crate::text::decimal_string(n as u64);
        push_str(&mut t, " ");
        push_str(&mut t, label);
        push_part(parts, t);
    } else {
        assert(string_views(parts@) =~= string_views(parts@) + Seq::<Seq<char>>::empty());
    }
}

/// A feed's verdict (`summarize`).
pub fn summarize(list: &Vec<ComponentSummary>) -> (r: (Health, String))
    ensures
        r.0 == node_summary(list@).0,
        r.1@ == node_summary(list@).1,
{
    let (w, d) = crate::feed::summarize(list);
    let mut i: usize = 0;
    while i < list.len()
        invariant
            i <= list@.len(),
            w == crate::feed::summary_spec(list@).0,
            d@ == crate::feed::summary_spec(list@).1,
            forall|j: int| 0 <= j < i ==> !#[trigger] crate::feed::system_at(list@)(j),
        decreases list@.len() - i,
    {
        if str_eq(list[i].id.as_str(), "system") {
            proof {
                crate::text::lemma_first_at_some(list@.len() as int, crate::feed::system_at(list@), i as int);
            }
            return (w, d);
        }
        i += 1;
    }
    proof {
        crate::text::lemma_first_at_none(list@.len() as int, crate::feed::system_at(list@));
    }
    let mut parts: Vec<String> = Vec::new();
    assert(string_views(parts@) =~= Seq::<Seq<char>>::empty());
    push_count(&mut parts, count_exec(list, Health::Error), "failed");
    push_count(&mut parts, count_exec(list, Health::Warn), "degraded");
    push_count(&mut parts, count_exec(list, Health::Healthy), "ready");
    push_count(&mut parts, count_exec(list, Health::Idle), "idle");
    (w, join_strings(&parts, " · "))
}

/// One service found on a node.
#[derive(Debug, Clone)]
pub struct NodeService {
    pub port: u16,
    /// The daemon the port layout expects there.
    pub expected: String,
    /// What the feed's own `system` card calls it.
    pub name: String,
    pub health: Health,
    pub detail: String,
    /// How many components it serves.
    pub components: usize,
    /// Where a browser reaches it: this console's origin, never the node's.
    pub proxy: String,
}

/// Services in port order.
impl Order for NodeService {
    open spec fn before(&self, other: &Self) -> bool {
        self.port < other.port
    }
}

impl Ranked for NodeService {
    fn is_before(&self, other: &Self) -> (r: bool) {
        self.port < other.port
    }
}

/// A node as its own APIs describe it.
#[derive(Debug, Clone)]
pub struct NodeDetail {
    pub host: String,
    pub addr: String,
    pub reachable: bool,
    pub services: Vec<NodeService>,
    /// Ports that answered nothing.
    pub silent: Vec<u16>,
    pub note: String,
}

pub open spec fn proxy_path(addr: Seq<char>, port: u16) -> Seq<char> {
    "/api/plugins/fleet/nodes/"@ + addr + "/"@ + decimal(port as nat)
}

/// What a port's feed says, as a node service: named by its `system`
/// card where it has one, else by the layout.
pub open spec fn service_name(list: Seq<ComponentSummary>, expected: Seq<char>) -> Seq<char> {
    match crate::text::first_at(list.len() as int, crate::feed::system_at(list)) {
        Some(i) => list[i].label@,
        None => expected,
    }
}

fn system_label(list: &Vec<ComponentSummary>) -> (r: Option<String>)
    ensures
        crate::registry::opt_chars(r) == match crate::text::first_at(list@.len() as int, crate::feed::system_at(list@)) {
            Some(i) => Some(list@[i].label@),
            None => None,
        },
{
    let mut i: usize = 0;
    while i < list.len()
        invariant
            i <= list@.len(),
            forall|j: int| 0 <= j < i ==> !#[trigger] crate::feed::system_at(list@)(j),
        decreases list@.len() - i,
    {
        if str_eq(list[i].id.as_str(), "system") {
            proof {
                crate::text::lemma_first_at_some(list@.len() as int, crate::feed::system_at(list@), i as int);
            }
            return Some(owned(list[i].label.as_str()));
        }
        i += 1;
    }
    proof {
        crate::text::lemma_first_at_none(list@.len() as int, crate::feed::system_at(list@));
    }
    None
}

/// The service a port's answer describes (the part of `probe_port` after
/// the fetch).
pub fn service_from(addr: &str, port: u16, expected: &str, list: &Vec<ComponentSummary>) -> (s: NodeService)
    ensures
        s.port == port,
        s.expected@ == expected@,
        s.name@ == service_name(list@, expected@),
        s.health == node_summary(list@).0,
        s.detail@ == node_summary(list@).1,
        s.components == list@.len(),
        s.proxy@ == proxy_path(addr@, port),
{
    let (health, detail) = summarize(list);
    let name = match system_label(list) {
        Some(l) => l,
        None => owned(expected),
    };
    let mut proxy = cat("/api/plugins/fleet/nodes/", addr);
    push_str(&mut proxy, "/");
    push_decimal(&mut proxy, port as u64);
    NodeService { port, expected: owned(expected), name, health, detail, components: list.len(), proxy }
}

pub open spec fn found(rs: Seq<(u16, Option<NodeService>)>) -> Seq<NodeService>
    decreases rs.len(),
{
    if rs.len() == 0 {
        Seq::empty()
    } else {
        found(rs.drop_last()) + match rs.last().1 {
            Some(s) => seq![s],
            None => Seq::empty(),
        }
    }
}

pub open spec fn quiet(rs: Seq<(u16, Option<NodeService>)>) -> Seq<u16>
    decreases rs.len(),
{
    if rs.len() == 0 {
        Seq::empty()
    } else {
        quiet(rs.drop_last()) + match rs.last().1 {
            Some(_) => Seq::empty(),
            None => seq![rs.last().0],
        }
    }
}

/// A node's page from what each probed port answered: the services in
/// port order, the quiet ports in the order probed, and the line to open
/// with (the part of `node_detail` after the probes).
pub fn node_detail_of(host: String, addr: String, results: Vec<(u16, Option<NodeService>)>) -> (d: NodeDetail)
    ensures
        d.host == host,
        d.addr == addr,
        d.services@ == sorted(found(results@)),
        d.silent@ == quiet(results@),
        d.reachable == (found(results@).len() > 0),
        d.note@ == note_spec(addr@, found(results@).len(), quiet(results@).len()),
{
    let ghost rs = results@;
    let mut services: Vec<NodeService> = Vec::new();
    let mut silent: Vec<u16> = Vec::new();
    let mut rest = results;
    let n = rest.len();
    let mut k: usize = 0;
    assert(rs.take(0) =~= Seq::<(u16, Option<NodeService>)>::empty());
    assert(rs.skip(0) =~= rs);
    while k < n
        invariant
            n == rs.len(),
            k <= n,
            rest@ == rs.skip(k as int),
            services@ == found(rs.take(k as int)),
            silent@ == quiet(rs.take(k as int)),
            services@.len() + silent@.len() == k,
        decreases n - k,
    {
        let (port, got) = rest.remove(0);
        assert(rest@ =~= rs.skip(k + 1));
        assert(rs.take(k + 1).drop_last() =~= rs.take(k as int));
        assert(rs.take(k + 1).last() == rs[k as int]);
        match got {
            Some(s) => services.push(s),
            None => silent.push(port),
        }
        k += 1;
    }
    assert(rs.take(n as int) =~= rs);
    let ghost unsorted = services@;
    let services = sort_stable(services);
    proof {
        crate::sort::lemma_sorted_len(unsorted);
    }
    let note = note(addr.as_str(), services.len(), silent.len());
    let reachable = services.len() > 0;
    NodeDetail { host, addr, reachable, services, silent, note }
}

pub open spec fn host_at(hosts: Seq<HostSummary>, host: Seq<char>) -> spec_fn(int) -> bool {
    |i: int| hosts[i].host@ == host
}

/// Where to ask a node: the address it was heard from, or for this node
/// the address the console reaches its services at; `None` when no node
/// of that name has been heard and it is not this one. An empty address
/// means heard, but never with one.
pub open spec fn node_address_spec(hosts: Seq<HostSummary>, host: Seq<char>, hostname: Seq<char>, local: Seq<char>) -> Option<Seq<char>> {
    let is_local = host == hostname;
    match crate::text::first_at(hosts.len() as int, host_at(hosts, host)) {
        None => if is_local { Some(local) } else { None },
        Some(i) => if hosts[i].addr@.len() > 0 {
            Some(hosts[i].addr@)
        } else if is_local {
            Some(local)
        } else {
            Some(Seq::empty())
        },
    }
}

pub fn node_address(hosts: &[HostSummary], host: &str, hostname: &str, local: &str) -> (r: Option<String>)
    ensures
        crate::registry::opt_chars(r) == node_address_spec(hosts@, host@, hostname@, local@),
{
    let is_local = str_eq(host, hostname);
    let mut i: usize = 0;
    while i < hosts.len()
        invariant
            i <= hosts@.len(),
            is_local == (host@ == hostname@),
            forall|j: int| 0 <= j < i ==> !#[trigger] host_at(hosts@, host@)(j),
        decreases hosts@.len() - i,
    {
        if str_eq(hosts[i].host.as_str(), host) {
            proof {
                crate::text::lemma_first_at_some(hosts@.len() as int, host_at(hosts@, host@), i as int);
            }
            if crate::text::char_len(hosts[i].addr.as_str()) > 0 {
                return Some(owned(hosts[i].addr.as_str()));
            } else if is_local {
                return Some(owned(local));
            } else {
                proof {
                    reveal_strlit("");
                }
                return Some(String::new());
            }
        }
        i += 1;
    }
    proof {
        crate::text::lemma_first_at_none(hosts@.len() as int, host_at(hosts@, host@));
    }
    if is_local { Some(owned(local)) } else { None }
}

pub open spec fn addr_heard(hosts: Seq<HostSummary>, addr: Seq<char>) -> bool {
    exists|i: int| 0 <= i < hosts.len() && #[trigger] hosts[i].addr@ == addr
}

/// Whether this console may reach `addr:port` for a browser: the address
/// must be one heard on the group (or the local services' own), and the
/// port one of the layout's. `Ok` is the upstream base; `Err` the reason.
pub open spec fn node_upstream_spec(hosts: Seq<HostSummary>, local: Seq<char>, addr: Seq<char>, port: u16) -> Result<Seq<char>, Seq<char>> {
    if !(addr_heard(hosts, addr) || addr == local) {
        Err(addr + " is not a node this console has heard from"@)
    } else if !(exists|i: int| 0 <= i < node_ports_spec().len() && #[trigger] node_ports_spec()[i].0 == port) {
        Err("port "@ + decimal(port as nat) + " is not in the node layout"@)
    } else {
        Ok("http://"@ + addr + ":"@ + decimal(port as nat))
    }
}

pub open spec fn text_result(r: Result<String, String>) -> Result<Seq<char>, Seq<char>> {
    match r {
        Ok(a) => Ok(a@),
        Err(e) => Err(e@),
    }
}

fn heard_at(hosts: &[HostSummary], addr: &str) -> (r: bool)
    ensures
        r == addr_heard(hosts@, addr@),
{
    let mut i: usize = 0;
    while i < hosts.len()
        invariant
            i <= hosts@.len(),
            forall|j: int| 0 <= j < i ==> hosts@[j].addr@ != addr@,
        decreases hosts@.len() - i,
    {
        if str_eq(hosts[i].addr.as_str(), addr) {
            return true;
        }
        i += 1;
    }
    false
}

pub fn node_upstream(hosts: &[HostSummary], local: &str, addr: &str, port: u16) -> (r: Result<String, String>)
    ensures
        text_result(r) == node_upstream_spec(hosts@, local@, addr@, port),
{
    let heard = str_eq(addr, local) || heard_at(hosts, addr);
    if !heard {
        return Err(cat(addr, " is not a node this console has heard from"));
    }
    let ports = node_ports();
    let mut listed = false;
    let mut k: usize = 0;
    while k < ports.len()
        invariant
            k <= ports@.len(),
            port_views(ports@) == node_ports_spec(),
            listed == (exists|j: int| 0 <= j < k && #[trigger] node_ports_spec()[j].0 == port),
        decreases ports@.len() - k,
    {
        assert(port_views(ports@)[k as int].0 == ports@[k as int].0);
        if ports[k].0 == port {
            listed = true;
        }
        k += 1;
    }
    if !listed {
        let mut e = owned("port ");
        push_decimal(&mut e, port as u64);
        push_str(&mut e, " is not in the node layout");
        return Err(e);
    }
    let mut u = cat("http://", addr);
    push_str(&mut u, ":");
    push_decimal(&mut u, port as u64);
    Ok(u)
}

/// The worst of the local services' healths: idle with none, else from
/// healthy down.
pub open spec fn fleet_health_spec(hs: Seq<Health>) -> Health
    decreases hs.len(),
{
    if hs.len() == 0 {
        Health::Idle
    } else if hs.len() == 1 {
        if crate::view::severity_of(hs[0]) < crate::view::severity_of(Health::Healthy) { hs[0] } else { Health::Healthy }
    } else {
        let w = fleet_health_spec(hs.drop_last());
        if crate::view::severity_of(hs.last()) < crate::view::severity_of(w) { hs.last() } else { w }
    }
}

/// The plugin's own health (`FleetPlugin::health`).
pub fn fleet_health(hs: &[Health]) -> (r: Health)
    ensures
        r == fleet_health_spec(hs@),
{
    if hs.len() == 0 {
        return Health::Idle;
    }
    let mut w = Health::Healthy;
    let mut i: usize = 0;
    while i < hs.len()
        invariant
            hs@.len() > 0,
            i <= hs@.len(),
            i == 0 ==> w == Health::Healthy,
            i > 0 ==> w == fleet_health_spec(hs@.take(i as int)),
        decreases hs@.len() - i,
    {
        assert(hs@.take(i + 1).drop_last() =~= hs@.take(i as int));
        assert(hs@.take(i + 1).last() == hs@[i as int]);
        if i == 0 {
            assert(hs@.take(1) =~= seq![hs@[0]]);
        }
        if crate::view::severity(hs[i]) < crate::view::severity(w) {
            w = hs[i];
        }
        i += 1;
    }
    assert(hs@.take(hs@.len() as int) =~= hs@);
    w
}

/// The plugin's line (`FleetPlugin::detail`): nodes heard, at least this
/// one, and the services on this node.
pub open spec fn fleet_detail_spec(nodes: nat, group: Seq<char>, services: nat) -> Seq<char> {
    decimal(if nodes > 1 { nodes } else { 1 }) + " nodes heard on "@ + group + " · "@ + decimal(services)
        + " services on this node"@
}

pub fn fleet_detail(nodes: usize, group: &str, services: usize) -> (r: String)
    ensures
        r@ == fleet_detail_spec(nodes as nat, group@, services as nat),
{
    let mut s = crate::text::decimal_string(if nodes > 1 { nodes as u64 } else { 1 });
    push_str(&mut s, " nodes heard on ");
    push_str(&mut s, group);
    push_str(&mut s, " · ");
    push_decimal(&mut s, services as u64);
    push_str(&mut s, " services on this node");
    s
}

/// A stormd's name: the label of its `system` card, where the card is
/// of kind `system` too (the part of `probe_stormd` after the fetch).
pub open spec fn stormd_at(list: Seq<ComponentSummary>) -> spec_fn(int) -> bool {
    |i: int| list[i].id@ == "system"@ && list[i].kind@ == "system"@
}

pub fn stormd_name(list: &Vec<ComponentSummary>) -> (r: Option<String>)
    ensures
        crate::registry::opt_chars(r) == match crate::text::first_at(list@.len() as int, stormd_at(list@)) {
            Some(i) => Some(list@[i].label@),
            None => None,
        },
{
    let mut i: usize = 0;
    while i < list.len()
        invariant
            i <= list@.len(),
            forall|j: int| 0 <= j < i ==> !#[trigger] stormd_at(list@)(j),
        decreases list@.len() - i,
    {
        if str_eq(list[i].id.as_str(), "system") && str_eq(list[i].kind.as_str(), "system") {
            proof {
                crate::text::lemma_first_at_some(list@.len() as int, stormd_at(list@), i as int);
            }
            return Some(owned(list[i].label.as_str()));
        }
        i += 1;
    }
    proof {
        crate::text::lemma_first_at_none(list@.len() as int, stormd_at(list@));
    }
    None
}

/// The node's name from the kernel's hostname file: trimmed, and
/// `localhost` when there is none.
pub fn hostname_from(text: Option<&str>) -> (r: String)
    ensures
        r@ == match text {
            Some(t) => if crate::text::trim(t@).len() > 0 { crate::text::trim(t@) } else { "localhost"@ },
            None => "localhost"@,
        },
{
    match text {
        Some(t) => {
            let x = crate::text::trim_str(t);
            if crate::text::char_len(x) > 0 { owned(x) } else { owned("localhost") }
        },
        None => owned("localhost"),
    }
}

/// The nodes on the segment, and this node's services.
pub fn nav() -> (r: Vec<crate::nav::NavSection>)
    ensures
        crate::nav::sections_view(r@) == seq![("Compute"@, 20i32, crate::nav::NavKind::Work, seq![("Nodes"@, "#/nodes"@, 0i32), ("Node services"@, "#/grid?id=fleet:node:local&rel=services"@, 1i32)])],
{
    let s0_0 = crate::nav::NavSection::new("Compute", 20);
    let s0_1 = s0_0.item("Nodes", "#/nodes");
    let s0_2 = s0_1.item("Node services", "#/grid?id=fleet:node:local&rel=services");
    assert(crate::nav::items_view(s0_2) =~= seq![("Nodes"@, "#/nodes"@, 0i32), ("Node services"@, "#/grid?id=fleet:node:local&rel=services"@, 1i32)]);
    let r = vec![s0_2];
    assert(crate::nav::sections_view(r@) =~= seq![crate::nav::section_view(s0_2)]);
    r
}

} // verus!
