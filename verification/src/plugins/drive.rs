//! Drives are hardware, read from every node that runs stormdrive: this
//! node's components keep their `drive:` ids, another node's are
//! `drive@<host>:…`, and every drive and shelf says which node it is in.

use vstd::prelude::*;
use crate::feed::{trim_end_char, trim_end_matches};
use crate::logs::beacon::{insert_param, law_map_insert, map_insert, names_sorted, pairs};
use crate::registry::metric_view;
use crate::text::{owned, push_str, str_eq};
use crate::view::{ComponentSummary, Metric, metric_value};

verus! {

pub const NAME: &'static str = "drive";
pub const PORT: u16 = 9092;

pub open spec fn prefix_spec(host: Option<Seq<char>>) -> Seq<char> {
    match host {
        None => "drive"@,
        Some(h) => "drive@"@ + h,
    }
}

pub open spec fn opt_str(o: Option<&str>) -> Option<Seq<char>> {
    match o {
        Some(s) => Some(s@),
        None => None,
    }
}

/// The id prefix for a node's feed: this node keeps `drive`, so nothing
/// that linked to a drive before breaks.
pub fn prefix(host: Option<&str>) -> (r: String)
    ensures
        r@ == prefix_spec(opt_str(host)),
{
    match host {
        None => owned("drive"),
        Some(h) => {
            let mut s = owned("drive@");
            push_str(&mut s, h);
            s
        },
    }
}

pub open spec fn proxy_base_spec(host: Option<Seq<char>>) -> Seq<char> {
    match host {
        None => "/api/plugins/drive/proxy"@,
        Some(h) => "/api/plugins/drive/node/"@ + h + "/proxy"@,
    }
}

/// Where a node's actions go through the console.
pub fn proxy_base(host: Option<&str>) -> (r: String)
    ensures
        r@ == proxy_base_spec(opt_str(host)),
{
    match host {
        None => owned("/api/plugins/drive/proxy"),
        Some(h) => {
            let mut s = owned("/api/plugins/drive/node/");
            push_str(&mut s, h);
            push_str(&mut s, "/proxy");
            s
        },
    }
}

/// The nodes the fleet has an address for, at stormdrive's port; not this
/// one, and not one with no name or no address.
pub open spec fn from_discovered(
    d: Seq<(Seq<char>, Seq<char>)>,
    local: Seq<char>,
) -> Seq<(Seq<char>, Seq<char>)>
    decreases d.len(),
{
    if d.len() == 0 {
        Seq::empty()
    } else {
        let a = from_discovered(d.drop_last(), local);
        let (h, addr) = d.last();
        if h.len() == 0 || addr.len() == 0 || h == local {
            a
        } else {
            map_insert(a, h, "http://"@ + addr + ":9092"@)
        }
    }
}

/// The configured nodes, which win, their URLs without trailing slashes.
pub open spec fn with_statics(
    s: Seq<(Seq<char>, Seq<char>)>,
    local: Seq<char>,
    acc: Seq<(Seq<char>, Seq<char>)>,
) -> Seq<(Seq<char>, Seq<char>)>
    decreases s.len(),
{
    if s.len() == 0 {
        acc
    } else {
        let a = with_statics(s.drop_last(), local, acc);
        let (h, url) = s.last();
        if h != local { map_insert(a, h, trim_end_char(url, '/')) } else { a }
    }
}

pub open spec fn wanted_spec(
    d: Seq<(Seq<char>, Seq<char>)>,
    s: Seq<(Seq<char>, Seq<char>)>,
    local: Seq<char>,
) -> Seq<(Seq<char>, Seq<char>)> {
    with_statics(s, local, from_discovered(d, local))
}

/// The nodes to read besides this one, by host: every host the fleet has
/// an address for, and the configured ones, which win. The result is a
/// map kept sorted by host.
pub fn wanted(discovered: &[(String, String)], statics: &[(String, String)], local: &str) -> (r: Vec<(String, String)>)
    ensures
        pairs(r@) == wanted_spec(pairs(discovered@), pairs(statics@), local@),
        names_sorted(pairs(r@)),
{
    proof {
        lemma_discovered_sorted(pairs(discovered@), local@);
        lemma_statics_sorted(pairs(statics@), local@, from_discovered(pairs(discovered@), local@));
    }
    let mut out: Vec<(String, String)> = Vec::new();
    let ghost d = pairs(discovered@);
    let mut i: usize = 0;
    assert(d.take(0) =~= Seq::<(Seq<char>, Seq<char>)>::empty());
    assert(pairs(out@) =~= Seq::<(Seq<char>, Seq<char>)>::empty());
    while i < discovered.len()
        invariant
            i <= discovered@.len(),
            d == pairs(discovered@),
            pairs(out@) == from_discovered(d.take(i as int), local@),
        decreases discovered@.len() - i,
    {
        assert(d.take(i + 1).drop_last() == d.take(i as int));
        assert(d.take(i + 1).last() == (discovered@[i as int].0@, discovered@[i as int].1@));
        let host = discovered[i].0.as_str();
        let addr = discovered[i].1.as_str();
        if !(host.unicode_len() == 0 || addr.unicode_len() == 0 || str_eq(host, local)) {
            let mut url = owned("http://");
            push_str(&mut url, addr);
            push_str(&mut url, ":9092");
            insert_param(&mut out, owned(host), url);
        }
        i += 1;
    }
    assert(d.take(discovered@.len() as int) == d);
    let ghost base = pairs(out@);
    let ghost s = pairs(statics@);
    let mut j: usize = 0;
    assert(s.take(0) =~= Seq::<(Seq<char>, Seq<char>)>::empty());
    while j < statics.len()
        invariant
            j <= statics@.len(),
            s == pairs(statics@),
            base == from_discovered(d, local@),
            pairs(out@) == with_statics(s.take(j as int), local@, base),
        decreases statics@.len() - j,
    {
        assert(s.take(j + 1).drop_last() == s.take(j as int));
        assert(s.take(j + 1).last() == (statics@[j as int].0@, statics@[j as int].1@));
        let host = statics[j].0.as_str();
        if !str_eq(host, local) {
            let url = trim_end_matches(statics[j].1.as_str(), '/');
            insert_param(&mut out, owned(host), url);
        }
        j += 1;
    }
    assert(s.take(statics@.len() as int) == s);
    out
}

/// Whether a component is hardware that lives in a node.
pub open spec fn in_node(c: ComponentSummary) -> bool {
    c.kind@ == "drive"@ || c.kind@ == "shelf"@
}

pub open spec fn has_node_metric(c: ComponentSummary) -> bool {
    exists|i: int| 0 <= i < c.metrics@.len() && #[trigger] c.metrics@[i].label@ == "node"@
}

/// Drives and shelves with no `node` metric gain one, muted, naming the
/// node; everything else is left as it is.
pub open spec fn stamped(src: ComponentSummary, out: ComponentSummary, node: Seq<char>) -> bool {
    &&& out.id == src.id && out.kind == src.kind && out.label == src.label && out.health == src.health
    &&& out.detail == src.detail && out.actions == src.actions && out.relations == src.relations
    &&& out.link == src.link
    &&& if in_node(src) && !has_node_metric(src) {
        &&& out.metrics@.len() == src.metrics@.len() + 1
        &&& out.metrics@.take(src.metrics@.len() as int) == src.metrics@
        &&& metric_view(out.metrics@.last()) == ("node"@, node, Some("muted"@))
    } else {
        out.metrics == src.metrics
    }
}

/// Stamp a feed's drives and shelves with the node they are in.
pub fn with_node(list: Vec<ComponentSummary>, node: &str) -> (r: Vec<ComponentSummary>)
    ensures
        r@.len() == list@.len(),
        forall|i: int| 0 <= i < r@.len() ==> stamped(list@[i], #[trigger] r@[i], node@),
{
    let ghost orig = list@;
    let mut rest = list;
    let mut out: Vec<ComponentSummary> = Vec::new();
    let ghost mut k: int = 0;
    while rest.len() > 0
        invariant
            0 <= k <= orig.len(),
            rest@ == orig.skip(k),
            out@.len() == k,
            forall|i: int| 0 <= i < k ==> stamped(orig[i], #[trigger] out@[i], node@),
        decreases rest@.len(),
    {
        let ghost before_rest = rest@;
        let c = rest.remove(0);
        proof {
            assert(orig.skip(k)[0] == c);
            assert(rest@ =~= before_rest.skip(1));
            assert(orig.skip(k).skip(1) =~= orig.skip(k + 1));
        }
        let ghost src = c;
        let hardware = str_eq(c.kind.as_str(), "drive") || str_eq(c.kind.as_str(), "shelf");
        let mut seen = false;
        let mut m: usize = 0;
        while m < c.metrics.len()
            invariant
                m <= c.metrics@.len(),
                seen <==> exists|q: int| 0 <= q < m && #[trigger] c.metrics@[q].label@ == "node"@,
            decreases c.metrics@.len() - m,
        {
            if str_eq(c.metrics[m].label.as_str(), "node") {
                seen = true;
            }
            m += 1;
        }
        if hardware && !seen {
            let ComponentSummary { id, kind, label, health, detail, metrics, actions, relations, link } = c;
            let mut metrics = metrics;
            let ghost before = metrics@;
            let tag = Metric::new("node", owned(node)).tone("muted");
            metrics.push(tag);
            assert(metrics@.take(before.len() as int) =~= before);
            out.push(ComponentSummary { id, kind, label, health, detail, metrics, actions, relations, link });
        } else {
            out.push(c);
        }
        proof {
            k = k + 1;
        }
    }
    out
}

/// Worst first, the way the drives card ranks: an unknown node outranks
/// a healthy one.
pub open spec fn rank_spec(h: crate::view::Health) -> u8 {
    match h {
        crate::view::Health::Error => 0,
        crate::view::Health::Warn => 1,
        crate::view::Health::Unknown => 2,
        crate::view::Health::Healthy => 3,
        crate::view::Health::Idle => 4,
    }
}

pub fn rank(h: crate::view::Health) -> (r: u8)
    ensures
        r == rank_spec(h),
{
    match h {
        crate::view::Health::Error => 0,
        crate::view::Health::Warn => 1,
        crate::view::Health::Unknown => 2,
        crate::view::Health::Healthy => 3,
        crate::view::Health::Idle => 4,
    }
}

/// The drives card's health: this node's, unless a node that answered
/// with components is worse. A host with no stormdrive is not a failing
/// one.
pub open spec fn nodes_health_spec(local: crate::view::Health, remotes: Seq<crate::feed::FeedState>) -> crate::view::Health
    decreases remotes.len(),
{
    if remotes.len() == 0 {
        local
    } else {
        let w = nodes_health_spec(local, remotes.drop_last());
        let s = remotes.last();
        if s.components@.len() > 0 && rank_spec(s.health) < rank_spec(w) { s.health } else { w }
    }
}

pub fn nodes_health(local: crate::view::Health, remotes: &[crate::feed::FeedState]) -> (r: crate::view::Health)
    ensures
        r == nodes_health_spec(local, remotes@),
{
    let mut worst = local;
    let mut i: usize = 0;
    while i < remotes.len()
        invariant
            i <= remotes@.len(),
            worst == nodes_health_spec(local, remotes@.take(i as int)),
        decreases remotes@.len() - i,
    {
        proof {
            assert(remotes@.take(i + 1).drop_last() =~= remotes@.take(i as int));
            assert(remotes@.take(i + 1).last() == remotes@[i as int]);
        }
        if remotes[i].components.len() > 0 && rank(remotes[i].health) < rank(worst) {
            worst = remotes[i].health;
        }
        i += 1;
    }
    assert(remotes@.take(remotes@.len() as int) =~= remotes@);
    worst
}

/// How many of a feed's components are drives.
pub open spec fn drive_count(cs: Seq<ComponentSummary>) -> nat
    decreases cs.len(),
{
    if cs.len() == 0 {
        0
    } else {
        drive_count(cs.drop_last()) + if cs.last().kind@ == "drive"@ { 1nat } else { 0nat }
    }
}

fn drives_in(cs: &Vec<ComponentSummary>) -> (n: usize)
    ensures
        n == drive_count(cs@),
{
    let mut n: usize = 0;
    let mut i: usize = 0;
    while i < cs.len()
        invariant
            i <= cs@.len(),
            n == drive_count(cs@.take(i as int)),
            n <= i,
        decreases cs@.len() - i,
    {
        proof {
            assert(cs@.take(i + 1).drop_last() =~= cs@.take(i as int));
            assert(cs@.take(i + 1).last() == cs@[i as int]);
        }
        if str_eq(cs[i].kind.as_str(), "drive") {
            n += 1;
        }
        i += 1;
    }
    assert(cs@.take(cs@.len() as int) =~= cs@);
    n
}

/// Nodes that answered with components, and the drives among them.
pub open spec fn answering_spec(remotes: Seq<crate::feed::FeedState>) -> (nat, nat)
    decreases remotes.len(),
{
    if remotes.len() == 0 {
        (0, 0)
    } else {
        let (a, d) = answering_spec(remotes.drop_last());
        let s = remotes.last();
        if s.components@.len() > 0 { (a + 1, d + drive_count(s.components@)) } else { (a, d) }
    }
}

/// The drives card's line: drives and the nodes answering, how many known
/// nodes run no stormdrive, and this node's daemon.
pub open spec fn nodes_detail_spec(local: crate::feed::FeedState, base: Seq<char>, remotes: Seq<crate::feed::FeedState>) -> Seq<char> {
    let (ra, rd) = answering_spec(remotes);
    let here_answers: nat = if local.components@.len() > 0 { 1 } else { 0 };
    let answering = here_answers + ra;
    let drives = drive_count(local.components@) + rd;
    let silent = remotes.len() + 1 - answering;
    crate::text::decimal(drives) + " drives on "@ + crate::text::decimal(answering) + " node"@
        + (if answering == 1 { Seq::<char>::empty() } else { "s"@ })
        + (if silent > 0 { " ("@ + crate::text::decimal(silent as nat) + " without stormdrive)"@ } else { Seq::<char>::empty() })
        + " · this node: "@ + crate::upstream::detail_spec("stormdrive"@, base, local.detail@)
}

proof fn lemma_answering_bounds(remotes: Seq<crate::feed::FeedState>)
    ensures
        answering_spec(remotes).0 <= remotes.len(),
    decreases remotes.len(),
{
    if remotes.len() > 0 {
        lemma_answering_bounds(remotes.drop_last());
    }
}

proof fn lemma_drive_count_bound(cs: Seq<ComponentSummary>)
    ensures
        drive_count(cs) <= cs.len(),
    decreases cs.len(),
{
    if cs.len() > 0 {
        lemma_drive_count_bound(cs.drop_last());
    }
}

pub fn nodes_detail(local: &crate::feed::FeedState, base: &str, remotes: &[crate::feed::FeedState]) -> (r: String)
    requires
        remotes@.len() < usize::MAX,
        forall|i: int| 0 <= i < remotes@.len() ==> (#[trigger] remotes@[i]).components@.len() < 0x1_0000_0000,
        local.components@.len() < 0x1_0000_0000,
        remotes@.len() < 0x1_0000_0000,
    ensures
        r@ == nodes_detail_spec(*local, base@, remotes@),
{
    let mut answering: u64 = if local.components.len() > 0 { 1 } else { 0 };
    let mut drives: u64 = drives_in(&local.components) as u64;
    proof {
        lemma_drive_count_bound(local.components@);
    }
    let mut i: usize = 0;
    while i < remotes.len()
        invariant
            i <= remotes@.len(),
            remotes@.len() < 0x1_0000_0000,
            forall|k: int| 0 <= k < remotes@.len() ==> (#[trigger] remotes@[k]).components@.len() < 0x1_0000_0000,
            drives <= drive_count(local.components@) + i * 0x1_0000_0000,
            drive_count(local.components@) < 0x1_0000_0000,
            answering == (if local.components@.len() > 0 { 1nat } else { 0nat }) + answering_spec(remotes@.take(i as int)).0,
            drives == drive_count(local.components@) + answering_spec(remotes@.take(i as int)).1,
            answering <= 1 + i,
        decreases remotes@.len() - i,
    {
        proof {
            assert(remotes@.take(i + 1).drop_last() =~= remotes@.take(i as int));
            assert(remotes@.take(i + 1).last() == remotes@[i as int]);
        }
        if remotes[i].components.len() > 0 {
            let d = drives_in(&remotes[i].components);
            proof {
                lemma_drive_count_bound(remotes@[i as int].components@);
                assert(drives + d <= drive_count(local.components@) + (i + 1) * 0x1_0000_0000) by (nonlinear_arith)
                    requires
                        drives <= drive_count(local.components@) + i * 0x1_0000_0000,
                        d < 0x1_0000_0000;
            }
            answering += 1;
            drives += d as u64;
        }
        i += 1;
    }
    assert(remotes@.take(remotes@.len() as int) =~= remotes@);
    proof {
        lemma_answering_bounds(remotes@);
    }
    let silent: u64 = remotes.len() as u64 + 1 - answering;
    let mut s = String::new();
    crate::text::push_decimal(&mut s, drives);
    push_str(&mut s, " drives on ");
    crate::text::push_decimal(&mut s, answering);
    push_str(&mut s, " node");
    if answering != 1 {
        push_str(&mut s, "s");
    }
    if silent > 0 {
        push_str(&mut s, " (");
        crate::text::push_decimal(&mut s, silent);
        push_str(&mut s, " without stormdrive)");
    }
    push_str(&mut s, " · this node: ");
    let here = crate::upstream::detail("stormdrive", base, local.detail.as_str());
    push_str(&mut s, here.as_str());
    proof {
        reveal_strlit("");
        assert(""@ =~= Seq::<char>::empty());
    }
    s
}

/// Drives and shelves, under Hardware.
pub fn nav() -> (r: Vec<crate::nav::NavSection>)
    ensures
        crate::nav::sections_view(r@) == seq![("Hardware"@, 45i32, crate::nav::NavKind::Admin, seq![("Drives"@, "#/drives"@, 10i32), ("Shelves"@, "#/drives?group=shelf"@, 20i32)])],
{
    let s0_0 = crate::nav::NavSection::new("Hardware", 45).admin();
    let s0_1 = s0_0.item_at("Drives", "#/drives", 10);
    let s0_2 = s0_1.item_at("Shelves", "#/drives?group=shelf", 20);
    assert(crate::nav::items_view(s0_2) =~= seq![("Drives"@, "#/drives"@, 10i32), ("Shelves"@, "#/drives?group=shelf"@, 20i32)]);
    let r = vec![s0_2];
    assert(crate::nav::sections_view(r@) =~= seq![crate::nav::section_view(s0_2)]);
    r
}

/// Putting a name into the sorted map adds that name and no other.
proof fn lemma_map_insert_keys(m: Seq<(Seq<char>, Seq<char>)>, k: Seq<char>, v: Seq<char>, avoid: Seq<char>)
    requires
        forall|j: int| 0 <= j < m.len() ==> (#[trigger] m[j]).0 != avoid,
        k != avoid,
    ensures
        forall|j: int| 0 <= j < map_insert(m, k, v).len() ==> (#[trigger] map_insert(m, k, v)[j]).0 != avoid,
{
    let r = map_insert(m, k, v);
    crate::text::lemma_first_at_props(m.len() as int, crate::logs::beacon::key_at(m, k));
    crate::text::lemma_first_at_props(m.len() as int, crate::logs::beacon::after_key(m, k));
    match crate::text::first_at(m.len() as int, crate::logs::beacon::key_at(m, k)) {
        Some(i) => {
            assert forall|j: int| 0 <= j < r.len() implies (#[trigger] r[j]).0 != avoid by {
                if j != i {
                    assert(r[j] == m[j]);
                }
            }
        },
        None => match crate::text::first_at(m.len() as int, crate::logs::beacon::after_key(m, k)) {
            Some(q) => {
                assert forall|j: int| 0 <= j < r.len() implies (#[trigger] r[j]).0 != avoid by {
                    if j < q {
                        assert(r[j] == m[j]);
                    } else if j > q {
                        assert(r[j] == m[j - 1]);
                    }
                }
            },
            None => {
                assert forall|j: int| 0 <= j < r.len() implies (#[trigger] r[j]).0 != avoid by {
                    if j < m.len() {
                        assert(r[j] == m[j]);
                    }
                }
            },
        },
    }
}

proof fn lemma_discovered_not_local(d: Seq<(Seq<char>, Seq<char>)>, local: Seq<char>)
    ensures
        forall|j: int| 0 <= j < from_discovered(d, local).len() ==> (#[trigger] from_discovered(d, local)[j]).0 != local,
    decreases d.len(),
{
    if d.len() > 0 {
        lemma_discovered_not_local(d.drop_last(), local);
        let a = from_discovered(d.drop_last(), local);
        let (h, addr) = d.last();
        if !(h.len() == 0 || addr.len() == 0 || h == local) {
            lemma_map_insert_keys(a, h, "http://"@ + addr + ":9092"@, local);
        }
    }
}

proof fn lemma_statics_not_local(s: Seq<(Seq<char>, Seq<char>)>, local: Seq<char>, acc: Seq<(Seq<char>, Seq<char>)>)
    requires
        forall|j: int| 0 <= j < acc.len() ==> (#[trigger] acc[j]).0 != local,
    ensures
        forall|j: int| 0 <= j < with_statics(s, local, acc).len() ==> (#[trigger] with_statics(s, local, acc)[j]).0 != local,
    decreases s.len(),
{
    if s.len() > 0 {
        lemma_statics_not_local(s.drop_last(), local, acc);
        let a = with_statics(s.drop_last(), local, acc);
        let (h, url) = s.last();
        if h != local {
            lemma_map_insert_keys(a, h, trim_end_char(url, '/'), local);
        }
    }
}

proof fn lemma_discovered_sorted(d: Seq<(Seq<char>, Seq<char>)>, local: Seq<char>)
    ensures
        names_sorted(from_discovered(d, local)),
    decreases d.len(),
{
    if d.len() > 0 {
        lemma_discovered_sorted(d.drop_last(), local);
        let a = from_discovered(d.drop_last(), local);
        let (h, addr) = d.last();
        if !(h.len() == 0 || addr.len() == 0 || h == local) {
            law_map_insert(a, h, "http://"@ + addr + ":9092"@);
        }
    }
}

proof fn lemma_statics_sorted(s: Seq<(Seq<char>, Seq<char>)>, local: Seq<char>, acc: Seq<(Seq<char>, Seq<char>)>)
    requires
        names_sorted(acc),
    ensures
        names_sorted(with_statics(s, local, acc)),
    decreases s.len(),
{
    if s.len() > 0 {
        lemma_statics_sorted(s.drop_last(), local, acc);
        let a = with_statics(s.drop_last(), local, acc);
        let (h, url) = s.last();
        if h != local {
            law_map_insert(a, h, trim_end_char(url, '/'));
        }
    }
}

/// This node is read once, locally: whatever the fleet has heard and
/// whatever is configured, it is never among the nodes read remotely.
pub proof fn law_local_node_is_not_remote(
    discovered: Seq<(Seq<char>, Seq<char>)>,
    statics: Seq<(Seq<char>, Seq<char>)>,
    local: Seq<char>,
)
    ensures
        forall|j: int| 0 <= j < wanted_spec(discovered, statics, local).len()
            ==> (#[trigger] wanted_spec(discovered, statics, local)[j]).0 != local,
{
    lemma_discovered_not_local(discovered, local);
    lemma_statics_not_local(statics, local, from_discovered(discovered, local));
}

} // verus!
