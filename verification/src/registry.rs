//! The host's logic: which plugin owns a component, the plugin cards the
//! aggregate opens with, and the feed as one viewer may see it.
//!
//! What a viewer may not see is dropped before the feed leaves the
//! process, and so is every edge that pointed at it: a hidden object is
//! not reachable by following a relation either.

use vstd::prelude::*;
use crate::access::Access;
use crate::text::{decimal, decimal_string, first_at, owned, push_str, starts_with, starts_with_str, str_eq, strip_prefix, strip_prefix_str};
use crate::view::{Action, ComponentSummary, Health, Metric, Relation, RelationKind, id_views, severity, severity_of};

verus! {

/// Does `plugin` own this component id? Its own card, or anything under
/// its `{name}:` prefix.
pub open spec fn owns_spec(plugin: Seq<char>, id: Seq<char>) -> bool {
    id == plugin || starts_with(id, plugin + ":"@) || id == "plugin:"@ + plugin
}

pub fn owns(plugin: &str, id: &str) -> (r: bool)
    ensures
        r == owns_spec(plugin@, id@),
{
    if str_eq(id, plugin) {
        return true;
    }
    let mut p = owned(plugin);
    push_str(&mut p, ":");
    if starts_with_str(id, p.as_str()) {
        return true;
    }
    let mut c = owned("plugin:");
    push_str(&mut c, plugin);
    str_eq(id, c.as_str())
}

pub open spec fn owner_at(limits: Seq<(String, Access)>, id: Seq<char>) -> spec_fn(int) -> bool {
    |i: int| owns_spec(limits[i].0@, id)
}

/// May a viewer limited by these plugins' answers see this id? The first
/// plugin that owns it decides; nobody owning it means nobody limits it.
pub open spec fn shown(limits: Seq<(String, Access)>, id: Seq<char>) -> bool {
    match first_at(limits.len() as int, owner_at(limits, id)) {
        Some(i) => limits[i].1.admits(id),
        None => true,
    }
}

pub fn shown_exec(limits: &[(String, Access)], id: &str) -> (r: bool)
    ensures
        r == shown(limits@, id@),
{
    let mut i: usize = 0;
    while i < limits.len()
        invariant
            i <= limits@.len(),
            forall|j: int| 0 <= j < i ==> !#[trigger] owner_at(limits@, id@)(j),
        decreases limits@.len() - i,
    {
        if owns(limits[i].0.as_str(), id) {
            proof {
                crate::text::lemma_first_at_some(limits@.len() as int, owner_at(limits@, id@), i as int);
            }
            return limits[i].1.allows(id);
        }
        i += 1;
    }
    proof {
        crate::text::lemma_first_at_none(limits@.len() as int, owner_at(limits@, id@));
    }
    true
}

/// The components a limited viewer may see, in feed order.
pub open spec fn visible_part(all: Seq<ComponentSummary>, limits: Seq<(String, Access)>) -> Seq<ComponentSummary>
    decreases all.len(),
{
    if all.len() == 0 {
        Seq::empty()
    } else {
        let p = visible_part(all.drop_last(), limits);
        if shown(limits, all.last().id@) { p.push(all.last()) } else { p }
    }
}

pub open spec fn ids_of(cs: Seq<ComponentSummary>) -> Seq<Seq<char>> {
    cs.map_values(|c: ComponentSummary| c.id@)
}

/// The targets that are still there.
pub open spec fn keep_in(ts: Seq<Seq<char>>, kept: Seq<Seq<char>>) -> Seq<Seq<char>>
    decreases ts.len(),
{
    if ts.len() == 0 {
        Seq::empty()
    } else {
        let p = keep_in(ts.drop_last(), kept);
        if kept.contains(ts.last()) { p.push(ts.last()) } else { p }
    }
}

pub open spec fn opt_chars(o: Option<String>) -> Option<Seq<char>> {
    match o {
        Some(s) => Some(s@),
        None => None,
    }
}

/// A relation as values: name, kind, target ids and link.
pub open spec fn rel_view(r: Relation) -> (Seq<char>, RelationKind, Seq<Seq<char>>, Option<Seq<char>>) {
    (r.name@, r.kind, id_views(r.targets@), opt_chars(r.href))
}

pub open spec fn rels_view(rs: Seq<Relation>) -> Seq<(Seq<char>, RelationKind, Seq<Seq<char>>, Option<Seq<char>>)> {
    rs.map_values(|r: Relation| rel_view(r))
}

/// Every relation re-pointed at what is still there; one left pointing at
/// nothing is dropped.
pub open spec fn pruned(
    rs: Seq<(Seq<char>, RelationKind, Seq<Seq<char>>, Option<Seq<char>>)>,
    kept: Seq<Seq<char>>,
) -> Seq<(Seq<char>, RelationKind, Seq<Seq<char>>, Option<Seq<char>>)>
    decreases rs.len(),
{
    if rs.len() == 0 {
        Seq::empty()
    } else {
        let p = pruned(rs.drop_last(), kept);
        let r = rs.last();
        let t = keep_in(r.2, kept);
        if t.len() > 0 { p.push((r.0, r.1, t, r.3)) } else { p }
    }
}

/// A metric as values.
pub open spec fn metric_view(m: Metric) -> (Seq<char>, Seq<char>, Option<Seq<char>>) {
    (m.label@, m.value@, opt_chars(m.tone))
}

pub open spec fn metrics_view(ms: Seq<Metric>) -> Seq<(Seq<char>, Seq<char>, Option<Seq<char>>)> {
    ms.map_values(|m: Metric| metric_view(m))
}

/// Metrics that carry no unit.
pub open spec fn unitless(ms: Seq<Metric>) -> bool {
    forall|i: int| 0 <= i < ms.len() ==> (#[trigger] ms[i]).unit is None
}

/// Components whose metrics carry no unit.
pub open spec fn all_unitless(cs: Seq<ComponentSummary>) -> bool {
    forall|k: int| 0 <= k < cs.len() ==> unitless(#[trigger] cs[k].metrics@)
}

/// Joining two lists of unitless components gives one.
pub proof fn lemma_all_unitless_append(a: Seq<ComponentSummary>, b: Seq<ComponentSummary>)
    requires
        all_unitless(a),
        all_unitless(b),
    ensures
        all_unitless(a + b),
{
    assert forall|k: int| 0 <= k < (a + b).len() implies unitless(#[trigger] (a + b)[k].metrics@) by {
        if k < a.len() {
            assert((a + b)[k] == a[k]);
        } else {
            assert((a + b)[k] == b[k - a.len()]);
        }
    }
}

/// Adding a unitless component keeps a list unitless.
pub proof fn lemma_all_unitless_push(a: Seq<ComponentSummary>, c: ComponentSummary)
    requires
        all_unitless(a),
        unitless(c.metrics@),
    ensures
        all_unitless(a.push(c)),
{
    assert forall|k: int| 0 <= k < a.push(c).len() implies unitless(#[trigger] a.push(c)[k].metrics@) by {
        if k < a.len() {
            assert(a.push(c)[k] == a[k]);
        }
    }
}

/// Each metric's unit.
pub open spec fn metric_units(ms: Seq<Metric>) -> Seq<Option<Seq<char>>> {
    ms.map_values(|m: Metric| opt_chars(m.unit))
}

/// An action as values.
pub open spec fn action_view(a: Action) -> (Seq<char>, Seq<char>, Seq<char>, Seq<char>, bool, bool, Option<Seq<char>>) {
    (a.id@, a.label@, a.method@, a.path@, a.enabled, a.danger, opt_chars(a.tone))
}

pub open spec fn actions_view(a: Seq<Action>) -> Seq<(Seq<char>, Seq<char>, Seq<char>, Seq<char>, bool, bool, Option<Seq<char>>)> {
    a.map_values(|x: Action| action_view(x))
}

/// A component as values: id, kind, label, health, detail, metrics,
/// actions, relations and link.
pub open spec fn comp_view(c: ComponentSummary) -> (
    Seq<char>,
    Seq<char>,
    Seq<char>,
    Health,
    Seq<char>,
    Seq<(Seq<char>, Seq<char>, Option<Seq<char>>)>,
    Seq<(Seq<char>, Seq<char>, Seq<char>, Seq<char>, bool, bool, Option<Seq<char>>)>,
    Seq<(Seq<char>, RelationKind, Seq<Seq<char>>, Option<Seq<char>>)>,
    Option<Seq<char>>,
) {
    (c.id@, c.kind@, c.label@, c.health, c.detail@, metrics_view(c.metrics@), actions_view(c.actions@), rels_view(c.relations@), opt_chars(c.link))
}

pub open spec fn components_label() -> Seq<char> {
    "components"@
}

pub open spec fn label_at(ms: Seq<(Seq<char>, Seq<char>, Option<Seq<char>>)>, label: Seq<char>) -> spec_fn(int) -> bool {
    |i: int| ms[i].0 == label
}

/// The first `components` metric saying `n`.
pub open spec fn with_count(ms: Seq<(Seq<char>, Seq<char>, Option<Seq<char>>)>, n: nat) -> Seq<(Seq<char>, Seq<char>, Option<Seq<char>>)> {
    match first_at(ms.len() as int, label_at(ms, components_label())) {
        Some(i) => ms.update(i, (ms[i].0, decimal(n), ms[i].2)),
        None => ms,
    }
}

/// The ids, each once, in the order they first appear.
pub open spec fn distinct(ids: Seq<Seq<char>>) -> Seq<Seq<char>>
    decreases ids.len(),
{
    if ids.len() == 0 {
        Seq::empty()
    } else {
        let p = distinct(ids.drop_last());
        if p.contains(ids.last()) { p } else { p.push(ids.last()) }
    }
}

/// How many of these ids `plugin` owns, other than `card`.
pub open spec fn count_owned(ids: Seq<Seq<char>>, plugin: Seq<char>, card: Seq<char>) -> nat
    decreases ids.len(),
{
    if ids.len() == 0 {
        0
    } else {
        count_owned(ids.drop_last(), plugin, card) + if owns_spec(plugin, ids.last()) && ids.last() != card {
            1nat
        } else {
            0nat
        }
    }
}

/// Which plugin a card is for: a `plugin` component whose id is
/// `plugin:<name>`.
pub open spec fn card_of(c: ComponentSummary) -> Option<Seq<char>> {
    if c.kind@ == "plugin"@ {
        strip_prefix(c.id@, "plugin:"@)
    } else {
        None
    }
}

/// What one component becomes for a limited viewer: its relations pruned
/// to what is kept, and a plugin card counting what the viewer can see.
pub open spec fn narrowed(src: ComponentSummary, out: ComponentSummary, kept: Seq<Seq<char>>) -> bool {
    &&& out.id == src.id
    &&& out.kind == src.kind
    &&& out.label == src.label
    &&& out.health == src.health
    &&& out.detail == src.detail
    &&& out.actions == src.actions
    &&& out.link == src.link
    &&& rels_view(out.relations@) == pruned(rels_view(src.relations@), kept)
    &&& metric_units(out.metrics@) == metric_units(src.metrics@)
    &&& metrics_view(out.metrics@) == match card_of(src) {
        Some(name) => with_count(metrics_view(src.metrics@), count_owned(distinct(kept), name, src.id@)),
        None => metrics_view(src.metrics@),
    }
}


/// The visible part is the feed itself, in its order, less every
/// component whose owner does not let this viewer see it.
pub proof fn law_visible_part_filters(all: Seq<ComponentSummary>, limits: Seq<(String, Access)>)
    ensures
        visible_part(all, limits) == all.filter(|c: ComponentSummary| shown(limits, c.id@)),
    decreases all.len(),
{
    reveal(Seq::filter);
    if all.len() > 0 {
        law_visible_part_filters(all.drop_last(), limits);
    }
}

/// A relation's targets cut to what is kept are its targets, in order,
/// less those not kept.
pub proof fn law_keep_in_filters(ts: Seq<Seq<char>>, kept: Seq<Seq<char>>)
    ensures
        keep_in(ts, kept) == ts.filter(|t: Seq<char>| kept.contains(t)),
    decreases ts.len(),
{
    reveal(Seq::filter);
    if ts.len() > 0 {
        law_keep_in_filters(ts.drop_last(), kept);
    }
}

/// A relation re-pointed at what is kept.
pub open spec fn cut_to(kept: Seq<Seq<char>>) -> spec_fn((Seq<char>, RelationKind, Seq<Seq<char>>, Option<Seq<char>>)) -> (Seq<char>, RelationKind, Seq<Seq<char>>, Option<Seq<char>>) {
    |r: (Seq<char>, RelationKind, Seq<Seq<char>>, Option<Seq<char>>)| (r.0, r.1, keep_in(r.2, kept), r.3)
}

/// Pruning relations is cutting each to what is kept and dropping those
/// left pointing at nothing, in their order.
pub proof fn law_pruned_filters(
    rs: Seq<(Seq<char>, RelationKind, Seq<Seq<char>>, Option<Seq<char>>)>,
    kept: Seq<Seq<char>>,
)
    ensures
        pruned(rs, kept) == rs.map_values(cut_to(kept)).filter(
            |r: (Seq<char>, RelationKind, Seq<Seq<char>>, Option<Seq<char>>)| r.2.len() > 0,
        ),
    decreases rs.len(),
{
    reveal(Seq::filter);
    if rs.len() > 0 {
        law_pruned_filters(rs.drop_last(), kept);
        assert(rs.map_values(cut_to(kept)).drop_last() =~= rs.drop_last().map_values(cut_to(kept)));
    }
}

/// A plugin card counts the distinct kept ids its plugin owns, other than
/// the card itself.
pub proof fn law_count_owned(ids: Seq<Seq<char>>, plugin: Seq<char>, card: Seq<char>)
    ensures
        count_owned(ids, plugin, card) == ids.filter(|id: Seq<char>| owns_spec(plugin, id) && id != card).len(),
    decreases ids.len(),
{
    reveal(Seq::filter);
    if ids.len() > 0 {
        law_count_owned(ids.drop_last(), plugin, card);
    }
}

/// Every component in the visible part is one the viewer may see.
pub proof fn lemma_visible_part_shown(all: Seq<ComponentSummary>, limits: Seq<(String, Access)>)
    ensures
        visible_part(all, limits).len() <= all.len(),
        forall|i: int|
            0 <= i < visible_part(all, limits).len() ==> shown(limits, #[trigger] visible_part(all, limits)[i].id@),
    decreases all.len(),
{
    if all.len() > 0 {
        lemma_visible_part_shown(all.drop_last(), limits);
    }
}

/// Every component the viewer may see is in the visible part.
pub proof fn lemma_visible_part_complete(all: Seq<ComponentSummary>, limits: Seq<(String, Access)>)
    ensures
        forall|j: int|
            0 <= j < all.len() && shown(limits, #[trigger] all[j].id@) ==> visible_part(all, limits).contains(all[j]),
    decreases all.len(),
{
    if all.len() > 0 {
        let d = all.drop_last();
        lemma_visible_part_complete(d, limits);
        let p = visible_part(d, limits);
        assert forall|j: int| 0 <= j < all.len() && shown(limits, #[trigger] all[j].id@) implies visible_part(
            all,
            limits,
        ).contains(all[j]) by {
            if j < all.len() - 1 {
                assert(d[j] == all[j]);
                assert(p.contains(d[j]));
                let k = choose|k: int| 0 <= k < p.len() && p[k] == d[j];
                if shown(limits, all.last().id@) {
                    assert(p.push(all.last())[k] == all[j]);
                }
            } else {
                assert(visible_part(all, limits) == p.push(all.last()));
                assert(visible_part(all, limits)[p.len() as int] == all[j]);
            }
        }
    }
}

/// What is kept of some targets is among the kept ids.
pub proof fn lemma_keep_in(ts: Seq<Seq<char>>, kept: Seq<Seq<char>>)
    ensures
        forall|k: int| 0 <= k < keep_in(ts, kept).len() ==> kept.contains(#[trigger] keep_in(ts, kept)[k]),
    decreases ts.len(),
{
    if ts.len() > 0 {
        let p = keep_in(ts.drop_last(), kept);
        lemma_keep_in(ts.drop_last(), kept);
        if kept.contains(ts.last()) {
            assert forall|k: int| 0 <= k < keep_in(ts, kept).len() implies kept.contains(
                #[trigger] keep_in(ts, kept)[k],
            ) by {
                if k < p.len() {
                    assert(keep_in(ts, kept)[k] == p[k]);
                }
            }
        }
    }
}

/// A pruned relation points at something, and only at kept ids.
pub proof fn lemma_pruned(
    rs: Seq<(Seq<char>, RelationKind, Seq<Seq<char>>, Option<Seq<char>>)>,
    kept: Seq<Seq<char>>,
)
    ensures
        forall|j: int| 0 <= j < pruned(rs, kept).len() ==> (#[trigger] pruned(rs, kept)[j]).2.len() > 0,
        forall|j: int, k: int|
            0 <= j < pruned(rs, kept).len() && 0 <= k < pruned(rs, kept)[j].2.len() ==> kept.contains(
                #[trigger] pruned(rs, kept)[j].2[k],
            ),
    decreases rs.len(),
{
    if rs.len() > 0 {
        let p = pruned(rs.drop_last(), kept);
        lemma_pruned(rs.drop_last(), kept);
        lemma_keep_in(rs.last().2, kept);
        let t = keep_in(rs.last().2, kept);
        if t.len() > 0 {
            let q = p.push((rs.last().0, rs.last().1, t, rs.last().3));
            assert(pruned(rs, kept) == q);
            assert forall|j: int| 0 <= j < q.len() implies (#[trigger] q[j]).2.len() > 0 by {
                if j < p.len() {
                    assert(q[j] == p[j]);
                }
            }
            assert forall|j: int, k: int| 0 <= j < q.len() && 0 <= k < q[j].2.len() implies kept.contains(
                #[trigger] q[j].2[k],
            ) by {
                if j < p.len() {
                    assert(q[j] == p[j]);
                    assert(kept.contains(p[j].2[k]));
                } else {
                    assert(q[j].2 == t);
                    assert(kept.contains(t[k]));
                }
            }
        }
    }
}

/// The components of a feed that the viewer may see.
pub fn select_visible(all: Vec<ComponentSummary>, limits: &[(String, Access)]) -> (r: Vec<ComponentSummary>)
    ensures
        r@ == visible_part(all@, limits@),
{
    let ghost orig = all@;
    let mut rest = all;
    let mut out: Vec<ComponentSummary> = Vec::new();
    let ghost mut k: int = 0;
    assert(orig.take(0) =~= Seq::<ComponentSummary>::empty());
    while rest.len() > 0
        invariant
            0 <= k <= orig.len(),
            rest@ == orig.skip(k),
            out@ == visible_part(orig.take(k), limits@),
        decreases rest@.len(),
    {
        let c = rest.remove(0);
        proof {
            assert(orig.skip(k)[0] == c);
            assert(orig.take(k + 1).drop_last() == orig.take(k));
            assert(orig.take(k + 1).last() == c);
            assert(rest@ =~= orig.skip(k + 1));
            k = k + 1;
        }
        if shown_exec(limits, c.id.as_str()) {
            out.push(c);
        }
    }
    assert(orig.take(k) == orig);
    out
}

/// The ids of some components, in order.
pub fn id_list(cs: &Vec<ComponentSummary>) -> (r: Vec<String>)
    ensures
        id_views(r@) == ids_of(cs@),
{
    let mut out: Vec<String> = Vec::new();
    let mut i: usize = 0;
    while i < cs.len()
        invariant
            i <= cs@.len(),
            id_views(out@) == ids_of(cs@).take(i as int),
        decreases cs@.len() - i,
    {
        let ghost before = id_views(out@);
        let id = owned(cs[i].id.as_str());
        out.push(id);
        assert(id_views(out@) =~= before.push(cs@[i as int].id@));
        assert(ids_of(cs@).take(i + 1) =~= ids_of(cs@).take(i as int).push(cs@[i as int].id@));
        i += 1;
    }
    assert(ids_of(cs@).take(cs@.len() as int) =~= ids_of(cs@));
    out
}

/// Is `t` one of the ids?
pub fn holds_id(ids: &[String], t: &str) -> (r: bool)
    ensures
        r == id_views(ids@).contains(t@),
{
    let mut i: usize = 0;
    while i < ids.len()
        invariant
            i <= ids@.len(),
            forall|j: int| 0 <= j < i ==> ids@[j]@ != t@,
        decreases ids@.len() - i,
    {
        if str_eq(ids[i].as_str(), t) {
            assert(id_views(ids@)[i as int] == t@);
            return true;
        }
        i += 1;
    }
    proof {
        if id_views(ids@).contains(t@) {
            let k = choose|k: int| 0 <= k < id_views(ids@).len() && id_views(ids@)[k] == t@;
            assert(ids@[k]@ == t@);
        }
    }
    false
}

/// The targets that are among the kept ids, in order.
pub fn keep_targets(ts: Vec<String>, kept: &[String]) -> (r: Vec<String>)
    ensures
        id_views(r@) == keep_in(id_views(ts@), id_views(kept@)),
{
    let ghost orig = id_views(ts@);
    let mut rest = ts;
    let mut out: Vec<String> = Vec::new();
    let ghost mut k: int = 0;
    assert(orig.take(0) =~= Seq::<Seq<char>>::empty());
    assert(id_views(out@) =~= Seq::<Seq<char>>::empty());
    while rest.len() > 0
        invariant
            0 <= k <= orig.len(),
            id_views(rest@) == orig.skip(k),
            id_views(out@) == keep_in(orig.take(k), id_views(kept@)),
        decreases rest@.len(),
    {
        assert(id_views(rest@).len() == rest@.len());
        let ghost before_rest = rest@;
        let t = rest.remove(0);
        proof {
            assert(orig.skip(k)[0] == t@);
            assert(orig.take(k + 1).drop_last() == orig.take(k));
            assert(orig.take(k + 1).last() == t@);
            assert(rest@ =~= before_rest.skip(1));
            assert(id_views(rest@) =~= id_views(before_rest).skip(1));
            assert(orig.skip(k).skip(1) =~= orig.skip(k + 1));
            k = k + 1;
        }
        if holds_id(kept, t.as_str()) {
            let ghost before = id_views(out@);
            out.push(t);
            assert(id_views(out@) =~= before.push(orig[k - 1]));
        }
    }
    assert(orig.take(k) == orig);
    out
}

/// Every relation re-pointed at the kept ids; those left empty dropped.
pub fn prune_relations(rs: Vec<Relation>, kept: &[String]) -> (r: Vec<Relation>)
    ensures
        rels_view(r@) == pruned(rels_view(rs@), id_views(kept@)),
{
    let ghost orig = rels_view(rs@);
    let mut rest = rs;
    let mut out: Vec<Relation> = Vec::new();
    let ghost mut k: int = 0;
    assert(orig.take(0) =~= Seq::<(Seq<char>, RelationKind, Seq<Seq<char>>, Option<Seq<char>>)>::empty());
    assert(rels_view(out@) =~= Seq::<(Seq<char>, RelationKind, Seq<Seq<char>>, Option<Seq<char>>)>::empty());
    while rest.len() > 0
        invariant
            0 <= k <= orig.len(),
            rels_view(rest@) == orig.skip(k),
            rels_view(out@) == pruned(orig.take(k), id_views(kept@)),
        decreases rest@.len(),
    {
        assert(rels_view(rest@).len() == rest@.len());
        let ghost before_rest = rest@;
        let r = rest.remove(0);
        proof {
            assert(orig.skip(k)[0] == rel_view(r));
            assert(orig.take(k + 1).drop_last() == orig.take(k));
            assert(orig.take(k + 1).last() == rel_view(r));
            assert(rest@ =~= before_rest.skip(1));
            assert(rels_view(rest@) =~= rels_view(before_rest).skip(1));
            assert(orig.skip(k).skip(1) =~= orig.skip(k + 1));
            k = k + 1;
        }
        let Relation { name, kind, targets, href } = r;
        let t = keep_targets(targets, kept);
        if t.len() > 0 {
            let ghost before = rels_view(out@);
            let nr = Relation { name, kind, targets: t, href };
            out.push(nr);
            assert(rels_view(out@) =~= before.push(rel_view(nr)));
        }
    }
    assert(orig.take(k) == orig);
    out
}

/// The ids, each once.
pub fn distinct_ids(ids: &[String]) -> (r: Vec<String>)
    ensures
        id_views(r@) == distinct(id_views(ids@)),
{
    let ghost all = id_views(ids@);
    let mut out: Vec<String> = Vec::new();
    let mut i: usize = 0;
    assert(all.take(0) =~= Seq::<Seq<char>>::empty());
    assert(id_views(out@) =~= Seq::<Seq<char>>::empty());
    while i < ids.len()
        invariant
            i <= ids@.len(),
            all == id_views(ids@),
            id_views(out@) == distinct(all.take(i as int)),
        decreases ids@.len() - i,
    {
        assert(all.take(i + 1).drop_last() == all.take(i as int));
        assert(all.take(i + 1).last() == ids@[i as int]@);
        if !holds_id(out.as_slice(), ids[i].as_str()) {
            let ghost before = id_views(out@);
            out.push(owned(ids[i].as_str()));
            assert(id_views(out@) =~= before.push(ids@[i as int]@));
        }
        i += 1;
    }
    assert(all.take(ids@.len() as int) == all);
    out
}

pub proof fn lemma_count_owned_le(ids: Seq<Seq<char>>, plugin: Seq<char>, card: Seq<char>)
    ensures
        count_owned(ids, plugin, card) <= ids.len(),
    decreases ids.len(),
{
    if ids.len() > 0 {
        lemma_count_owned_le(ids.drop_last(), plugin, card);
    }
}

/// How many of the ids `plugin` owns, other than `card`.
pub fn count_owned_exec(ids: &[String], plugin: &str, card: &str) -> (r: usize)
    ensures
        r == count_owned(id_views(ids@), plugin@, card@),
{
    let ghost all = id_views(ids@);
    let mut n: usize = 0;
    let mut i: usize = 0;
    while i < ids.len()
        invariant
            i <= ids@.len(),
            all == id_views(ids@),
            n == count_owned(all.take(i as int), plugin@, card@),
        decreases ids@.len() - i,
    {
        assert(all.take(i + 1).drop_last() == all.take(i as int));
        assert(all.take(i + 1).last() == ids@[i as int]@);
        proof {
            lemma_count_owned_le(all.take(i as int), plugin@, card@);
        }
        if owns(plugin, ids[i].as_str()) && !str_eq(ids[i].as_str(), card) {
            n += 1;
        }
        i += 1;
    }
    assert(all.take(ids@.len() as int) == all);
    n
}

/// The first `components` metric set to `n`.
#[verifier::loop_isolation(false)]
pub fn set_count(ms: Vec<Metric>, n: usize) -> (r: Vec<Metric>)
    ensures
        metrics_view(r@) == with_count(metrics_view(ms@), n as nat),
        metric_units(r@) == metric_units(ms@),
{
    let ghost mv = metrics_view(ms@);
    let ghost mu = metric_units(ms@);
    let mut ms = ms;
    let mut i: usize = 0;
    while i < ms.len()
        invariant
            i <= ms@.len(),
            mv == metrics_view(ms@),
            mu == metric_units(ms@),
            forall|j: int| 0 <= j < i ==> !#[trigger] label_at(mv, components_label())(j),
        decreases ms@.len() - i,
    {
        if str_eq(ms[i].label.as_str(), "components") {
            proof {
                crate::text::lemma_first_at_some(mv.len() as int, label_at(mv, components_label()), i as int);
            }
            let ghost old_ms = ms@;
            let m = ms.remove(i);
            let Metric { label, value: _, tone, unit } = m;
            let nm = Metric { label, value: decimal_string(n as u64), tone, unit };
            assert(nm.value@ == decimal(n as nat));
            assert(metric_view(nm) == (mv[i as int].0, decimal(n as nat), mv[i as int].2));
            ms.insert(i, nm);
            assert(metrics_view(ms@) =~= mv.update(i as int, (mv[i as int].0, decimal(n as nat), mv[i as int].2)));
            assert(metric_units(ms@) =~= mu) by {
                assert(nm.unit == old_ms[i as int].unit);
            }
            return ms;
        }
        i += 1;
    }
    proof {
        crate::text::lemma_first_at_none(mv.len() as int, label_at(mv, components_label()));
    }
    ms
}

/// One component as a limited viewer gets it.
pub fn narrow(c: ComponentSummary, kept: &[String], distinct_kept: &[String]) -> (r: ComponentSummary)
    requires
        id_views(distinct_kept@) == distinct(id_views(kept@)),
    ensures
        narrowed(c, r, id_views(kept@)),
{
    let card = if str_eq(c.kind.as_str(), "plugin") {
        match strip_prefix_str(c.id.as_str(), "plugin:") {
            Some(name) => Some(count_owned_exec(distinct_kept, name, c.id.as_str())),
            None => None,
        }
    } else {
        None
    };
    let ghost src = c;
    let ComponentSummary { id, kind, label, health, detail, metrics, actions, relations, link } = c;
    let relations = prune_relations(relations, kept);
    let metrics = match card {
        Some(n) => set_count(metrics, n),
        None => metrics,
    };
    ComponentSummary { id, kind, label, health, detail, metrics, actions, relations, link }
}

/// The feed as a viewer limited by these plugins may see it: only what
/// each owning plugin admits, every relation re-pointed at what is left,
/// and every plugin card counting what the viewer can see.
pub fn filter_for(all: Vec<ComponentSummary>, limits: &[(String, Access)]) -> (r: Vec<ComponentSummary>)
    ensures
        r@.len() == visible_part(all@, limits@).len(),
        forall|i: int|
            0 <= i < r@.len() ==> narrowed(
                visible_part(all@, limits@)[i],
                #[trigger] r@[i],
                ids_of(visible_part(all@, limits@)),
            ),
        // Nothing the viewer may not see is sent.
        forall|i: int| 0 <= i < r@.len() ==> shown(limits@, #[trigger] r@[i].id@),
        // Everything the viewer may see is sent.
        forall|j: int|
            0 <= j < all@.len() && shown(limits@, #[trigger] all@[j].id@) ==> ids_of(r@).contains(all@[j].id@),
        // No edge leads to what was withheld, and none leads nowhere.
        forall|i: int, j: int|
            0 <= i < r@.len() && 0 <= j < r@[i].relations@.len() ==> (#[trigger] rels_view(r@[i].relations@)[j]).2.len()
                > 0,
        forall|i: int, j: int, k: int|
            0 <= i < r@.len() && 0 <= j < r@[i].relations@.len() && 0 <= k < rels_view(r@[i].relations@)[j].2.len()
                ==> ids_of(r@).contains(#[trigger] rels_view(r@[i].relations@)[j].2[k]),
{
    let ghost orig = all@;
    let vis = select_visible(all, limits);
    let ghost vp = vis@;
    let kept = id_list(&vis);
    let distinct_kept = distinct_ids(kept.as_slice());
    let mut rest = vis;
    let mut out: Vec<ComponentSummary> = Vec::new();
    let ghost mut k: int = 0;
    while rest.len() > 0
        invariant
            0 <= k <= vp.len(),
            vp == visible_part(orig, limits@),
            rest@ == vp.skip(k),
            id_views(kept@) == ids_of(vp),
            id_views(distinct_kept@) == distinct(id_views(kept@)),
            out@.len() == k,
            forall|i: int| 0 <= i < k ==> narrowed(vp[i], #[trigger] out@[i], ids_of(vp)),
        decreases rest@.len(),
    {
        let c = rest.remove(0);
        proof {
            assert(vp.skip(k)[0] == c);
            assert(rest@ =~= vp.skip(k + 1));
        }
        let n = narrow(c, kept.as_slice(), distinct_kept.as_slice());
        out.push(n);
        proof {
            k = k + 1;
        }
    }
    proof {
        lemma_visible_part_shown(orig, limits@);
        lemma_visible_part_complete(orig, limits@);
        assert forall|i: int| 0 <= i < out@.len() implies ids_of(out@)[i] == ids_of(vp)[i] by {
            assert(narrowed(vp[i], out@[i], ids_of(vp)));
        }
        assert(ids_of(out@) =~= ids_of(vp));
        assert forall|i: int| 0 <= i < out@.len() implies shown(limits@, #[trigger] out@[i].id@) by {
            assert(narrowed(vp[i], out@[i], ids_of(vp)));
            assert(shown(limits@, vp[i].id@));
        }
        assert forall|j: int| 0 <= j < orig.len() && shown(limits@, #[trigger] orig[j].id@) implies ids_of(
            out@,
        ).contains(orig[j].id@) by {
            assert(vp.contains(orig[j]));
            let m = choose|m: int| 0 <= m < vp.len() && vp[m] == orig[j];
            assert(ids_of(vp)[m] == orig[j].id@);
        }
        assert forall|i: int, j: int|
            0 <= i < out@.len() && 0 <= j < out@[i].relations@.len() implies (#[trigger] rels_view(
                out@[i].relations@,
            )[j]).2.len() > 0 by {
            assert(narrowed(vp[i], out@[i], ids_of(vp)));
            lemma_pruned(rels_view(vp[i].relations@), ids_of(vp));
        }
        assert forall|i: int, j: int, k: int|
            0 <= i < out@.len() && 0 <= j < out@[i].relations@.len() && 0 <= k < rels_view(
                out@[i].relations@,
            )[j].2.len() implies ids_of(out@).contains(#[trigger] rels_view(out@[i].relations@)[j].2[k]) by {
            assert(narrowed(vp[i], out@[i], ids_of(vp)));
            lemma_pruned(rels_view(vp[i].relations@), ids_of(vp));
        }
    }
    out
}

/// The feed for one viewer: unchanged when no plugin limits them.
pub fn components_for(all: Vec<ComponentSummary>, limits: &[(String, Access)]) -> (r: Vec<ComponentSummary>)
    ensures
        limits@.len() == 0 ==> r@ == all@,
        limits@.len() > 0 ==> r@.len() == visible_part(all@, limits@).len() && forall|i: int|
            0 <= i < r@.len() ==> narrowed(
                visible_part(all@, limits@)[i],
                #[trigger] r@[i],
                ids_of(visible_part(all@, limits@)),
            ),
{
    if limits.len() == 0 {
        all
    } else {
        filter_for(all, limits)
    }
}


/// One plugin's part of the aggregate: its own verdict and its slice.
pub struct Slice {
    pub name: String,
    pub health: Health,
    pub detail: String,
    pub components: Vec<ComponentSummary>,
}

/// A plugin's card: `plugin:<name>`, its health and detail, how many
/// components it has, an edge to each of them, and its place on the grid.
pub open spec fn card_ok(c: ComponentSummary, name: Seq<char>, health: Health, detail: Seq<char>, ids: Seq<Seq<char>>) -> bool {
    &&& c.id@ == "plugin:"@ + name
    &&& c.kind@ == "plugin"@
    &&& c.label@ == name
    &&& c.health == health
    &&& c.detail@ == detail
    &&& metrics_view(c.metrics@) == seq![(components_label(), decimal(ids.len()), None::<Seq<char>>)]
    &&& c.actions@.len() == 0
    &&& rels_view(c.relations@) == (if ids.len() == 0 {
        Seq::empty()
    } else {
        seq![(components_label(), RelationKind::HasMany, ids, None::<Seq<char>>)]
    })
    &&& opt_chars(c.link) == Some("#/grid?id=plugin:"@ + name)
}

pub fn plugin_card(name: &str, health: Health, detail: String, slice: &Vec<ComponentSummary>) -> (c: ComponentSummary)
    ensures
        card_ok(c, name@, health, detail@, ids_of(slice@)),
{
    let mut id = owned("plugin:");
    push_str(&mut id, name);
    let mut metrics: Vec<Metric> = Vec::new();
    metrics.push(Metric::new("components", decimal_string(slice.len() as u64)));
    let mut relations: Vec<Relation> = Vec::new();
    if slice.len() > 0 {
        relations.push(Relation::has_many("components", id_list(slice)));
    }
    let mut link = owned("#/grid?id=plugin:");
    push_str(&mut link, name);
    let c = ComponentSummary {
        id,
        kind: owned("plugin"),
        label: owned(name),
        health,
        detail,
        metrics,
        actions: Vec::new(),
        relations,
        link: Some(link),
    };
    proof {
        assert(metrics_view(c.metrics@) =~= seq![(components_label(), decimal(ids_of(slice@).len()), None::<Seq<char>>)]);
        if slice@.len() == 0 {
            assert(rels_view(c.relations@) =~= Seq::empty());
        } else {
            assert(rels_view(c.relations@) =~= seq![(components_label(), RelationKind::HasMany, ids_of(slice@), None::<Seq<char>>)]);
        }
    }
    c
}

/// Where slice `s` starts in the aggregate: each earlier slice takes its
/// card and its components.
pub open spec fn offset(slices: Seq<Slice>, s: int) -> int
    decreases s,
{
    if s <= 0 {
        0
    } else {
        offset(slices, s - 1) + 1 + slices[s - 1].components@.len()
    }
}

/// The aggregate feed: for each plugin in turn, its card and then its
/// slice.
pub fn aggregate(slices: Vec<Slice>) -> (r: Vec<ComponentSummary>)
    ensures
        r@.len() == offset(slices@, slices@.len() as int),
        forall|s: int|
            0 <= s < slices@.len() ==> card_ok(
                #[trigger] r@[offset(slices@, s)],
                slices@[s].name@,
                slices@[s].health,
                slices@[s].detail@,
                ids_of(slices@[s].components@),
            ),
        forall|s: int, j: int|
            0 <= s < slices@.len() && 0 <= j < slices@[s].components@.len() ==> #[trigger] r@[offset(slices@, s) + 1 + j]
                == slices@[s].components@[j],
{
    let ghost all = slices@;
    let mut rest = slices;
    let mut out: Vec<ComponentSummary> = Vec::new();
    let ghost mut k: int = 0;
    while rest.len() > 0
        invariant
            0 <= k <= all.len(),
            rest@ == all.skip(k),
            out@.len() == offset(all, k),
            forall|s: int|
                0 <= s < k ==> card_ok(
                    #[trigger] out@[offset(all, s)],
                    all[s].name@,
                    all[s].health,
                    all[s].detail@,
                    ids_of(all[s].components@),
                ),
            forall|s: int, j: int|
                0 <= s < k && 0 <= j < all[s].components@.len() ==> #[trigger] out@[offset(all, s) + 1 + j]
                    == all[s].components@[j],
        decreases rest@.len(),
    {
        let ghost before_rest = rest@;
        let sl = rest.remove(0);
        proof {
            assert(all.skip(k)[0] == sl);
            assert(rest@ =~= before_rest.skip(1));
            assert(all.skip(k).skip(1) =~= all.skip(k + 1));
        }
        let Slice { name, health, detail, components } = sl;
        let card = plugin_card(name.as_str(), health, detail, &components);
        let ghost before = out@;
        let ghost comps = components@;
        out.push(card);
        let mut components = components;
        out.append(&mut components);
        proof {
            assert(out@ == before.push(card) + comps);
            assert(offset(all, k + 1) == offset(all, k) + 1 + comps.len());
            assert forall|s: int|
                0 <= s < k + 1 implies card_ok(
                #[trigger] out@[offset(all, s)],
                all[s].name@,
                all[s].health,
                all[s].detail@,
                ids_of(all[s].components@),
            ) by {
                lemma_offset_nonneg(all, s);
                if s < k {
                    lemma_offset_mono(all, s, k);
                    assert(out@[offset(all, s)] == before[offset(all, s)]);
                }
            }
            assert forall|s: int, j: int|
                0 <= s < k + 1 && 0 <= j < all[s].components@.len() implies #[trigger] out@[offset(all, s) + 1 + j]
                == all[s].components@[j] by {
                lemma_offset_nonneg(all, s);
                if s < k {
                    lemma_offset_mono(all, s, k);
                    assert(out@[offset(all, s) + 1 + j] == before[offset(all, s) + 1 + j]);
                } else {
                    assert(out@[offset(all, s) + 1 + j] == comps[j]);
                }
            }
            k = k + 1;
        }
    }
    assert(k == all.len());
    out
}

pub proof fn lemma_offset_nonneg(all: Seq<Slice>, s: int)
    ensures
        offset(all, s) >= 0,
    decreases s,
{
    if s > 0 {
        lemma_offset_nonneg(all, s - 1);
    }
}

/// A later slice starts after an earlier one's components end.
pub proof fn lemma_offset_mono(all: Seq<Slice>, s: int, k: int)
    requires
        0 <= s < k <= all.len(),
    ensures
        offset(all, s) + 1 + all[s].components@.len() <= offset(all, k),
    decreases k - s,
{
    if s + 1 < k {
        lemma_offset_mono(all, s + 1, k);
    }
}

/// The worst of some healths, `Healthy` for none: the console's readiness.
pub open spec fn worst_of(hs: Seq<Health>) -> Health
    decreases hs.len(),
{
    if hs.len() == 0 {
        Health::Healthy
    } else {
        let w = worst_of(hs.drop_last());
        if severity_of(hs.last()) < severity_of(w) { hs.last() } else { w }
    }
}

pub fn worst(hs: &[Health]) -> (r: Health)
    ensures
        r == worst_of(hs@),
        forall|i: int| 0 <= i < hs@.len() ==> severity_of(r) <= severity_of(#[trigger] hs@[i]),
{
    let mut w = Health::Healthy;
    let mut i: usize = 0;
    while i < hs.len()
        invariant
            i <= hs@.len(),
            w == worst_of(hs@.take(i as int)),
            forall|j: int| 0 <= j < i ==> severity_of(w) <= severity_of(#[trigger] hs@[j]),
        decreases hs@.len() - i,
    {
        assert(hs@.take(i + 1).drop_last() == hs@.take(i as int));
        if severity(hs[i]) < severity(w) {
            w = hs[i];
        }
        i += 1;
    }
    assert(hs@.take(hs@.len() as int) == hs@);
    w
}

/// Does a component id carry its plugin's prefix, as every id in a slice
/// should?
pub fn prefixed(name: &str, id: &str) -> (r: bool)
    ensures
        r == (starts_with(id@, name@ + ":"@) || id@ == name@),
{
    let mut p = owned(name);
    push_str(&mut p, ":");
    starts_with_str(id, p.as_str()) || str_eq(id, name)
}

/// Every plugin whose answer withholds something, in plugin order
/// (`limits`).
pub open spec fn limits_spec(all: Seq<(String, Access)>) -> Seq<(String, Access)>
    decreases all.len(),
{
    if all.len() == 0 {
        Seq::empty()
    } else {
        let rest = limits_spec(all.drop_last());
        if all.last().1 is Unrestricted { rest } else { rest.push(all.last()) }
    }
}

pub fn limits_of(all: Vec<(String, Access)>) -> (r: Vec<(String, Access)>)
    ensures
        r@ == limits_spec(all@),
{
    let n = all.len();
    let ghost a = all@;
    let mut rest = all;
    let mut out: Vec<(String, Access)> = Vec::new();
    let mut k: usize = 0;
    assert(a.len() == n);
    assert(a.take(0) =~= Seq::<(String, Access)>::empty());
    while rest.len() > 0
        invariant
            k <= a.len(),
            a.len() <= usize::MAX,
            rest@ == a.skip(k as int),
            out@ == limits_spec(a.take(k as int)),
        decreases rest@.len(),
    {
        let e = rest.remove(0);
        proof {
            assert(a.take(k + 1).drop_last() =~= a.take(k as int));
            assert(a.take(k + 1).last() == a[k as int]);
            assert(a.skip(k + 1) =~= a.skip(k as int).drop_first());
        }
        if !e.1.is_unrestricted() {
            out.push(e);
        }
        k += 1;
    }
    assert(a.take(a.len() as int) =~= a);
    out
}

/// What a viewer is not being shown, per plugin: no aggregate count,
/// because two plugins hiding the same namespaces would sum to a number
/// that means nothing.
#[derive(Debug, Clone, PartialEq)]
pub struct AccessReport {
    /// Whether anything is withheld at all.
    pub enforced: bool,
    /// Whether the viewer is somebody.
    pub identified: bool,
    /// Each limiting plugin's name, count and line.
    pub plugins: Vec<(String, usize, String)>,
}

pub fn access_report(viewer: &crate::access::Viewer, limits: &[(String, Access)]) -> (r: AccessReport)
    ensures
        r.enforced == (limits@.len() > 0),
        r.identified == !(viewer.user is None && viewer.token is None),
        r.plugins@.len() == limits@.len(),
        forall|i: int| 0 <= i < limits@.len() ==> {
            &&& (#[trigger] r.plugins@[i]).0@ == limits@[i].0@
            &&& r.plugins@[i].1 == (match limits@[i].1 {
                Access::Unrestricted => 0,
                Access::Limited(s) => s.hidden,
            })
            &&& r.plugins@[i].2@ == (match limits@[i].1 {
                Access::Unrestricted => ""@,
                Access::Limited(s) => s.note@,
            })
        },
{
    let mut plugins: Vec<(String, usize, String)> = Vec::new();
    let mut i: usize = 0;
    while i < limits.len()
        invariant
            i <= limits@.len(),
            plugins@.len() == i,
            forall|j: int| 0 <= j < i ==> {
                &&& (#[trigger] plugins@[j]).0@ == limits@[j].0@
                &&& plugins@[j].1 == (match limits@[j].1 {
                    Access::Unrestricted => 0,
                    Access::Limited(s) => s.hidden,
                })
                &&& plugins@[j].2@ == (match limits@[j].1 {
                    Access::Unrestricted => ""@,
                    Access::Limited(s) => s.note@,
                })
            },
        decreases limits@.len() - i,
    {
        let a = &limits[i].1;
        plugins.push((owned(limits[i].0.as_str()), a.hidden(), owned(a.note())));
        i += 1;
    }
    AccessReport { enforced: limits.len() > 0, identified: !viewer.is_anonymous(), plugins }
}

} // verus!
