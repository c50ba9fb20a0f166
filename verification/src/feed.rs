//! A component feed served by another daemon, folded into this console's:
//! ids re-prefixed so the aggregate stays collision-free, actions routed
//! through the owning plugin's proxy so the browser only ever talks to the
//! console, and a verdict on the whole.

use vstd::prelude::*;
use crate::registry::{ids_of, opt_chars};
use crate::text::{
    char_not, chars_of, decimal, first_at, owned, push_chars, push_decimal, push_str, str_eq, trim_char,
};
use crate::view::{Action, ComponentSummary, Health, Relation, id_views, severity, severity_of};

verus! {

/// A string without any trailing `c`.
pub open spec fn trim_end_char(s: Seq<char>, c: char) -> Seq<char> {
    match crate::text::last_at(s.len() as int, char_not(s, c)) {
        Some(j) => s.take(j + 1),
        None => Seq::empty(),
    }
}

/// A string without any leading `c`.
pub open spec fn trim_start_char(s: Seq<char>, c: char) -> Seq<char> {
    match first_at(s.len() as int, char_not(s, c)) {
        Some(i) => s.skip(i),
        None => Seq::empty(),
    }
}

/// `str::trim_end_matches` on one character.
pub fn trim_end_matches(s: &str, c: char) -> (r: String)
    ensures
        r@ == trim_end_char(s@, c),
{
    let v = chars_of(s);
    let mut j = v.len();
    while j > 0 && v[j - 1] == c
        invariant
            j <= v@.len(),
            v@ == s@,
            forall|k: int| j <= k < v@.len() ==> v@[k] == c,
        decreases j,
    {
        j -= 1;
    }
    proof {
        assert forall|k: int| j <= k < v@.len() implies !#[trigger] char_not(v@, c)(k) by {}
        if j > 0 {
            crate::text::lemma_last_at_some(v@.len() as int, char_not(v@, c), j - 1);
        } else {
            crate::text::lemma_last_at_none(v@.len() as int, char_not(v@, c));
        }
    }
    let mut out = String::new();
    push_chars(&mut out, v.as_slice(), 0, j);
    assert(v@.subrange(0, j as int) == v@.take(j as int));
    out
}

/// `str::trim_start_matches` on one character.
pub fn trim_start_matches(s: &str, c: char) -> (r: String)
    ensures
        r@ == trim_start_char(s@, c),
{
    let v = chars_of(s);
    let mut i: usize = 0;
    while i < v.len() && v[i] == c
        invariant
            i <= v@.len(),
            v@ == s@,
            forall|k: int| 0 <= k < i ==> v@[k] == c,
        decreases v@.len() - i,
    {
        i += 1;
    }
    proof {
        assert forall|k: int| 0 <= k < i implies !#[trigger] char_not(v@, c)(k) by {}
        if i < v@.len() {
            crate::text::lemma_first_at_some(v@.len() as int, char_not(v@, c), i as int);
        } else {
            crate::text::lemma_first_at_none(v@.len() as int, char_not(v@, c));
        }
    }
    let mut out = String::new();
    push_chars(&mut out, v.as_slice(), i, v.len());
    assert(v@.subrange(i as int, v@.len() as int) == v@.skip(i as int));
    out
}

/// What a feed's poll concluded.
#[derive(Debug, Clone)]
pub struct FeedState {
    pub health: Health,
    pub detail: String,
    pub components: Vec<ComponentSummary>,
}

impl Default for FeedState {
    fn default() -> (s: Self)
        ensures
            s.health == Health::Unknown,
            s.detail@ == "not yet polled"@,
            s.components@.len() == 0,
    {
        FeedState { health: Health::Unknown, detail: owned("not yet polled"), components: Vec::new() }
    }
}

/// The first of the worst healths; `Idle` when there are none.
pub open spec fn worst_first(hs: Seq<Health>) -> Health
    decreases hs.len(),
{
    if hs.len() == 0 {
        Health::Idle
    } else if hs.len() == 1 {
        hs[0]
    } else {
        let w = worst_first(hs.drop_last());
        if severity_of(hs.last()) < severity_of(w) { hs.last() } else { w }
    }
}

pub open spec fn healths(cs: Seq<ComponentSummary>) -> Seq<Health> {
    cs.map_values(|c: ComponentSummary| c.health)
}

pub open spec fn system_at(cs: Seq<ComponentSummary>) -> spec_fn(int) -> bool {
    |i: int| cs[i].id@ == "system"@
}

/// The upstream's own `system` card is its verdict on itself; without
/// one, the worst component health stands in, with a count.
pub open spec fn summary_spec(cs: Seq<ComponentSummary>) -> (Health, Seq<char>) {
    match first_at(cs.len() as int, system_at(cs)) {
        Some(i) => (cs[i].health, cs[i].detail@),
        None => (worst_first(healths(cs)), decimal(cs.len()) + " components"@),
    }
}

pub fn summarize(list: &Vec<ComponentSummary>) -> (r: (Health, String))
    ensures
        r.0 == summary_spec(list@).0,
        r.1@ == summary_spec(list@).1,
{
    let mut i: usize = 0;
    while i < list.len()
        invariant
            i <= list@.len(),
            forall|j: int| 0 <= j < i ==> !#[trigger] system_at(list@)(j),
        decreases list@.len() - i,
    {
        if str_eq(list[i].id.as_str(), "system") {
            proof {
                crate::text::lemma_first_at_some(list@.len() as int, system_at(list@), i as int);
            }
            return (list[i].health, owned(list[i].detail.as_str()));
        }
        i += 1;
    }
    proof {
        crate::text::lemma_first_at_none(list@.len() as int, system_at(list@));
    }
    let ghost hs = healths(list@);
    let mut w = Health::Idle;
    let mut k: usize = 0;
    while k < list.len()
        invariant
            k <= list@.len(),
            hs == healths(list@),
            w == worst_first(hs.take(k as int)),
        decreases list@.len() - k,
    {
        assert(hs.take(k + 1).drop_last() == hs.take(k as int));
        assert(hs.take(k + 1).last() == list@[k as int].health);
        if k == 0 || severity(list[k].health) < severity(w) {
            w = list[k].health;
        }
        k += 1;
    }
    assert(hs.take(list@.len() as int) == hs);
    let mut detail = String::new();
    push_decimal(&mut detail, list.len() as u64);
    push_str(&mut detail, " components");
    (w, detail)
}

/// What one component becomes once folded in.
pub open spec fn remapped(src: ComponentSummary, out: ComponentSummary, prefix: Seq<char>, proxy: Seq<char>) -> bool {
    &&& out.id@ == prefix + ":"@ + src.id@
    &&& out.kind == src.kind
    &&& out.label == src.label
    &&& out.health == src.health
    &&& out.detail == src.detail
    &&& out.metrics == src.metrics
    &&& out.link is None
    &&& out.relations@.len() == src.relations@.len()
    &&& forall|j: int|
        #![trigger out.relations@[j]]
        0 <= j < out.relations@.len() ==> {
            let a = src.relations@[j];
            let b = out.relations@[j];
            &&& b.name == a.name
            &&& b.kind == a.kind
            &&& b.href is None
            &&& id_views(b.targets@) == id_views(a.targets@).map_values(|t: Seq<char>| prefix + ":"@ + t)
        }
    &&& out.actions@.len() == src.actions@.len()
    &&& forall|j: int|
        #![trigger out.actions@[j]]
        0 <= j < out.actions@.len() ==> {
            let a = src.actions@[j];
            let b = out.actions@[j];
            &&& b.path@ == proxy + "/"@ + trim_start_char(a.path@, '/')
            &&& b.id == a.id
            &&& b.label == a.label
            &&& b.method == a.method
            &&& b.enabled == a.enabled
            &&& b.danger == a.danger
            &&& b.tone == a.tone
        }
}

fn prefixed(prefix: &str, id: &str) -> (r: String)
    ensures
        r@ == prefix@ + ":"@ + id@,
{
    let mut s = owned(prefix);
    push_str(&mut s, ":");
    push_str(&mut s, id);
    s
}

fn remap_one(c: ComponentSummary, prefix: &str, proxy_base: &str) -> (r: ComponentSummary)
    ensures
        remapped(c, r, prefix@, proxy_base@),
{
    let ghost src = c;
    let ComponentSummary { id, kind, label, health, detail, metrics, actions, relations, link: _ } = c;
    let mut rels: Vec<Relation> = Vec::new();
    let mut i: usize = 0;
    while i < relations.len()
        invariant
            i <= relations@.len(),
            relations@ == src.relations@,
            rels@.len() == i,
            forall|j: int|
                #![trigger rels@[j]]
                0 <= j < i ==> {
                    let a = src.relations@[j];
                    let b = rels@[j];
                    &&& b.name == a.name
                    &&& b.kind == a.kind
                    &&& b.href is None
                    &&& id_views(b.targets@) == id_views(a.targets@).map_values(|t: Seq<char>| prefix@ + ":"@ + t)
                },
        decreases relations@.len() - i,
    {
        let r = &relations[i];
        let mut targets: Vec<String> = Vec::new();
        let mut k: usize = 0;
        while k < r.targets.len()
            invariant
                k <= r.targets@.len(),
                targets@.len() == k,
                forall|m: int| 0 <= m < k ==> #[trigger] targets@[m]@ == prefix@ + ":"@ + r.targets@[m]@,
            decreases r.targets@.len() - k,
        {
            targets.push(prefixed(prefix, r.targets[k].as_str()));
            k += 1;
        }
        assert(id_views(targets@) =~= id_views(r.targets@).map_values(|t: Seq<char>| prefix@ + ":"@ + t));
        rels.push(Relation { name: r.name.clone(), kind: r.kind, targets, href: None });
        i += 1;
    }
    let mut acts: Vec<Action> = Vec::new();
    let mut i: usize = 0;
    while i < actions.len()
        invariant
            i <= actions@.len(),
            actions@ == src.actions@,
            acts@.len() == i,
            forall|j: int|
                #![trigger acts@[j]]
                0 <= j < i ==> {
                    let a = src.actions@[j];
                    let b = acts@[j];
                    &&& b.path@ == proxy_base@ + "/"@ + trim_start_char(a.path@, '/')
                    &&& b.id == a.id
                    &&& b.label == a.label
                    &&& b.method == a.method
                    &&& b.enabled == a.enabled
                    &&& b.danger == a.danger
                    &&& b.tone == a.tone
                },
        decreases actions@.len() - i,
    {
        let a = &actions[i];
        let mut path = owned(proxy_base);
        push_str(&mut path, "/");
        let rest = trim_start_matches(a.path.as_str(), '/');
        push_str(&mut path, rest.as_str());
        acts.push(Action {
            id: a.id.clone(),
            label: a.label.clone(),
            method: a.method.clone(),
            path,
            enabled: a.enabled,
            danger: a.danger,
            tone: a.tone.clone(),
        });
        i += 1;
    }
    ComponentSummary {
        id: prefixed(prefix, id.as_str()),
        kind,
        label,
        health,
        detail,
        metrics,
        actions: acts,
        relations: rels,
        link: None,
    }
}


/// Re-prefix ids and relation targets; send actions through the proxy;
/// drop links, which are routes inside the upstream's own UI.
pub fn remap(list: Vec<ComponentSummary>, prefix: &str, proxy_base: &str) -> (r: Vec<ComponentSummary>)
    ensures
        r@.len() == list@.len(),
        forall|i: int| 0 <= i < r@.len() ==> remapped(list@[i], #[trigger] r@[i], prefix@, proxy_base@),
{
    let ghost orig = list@;
    let mut rest = list;
    let mut out: Vec<ComponentSummary> = Vec::new();
    let ghost mut k: int = 0;
    while rest.len() > 0
        invariant
            0 <= k <= orig.len(),
            rest@ == orig.skip(k),
            out@.len() == k,
            forall|i: int| 0 <= i < k ==> remapped(orig[i], #[trigger] out@[i], prefix@, proxy_base@),
        decreases rest@.len(),
    {
        let ghost before_rest = rest@;
        let c = rest.remove(0);
        proof {
            assert(orig.skip(k)[0] == c);
            assert(rest@ =~= before_rest.skip(1));
            assert(orig.skip(k).skip(1) =~= orig.skip(k + 1));
        }
        out.push(remap_one(c, prefix, proxy_base));
        proof {
            k = k + 1;
        }
    }
    out
}

/// A feed's address and proxy base are kept without trailing slashes.
pub fn feed_base(base: &str) -> (r: String)
    ensures
        r@ == trim_end_char(base@, '/'),
{
    trim_end_matches(base, '/')
}

/// What one poll of an upstream's feed got back.
pub enum Fetched {
    /// The components it serves.
    List(Vec<ComponentSummary>),
    /// It answered, and the body was not a feed; why.
    Unreadable(String),
    /// It answered with a failure; the status.
    Responded(String),
    /// It could not be reached; why.
    Unreachable(String),
}

/// What a poll concludes (`Feed::poll`): the feed's own verdict over its
/// components, re-prefixed; otherwise no components at all, because
/// stale rows would say the opposite of the truth.
pub fn observe(got: Fetched, prefix: &str, proxy_base: &str) -> (s: FeedState)
    ensures
        match got {
            Fetched::List(list) => {
                &&& s.health == summary_spec(list@).0
                &&& s.detail@ == summary_spec(list@).1
                &&& s.components@.len() == list@.len()
                &&& forall|i: int| 0 <= i < list@.len() ==> remapped(list@[i], #[trigger] s.components@[i], prefix@, proxy_base@)
            },
            Fetched::Unreadable(e) => s.health == Health::Warn && s.detail@ == "feed unreadable: "@ + e@ && s.components@.len() == 0,
            Fetched::Responded(st) => s.health == Health::Warn && s.detail@ == "responded "@ + st@ && s.components@.len() == 0,
            Fetched::Unreachable(e) => s.health == Health::Error && s.detail@ == "unreachable: "@ + e@ && s.components@.len() == 0,
        },
{
    match got {
        Fetched::List(list) => {
            let (health, detail) = summarize(&list);
            FeedState { health, detail, components: remap(list, prefix, proxy_base) }
        },
        Fetched::Unreadable(e) => {
            let mut d = owned("feed unreadable: ");
            push_str(&mut d, e.as_str());
            FeedState { health: Health::Warn, detail: d, components: Vec::new() }
        },
        Fetched::Responded(st) => {
            let mut d = owned("responded ");
            push_str(&mut d, st.as_str());
            FeedState { health: Health::Warn, detail: d, components: Vec::new() }
        },
        Fetched::Unreachable(e) => {
            let mut d = owned("unreachable: ");
            push_str(&mut d, e.as_str());
            FeedState { health: Health::Error, detail: d, components: Vec::new() }
        },
    }
}

/// A one-feed plugin's navigation: one item opening its card's grid.
pub fn feed_nav(section: &str, order: i32, item: &str, name: &str) -> (r: Vec<crate::nav::NavSection>)
    ensures
        crate::nav::sections_view(r@) == seq![(
            section@,
            order,
            crate::nav::NavKind::Work,
            seq![(item@, "#/grid?id=plugin:"@ + name@, 0i32)],
        )],
{
    let mut href = owned("#/grid?id=plugin:");
    push_str(&mut href, name);
    let s = crate::nav::NavSection::new(section, order).item(item, href.as_str());
    assert(crate::nav::items_view(s) =~= seq![(item@, "#/grid?id=plugin:"@ + name@, 0i32)]);
    let r = vec![s];
    assert(crate::nav::sections_view(r@) =~= seq![crate::nav::section_view(s)]);
    r
}

} // verus!
