//! Navigation contributions. Plugins declare sections and items; the host
//! merges same-named sections across plugins and sorts by order.

use vstd::prelude::*;
use crate::sort::{Order, Ranked, sort_stable, sorted, lemma_sorted_len, precedes_at, insert_point};
use crate::text::{first_at, lemma_first_at_none, lemma_first_at_some, lemma_first_at_props};
use crate::text::{owned, str_eq, str_less, str_lt};

verus! {

/// What a section is for: `Work` sections start open, `Admin` ones shut.
#[derive(Debug, Clone, Copy, PartialEq, Eq, Structural)]
pub enum NavKind {
    Work,
    Admin,
}

impl Default for NavKind {
    fn default() -> (k: Self)
        ensures
            k == NavKind::Work,
    {
        NavKind::Work
    }
}

#[derive(Debug, Clone, PartialEq)]
pub struct NavItem {
    pub label: String,
    /// SPA hash route, e.g. "#/grid?id=k8s:pods".
    pub href: String,
    pub order: i32,
}

#[derive(Debug, Clone, PartialEq)]
pub struct NavSection {
    pub label: String,
    pub order: i32,
    pub kind: NavKind,
    pub items: Vec<NavItem>,
}

/// Lower order first, then label.
impl Order for NavItem {
    open spec fn before(&self, other: &Self) -> bool {
        self.order < other.order || (self.order == other.order && str_lt(self.label@, other.label@))
    }
}

impl Ranked for NavItem {
    fn is_before(&self, other: &Self) -> (r: bool) {
        self.order < other.order || (self.order == other.order && str_less(self.label.as_str(), other.label.as_str()))
    }}

/// Lower order first, then label.
impl Order for NavSection {
    open spec fn before(&self, other: &Self) -> bool {
        self.order < other.order || (self.order == other.order && str_lt(self.label@, other.label@))
    }
}

impl Ranked for NavSection {
    fn is_before(&self, other: &Self) -> (r: bool) {
        self.order < other.order || (self.order == other.order && str_less(self.label.as_str(), other.label.as_str()))
    }}

impl NavSection {
    pub fn new(label: &str, order: i32) -> (s: Self)
        ensures
            s.label@ == label@,
            s.order == order,
            s.kind == NavKind::Work,
            s.items@.len() == 0,
    {
        NavSection { label: owned(label), order, kind: NavKind::Work, items: Vec::new() }
    }

    /// A section people come to diagnose in rather than work in.
    pub fn admin(self) -> (s: Self)
        ensures
            s == (NavSection { kind: NavKind::Admin, ..self }),
    {
        NavSection { kind: NavKind::Admin, ..self }
    }

    /// An item at the next position: 0, 1, 2, …
    pub fn item(self, label: &str, href: &str) -> (s: Self)
        requires
            self.items@.len() <= i32::MAX,
        ensures
            s.label == self.label,
            s.order == self.order,
            s.kind == self.kind,
            s.items@.len() == self.items@.len() + 1,
            s.items@.take(self.items@.len() as int) == self.items@,
            s.items@.last().label@ == label@,
            s.items@.last().href@ == href@,
            s.items@.last().order == self.items@.len(),
    {
        let order = self.items.len() as i32;
        let NavSection { label: l, order: o, kind, mut items } = self;
        items.push(NavItem { label: owned(label), href: owned(href), order });
        proof {
            assert(items@.take(items@.len() - 1) == self.items@);
        }
        NavSection { label: l, order: o, kind, items }
    }

    /// An item at a stated position, for a section two plugins build.
    pub fn item_at(self, label: &str, href: &str, order: i32) -> (s: Self)
        ensures
            s.label == self.label,
            s.order == self.order,
            s.kind == self.kind,
            s.items@.len() == self.items@.len() + 1,
            s.items@.take(self.items@.len() as int) == self.items@,
            s.items@.last().label@ == label@,
            s.items@.last().href@ == href@,
            s.items@.last().order == order,
    {
        let NavSection { label: l, order: o, kind, mut items } = self;
        items.push(NavItem { label: owned(label), href: owned(href), order });
        proof {
            assert(items@.take(items@.len() - 1) == self.items@);
        }
        NavSection { label: l, order: o, kind, items }
    }
}

/// A section as the merge sees it: its items as a sequence.
pub struct SectionView {
    pub label: Seq<char>,
    pub order: i32,
    pub kind: NavKind,
    pub items: Seq<NavItem>,
}

impl View for NavSection {
    type V = SectionView;

    open spec fn view(&self) -> SectionView {
        SectionView { label: self.label@, order: self.order, kind: self.kind, items: self.items@ }
    }
}

impl Order for SectionView {
    open spec fn before(&self, other: &Self) -> bool {
        self.order < other.order || (self.order == other.order && str_lt(self.label, other.label))
    }
}


/// A section's items as label, link and place.
pub open spec fn items_view(s: NavSection) -> Seq<(Seq<char>, Seq<char>, i32)> {
    s.items@.map_values(|i: NavItem| (i.label@, i.href@, i.order))
}

/// A section as label, place, kind and items.
pub open spec fn section_view(s: NavSection) -> (Seq<char>, i32, NavKind, Seq<(Seq<char>, Seq<char>, i32)>) {
    (s.label@, s.order, s.kind, items_view(s))
}

pub open spec fn sections_view(v: Seq<NavSection>) -> Seq<(Seq<char>, i32, NavKind, Seq<(Seq<char>, Seq<char>, i32)>)> {
    v.map_values(|s: NavSection| section_view(s))
}

pub open spec fn view_of(s: NavSection) -> SectionView {
    s@
}

pub open spec fn label_at(merged: Seq<SectionView>, label: Seq<char>) -> spec_fn(int) -> bool {
    |i: int| merged[i].label == label
}

/// `s` folded into the sections merged so far: into the first one with its
/// label (lowest order wins, Work wins, items appended), or at the end.
pub open spec fn absorb(merged: Seq<SectionView>, s: SectionView) -> Seq<SectionView> {
    match first_at(merged.len() as int, label_at(merged, s.label)) {
        Some(i) => {
            let m = merged[i];
            merged.update(
                i,
                SectionView {
                    label: m.label,
                    order: if s.order < m.order { s.order } else { m.order },
                    kind: if s.kind == NavKind::Work { NavKind::Work } else { m.kind },
                    items: m.items + s.items,
                },
            )
        },
        None => merged.push(s),
    }
}

pub open spec fn fold(ss: Seq<SectionView>) -> Seq<SectionView>
    decreases ss.len(),
{
    if ss.len() == 0 {
        Seq::empty()
    } else {
        absorb(fold(ss.drop_last()), ss.last())
    }
}

pub open spec fn with_sorted_items(s: SectionView) -> SectionView {
    SectionView { items: sorted(s.items), ..s }
}

/// What merging yields: same labels folded together, every section's
/// items sorted, and the sections sorted.
pub open spec fn merged(ss: Seq<SectionView>) -> Seq<SectionView> {
    sorted(fold(ss).map_values(|s: SectionView| with_sorted_items(s)))
}

/// Whether some section carries this label.
pub open spec fn has_label(ss: Seq<SectionView>, label: Seq<char>) -> bool {
    exists|i: int| 0 <= i < ss.len() && #[trigger] ss[i].label == label
}

/// Whether every section with this label is for administration.
pub open spec fn all_admin(ss: Seq<SectionView>, label: Seq<char>) -> bool {
    forall|i: int| 0 <= i < ss.len() && #[trigger] ss[i].label == label ==> ss[i].kind == NavKind::Admin
}

/// What folding keeps: each label once, every label given, no other, and
/// a section for administration only when all its contributors were.
proof fn lemma_fold(ss: Seq<SectionView>)
    ensures
        forall|j: int, k: int| 0 <= j < k < fold(ss).len() ==> (#[trigger] fold(ss)[j]).label != (#[trigger] fold(ss)[k]).label,
        forall|i: int| 0 <= i < ss.len() ==> has_label(fold(ss), (#[trigger] ss[i]).label),
        forall|j: int| 0 <= j < fold(ss).len() ==> has_label(ss, (#[trigger] fold(ss)[j]).label),
        forall|j: int| 0 <= j < fold(ss).len() ==> ((#[trigger] fold(ss)[j]).kind == NavKind::Admin <==> all_admin(ss, fold(ss)[j].label)),
    decreases ss.len(),
{
    if ss.len() > 0 {
        let t = ss.drop_last();
        let x = ss.last();
        lemma_fold(t);
        let f = fold(t);
        let r = fold(ss);
        assert(r == absorb(f, x));
        lemma_first_at_props(f.len() as int, label_at(f, x.label));
        assert forall|l: Seq<char>| l != x.label implies all_admin(ss, l) == all_admin(t, l) by {
            if all_admin(t, l) {
                assert forall|i: int| 0 <= i < ss.len() && #[trigger] ss[i].label == l implies ss[i].kind == NavKind::Admin by {
                    if i < t.len() {
                        assert(t[i] == ss[i]);
                    }
                }
            }
            if all_admin(ss, l) {
                assert forall|i: int| 0 <= i < t.len() && #[trigger] t[i].label == l implies t[i].kind == NavKind::Admin by {
                    assert(t[i] == ss[i]);
                }
            }
        }
        assert forall|i: int| 0 <= i < t.len() implies has_label(ss, (#[trigger] t[i]).label) by {
            assert(ss[i] == t[i]);
        }
        assert forall|l: Seq<char>| has_label(t, l) implies has_label(ss, l) by {
            let i = choose|i: int| 0 <= i < t.len() && #[trigger] t[i].label == l;
            assert(ss[i] == t[i]);
        }
        assert(ss[ss.len() - 1] == x);
        match first_at(f.len() as int, label_at(f, x.label)) {
            Some(i) => {
                assert(f[i].label == x.label);
                assert(all_admin(ss, x.label) == (all_admin(t, x.label) && x.kind == NavKind::Admin)) by {
                    if all_admin(t, x.label) && x.kind == NavKind::Admin {
                        assert forall|a: int| 0 <= a < ss.len() && #[trigger] ss[a].label == x.label implies ss[a].kind == NavKind::Admin by {
                            if a < t.len() {
                                assert(t[a] == ss[a]);
                            }
                        }
                    }
                    if all_admin(ss, x.label) {
                        assert forall|a: int| 0 <= a < t.len() && #[trigger] t[a].label == x.label implies t[a].kind == NavKind::Admin by {
                            assert(t[a] == ss[a]);
                        }
                    }
                }
                assert forall|j: int| 0 <= j < r.len() implies (#[trigger] r[j]).label == f[j].label by {}
                assert forall|j: int, k: int| 0 <= j < k < r.len() implies (#[trigger] r[j]).label != (#[trigger] r[k]).label by {
                    assert(r[j].label == f[j].label && r[k].label == f[k].label);
                }
                assert forall|a: int| 0 <= a < ss.len() implies has_label(r, (#[trigger] ss[a]).label) by {
                    if a < t.len() {
                        assert(t[a] == ss[a]);
                        assert(has_label(f, t[a].label));
                        let j = choose|j: int| 0 <= j < f.len() && #[trigger] f[j].label == t[a].label;
                        assert(r[j].label == f[j].label);
                    } else {
                        assert(r[i].label == x.label);
                    }
                }
                assert forall|j: int| 0 <= j < r.len() implies has_label(ss, (#[trigger] r[j]).label) by {
                    assert(r[j].label == f[j].label);
                    assert(has_label(t, f[j].label));
                }
                assert forall|j: int| 0 <= j < r.len() implies ((#[trigger] r[j]).kind == NavKind::Admin <==> all_admin(ss, r[j].label)) by {
                    assert(r[j].label == f[j].label);
                    if j != i {
                        assert(f[j].label != f[i].label);
                    }
                }
            },
            None => {
                assert(r == f.push(x));
                assert forall|a: int| 0 <= a < t.len() implies (#[trigger] t[a]).label != x.label by {
                    assert(has_label(f, t[a].label));
                    let j = choose|j: int| 0 <= j < f.len() && #[trigger] f[j].label == t[a].label;
                    assert(!label_at(f, x.label)(j));
                }
                assert(all_admin(ss, x.label) == (x.kind == NavKind::Admin)) by {
                    if x.kind == NavKind::Admin {
                        assert forall|a: int| 0 <= a < ss.len() && #[trigger] ss[a].label == x.label implies ss[a].kind == NavKind::Admin by {
                            if a < t.len() {
                                assert(t[a] == ss[a]);
                            }
                        }
                    }
                }
                assert forall|j: int, k: int| 0 <= j < k < r.len() implies (#[trigger] r[j]).label != (#[trigger] r[k]).label by {
                    if k == f.len() {
                        assert(!label_at(f, x.label)(j));
                    }
                }
                assert forall|a: int| 0 <= a < ss.len() implies has_label(r, (#[trigger] ss[a]).label) by {
                    if a < t.len() {
                        assert(t[a] == ss[a]);
                        assert(has_label(f, t[a].label));
                        let j = choose|j: int| 0 <= j < f.len() && #[trigger] f[j].label == t[a].label;
                        assert(r[j] == f[j]);
                    } else {
                        assert(r[f.len() as int] == x);
                    }
                }
                assert forall|j: int| 0 <= j < r.len() implies has_label(ss, (#[trigger] r[j]).label) by {
                    if j < f.len() {
                        assert(r[j] == f[j]);
                        assert(has_label(t, f[j].label));
                    } else {
                        assert(r[j] == x);
                    }
                }
                assert forall|j: int| 0 <= j < r.len() implies ((#[trigger] r[j]).kind == NavKind::Admin <==> all_admin(ss, r[j].label)) by {
                    if j < f.len() {
                        assert(r[j] == f[j]);
                        assert(!label_at(f, x.label)(j));
                    }
                }
            },
        }
    }
}

/// Sections merge by label: after a merge each label appears once, every
/// label given is there and no other, and a section is for administration
/// only when every contributor called it that; one contributor calling it
/// work keeps it open.
pub proof fn law_merge_by_label(ss: Seq<SectionView>)
    ensures
        forall|j: int, k: int| 0 <= j < k < merged(ss).len() ==> (#[trigger] merged(ss)[j]).label != (#[trigger] merged(ss)[k]).label,
        forall|i: int| 0 <= i < ss.len() ==> has_label(merged(ss), (#[trigger] ss[i]).label),
        forall|j: int| 0 <= j < merged(ss).len() ==> has_label(ss, (#[trigger] merged(ss)[j]).label),
        forall|j: int| 0 <= j < merged(ss).len() ==> ((#[trigger] merged(ss)[j]).kind == NavKind::Admin <==> all_admin(ss, merged(ss)[j].label)),
{
    lemma_fold(ss);
    let f = fold(ss);
    let m = f.map_values(|s: SectionView| with_sorted_items(s));
    assert forall|j: int| 0 <= j < m.len() implies (#[trigger] m[j]).label == f[j].label && m[j].kind == f[j].kind by {}
    let key = |s: SectionView| s.label;
    assert forall|i: int, j: int| 0 <= i < j < m.len() implies key(#[trigger] m[i]) != key(#[trigger] m[j]) by {
        assert(m[i].label == f[i].label && m[j].label == f[j].label);
    }
    crate::sort::lemma_sorted_keys(m, key);
    let r = merged(ss);
    assert(r == sorted(m));
    assert forall|j: int, k: int| 0 <= j < k < r.len() implies (#[trigger] r[j]).label != (#[trigger] r[k]).label by {
        assert(key(r[j]) != key(r[k]));
    }
    assert forall|i: int| 0 <= i < ss.len() implies has_label(r, (#[trigger] ss[i]).label) by {
        assert(has_label(f, ss[i].label));
        let a = choose|a: int| 0 <= a < f.len() && #[trigger] f[a].label == ss[i].label;
        assert(m[a].label == f[a].label);
        assert(r.contains(m[a]));
        let b = choose|b: int| 0 <= b < r.len() && r[b] == m[a];
        assert(r[b].label == ss[i].label);
    }
    assert forall|j: int| 0 <= j < r.len() implies has_label(ss, (#[trigger] r[j]).label)
        && ((r[j].kind == NavKind::Admin) <==> all_admin(ss, r[j].label)) by {
        assert(m.contains(r[j]));
        let a = choose|a: int| 0 <= a < m.len() && m[a] == r[j];
        assert(m[a].label == f[a].label && m[a].kind == f[a].kind);
        assert(has_label(ss, f[a].label));
    }
}

/// `o` is the lowest order any section labelled `l` was given.
pub open spec fn lowest_order(ss: Seq<SectionView>, l: Seq<char>, o: i32) -> bool {
    &&& forall|i: int| 0 <= i < ss.len() && (#[trigger] ss[i]).label == l ==> o <= ss[i].order
    &&& exists|i: int| 0 <= i < ss.len() && (#[trigger] ss[i]).label == l && ss[i].order == o
}

proof fn lemma_fold_order(ss: Seq<SectionView>)
    ensures
        forall|j: int| 0 <= j < fold(ss).len() ==> lowest_order(ss, (#[trigger] fold(ss)[j]).label, fold(ss)[j].order),
    decreases ss.len(),
{
    if ss.len() > 0 {
        let t = ss.drop_last();
        let x = ss.last();
        lemma_fold_order(t);
        lemma_fold(t);
        let f = fold(t);
        let r = fold(ss);
        assert(r == absorb(f, x));
        assert(ss[ss.len() - 1] == x);
        lemma_first_at_props(f.len() as int, label_at(f, x.label));
        assert forall|j: int| 0 <= j < r.len() implies lowest_order(ss, (#[trigger] r[j]).label, r[j].order) by {
            let l = r[j].label;
            let o = r[j].order;
            let fresh = j >= f.len() || (match first_at(f.len() as int, label_at(f, x.label)) {
                Some(i) => i == j,
                None => false,
            });
            if !fresh {
                // Untouched: its label is not x's.
                assert(r[j] == f[j]);
                assert(lowest_order(t, l, o));
                match first_at(f.len() as int, label_at(f, x.label)) {
                    Some(i) => {
                        assert(f[i].label == x.label);
                        assert(f[j].label != f[i].label);
                    },
                    None => {
                        assert(!label_at(f, x.label)(j));
                    },
                }
                assert forall|a: int| 0 <= a < ss.len() && (#[trigger] ss[a]).label == l implies o <= ss[a].order by {
                    if a < t.len() {
                        assert(t[a] == ss[a]);
                    }
                }
                let w = choose|a: int| 0 <= a < t.len() && (#[trigger] t[a]).label == l && t[a].order == o;
                assert(ss[w] == t[w]);
            } else if j >= f.len() {
                // x, with a label new to the fold.
                assert(r[j] == x);
                assert forall|a: int| 0 <= a < ss.len() && (#[trigger] ss[a]).label == l implies o <= ss[a].order by {
                    if a < t.len() {
                        assert(t[a] == ss[a]);
                        assert(has_label(f, t[a].label));
                        let m = choose|m: int| 0 <= m < f.len() && #[trigger] f[m].label == t[a].label;
                        assert(!label_at(f, x.label)(m));
                    }
                }
            } else {
                // x folded into the section with its label.
                let i = j;
                assert(f[i].label == x.label);
                assert(lowest_order(t, l, f[i].order));
                assert forall|a: int| 0 <= a < ss.len() && (#[trigger] ss[a]).label == l implies o <= ss[a].order by {
                    if a < t.len() {
                        assert(t[a] == ss[a]);
                    }
                }
                if x.order < f[i].order {
                    assert(ss[ss.len() - 1].label == l && ss[ss.len() - 1].order == o);
                } else {
                    let w = choose|a: int| 0 <= a < t.len() && (#[trigger] t[a]).label == l && t[a].order == f[i].order;
                    assert(ss[w] == t[w]);
                }
            }
        }
    }
}

proof fn lemma_section_order()
    ensures
        crate::sort::strict_order::<SectionView>(),
{
    assert forall|a: SectionView| !#[trigger] a.before(&a) by {
        crate::text::lemma_str_lt_irreflexive(a.label);
    }
    assert forall|a: SectionView, b: SectionView, c: SectionView| #[trigger] a.before(&b) && #[trigger] b.before(&c) implies a.before(&c) by {
        if a.order == b.order && b.order == c.order {
            crate::text::lemma_str_lt_transitive(a.label, b.label, c.label);
        }
    }
}

proof fn lemma_item_order()
    ensures
        crate::sort::strict_order::<NavItem>(),
{
    assert forall|a: NavItem| !#[trigger] a.before(&a) by {
        crate::text::lemma_str_lt_irreflexive(a.label@);
    }
    assert forall|a: NavItem, b: NavItem, c: NavItem| #[trigger] a.before(&b) && #[trigger] b.before(&c) implies a.before(&c) by {
        if a.order == b.order && b.order == c.order {
            crate::text::lemma_str_lt_transitive(a.label@, b.label@, c.label@);
        }
    }
}

/// What a merge puts in order: the sections come by order then label,
/// each section's items by order then label, and each section keeps the
/// lowest order any plugin gave its label.
pub proof fn law_merge_orders(ss: Seq<SectionView>)
    ensures
        forall|i: int, j: int| #![trigger merged(ss)[i], merged(ss)[j]] 0 <= i < j < merged(ss).len() ==> !merged(ss)[j].before(&merged(ss)[i]),
        forall|j: int, a: int, b: int| #![trigger merged(ss)[j].items[a], merged(ss)[j].items[b]]
            0 <= j < merged(ss).len() && 0 <= a < b < merged(ss)[j].items.len()
            ==> !merged(ss)[j].items[b].before(&merged(ss)[j].items[a]),
        forall|j: int| 0 <= j < merged(ss).len() ==> lowest_order(ss, (#[trigger] merged(ss)[j]).label, merged(ss)[j].order),
{
    lemma_fold_order(ss);
    lemma_section_order();
    lemma_item_order();
    let f = fold(ss);
    let m = f.map_values(|s: SectionView| with_sorted_items(s));
    let r = merged(ss);
    assert(r == sorted(m));
    crate::sort::lemma_sorted_ordered(m);
    crate::sort::lemma_sorted_members(m);
    assert forall|j: int| 0 <= j < r.len() implies exists|q: int| 0 <= q < f.len() && #[trigger] m[q] == #[trigger] r[j] by {
        assert(m.contains(r[j]));
    }
    assert forall|j: int, a: int, b: int| #![trigger r[j].items[a], r[j].items[b]]
        0 <= j < r.len() && 0 <= a < b < r[j].items.len() implies !r[j].items[b].before(&r[j].items[a]) by {
        let q = choose|q: int| 0 <= q < f.len() && #[trigger] m[q] == r[j];
        assert(r[j].items == sorted(f[q].items));
        crate::sort::lemma_sorted_ordered(f[q].items);
    }
    assert forall|j: int| 0 <= j < r.len() implies lowest_order(ss, (#[trigger] r[j]).label, r[j].order) by {
        let q = choose|q: int| 0 <= q < f.len() && #[trigger] m[q] == r[j];
        assert(r[j].label == f[q].label && r[j].order == f[q].order);
    }
}

/// Some section with this label holds this item.
pub open spec fn holds_item(ss: Seq<SectionView>, label: Seq<char>, item: NavItem) -> bool {
    exists|j: int| 0 <= j < ss.len() && (#[trigger] ss[j]).label == label && ss[j].items.contains(item)
}

proof fn lemma_fold_items(ss: Seq<SectionView>)
    ensures
        forall|i: int, k: int| 0 <= i < ss.len() && 0 <= k < ss[i].items.len() ==> holds_item(fold(ss), ss[i].label, #[trigger] ss[i].items[k]),
    decreases ss.len(),
{
    if ss.len() > 0 {
        let t = ss.drop_last();
        let x = ss.last();
        lemma_fold_items(t);
        let f = fold(t);
        let r = fold(ss);
        assert(r == absorb(f, x));
        lemma_first_at_props(f.len() as int, label_at(f, x.label));
        assert forall|i: int, k: int| 0 <= i < ss.len() && 0 <= k < ss[i].items.len() implies holds_item(r, ss[i].label, #[trigger] ss[i].items[k]) by {
            if i < t.len() {
                assert(ss[i] == t[i]);
                assert(holds_item(f, t[i].label, t[i].items[k]));
                let j = choose|j: int| 0 <= j < f.len() && (#[trigger] f[j]).label == t[i].label && f[j].items.contains(t[i].items[k]);
                let a = choose|a: int| 0 <= a < f[j].items.len() && f[j].items[a] == t[i].items[k];
                match first_at(f.len() as int, label_at(f, x.label)) {
                    Some(idx) => {
                        if j == idx {
                            assert(r[j].items == f[j].items + x.items);
                            assert(r[j].items[a] == f[j].items[a]);
                        } else {
                            assert(r[j] == f[j]);
                        }
                    },
                    None => {
                        assert(r[j] == f[j]);
                    },
                }
                assert(r[j].label == f[j].label);
                assert(r[j].items.contains(ss[i].items[k]));
            } else {
                assert(ss[i] == x);
                match first_at(f.len() as int, label_at(f, x.label)) {
                    Some(idx) => {
                        assert(r[idx].items == f[idx].items + x.items);
                        assert(r[idx].items[f[idx].items.len() + k] == x.items[k]);
                        assert(r[idx].label == x.label);
                        assert(r[idx].items.contains(x.items[k]));
                    },
                    None => {
                        assert(r[f.len() as int] == x);
                        assert(r[f.len() as int].items[k] == x.items[k]);
                        assert(r[f.len() as int].items.contains(x.items[k]));
                    },
                }
            }
        }
    }
}

/// Nothing a plugin contributes is lost in a merge: every item of every
/// section given is in the merged section with that section's label.
pub proof fn law_merge_keeps_items(ss: Seq<SectionView>)
    ensures
        forall|i: int, k: int| 0 <= i < ss.len() && 0 <= k < ss[i].items.len() ==> holds_item(merged(ss), ss[i].label, #[trigger] ss[i].items[k]),
{
    lemma_fold_items(ss);
    let f = fold(ss);
    let m = f.map_values(|s: SectionView| with_sorted_items(s));
    let r = merged(ss);
    assert(r == sorted(m));
    crate::sort::lemma_sorted_members(m);
    assert forall|i: int, k: int| 0 <= i < ss.len() && 0 <= k < ss[i].items.len() implies holds_item(r, ss[i].label, #[trigger] ss[i].items[k]) by {
        assert(holds_item(f, ss[i].label, ss[i].items[k]));
        let q = choose|q: int| 0 <= q < f.len() && (#[trigger] f[q]).label == ss[i].label && f[q].items.contains(ss[i].items[k]);
        let a = choose|a: int| 0 <= a < f[q].items.len() && f[q].items[a] == ss[i].items[k];
        crate::sort::lemma_sorted_members(f[q].items);
        assert(m[q].items == sorted(f[q].items));
        assert(m[q].items.contains(ss[i].items[k]));
        assert(r.contains(m[q]));
        let j = choose|j: int| 0 <= j < r.len() && r[j] == m[q];
        assert(r[j].label == ss[i].label);
        assert(r[j].items.contains(ss[i].items[k]));
    }
}

/// After a merge the sections run by order, smallest first, and among
/// equal orders by label; within each section the items run the same way.
pub proof fn law_merge_sorted(ss: Seq<SectionView>)
    ensures
        forall|i: int, j: int| #![trigger merged(ss)[i], merged(ss)[j]] 0 <= i < j < merged(ss).len() ==>
            merged(ss)[i].order <= merged(ss)[j].order
            && (merged(ss)[i].order == merged(ss)[j].order ==> !str_lt(merged(ss)[j].label, merged(ss)[i].label)),
        forall|k: int, a: int, b: int| #![trigger merged(ss)[k].items[a], merged(ss)[k].items[b]]
            0 <= k < merged(ss).len() && 0 <= a < b < merged(ss)[k].items.len() ==>
            merged(ss)[k].items[a].order <= merged(ss)[k].items[b].order
            && (merged(ss)[k].items[a].order == merged(ss)[k].items[b].order
                ==> !str_lt(merged(ss)[k].items[b].label@, merged(ss)[k].items[a].label@)),
{
    law_merge_orders(ss);
    let m = merged(ss);
    assert forall|i: int, j: int| #![trigger m[i], m[j]] 0 <= i < j < m.len() implies
        m[i].order <= m[j].order && (m[i].order == m[j].order ==> !str_lt(m[j].label, m[i].label)) by {
        assert(!m[j].before(&m[i]));
    }
    assert forall|k: int, a: int, b: int| #![trigger m[k].items[a], m[k].items[b]]
        0 <= k < m.len() && 0 <= a < b < m[k].items.len() implies
        m[k].items[a].order <= m[k].items[b].order
        && (m[k].items[a].order == m[k].items[b].order ==> !str_lt(m[k].items[b].label@, m[k].items[a].label@)) by {
        assert(!m[k].items[b].before(&m[k].items[a]));
    }
}

/// Merges sections from all plugins: the same label folds into one section
/// (the lowest order wins, and it is Work if any contributor says so), items
/// sort by order then label, and sections sort the same way.
pub fn merge(sections: Vec<NavSection>) -> (r: Vec<NavSection>)
    ensures
        r@.map_values(|s: NavSection| s@) == merged(sections@.map_values(|s: NavSection| s@)),
        // Sections by order, then label.
        forall|i: int, j: int| #![trigger r@[i], r@[j]] 0 <= i < j < r@.len() ==> r@[i].order <= r@[j].order
            && (r@[i].order == r@[j].order ==> !str_lt(r@[j].label@, r@[i].label@)),
{
    let ghost input = sections@.map_values(|s: NavSection| s@);
    let mut out: Vec<NavSection> = Vec::new();
    let mut rest = sections;
    let ghost n = rest@.len();
    assert(n == rest.len());
    let mut i: usize = 0;
    proof {
        assert(input.take(0) =~= Seq::<SectionView>::empty());
        assert(rest@ == sections@.skip(0));
    }
    while rest.len() > 0
        invariant
            n == sections@.len(),
            input == sections@.map_values(|s: NavSection| s@),
            i <= n,
            i + rest@.len() == n,
            n <= usize::MAX,
            rest@ == sections@.skip(i as int),
            out@.map_values(|s: NavSection| s@) == fold(input.take(i as int)),
        decreases rest@.len(),
    {
        let mut s = rest.remove(0);
        assert(s == sections@[i as int]);
        let ghost before = out@.map_values(|s: NavSection| s@);
        // The first section already merged with this label.
        let mut k: usize = 0;
        while k < out.len()
            invariant
                k <= out@.len(),
                forall|j: int| 0 <= j < k ==> out@[j].label@ != s.label@,
            ensures
                k <= out@.len(),
                forall|j: int| 0 <= j < k ==> out@[j].label@ != s.label@,
                k < out@.len() ==> out@[k as int].label@ == s.label@,
            decreases out@.len() - k,
        {
            if str_eq(out[k].label.as_str(), s.label.as_str()) {
                break;
            }
            k += 1;
        }
        proof {
            assert(input.take(i + 1).drop_last() == input.take(i as int));
            assert(input.take(i + 1).last() == s@);
            if k < out@.len() {
                assert forall|j: int| 0 <= j < k implies !#[trigger] label_at(before, s@.label)(j) by {
                    assert(before[j] == out@[j]@);
                }
                assert(before[k as int] == out@[k as int]@);
                lemma_first_at_some(before.len() as int, label_at(before, s@.label), k as int);
            } else {
                assert forall|j: int| 0 <= j < before.len() implies !#[trigger] label_at(before, s@.label)(j) by {
                    assert(before[j] == out@[j]@);
                }
                lemma_first_at_none(before.len() as int, label_at(before, s@.label));
            }
        }
        if k < out.len() {
            let mut m = out.remove(k);
            if s.order < m.order {
                m.order = s.order;
            }
            if s.kind == NavKind::Work {
                m.kind = NavKind::Work;
            }
            m.items.append(&mut s.items);
            out.insert(k, m);
            proof {
                assert(out@.map_values(|s: NavSection| s@) =~= fold(input.take(i + 1)));
            }
        } else {
            out.push(s);
            proof {
                assert(out@.map_values(|s: NavSection| s@) =~= fold(input.take(i + 1)));
            }
        }
        i += 1;
        proof {
            assert(rest@ == sections@.skip(i as int));
        }
    }
    proof {
        assert(input.take(i as int) == input);
    }
    // Sort every section's items.
    let ghost folded = out@.map_values(|s: NavSection| s@);
    let mut done: Vec<NavSection> = Vec::new();
    let m = out.len();
    let mut j: usize = 0;
    while out.len() > 0
        invariant
            m == folded.len(),
            j <= m,
            out@.len() == m - j,
            forall|t: int| 0 <= t < out@.len() ==> #[trigger] out@[t]@ == folded[j + t],
            done@.len() == j,
            forall|t: int| 0 <= t < j ==> #[trigger] done@[t]@ == with_sorted_items(folded[t]),
        decreases out@.len(),
    {
        let s = out.remove(0);
        assert(s@ == folded[j as int]);
        let NavSection { label, order, kind, items } = s;
        let items = sort_stable(items);
        done.push(NavSection { label, order, kind, items });
        j += 1;
        proof {
            assert forall|t: int| 0 <= t < out@.len() implies #[trigger] out@[t]@ == folded[j + t] by {}
        }
    }
    let ghost presorted = done@;
    proof {
        assert(presorted.map_values(|s: NavSection| s@) =~= folded.map_values(|s: SectionView| with_sorted_items(s)));
    }
    let r = sort_stable(done);
    proof {
        crate::sort::lemma_sorted_map(presorted, |s: NavSection| s@);
        let m = merged(input);
        law_merge_sorted(input);
        assert forall|i: int, j: int| #![trigger r@[i], r@[j]] 0 <= i < j < r@.len() implies r@[i].order <= r@[j].order
            && (r@[i].order == r@[j].order ==> !str_lt(r@[j].label@, r@[i].label@)) by {
            assert(r@.map_values(|s: NavSection| s@)[i] == m[i]);
            assert(r@.map_values(|s: NavSection| s@)[j] == m[j]);
        }
    }
    r
}

} // verus!
