//! Events for one object, asked of whichever plugin owns it.
//!
//! "No events" and "nothing records events" are different answers, and
//! [`Events::available`] keeps them apart.

use vstd::prelude::*;
use crate::sort::{Order, Ranked, sort_stable, sorted, lemma_sorted_len};
use crate::text::{owned, push_str, str_eq, str_less, str_lt};

verus! {

/// One thing that happened.
#[derive(Debug, Clone, PartialEq)]
pub struct Event {
    /// When it last happened, as the source wrote it (RFC 3339).
    pub time: String,
    /// `Normal` or `Warning`.
    pub kind: String,
    /// The short machine-readable cause: `FailedScheduling`, `Pulled`.
    pub reason: String,
    pub message: String,
    /// What reported it.
    pub source: String,
    /// How many times, for a source that collapses repeats.
    pub count: i64,
}

impl Event {
    pub fn is_warning(&self) -> (r: bool)
        ensures
            r == (self.kind@ == "Warning"@),
    {
        str_eq(self.kind.as_str(), "Warning")
    }
}

/// Newer first: an event comes before another when its time sorts after.
impl Order for Event {
    open spec fn before(&self, other: &Self) -> bool {
        str_lt(other.time@, self.time@)
    }
}

impl Ranked for Event {
    fn is_before(&self, other: &Self) -> (r: bool) {
        str_less(other.time.as_str(), self.time.as_str())
    }}

/// Newer first is a strict order.
pub proof fn lemma_event_order()
    ensures
        crate::sort::strict_order::<Event>(),
{
    assert forall|a: Event| !#[trigger] a.before(&a) by {
        crate::text::lemma_str_lt_irreflexive(a.time@);
    }
    assert forall|a: Event, b: Event, c: Event| #[trigger] a.before(&b) && #[trigger] b.before(&c) implies a.before(&c) by {
        crate::text::lemma_str_lt_transitive(c.time@, b.time@, a.time@);
    }
}

/// What `newest` keeps of some events, newest first, at most `cap`: they
/// come in time order, newest first; each was among those given; and none
/// left out is newer than one kept.
pub proof fn law_newest(items: Seq<Event>, cap: nat)
    ensures
        ({
            let all = sorted(items);
            let n = if cap < items.len() { cap as int } else { items.len() as int };
            let r = all.take(n);
            &&& r.len() == n
            &&& forall|i: int, j: int| #![trigger r[i], r[j]] 0 <= i < j < r.len() ==> !str_lt(r[i].time@, r[j].time@)
            &&& forall|i: int| 0 <= i < r.len() ==> items.contains(#[trigger] r[i])
            &&& forall|i: int, d: int| #![trigger r[i], all[d]] 0 <= i < r.len() && n <= d < all.len() ==> !str_lt(r[i].time@, all[d].time@)
        }),
{
    let all = sorted(items);
    lemma_event_order();
    crate::sort::lemma_sorted_members(items);
    crate::sort::lemma_sorted_ordered(items);
    let n = if cap < items.len() { cap as int } else { items.len() as int };
    let r = all.take(n);
    assert forall|i: int, j: int| #![trigger r[i], r[j]] 0 <= i < j < r.len() implies !str_lt(r[i].time@, r[j].time@) by {
        assert(r[i] == all[i] && r[j] == all[j]);
        assert(!all[j].before(&all[i]));
    }
    assert forall|i: int| 0 <= i < r.len() implies items.contains(#[trigger] r[i]) by {
        assert(r[i] == all[i]);
    }
    assert forall|i: int, d: int| #![trigger r[i], all[d]] 0 <= i < r.len() && n <= d < all.len() implies !str_lt(r[i].time@, all[d].time@) by {
        assert(r[i] == all[i]);
        assert(!all[d].before(&all[i]));
    }
}

/// What a plugin knows about one object's history.
#[derive(Debug, Clone, PartialEq)]
pub struct Events {
    /// Whether anything records events for this object at all.
    pub available: bool,
    /// Why not, when it is not.
    pub reason: String,
    pub items: Vec<Event>,
}

impl Events {
    pub fn of(items: Vec<Event>) -> (e: Self)
        ensures
            e.available,
            e.reason@.len() == 0,
            e.items@ == items@,
    {
        Events { available: true, reason: String::new(), items }
    }

    /// Nothing records events for this object, and here is why.
    pub fn none(reason: &str) -> (e: Self)
        ensures
            !e.available,
            e.reason@ == reason@,
            e.items@.len() == 0,
    {
        Events { available: false, reason: owned(reason), items: Vec::new() }
    }

    /// Newest first, and at most `cap` of them. Equal times keep the order
    /// they came in.
    pub fn newest(self, cap: usize) -> (e: Self)
        ensures
            e.available == self.available,
            e.reason == self.reason,
            e.items@ == sorted(self.items@).take(
                if cap < self.items@.len() { cap as int } else { self.items@.len() as int },
            ),
    {
        let Events { available, reason, items } = self;
        let ghost before = items@;
        let mut items = sort_stable(items);
        proof {
            lemma_sorted_len(before);
        }
        items.truncate(cap);
        proof {
            if cap >= before.len() {
                assert(items@ == sorted(before).take(before.len() as int));
            }
        }
        Events { available, reason, items }
    }
}

/// The answer when no plugin claims the id.
pub open spec fn unclaimed_reason(id: Seq<char>) -> Seq<char> {
    "nothing on this console records events for "@ + id
        + ". Events here come from the cluster's apiserver; the storage engine, the drive service and the registry do not write any."@
}

pub fn unclaimed(id: &str) -> (e: Events)
    ensures
        !e.available,
        e.reason@ == unclaimed_reason(id@),
        e.items@.len() == 0,
{
    let mut reason = owned("nothing on this console records events for ");
    push_str(&mut reason, id);
    push_str(
        &mut reason,
        ". Events here come from the cluster's apiserver; the storage engine, the drive service and the registry do not write any.",
    );
    Events { available: false, reason, items: Vec::new() }
}

} // verus!
