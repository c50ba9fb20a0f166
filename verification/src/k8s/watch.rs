//! What one watched kind holds, and the decisions of its list+watch loop:
//! a list replaces everything, the watch's deltas insert and remove by
//! key, a break marks the kind stale, and a failed list is tried again
//! after a backoff that doubles from a second up to half a minute (a
//! minute for a kind the apiserver does not serve).
//!
//! The loop itself (the requests, the waiting) is the caller's; it hands
//! each outcome here and does what comes back.

use vstd::prelude::*;
use crate::json::{Json, member_key};
use crate::k8s::pages::{object_key, object_key_spec};
use crate::text::{first_at, owned, str_eq};

verus! {

/// Stored objects as key and object.
pub open spec fn entries(s: Seq<(String, Json)>) -> Seq<(Seq<char>, Json)> {
    s.map_values(|e: (String, Json)| (e.0@, e.1))
}

pub open spec fn entry_key_at(s: Seq<(Seq<char>, Json)>, k: Seq<char>) -> spec_fn(int) -> bool {
    |i: int| s[i].0 == k
}

/// The object stored under `k`.
pub open spec fn lookup(s: Seq<(Seq<char>, Json)>, k: Seq<char>) -> Option<Json> {
    match first_at(s.len() as int, entry_key_at(s, k)) {
        Some(i) => Some(s[i].1),
        None => None,
    }
}

/// Storing under a key: the object already there is replaced, a new key
/// is added at the end.
pub open spec fn put(s: Seq<(Seq<char>, Json)>, k: Seq<char>, o: Json) -> Seq<(Seq<char>, Json)> {
    match first_at(s.len() as int, entry_key_at(s, k)) {
        Some(i) => s.update(i, (k, o)),
        None => s.push((k, o)),
    }
}

/// Removing what is stored under a key.
pub open spec fn drop_key(s: Seq<(Seq<char>, Json)>, k: Seq<char>) -> Seq<(Seq<char>, Json)> {
    match first_at(s.len() as int, entry_key_at(s, k)) {
        Some(i) => s.remove(i),
        None => s,
    }
}

/// No key twice.
pub open spec fn keys_distinct(s: Seq<(Seq<char>, Json)>) -> bool {
    forall|i: int, j: int| 0 <= i < j < s.len() ==> (#[trigger] s[i]).0 != (#[trigger] s[j]).0
}

/// After storing, the key gives back what was stored, keys stay distinct,
/// and every other key gives what it gave before.
pub proof fn law_put(s: Seq<(Seq<char>, Json)>, k: Seq<char>, o: Json, other: Seq<char>)
    requires
        keys_distinct(s),
        other != k,
    ensures
        keys_distinct(put(s, k, o)),
        lookup(put(s, k, o), k) == Some(o),
        lookup(put(s, k, o), other) == lookup(s, other),
{
    let r = put(s, k, o);
    crate::text::lemma_first_at_props(s.len() as int, entry_key_at(s, k));
    crate::text::lemma_first_at_props(s.len() as int, entry_key_at(s, other));
    match first_at(s.len() as int, entry_key_at(s, k)) {
        Some(i) => {
            assert forall|a: int, b: int| 0 <= a < b < r.len() implies (#[trigger] r[a]).0 != (#[trigger] r[b]).0 by {
                assert(r[a].0 == s[a].0 && r[b].0 == s[b].0);
            }
            crate::text::lemma_first_at_some(r.len() as int, entry_key_at(r, k), i);
            match first_at(s.len() as int, entry_key_at(s, other)) {
                Some(t) => {
                    assert forall|q: int| 0 <= q < t implies !#[trigger] entry_key_at(r, other)(q) by {
                        assert(!entry_key_at(s, other)(q));
                    }
                    crate::text::lemma_first_at_some(r.len() as int, entry_key_at(r, other), t);
                },
                None => {
                    assert forall|q: int| 0 <= q < r.len() implies !#[trigger] entry_key_at(r, other)(q) by {
                        assert(!entry_key_at(s, other)(q));
                    }
                    crate::text::lemma_first_at_none(r.len() as int, entry_key_at(r, other));
                },
            }
        },
        None => {
            assert forall|a: int, b: int| 0 <= a < b < r.len() implies (#[trigger] r[a]).0 != (#[trigger] r[b]).0 by {
                if b == s.len() {
                    assert(!entry_key_at(s, k)(a));
                }
            }
            assert forall|q: int| 0 <= q < s.len() implies !#[trigger] entry_key_at(r, k)(q) by {
                assert(!entry_key_at(s, k)(q));
            }
            crate::text::lemma_first_at_some(r.len() as int, entry_key_at(r, k), s.len() as int);
            match first_at(s.len() as int, entry_key_at(s, other)) {
                Some(t) => {
                    assert forall|q: int| 0 <= q < t implies !#[trigger] entry_key_at(r, other)(q) by {
                        assert(!entry_key_at(s, other)(q));
                    }
                    crate::text::lemma_first_at_some(r.len() as int, entry_key_at(r, other), t);
                },
                None => {
                    assert forall|q: int| 0 <= q < r.len() implies !#[trigger] entry_key_at(r, other)(q) by {
                        if q < s.len() {
                            assert(!entry_key_at(s, other)(q));
                        }
                    }
                    crate::text::lemma_first_at_none(r.len() as int, entry_key_at(r, other));
                },
            }
        },
    }
}

/// After removing, the key gives nothing and keys stay distinct.
pub proof fn law_drop_key(s: Seq<(Seq<char>, Json)>, k: Seq<char>)
    requires
        keys_distinct(s),
    ensures
        keys_distinct(drop_key(s, k)),
        lookup(drop_key(s, k), k) is None,
{
    let r = drop_key(s, k);
    crate::text::lemma_first_at_props(s.len() as int, entry_key_at(s, k));
    match first_at(s.len() as int, entry_key_at(s, k)) {
        Some(i) => {
            assert forall|a: int, b: int| 0 <= a < b < r.len() implies (#[trigger] r[a]).0 != (#[trigger] r[b]).0 by {
                let a2 = if a < i { a } else { a + 1 };
                let b2 = if b < i { b } else { b + 1 };
                assert(r[a] == s[a2] && r[b] == s[b2]);
            }
            assert forall|q: int| 0 <= q < r.len() implies !#[trigger] entry_key_at(r, k)(q) by {
                if q >= i {
                    assert(r[q] == s[q + 1]);
                }
            }
        },
        None => {},
    }
    crate::text::lemma_first_at_props(r.len() as int, entry_key_at(r, k));
}

/// Stores `o` under `k`.
#[verifier::loop_isolation(false)]
pub fn put_entry(s: &mut Vec<(String, Json)>, k: String, o: Json)
    ensures
        entries(final(s)@) == put(entries(old(s)@), k@, o),
{
    let ghost s0 = entries(s@);
    let mut i: usize = 0;
    while i < s.len()
        invariant
            i <= s@.len(),
            entries(s@) == s0,
            forall|j: int| 0 <= j < i ==> !#[trigger] entry_key_at(s0, k@)(j),
        decreases s@.len() - i,
    {
        if str_eq(s[i].0.as_str(), k.as_str()) {
            proof {
                crate::text::lemma_first_at_some(s0.len() as int, entry_key_at(s0, k@), i as int);
            }
            let ghost e = (k@, o);
            s.set(i, (k, o));
            assert(entries(s@) =~= s0.update(i as int, e));
            return;
        }
        i += 1;
    }
    proof {
        crate::text::lemma_first_at_none(s0.len() as int, entry_key_at(s0, k@));
    }
    let ghost e = (k@, o);
    s.push((k, o));
    assert(entries(s@) =~= s0.push(e));
}

/// Removes what is stored under `k`.
#[verifier::loop_isolation(false)]
pub fn drop_entry(s: &mut Vec<(String, Json)>, k: &str)
    ensures
        entries(final(s)@) == drop_key(entries(old(s)@), k@),
{
    let ghost s0 = entries(s@);
    let mut i: usize = 0;
    while i < s.len()
        invariant
            i <= s@.len(),
            entries(s@) == s0,
            forall|j: int| 0 <= j < i ==> !#[trigger] entry_key_at(s0, k@)(j),
        decreases s@.len() - i,
    {
        if str_eq(s[i].0.as_str(), k) {
            proof {
                crate::text::lemma_first_at_some(s0.len() as int, entry_key_at(s0, k@), i as int);
            }
            let _ = s.remove(i);
            assert(entries(s@) =~= s0.remove(i as int));
            return;
        }
        i += 1;
    }
    proof {
        crate::text::lemma_first_at_none(s0.len() as int, entry_key_at(s0, k@));
    }
}

/// What a watched kind holds.
pub struct KindCache {
    /// The objects by key; `None` when nothing is held, which is also what
    /// a kind the apiserver does not serve holds (so "absent" and "present
    /// and empty" can be told apart).
    pub objects: Option<Vec<(String, Json)>>,
    /// A list has been applied and no watch has broken since.
    pub synced: bool,
    /// The apiserver does not serve this kind.
    pub absent: bool,
}

pub open spec fn held(c: KindCache) -> Option<Seq<(Seq<char>, Json)>> {
    match c.objects {
        Some(v) => Some(entries(v@)),
        None => None,
    }
}

/// The items of a list answer, or none.
pub open spec fn items_of(list: Json) -> Seq<Json> {
    match list.member("items"@) {
        Some(Json::Arr(a)) => a@,
        _ => Seq::empty(),
    }
}

/// Items stored by key in turn: one without a key is left out, and of two
/// with one key the later wins.
pub open spec fn keyed_from(acc: Seq<(Seq<char>, Json)>, items: Seq<Json>) -> Seq<(Seq<char>, Json)>
    decreases items.len(),
{
    if items.len() == 0 {
        acc
    } else {
        let p = keyed_from(acc, items.drop_last());
        match object_key_spec(items.last()) {
            Some(k) => put(p, k, items.last()),
            None => p,
        }
    }
}

/// Where the watch resumes: the list's `metadata.resourceVersion`, or `0`.
pub open spec fn resource_version_of(list: Json) -> Seq<char> {
    match list.path_str(seq!["metadata"@, "resourceVersion"@]) {
        Some(v) => v,
        None => "0"@,
    }
}

/// The items of a list answer, moved out of it.
#[verifier::loop_isolation(false)]
fn take_items(list: Json) -> (r: Vec<Json>)
    ensures
        r@ == items_of(list),
{
    let ghost whole = list;
    match list {
        Json::Obj(m) => {
            let mut m = m;
            let mut i: usize = 0;
            while i < m.len()
                invariant
                    i <= m@.len(),
                    whole == Json::Obj(m),
                    forall|j: int| 0 <= j < i ==> !#[trigger] member_key(m@, "items"@)(j),
                decreases m@.len() - i,
            {
                if str_eq(m[i].0.as_str(), "items") {
                    proof {
                        crate::text::lemma_first_at_some(m@.len() as int, member_key(m@, "items"@), i as int);
                    }
                    let ghost mm = m@;
                    let (_, v) = m.remove(i);
                    assert(v == mm[i as int].1);
                    return match v {
                        Json::Arr(a) => a,
                        _ => Vec::new(),
                    };
                }
                i += 1;
            }
            proof {
                crate::text::lemma_first_at_none(m@.len() as int, member_key(m@, "items"@));
            }
            Vec::new()
        },
        _ => Vec::new(),
    }
}

/// A list's items stored by key.
pub fn keyed(items: Vec<Json>) -> (r: Vec<(String, Json)>)
    ensures
        entries(r@) == keyed_from(Seq::empty(), items@),
{
    let ghost all = items@;
    let mut rest = items;
    let mut out: Vec<(String, Json)> = Vec::new();
    let ghost mut n: int = 0;
    assert(entries(out@) =~= Seq::<(Seq<char>, Json)>::empty());
    while rest.len() > 0
        invariant
            0 <= n <= all.len(),
            rest@ == all.skip(n),
            entries(out@) == keyed_from(Seq::empty(), all.take(n)),
        decreases rest@.len(),
    {
        let o = rest.remove(0);
        proof {
            assert(o == all[n]);
            assert(all.take(n + 1).drop_last() =~= all.take(n));
            assert(all.take(n + 1).last() == all[n]);
            assert(rest@ =~= all.skip(n + 1));
            n = n + 1;
        }
        match object_key(&o) {
            Some(k) => put_entry(&mut out, k, o),
            None => {},
        }
    }
    assert(all.take(n) =~= all);
    out
}

impl KindCache {
    /// Nothing held yet, not synced.
    pub fn new() -> (c: KindCache)
        ensures
            held(c) is None,
            !c.synced,
            !c.absent,
    {
        KindCache { objects: None, synced: false, absent: false }
    }

    /// A list replaces everything: synced, present.
    pub fn replace(&mut self, items: Vec<(String, Json)>)
        ensures
            held(*final(self)) == Some(entries(items@)),
            final(self).synced,
            !final(self).absent,
    {
        self.objects = Some(items);
        self.synced = true;
        self.absent = false;
    }

    /// The apiserver does not serve this kind: nothing is held, synced.
    pub fn set_absent(&mut self)
        ensures
            held(*final(self)) is None,
            final(self).synced,
            final(self).absent,
    {
        self.objects = None;
        self.synced = true;
        self.absent = true;
    }

    /// The watch broke or a list failed: what is held stays, not synced.
    pub fn set_stale(&mut self)
        ensures
            held(*final(self)) == held(*old(self)),
            !final(self).synced,
            final(self).absent == old(self).absent,
    {
        self.synced = false;
    }

    /// One watch event: `ADDED` and `MODIFIED` store the object under its
    /// key, `DELETED` removes it; an object without a key changes nothing.
    pub fn apply(&mut self, event: &str, obj: Json)
        ensures
            final(self).synced == old(self).synced,
            final(self).absent == old(self).absent,
            held(*final(self)) == match object_key_spec(obj) {
                None => held(*old(self)),
                Some(k) => {
                    let cur = match held(*old(self)) {
                        Some(s) => s,
                        None => Seq::empty(),
                    };
                    Some(if event@ == "ADDED"@ || event@ == "MODIFIED"@ {
                        put(cur, k, obj)
                    } else if event@ == "DELETED"@ {
                        drop_key(cur, k)
                    } else {
                        cur
                    })
                },
            },
    {
        let key = match object_key(&obj) {
            Some(k) => k,
            None => return,
        };
        let mut cur = match self.objects.take() {
            Some(v) => v,
            None => Vec::new(),
        };
        proof {
            reveal_strlit("ADDED");
            reveal_strlit("MODIFIED");
            reveal_strlit("DELETED");
        }
        if str_eq(event, "ADDED") || str_eq(event, "MODIFIED") {
            put_entry(&mut cur, key, obj);
        } else if str_eq(event, "DELETED") {
            drop_entry(&mut cur, key.as_str());
        }
        self.objects = Some(cur);
    }
}

/// How a list request came out: the answer, or the status the apiserver
/// failed with (none when it did not answer at all).
pub enum ListOutcome {
    Listed(Json),
    Failed(Option<u16>),
}

/// The wait after a failed list: double the last, at most 30 s.
pub open spec fn doubled(backoff: u64) -> u64 {
    if 2 * backoff < 30 { (2 * backoff) as u64 } else { 30 }
}

/// What the loop does next, in seconds to wait before listing again.
pub open spec fn next_backoff(backoff: u64, optional: bool, outcome: ListOutcome) -> u64 {
    match outcome {
        ListOutcome::Listed(_) => 1,
        ListOutcome::Failed(Some(404)) if optional => 60,
        ListOutcome::Failed(_) => doubled(backoff),
    }
}

/// One list's outcome applied to the kind: a list replaces what is held
/// and the watch resumes from its version (the wait drops back to a
/// second); a 404 for a kind that may not be installed marks it absent
/// and waits a minute; any other failure marks it stale and doubles the
/// wait, up to 30 s. Returns the wait, and where to watch from when there
/// is a watch to run.
pub fn after_list(cache: &mut KindCache, backoff: u64, optional: bool, outcome: ListOutcome) -> (r: (u64, Option<String>))
    ensures
        r.0 == next_backoff(backoff, optional, outcome),
        match outcome {
            ListOutcome::Listed(l) => {
                &&& r.1 matches Some(v) && v@ == resource_version_of(l)
                &&& held(*final(cache)) == Some(keyed_from(Seq::empty(), items_of(l)))
                &&& final(cache).synced
                &&& !final(cache).absent
            },
            ListOutcome::Failed(Some(404)) if optional => {
                &&& r.1 is None
                &&& held(*final(cache)) is None
                &&& final(cache).synced
                &&& final(cache).absent
            },
            ListOutcome::Failed(_) => {
                &&& r.1 is None
                &&& held(*final(cache)) == held(*old(cache))
                &&& !final(cache).synced
                &&& final(cache).absent == old(cache).absent
            },
        },
{
    match outcome {
        ListOutcome::Listed(l) => {
            let rv = match l.str_at(&["metadata", "resourceVersion"]) {
                Some(v) => owned(v),
                None => owned("0"),
            };
            proof {
                reveal_strlit("0");
                assert(crate::json::key_views(seq!["metadata", "resourceVersion"]) =~= seq!["metadata"@, "resourceVersion"@]);
            }
            let items = keyed(take_items(l));
            cache.replace(items);
            (1, Some(rv))
        },
        ListOutcome::Failed(status) => {
            if optional && status == Some(404u16) {
                cache.set_absent();
                (60, None)
            } else {
                cache.set_stale();
                let next = if backoff >= 15 { 30 } else { backoff * 2 };
                (next, None)
            }
        },
    }
}

} // verus!
