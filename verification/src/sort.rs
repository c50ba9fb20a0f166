//! Stable sorting by a strict order that each type states for itself.
//!
//! The result is pinned down exactly: element by element, each goes in
//! front of the first element already placed that it strictly precedes, so
//! equal elements keep the order they arrived in — what `sort_by` does.

use vstd::prelude::*;
use crate::text::first_at;
use crate::text::{lemma_first_at_some, lemma_first_at_none, lemma_first_at_props, str_less, str_lt};

verus! {

/// A type with a strict "comes before" order.
pub trait Order: Sized {
    spec fn before(&self, other: &Self) -> bool;
}

/// An order that running code can ask.
pub trait Ranked: Order {
    fn is_before(&self, other: &Self) -> (r: bool)
        ensures
            r == self.before(other);
}

pub open spec fn precedes_at<T: Order>(sorted: Seq<T>, x: T) -> spec_fn(int) -> bool {
    |i: int| x.before(&sorted[i])
}

/// Where a newcomer goes: in front of the first element it strictly
/// precedes, or at the end.
pub open spec fn insert_point<T: Order>(sorted: Seq<T>, x: T) -> int {
    match first_at(sorted.len() as int, precedes_at(sorted, x)) {
        Some(i) => i,
        None => sorted.len() as int,
    }
}

pub open spec fn insert_sorted<T: Order>(sorted: Seq<T>, x: T) -> Seq<T> {
    sorted.insert(insert_point(sorted, x), x)
}

/// The stable sort of `s`.
pub open spec fn sorted<T: Order>(s: Seq<T>) -> Seq<T>
    decreases s.len(),
{
    if s.len() == 0 {
        Seq::empty()
    } else {
        insert_sorted(sorted(s.drop_last()), s.last())
    }
}

pub proof fn lemma_sorted_len<T: Order>(s: Seq<T>)
    ensures
        sorted(s).len() == s.len(),
    decreases s.len(),
{
    if s.len() > 0 {
        lemma_sorted_len(s.drop_last());
        let p = sorted(s.drop_last());
        if let Some(i) = first_at(p.len() as int, precedes_at(p, s.last())) {
        }
    }
}

/// Sorting keeps exactly the elements it was given, and so keeps a key
/// that told them apart telling them apart.
pub proof fn lemma_sorted_keys<T: Order, K>(s: Seq<T>, key: spec_fn(T) -> K)
    requires
        forall|i: int, j: int| 0 <= i < j < s.len() ==> key(#[trigger] s[i]) != key(#[trigger] s[j]),
    ensures
        sorted(s).len() == s.len(),
        forall|i: int, j: int| 0 <= i < j < sorted(s).len() ==> key(#[trigger] sorted(s)[i]) != key(#[trigger] sorted(s)[j]),
        forall|i: int| 0 <= i < sorted(s).len() ==> s.contains(#[trigger] sorted(s)[i]),
        forall|i: int| 0 <= i < s.len() ==> sorted(s).contains(#[trigger] s[i]),
    decreases s.len(),
{
    lemma_sorted_len(s);
    if s.len() > 0 {
        let t = s.drop_last();
        let x = s.last();
        assert forall|i: int, j: int| 0 <= i < j < t.len() implies key(#[trigger] t[i]) != key(#[trigger] t[j]) by {
            assert(t[i] == s[i] && t[j] == s[j]);
        }
        lemma_sorted_keys(t, key);
        let p = sorted(t);
        let k = insert_point(p, x);
        assert(0 <= k <= p.len()) by {
            match first_at(p.len() as int, precedes_at(p, x)) {
                Some(i) => {
                    crate::text::lemma_first_at_props(p.len() as int, precedes_at(p, x));
                },
                None => {},
            }
        }
        let r = p.insert(k, x);
        assert(sorted(s) == r);
        // x's key is none of t's.
        assert forall|m: int| 0 <= m < p.len() implies key(#[trigger] p[m]) != key(x) by {
            assert(t.contains(p[m]));
            let a = choose|a: int| 0 <= a < t.len() && t[a] == p[m];
            assert(t[a] == s[a]);
            assert(s[s.len() - 1] == x);
        }
        assert forall|i: int, j: int| 0 <= i < j < r.len() implies key(#[trigger] r[i]) != key(#[trigger] r[j]) by {
            if j < k {
                assert(r[i] == p[i] && r[j] == p[j]);
            } else if j == k {
                assert(r[i] == p[i] && r[j] == x);
            } else if i < k {
                assert(r[i] == p[i] && r[j] == p[j - 1]);
            } else if i == k {
                assert(r[i] == x && r[j] == p[j - 1]);
            } else {
                assert(r[i] == p[i - 1] && r[j] == p[j - 1]);
            }
        }
        assert forall|i: int| 0 <= i < r.len() implies s.contains(#[trigger] r[i]) by {
            if i < k {
                assert(r[i] == p[i]);
                assert(t.contains(p[i]));
                let a = choose|a: int| 0 <= a < t.len() && t[a] == p[i];
                assert(s[a] == t[a]);
            } else if i == k {
                assert(r[i] == x);
                assert(s[s.len() - 1] == x);
            } else {
                assert(r[i] == p[i - 1]);
                assert(t.contains(p[i - 1]));
                let a = choose|a: int| 0 <= a < t.len() && t[a] == p[i - 1];
                assert(s[a] == t[a]);
            }
        }
        assert forall|i: int| 0 <= i < s.len() implies r.contains(#[trigger] s[i]) by {
            if i < s.len() - 1 {
                assert(s[i] == t[i]);
                assert(p.contains(t[i]));
                let m = choose|m: int| 0 <= m < p.len() && p[m] == t[i];
                if m < k {
                    assert(r[m] == p[m]);
                } else {
                    assert(r[m + 1] == p[m]);
                }
            } else {
                assert(r[k] == x);
            }
        }
    }
}

/// An order that is strict: nothing comes before itself, and "before" is
/// transitive.
pub open spec fn strict_order<T: Order>() -> bool {
    &&& forall|a: T| !#[trigger] a.before(&a)
    &&& forall|a: T, b: T, c: T| #[trigger] a.before(&b) && #[trigger] b.before(&c) ==> a.before(&c)
}

/// Sorting keeps what it was given: everything sorted was in the input,
/// and everything in the input is in the result.
pub proof fn lemma_sorted_members<T: Order>(s: Seq<T>)
    ensures
        sorted(s).len() == s.len(),
        forall|i: int| 0 <= i < sorted(s).len() ==> s.contains(#[trigger] sorted(s)[i]),
        forall|i: int| 0 <= i < s.len() ==> sorted(s).contains(#[trigger] s[i]),
    decreases s.len(),
{
    lemma_sorted_len(s);
    if s.len() > 0 {
        let t = s.drop_last();
        let x = s.last();
        lemma_sorted_members(t);
        let p = sorted(t);
        let k = insert_point(p, x);
        assert(0 <= k <= p.len()) by {
            lemma_first_at_props(p.len() as int, precedes_at(p, x));
        }
        let r = p.insert(k, x);
        assert(sorted(s) == r);
        assert forall|i: int| 0 <= i < r.len() implies s.contains(#[trigger] r[i]) by {
            if i == k {
                assert(s[s.len() - 1] == x);
            } else {
                let pi = if i < k { i } else { i - 1 };
                assert(r[i] == p[pi]);
                assert(t.contains(p[pi]));
                let a = choose|a: int| 0 <= a < t.len() && t[a] == p[pi];
                assert(s[a] == t[a]);
            }
        }
        assert forall|i: int| 0 <= i < s.len() implies r.contains(#[trigger] s[i]) by {
            if i < s.len() - 1 {
                assert(s[i] == t[i]);
                assert(p.contains(t[i]));
                let m = choose|m: int| 0 <= m < p.len() && p[m] == t[i];
                if m < k {
                    assert(r[m] == p[m]);
                } else {
                    assert(r[m + 1] == p[m]);
                }
            } else {
                assert(r[k] == x);
            }
        }
    }
}

/// Under a strict order the sort is in order: nothing comes before
/// anything ahead of it.
pub proof fn lemma_sorted_ordered<T: Order>(s: Seq<T>)
    requires
        strict_order::<T>(),
    ensures
        forall|i: int, j: int| #![trigger sorted(s)[i], sorted(s)[j]] 0 <= i < j < sorted(s).len() ==> !sorted(s)[j].before(&sorted(s)[i]),
    decreases s.len(),
{
    lemma_sorted_len(s);
    if s.len() > 0 {
        let t = s.drop_last();
        let x = s.last();
        lemma_sorted_ordered(t);
        lemma_sorted_len(t);
        let p = sorted(t);
        let k = insert_point(p, x);
        lemma_first_at_props(p.len() as int, precedes_at(p, x));
        assert(0 <= k <= p.len());
        let r = p.insert(k, x);
        assert(sorted(s) == r);
        assert forall|i: int, j: int| #![trigger r[i], r[j]] 0 <= i < j < r.len() implies !r[j].before(&r[i]) by {
            if j < k {
                assert(r[i] == p[i] && r[j] == p[j]);
            } else if j == k {
                assert(r[i] == p[i] && r[j] == x);
                assert(!precedes_at(p, x)(i));
            } else if i == k {
                let m = j - 1;
                assert(r[i] == x && r[j] == p[m]);
                assert(precedes_at(p, x)(k));
                if p[m].before(&x) {
                    assert(p[m].before(&p[k]));
                    if m == k {
                        assert(!p[k].before(&p[k]));
                    } else {
                        assert(!p[m].before(&p[k]));
                    }
                }
            } else if i < k {
                assert(r[i] == p[i] && r[j] == p[j - 1]);
            } else {
                assert(r[i] == p[i - 1] && r[j] == p[j - 1]);
            }
        }
    }
}

/// Sorts `v` stably.
pub fn sort_stable<T: Ranked>(v: Vec<T>) -> (r: Vec<T>)
    ensures
        r@ == sorted(v@),
{
    let ghost orig = v@;
    let mut out: Vec<T> = Vec::new();
    let mut rest = v;
    proof {
        assert(orig.take(0) =~= Seq::<T>::empty());
        assert(orig.skip(0) == orig);
    }
    let n = rest.len();
    let mut i: usize = 0;
    while i < n
        invariant
            n == orig.len(),
            i <= n,
            rest@ == orig.skip(i as int),
            out@ == sorted(orig.take(i as int)),
        decreases n - i,
    {
        let x = rest.remove(0);
        assert(x == orig[i as int]);
        assert(rest@ == orig.skip(i + 1));
        proof {
            lemma_sorted_len(orig.take(i as int));
        }
        // Find the first placed element that x strictly precedes.
        let mut k: usize = 0;
        while k < out.len()
            invariant
                k <= out@.len(),
                forall|j: int| 0 <= j < k ==> !x.before(&out@[j]),
            ensures
                k <= out@.len(),
                forall|j: int| 0 <= j < k ==> !x.before(&out@[j]),
                k < out@.len() ==> x.before(&out@[k as int]),
            decreases out@.len() - k,
        {
            if x.is_before(&out[k]) {
                break;
            }
            k += 1;
        }
        proof {
            let p = out@;
            if k < p.len() {
                assert(precedes_at(p, x)(k as int));
                assert forall|j: int| 0 <= j < k implies !#[trigger] precedes_at(p, x)(j) by {}
                lemma_first_at_some(p.len() as int, precedes_at(p, x), k as int);
            } else {
                assert forall|j: int| 0 <= j < p.len() implies !#[trigger] precedes_at(p, x)(j) by {}
                lemma_first_at_none(p.len() as int, precedes_at(p, x));
            }
            assert(orig.take(i + 1).drop_last() == orig.take(i as int));
            assert(orig.take(i + 1).last() == x);
        }
        out.insert(k, x);
        i += 1;
    }
    proof {
        assert(orig.take(n as int) == orig);
    }
    out
}


/// Sorting commutes with a map that keeps the order: sorting the images is
/// taking the images of the sorted.
pub proof fn lemma_sorted_map<A: Order, B: Order>(s: Seq<A>, f: spec_fn(A) -> B)
    requires
        forall|a: A, b: A| #[trigger] a.before(&b) == f(a).before(&f(b)),
    ensures
        sorted(s).map_values(f) == sorted(s.map_values(f)),
    decreases s.len(),
{
    if s.len() > 0 {
        let t = s.drop_last();
        lemma_sorted_map(t, f);
        lemma_sorted_len(t);
        let x = s.last();
        let p = sorted(t);
        let q = sorted(t.map_values(f));
        assert(s.map_values(f).drop_last() =~= t.map_values(f));
        assert(s.map_values(f).last() == f(x));
        assert(q == p.map_values(f));
        let pp = precedes_at(p, x);
        let qq = precedes_at(q, f(x));
        assert forall|k: int| 0 <= k < p.len() implies #[trigger] pp(k) == qq(k) by {
            assert(q[k] == f(p[k]));
            assert(x.before(&p[k]) == f(x).before(&f(p[k])));
        }
        lemma_first_at_props(p.len() as int, pp);
        lemma_first_at_props(q.len() as int, qq);
        match first_at(p.len() as int, pp) {
            Some(i) => {
                assert(qq(i));
                match first_at(q.len() as int, qq) {
                    Some(j) => {
                        if j < i {
                            assert(pp(j));
                        }
                        assert(i == j);
                    },
                    None => {},
                }
            },
            None => {
                match first_at(q.len() as int, qq) {
                    Some(j) => {
                        assert(pp(j));
                    },
                    None => {},
                }
            },
        }
        let i = insert_point(p, x);
        assert(i == insert_point(q, f(x)));
        assert(p.insert(i, x).map_values(f) =~= q.insert(i, f(x)));
    }
}

/// Text in code-point order, which is the order of `str`.
impl Order for Seq<char> {
    open spec fn before(&self, other: &Self) -> bool {
        str_lt(*self, *other)
    }
}

impl Order for String {
    open spec fn before(&self, other: &Self) -> bool {
        str_lt(self@, other@)
    }
}

impl Ranked for String {
    fn is_before(&self, other: &Self) -> (r: bool) {
        str_less(self.as_str(), other.as_str())
    }
}

/// Sorted strings, as text.
pub proof fn lemma_sorted_strings(v: Seq<String>)
    ensures
        crate::text::string_views(sorted(v)) == sorted(crate::text::string_views(v)),
{
    let f = |s: String| s@;
    lemma_sorted_map(v, f);
    assert(crate::text::string_views(sorted(v)) =~= sorted(v).map_values(f));
    assert(crate::text::string_views(v) =~= v.map_values(f));
}

} // verus!
