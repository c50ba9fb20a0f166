//! The decisions of the fleet log ring.
//!
//! The ring itself lives in a database on disk; what goes into it is
//! decided here. A repeat of a line (same host, app, severity and text)
//! bumps a count on the entry it already has instead of adding a row, live
//! followers hear of a repeat at most once a second, and pruning drops the
//! oldest entries while there are more than the cap or they have not been
//! seen within the retention window.

use vstd::prelude::*;
use crate::logs::parse::LogEvent;
use crate::text::{decimal, first_at, lowercase, push_char, push_decimal, push_str, str_eq, to_lowercase};

verus! {

/// Never re-announce the same repeating line to live followers more often
/// than this many milliseconds.
pub const NOTIFY_INTERVAL_MS: u64 = 1000;

/// One retained line. `count` is how many arrivals collapsed into it.
#[derive(Debug, Clone)]
pub struct StoredEvent {
    /// Wire timestamp of the most recent occurrence.
    pub ts: String,
    pub host: String,
    pub app: String,
    pub severity: u8,
    pub facility: u8,
    pub msg: String,
    /// Arrivals collapsed into this entry; 1 means it has never repeated.
    pub count: u64,
    /// Wire timestamp of the first occurrence.
    pub first_ts: String,
    /// Receive time of the first occurrence, epoch milliseconds.
    pub first_seen: u64,
    /// Receive time of the most recent occurrence.
    pub last_seen: u64,
    /// Receive time this entry was last pushed to live followers.
    pub last_notified: u64,
}

/// One host's rolling summary.
#[derive(Debug, Clone)]
pub struct HostSummary {
    pub host: String,
    /// Where its latest datagram came from: the address a console can dial.
    pub addr: String,
    /// Occurrences currently retained, duplicates included.
    pub count: i64,
    /// Distinct retained entries for this host.
    pub entries: i64,
    pub last_ts: String,
}

/// What an insert did, so the collector knows whether to wake followers.
pub struct Insert {
    pub event: StoredEvent,
    /// False when this was a repeat seen again within the throttle window.
    pub notify: bool,
}

/// Ring counters for the summary endpoint and the components feed.
#[derive(Debug, Clone, Copy)]
pub struct Stats {
    /// Distinct entries retained.
    pub entries: u64,
    /// Occurrences retained, duplicates included.
    pub occurrences: u64,
    /// Duplicates collapsed over this store's lifetime.
    pub suppressed: u64,
}

impl Default for Stats {
    fn default() -> (s: Self)
        ensures
            s.entries == 0 && s.occurrences == 0 && s.suppressed == 0,
    {
        Stats { entries: 0, occurrences: 0, suppressed: 0 }
    }
}

/// The key that makes two lines "the same message": host, app, severity
/// and text, joined by the unit separator, which a parsed syslog field
/// cannot hold.
pub open spec fn dedup_key_spec(host: Seq<char>, app: Seq<char>, severity: u8, msg: Seq<char>) -> Seq<char> {
    host + seq!['\u{1f}'] + app + seq!['\u{1f}'] + decimal(severity as nat) + seq!['\u{1f}'] + msg
}

/// Text that holds no unit separator, as no parsed syslog host or app
/// field can.
pub open spec fn no_separator(s: Seq<char>) -> bool {
    forall|i: int| 0 <= i < s.len() ==> s[i] != '\u{1f}'
}

proof fn lemma_split_at_separator(x1: Seq<char>, r1: Seq<char>, x2: Seq<char>, r2: Seq<char>)
    requires
        no_separator(x1),
        no_separator(x2),
        x1 + seq!['\u{1f}'] + r1 == x2 + seq!['\u{1f}'] + r2,
    ensures
        x1 == x2,
        r1 == r2,
{
    let w1 = x1 + seq!['\u{1f}'] + r1;
    let w2 = x2 + seq!['\u{1f}'] + r2;
    if x1.len() < x2.len() {
        assert(w1[x1.len() as int] == '\u{1f}');
        assert(w2[x1.len() as int] == x2[x1.len() as int]);
    } else if x2.len() < x1.len() {
        assert(w2[x2.len() as int] == '\u{1f}');
        assert(w1[x2.len() as int] == x1[x2.len() as int]);
    } else {
        assert(x1 =~= w1.take(x1.len() as int));
        assert(x2 =~= w2.take(x2.len() as int));
        assert(r1 =~= w1.skip(x1.len() + 1int));
        assert(r2 =~= w2.skip(x2.len() + 1int));
    }
}

/// Two lines share a dedup key exactly when they have the same host, app,
/// severity and text: so repeats, and only repeats, fold into one entry.
pub proof fn law_dedup_key(
    h1: Seq<char>, a1: Seq<char>, s1: u8, m1: Seq<char>,
    h2: Seq<char>, a2: Seq<char>, s2: u8, m2: Seq<char>,
)
    requires
        no_separator(h1),
        no_separator(a1),
        no_separator(h2),
        no_separator(a2),
    ensures
        dedup_key_spec(h1, a1, s1, m1) == dedup_key_spec(h2, a2, s2, m2) <==> (h1 == h2 && a1 == a2 && s1 == s2 && m1 == m2),
{
    let us = seq!['\u{1f}'];
    if dedup_key_spec(h1, a1, s1, m1) == dedup_key_spec(h2, a2, s2, m2) {
        let d1 = decimal(s1 as nat);
        let d2 = decimal(s2 as nat);
        assert(dedup_key_spec(h1, a1, s1, m1) =~= h1 + us + (a1 + us + (d1 + us + m1)));
        assert(dedup_key_spec(h2, a2, s2, m2) =~= h2 + us + (a2 + us + (d2 + us + m2)));
        lemma_split_at_separator(h1, a1 + us + (d1 + us + m1), h2, a2 + us + (d2 + us + m2));
        lemma_split_at_separator(a1, d1 + us + m1, a2, d2 + us + m2);
        crate::text::lemma_decimal_digits(s1 as nat);
        crate::text::lemma_decimal_digits(s2 as nat);
        assert(no_separator(d1));
        assert(no_separator(d2));
        lemma_split_at_separator(d1, m1, d2, m2);
        crate::text::lemma_decimal_injective(s1 as nat, s2 as nat);
    }
}

pub fn dedup_key(host: &str, app: &str, severity: u8, msg: &str) -> (k: String)
    ensures
        k@ == dedup_key_spec(host@, app@, severity, msg@),
{
    let mut k = String::new();
    push_str(&mut k, host);
    push_char(&mut k, '\u{1f}');
    push_str(&mut k, app);
    push_char(&mut k, '\u{1f}');
    push_decimal(&mut k, severity as u64);
    push_char(&mut k, '\u{1f}');
    push_str(&mut k, msg);
    k
}

/// What becomes of a line arriving at `now_ms`, given the entry it repeats.
pub open spec fn arrived(previous: Option<StoredEvent>, e: LogEvent, now_ms: u64, r: Insert) -> bool {
    match previous {
        Some(p) => {
            &&& r.event.count == p.count + 1
            &&& r.event.ts@ == e.ts@
            &&& r.event.last_seen == now_ms
            &&& r.event.host == p.host
            &&& r.event.app == p.app
            &&& r.event.severity == p.severity
            &&& r.event.facility == p.facility
            &&& r.event.msg == p.msg
            &&& r.event.first_ts == p.first_ts
            &&& r.event.first_seen == p.first_seen
            &&& r.notify == (now_ms >= p.last_notified && now_ms - p.last_notified >= NOTIFY_INTERVAL_MS)
            &&& r.event.last_notified == (if r.notify { now_ms } else { p.last_notified })
        },
        None => {
            &&& r.event.count == 1
            &&& r.event.ts@ == e.ts@
            &&& r.event.host@ == e.host@
            &&& r.event.app@ == e.app@
            &&& r.event.severity == e.severity
            &&& r.event.facility == e.facility
            &&& r.event.msg@ == e.msg@
            &&& r.event.first_ts@ == e.ts@
            &&& r.event.first_seen == now_ms
            &&& r.event.last_seen == now_ms
            &&& r.notify
            &&& r.event.last_notified == now_ms
        },
    }
}

/// Dedup and the follower throttle, for every arrival: a repeat counts
/// one more than the entry it repeats, keeps its first sighting and moves
/// its last to now; it is announced only once a second (1000 ms) has
/// passed since the entry was last announced, and then that becomes now.
/// A new line counts one, is first and last seen now, and is announced.
pub proof fn law_arrival(previous: Option<StoredEvent>, e: LogEvent, now_ms: u64, r: Insert)
    requires
        arrived(previous, e, now_ms, r),
    ensures
        previous matches Some(p) ==> {
            &&& r.event.count == p.count + 1
            &&& r.event.first_seen == p.first_seen
            &&& r.event.last_seen == now_ms
            &&& (r.notify <==> now_ms >= p.last_notified + 1000)
            &&& r.event.last_notified == (if now_ms >= p.last_notified + 1000 { now_ms } else { p.last_notified })
            &&& r.event.host == p.host && r.event.app == p.app && r.event.msg == p.msg && r.event.severity == p.severity
        },
        previous is None ==> {
            &&& r.event.count == 1
            &&& r.event.first_seen == now_ms
            &&& r.event.last_seen == now_ms
            &&& r.notify
            &&& r.event.host@ == e.host@ && r.event.app@ == e.app@ && r.event.msg@ == e.msg@
        },
{
}

/// A line arriving at `now_ms`, given the entry it repeats, if any: a
/// repeat counts one more and moves its last-seen time, a new line starts
/// an entry of its own. Followers hear of a new line always, and of a
/// repeat only once the throttle window since the last notice has passed.
pub fn arrive(previous: Option<StoredEvent>, e: &LogEvent, now_ms: u64) -> (r: Insert)
    requires
        previous matches Some(p) ==> p.count < u64::MAX,
    ensures
        arrived(previous, *e, now_ms, r),
{
    let repeat = previous.is_some();
    let mut record = match previous {
        Some(r) => StoredEvent { count: r.count + 1, ts: e.ts.clone(), last_seen: now_ms, ..r },
        None => StoredEvent {
            ts: e.ts.clone(),
            host: e.host.clone(),
            app: e.app.clone(),
            severity: e.severity,
            facility: e.facility,
            msg: e.msg.clone(),
            count: 1,
            first_ts: e.ts.clone(),
            first_seen: now_ms,
            last_seen: now_ms,
            last_notified: 0,
        },
    };
    let since: u64 = if now_ms >= record.last_notified { now_ms - record.last_notified } else { 0 };
    let notify = !repeat || since >= NOTIFY_INTERVAL_MS;
    if notify {
        record.last_notified = now_ms;
    }
    Insert { event: record, notify }
}

/// A host's summary after one more line from it: an occurrence always
/// counts, a distinct entry only when the line is new, and the address
/// is the one the line came from.
pub fn summary_after_insert(summary: Option<HostSummary>, host: &str, addr: &str, ts: &str, repeat: bool) -> (s: HostSummary)
    requires
        summary matches Some(h) ==> h.count < i64::MAX && h.entries < i64::MAX,
    ensures
        s.host@ == (match summary { Some(h) => h.host@, None => host@ }),
        s.count == (match summary { Some(h) => h.count, None => 0 }) + 1,
        s.entries == (match summary { Some(h) => h.entries, None => 0 }) + (if repeat { 0int } else { 1int }),
        s.last_ts@ == ts@,
        s.addr@ == addr@,
{
    let mut s = match summary {
        Some(h) => h,
        None => HostSummary { host: crate::text::owned(host), addr: String::new(), count: 0, entries: 0, last_ts: String::new() },
    };
    s.addr = crate::text::owned(addr);
    s.count = s.count + 1;
    if !repeat {
        s.entries = s.entries + 1;
    }
    s.last_ts = crate::text::owned(ts);
    s
}

/// A host's summary after one of its entries, holding `count`
/// occurrences, is evicted: `None` when it has no entries left.
pub fn summary_after_evict(s: HostSummary, count: u64) -> (r: Option<HostSummary>)
    ensures
        ({
            let c = s.count - count;
            let e = s.entries - 1;
            let entries = if e > 0 { e } else { 0 };
            &&& (entries == 0) == r is None
            &&& r matches Some(h) ==> h.host == s.host && h.addr == s.addr && h.last_ts == s.last_ts
                && h.count == (if c > 0 { c } else { 0 }) && h.entries == entries
        }),
{
    let c: i64 = if (count as i128) >= (s.count as i128) { 0 } else { ((s.count as i128) - (count as i128)) as i64 };
    let entries: i64 = if s.entries > 1 { s.entries - 1 } else { 0 };
    if entries == 0 {
        None
    } else {
        Some(HostSummary { count: c, entries, ..s })
    }
}

/// Is the entry seen at `last_seen` outside the retention window?
pub open spec fn too_old(last_seen: u64, now_ms: u64, retain_ms: u64) -> bool {
    retain_ms > 0 && last_seen < (if now_ms >= retain_ms { now_ms - retain_ms } else { 0 })
}

/// An entry is too old exactly when there is a retention window and the
/// entry was last seen more than the window before now; with no window
/// (`retain_ms` 0) nothing is ever too old.
pub proof fn law_too_old(last_seen: u64, now_ms: u64, retain_ms: u64)
    ensures
        too_old(last_seen, now_ms, retain_ms) <==> (retain_ms > 0 && last_seen + retain_ms < now_ms),
{
}

/// How many entries, oldest first, the ring drops: while it holds more
/// than `cap` or the oldest has not been seen within the window.
pub open spec fn victims(last_seen: Seq<u64>, cap: u64, now_ms: u64, retain_ms: u64) -> nat {
    victims_from(last_seen, 0, if last_seen.len() > cap { (last_seen.len() - cap) as nat } else { 0 }, now_ms, retain_ms)
}

pub open spec fn victims_from(last_seen: Seq<u64>, i: int, over: nat, now_ms: u64, retain_ms: u64) -> nat
    decreases last_seen.len() - i,
{
    if i < 0 || i >= last_seen.len() {
        0
    } else if over == 0 && !too_old(last_seen[i], now_ms, retain_ms) {
        0
    } else {
        1 + victims_from(last_seen, i + 1, if over > 0 { (over - 1) as nat } else { 0 }, now_ms, retain_ms)
    }
}

/// How many of the ring's entries, given their last-seen times oldest
/// first, pruning drops from the front.
pub fn prune_count(last_seen: &[u64], cap: u64, now_ms: u64, retain_ms: u64) -> (n: usize)
    ensures
        n == victims(last_seen@, cap, now_ms, retain_ms),
        n <= last_seen@.len(),
{
    let len = last_seen.len() as u64;
    let mut over: u64 = if len > cap { len - cap } else { 0 };
    let cutoff: u64 = if now_ms >= retain_ms { now_ms - retain_ms } else { 0 };
    let mut i: usize = 0;
    while i < last_seen.len()
        invariant
            i <= last_seen@.len(),
            cutoff == (if now_ms >= retain_ms { now_ms - retain_ms } else { 0 }),
            i + victims_from(last_seen@, i as int, over as nat, now_ms, retain_ms)
                == victims(last_seen@, cap, now_ms, retain_ms),
        decreases last_seen@.len() - i,
    {
        let old = retain_ms > 0 && last_seen[i] < cutoff;
        if over == 0 && !old {
            return i;
        }
        if over > 0 {
            over -= 1;
        }
        i += 1;
    }
    i
}

/// After pruning, the ring holds at most `cap` entries, and — since an
/// entry's place in the ring follows its last-seen time — none that has
/// gone unseen for longer than the window.
pub proof fn lemma_prune_bounds(last_seen: Seq<u64>, cap: u64, now_ms: u64, retain_ms: u64)
    requires
        forall|i: int, j: int| 0 <= i < j < last_seen.len() ==> last_seen[i] <= last_seen[j],
    ensures
        last_seen.len() - victims(last_seen, cap, now_ms, retain_ms) <= cap,
        forall|j: int| victims(last_seen, cap, now_ms, retain_ms) <= j < last_seen.len()
            ==> !too_old(#[trigger] last_seen[j], now_ms, retain_ms),
{
    let over0: nat = if last_seen.len() > cap { (last_seen.len() - cap) as nat } else { 0 };
    lemma_victims_from(last_seen, 0, over0, now_ms, retain_ms);
}

proof fn lemma_victims_from(last_seen: Seq<u64>, i: int, over: nat, now_ms: u64, retain_ms: u64)
    requires
        0 <= i <= last_seen.len(),
        forall|a: int, b: int| 0 <= a < b < last_seen.len() ==> last_seen[a] <= last_seen[b],
    ensures
        i + victims_from(last_seen, i, over, now_ms, retain_ms) <= last_seen.len(),
        victims_from(last_seen, i, over, now_ms, retain_ms) >= (if over <= last_seen.len() - i { over as int } else { last_seen.len() - i }),
        forall|j: int| i + victims_from(last_seen, i, over, now_ms, retain_ms) <= j < last_seen.len()
            ==> !too_old(#[trigger] last_seen[j], now_ms, retain_ms),
    decreases last_seen.len() - i,
{
    if i < last_seen.len() {
        if over == 0 && !too_old(last_seen[i], now_ms, retain_ms) {
            assert forall|j: int| i <= j < last_seen.len() implies !too_old(#[trigger] last_seen[j], now_ms, retain_ms) by {
                if i < j {
                    assert(last_seen[i] <= last_seen[j]);
                }
            }
        } else {
            lemma_victims_from(last_seen, i + 1, if over > 0 { (over - 1) as nat } else { 0 }, now_ms, retain_ms);
        }
    }
}

/// How many entries from `i` on, oldest first, have gone unseen for longer
/// than the window before the first that has not.
pub open spec fn stale_run(last_seen: Seq<u64>, i: int, now_ms: u64, retain_ms: u64) -> nat
    decreases last_seen.len() - i,
{
    if i < 0 || i >= last_seen.len() || !too_old(last_seen[i], now_ms, retain_ms) {
        0
    } else {
        1 + stale_run(last_seen, i + 1, now_ms, retain_ms)
    }
}

proof fn lemma_victims_exact(last_seen: Seq<u64>, i: int, over: nat, now_ms: u64, retain_ms: u64)
    requires
        0 <= i <= last_seen.len(),
        forall|a: int, b: int| 0 <= a < b < last_seen.len() ==> last_seen[a] <= last_seen[b],
    ensures
        ({
            let run = stale_run(last_seen, i, now_ms, retain_ms);
            let want = if over > run { over as int } else { run as int };
            victims_from(last_seen, i, over, now_ms, retain_ms) == (if want < last_seen.len() - i { want } else { last_seen.len() - i })
        }),
    decreases last_seen.len() - i,
{
    if i < last_seen.len() {
        let next: nat = if over > 0 { (over - 1) as nat } else { 0 };
        lemma_victims_exact(last_seen, i + 1, next, now_ms, retain_ms);
        if !too_old(last_seen[i], now_ms, retain_ms) && i + 1 < last_seen.len() {
            assert(last_seen[i] <= last_seen[i + 1]);
            assert(!too_old(last_seen[i + 1], now_ms, retain_ms));
        }
    }
}

/// What pruning keeps, exactly: with the ring in receive order (and so in
/// last-seen order), it drops from the front until no more than `cap`
/// remain and none remaining has gone unseen for longer than the window;
/// so it keeps the newest `min(cap, F)` entries, where `F` counts those
/// seen within the window.
pub proof fn law_prune_keeps_the_newest(last_seen: Seq<u64>, cap: u64, now_ms: u64, retain_ms: u64)
    requires
        forall|a: int, b: int| 0 <= a < b < last_seen.len() ==> last_seen[a] <= last_seen[b],
    ensures
        ({
            let fresh = last_seen.len() - stale_run(last_seen, 0, now_ms, retain_ms);
            last_seen.len() - victims(last_seen, cap, now_ms, retain_ms) == (if (cap as int) < fresh { cap as int } else { fresh })
        }),
        forall|j: int| 0 <= j < stale_run(last_seen, 0, now_ms, retain_ms) ==> too_old(#[trigger] last_seen[j], now_ms, retain_ms),
{
    let over0: nat = if last_seen.len() > cap { (last_seen.len() - cap) as nat } else { 0 };
    lemma_victims_exact(last_seen, 0, over0, now_ms, retain_ms);
    lemma_stale_run_prefix(last_seen, 0, now_ms, retain_ms);
}

proof fn lemma_stale_run_prefix(last_seen: Seq<u64>, i: int, now_ms: u64, retain_ms: u64)
    requires
        0 <= i <= last_seen.len(),
    ensures
        i + stale_run(last_seen, i, now_ms, retain_ms) <= last_seen.len(),
        forall|j: int| i <= j < i + stale_run(last_seen, i, now_ms, retain_ms) ==> too_old(#[trigger] last_seen[j], now_ms, retain_ms),
    decreases last_seen.len() - i,
{
    if i < last_seen.len() && too_old(last_seen[i], now_ms, retain_ms) {
        lemma_stale_run_prefix(last_seen, i + 1, now_ms, retain_ms);
    }
}

/// The ring's counters after one more line: it is always an occurrence; a
/// repeat is a duplicate absorbed, and only a new line is a new entry.
pub fn stats_after_insert(s: Stats, repeat: bool) -> (r: Stats)
    requires
        s.entries < u64::MAX,
        s.occurrences < u64::MAX,
        s.suppressed < u64::MAX,
    ensures
        r.occurrences == s.occurrences + 1,
        r.suppressed == s.suppressed + (if repeat { 1int } else { 0int }),
        r.entries == s.entries + (if repeat { 0int } else { 1int }),
{
    Stats {
        entries: if repeat { s.entries } else { s.entries + 1 },
        occurrences: s.occurrences + 1,
        suppressed: if repeat { s.suppressed + 1 } else { s.suppressed },
    }
}

/// The ring's counters after an entry of `count` occurrences is pruned:
/// one entry fewer, its occurrences gone; the lifetime count of absorbed
/// duplicates stands.
pub fn stats_after_evict(s: Stats, count: u64) -> (r: Stats)
    ensures
        r.entries == (if s.entries > 0 { s.entries - 1 } else { 0 }),
        r.occurrences == (if s.occurrences >= count { s.occurrences - count } else { 0 }),
        r.suppressed == s.suppressed,
{
    Stats {
        entries: if s.entries > 0 { s.entries - 1 } else { 0 },
        occurrences: if s.occurrences >= count { s.occurrences - count } else { 0 },
        suppressed: s.suppressed,
    }
}

/// A severity's retained occurrences after a line arrives or an entry of
/// `count` occurrences leaves.
pub fn severity_after(n: u64, arrived: bool, count: u64) -> (r: u64)
    requires
        arrived ==> n < u64::MAX,
    ensures
        arrived ==> r == n + 1,
        !arrived ==> r == (if n >= count { n - count } else { 0 }),
{
    if arrived {
        n + 1
    } else if n >= count {
        n - count
    } else {
        0
    }
}

/// The store prunes by itself after this many inserts, besides its timer.
pub const PRUNE_EVERY: u64 = 4096;

/// What the store found under a line's dedup key.
pub enum Found {
    /// No index row.
    Nothing,
    /// An index row whose entry is no longer there: the line counts as new.
    Stale(u64),
    /// The entry at that receive sequence number.
    Entry(u64, StoredEvent),
}

/// The entry a line repeats: only a live entry, and only with dedup on.
pub open spec fn repeated(dedup: bool, found: Found) -> Option<StoredEvent> {
    match found {
        Found::Entry(_, r) if dedup => Some(r),
        _ => None,
    }
}

/// Where the next entry goes: the stored counter, or 1 in a new store.
pub open spec fn seq_of(next_seq: Option<u64>) -> u64 {
    match next_seq {
        Some(n) => n,
        None => 1,
    }
}

/// What one insert writes.
pub struct InsertPlan {
    /// The receive sequence number the entry is written under.
    pub seq: u64,
    /// The counter to store for the next insert.
    pub next_seq: u64,
    /// The older row of the same entry, to delete.
    pub remove: Option<u64>,
    /// The line repeated a live entry.
    pub repeat: bool,
    /// The entry to write, and whether to wake followers.
    pub insert: Insert,
    /// Inserts since the last automatic prune, after this one.
    pub since_prune: u64,
    /// Prune now.
    pub prune: bool,
}

/// One insert into the ring, decided from what the store holds: a line
/// that repeats a live entry (with dedup on) takes that entry's row away
/// and is written, counted once more, under a fresh sequence number, so
/// it surfaces at the tail; an index row whose entry has gone counts for
/// nothing. Every 4096th insert also prunes.
pub fn insert_step(next_seq: Option<u64>, dedup: bool, found: Found, since_prune: u64, e: &LogEvent, now_ms: u64) -> (p: InsertPlan)
    requires
        seq_of(next_seq) < u64::MAX,
        since_prune < PRUNE_EVERY,
        found matches Found::Entry(_, r) ==> r.count < u64::MAX,
    ensures
        p.seq == seq_of(next_seq),
        p.next_seq == p.seq + 1,
        p.repeat == repeated(dedup, found) is Some,
        p.remove == (match found {
            Found::Entry(old, _) if dedup => Some(old),
            _ => None::<u64>,
        }),
        arrived(repeated(dedup, found), *e, now_ms, p.insert),
        p.prune == (since_prune + 1 >= PRUNE_EVERY),
        p.since_prune == (if p.prune { 0 } else { since_prune + 1 }),
{
    let seq = match next_seq {
        Some(n) => n,
        None => 1,
    };
    let (remove, previous) = match found {
        Found::Entry(old, r) => {
            if dedup {
                (Some(old), Some(r))
            } else {
                (None, None)
            }
        },
        _ => (None, None),
    };
    let repeat = previous.is_some();
    let insert = arrive(previous, e, now_ms);
    let n = since_prune + 1;
    let prune = n >= PRUNE_EVERY;
    InsertPlan {
        seq,
        next_seq: seq + 1,
        remove,
        repeat,
        insert,
        since_prune: if prune { 0 } else { n },
        prune,
    }
}

/// Receive sequence numbers in increasing order.
pub open spec fn in_receive_order(ring: Seq<(u64, StoredEvent)>) -> bool {
    forall|a: int, b: int| 0 <= a < b < ring.len() ==> (#[trigger] ring[a]).0 < (#[trigger] ring[b]).0
}

pub open spec fn seq_at(ring: Seq<(u64, StoredEvent)>, s: u64) -> spec_fn(int) -> bool {
    |i: int| ring[i].0 == s
}

/// The ring after an insert: the row it removes is gone and the entry is
/// appended under its sequence number.
pub open spec fn ring_after(ring: Seq<(u64, StoredEvent)>, remove: Option<u64>, seq: u64, ev: StoredEvent) -> Seq<(u64, StoredEvent)> {
    let kept = match remove {
        Some(s) => match first_at(ring.len() as int, seq_at(ring, s)) {
            Some(i) => ring.remove(i),
            None => ring,
        },
        None => ring,
    };
    kept.push((seq, ev))
}

/// Dedup on arrival, over the ring in receive order: a repeat of an entry
/// that is there replaces it, so the ring keeps its size, and the entry,
/// counted once more, is now the last in receive order — which is where a
/// query of the newest lines finds it first. A new line adds one entry at
/// the tail. Either way the order stays the receive order.
pub proof fn law_dedup_on_arrival(ring: Seq<(u64, StoredEvent)>, i: int, p: InsertPlan, e: LogEvent, now_ms: u64)
    requires
        in_receive_order(ring),
        forall|j: int| 0 <= j < ring.len() ==> (#[trigger] ring[j]).0 < p.seq,
        0 <= i < ring.len(),
        p.remove == Some(ring[i].0),
        arrived(Some(ring[i].1), e, now_ms, p.insert),
    ensures
        ({
            let r = ring_after(ring, p.remove, p.seq, p.insert.event);
            &&& in_receive_order(r)
            &&& r.len() == ring.len()
            &&& r.last() == (p.seq, p.insert.event)
            &&& r.last().1.count == ring[i].1.count + 1
            &&& r.last().1.first_seen == ring[i].1.first_seen
            &&& r.last().1.first_ts == ring[i].1.first_ts
            &&& r.last().1.last_seen == now_ms
            &&& r.last().1.ts@ == e.ts@
        }),
{
    assert forall|j: int| 0 <= j < i implies !#[trigger] seq_at(ring, ring[i].0)(j) by {}
    crate::text::lemma_first_at_some(ring.len() as int, seq_at(ring, ring[i].0), i);
    let kept = ring.remove(i);
    let r = kept.push((p.seq, p.insert.event));
    assert forall|a: int, b: int| 0 <= a < b < r.len() implies (#[trigger] r[a]).0 < (#[trigger] r[b]).0 by {
        let a2 = if a < i { a } else { a + 1 };
        if b == r.len() - 1 {
            assert(r[a] == ring[a2]);
        } else {
            let b2 = if b < i { b } else { b + 1 };
            assert(r[a] == ring[a2] && r[b] == ring[b2]);
        }
    }
}

/// A new line, with nothing to remove, adds one entry at the tail.
pub proof fn law_new_line_at_tail(ring: Seq<(u64, StoredEvent)>, p: InsertPlan)
    requires
        in_receive_order(ring),
        forall|j: int| 0 <= j < ring.len() ==> (#[trigger] ring[j]).0 < p.seq,
        p.remove is None,
    ensures
        ({
            let r = ring_after(ring, p.remove, p.seq, p.insert.event);
            &&& in_receive_order(r)
            &&& r.len() == ring.len() + 1
            &&& r.last() == (p.seq, p.insert.event)
        }),
{
    let r = ring.push((p.seq, p.insert.event));
    assert forall|a: int, b: int| 0 <= a < b < r.len() implies (#[trigger] r[a]).0 < (#[trigger] r[b]).0 by {
        if b == r.len() - 1 {
            assert(r[a] == ring[a]);
        }
    }
}

/// The counters after pruning entries of these counts, one after another.
pub open spec fn stats_after_prune(s: Stats, counts: Seq<u64>) -> Stats
    decreases counts.len(),
{
    if counts.len() == 0 {
        s
    } else {
        let p = stats_after_prune(s, counts.drop_last());
        Stats {
            entries: if p.entries > 0 { (p.entries - 1) as u64 } else { 0 },
            occurrences: if p.occurrences >= counts.last() { (p.occurrences - counts.last()) as u64 } else { 0 },
            suppressed: p.suppressed,
        }
    }
}

/// The sum of some counts.
pub open spec fn total(counts: Seq<u64>) -> int
    decreases counts.len(),
{
    if counts.len() == 0 { 0 } else { total(counts.drop_last()) + counts.last() }
}

/// The counters after a prune.
pub fn prune_stats(s: Stats, counts: &[u64]) -> (r: Stats)
    ensures
        r == stats_after_prune(s, counts@),
{
    let mut r = s;
    let mut i: usize = 0;
    while i < counts.len()
        invariant
            i <= counts@.len(),
            r == stats_after_prune(s, counts@.take(i as int)),
        decreases counts@.len() - i,
    {
        assert(counts@.take(i + 1).drop_last() == counts@.take(i as int));
        assert(counts@.take(i + 1).last() == counts@[i as int]);
        r = stats_after_evict(r, counts[i]);
        i += 1;
    }
    assert(counts@.take(i as int) == counts@);
    r
}

/// Pruning the entries the counters count: with `k` entries removed out of
/// the `n` there are, `n - k` remain; the occurrences fall by exactly the
/// removed entries' counts when the counters hold at least those; the
/// lifetime count of absorbed duplicates is untouched.
pub proof fn law_prune_stats(s: Stats, counts: Seq<u64>)
    requires
        counts.len() <= s.entries,
        total(counts) <= s.occurrences,
    ensures
        stats_after_prune(s, counts).entries == s.entries - counts.len(),
        stats_after_prune(s, counts).occurrences == s.occurrences - total(counts),
        stats_after_prune(s, counts).suppressed == s.suppressed,
    decreases counts.len(),
{
    if counts.len() > 0 {
        lemma_total_prefix(counts);
        law_prune_stats(s, counts.drop_last());
    }
}

proof fn lemma_total_prefix(counts: Seq<u64>)
    requires
        counts.len() > 0,
    ensures
        total(counts.drop_last()) + counts.last() == total(counts),
        total(counts.drop_last()) >= 0,
{
    lemma_total_nonneg(counts.drop_last());
}

proof fn lemma_total_nonneg(counts: Seq<u64>)
    ensures
        total(counts) >= 0,
    decreases counts.len(),
{
    if counts.len() > 0 {
        lemma_total_nonneg(counts.drop_last());
    }
}

/// The filters of a ring query.
pub struct Filter {
    /// Only this host's lines.
    pub host: Option<String>,
    /// Only lines at least this severe: syslog severity counts down toward
    /// emergency, so "at least warning" is a severity of 4 or less.
    pub min_severity: Option<u8>,
    /// Only lines whose text or app contains this, ignoring case.
    pub search: Option<String>,
}

impl Filter {
    pub open spec fn admits(&self, r: StoredEvent) -> bool {
        &&& self.host matches Some(h) ==> r.host@ == h@
        &&& self.min_severity matches Some(s) ==> r.severity <= s
        &&& self.search matches Some(q) ==> (crate::text::contains_str(lowercase(r.msg@), lowercase(q@))
            || crate::text::contains_str(lowercase(r.app@), lowercase(q@)))
    }

    /// Does this line pass every filter?
    pub fn matches(&self, r: &StoredEvent) -> (b: bool)
        ensures
            b == self.admits(*r),
            b && self.host is Some ==> r.host@ == self.host->0@,
            b && self.min_severity is Some ==> r.severity <= self.min_severity->0,
            self.host is None && self.min_severity is None && self.search is None ==> b,
    {
        proof {
            law_filter(*self, *r);
        }
        match &self.host {
            Some(h) => {
                if !str_eq(r.host.as_str(), h.as_str()) {
                    return false;
                }
            },
            None => {},
        }
        match self.min_severity {
            Some(s) => {
                if r.severity > s {
                    return false;
                }
            },
            None => {},
        }
        match &self.search {
            Some(q) => {
                let needle = to_lowercase(q.as_str());
                let msg = to_lowercase(r.msg.as_str());
                let app = to_lowercase(r.app.as_str());
                crate::text::contains_exec(msg.as_str(), needle.as_str())
                    || crate::text::contains_exec(app.as_str(), needle.as_str())
            },
            None => true,
        }
    }
}

/// What a filter lets through: a line of the host asked for, never another
/// host's; a line at least as severe as asked (a severity number no
/// greater); a line whose text or app holds the search, ignoring case; and
/// with nothing asked, every line. A line meeting every condition asked
/// is let through.
pub proof fn law_filter(f: Filter, r: StoredEvent)
    ensures
        f.admits(r) && f.host is Some ==> r.host@ == f.host->0@,
        f.host is Some && r.host@ != f.host->0@ ==> !f.admits(r),
        f.admits(r) && f.min_severity is Some ==> r.severity <= f.min_severity->0,
        f.min_severity is Some && r.severity > f.min_severity->0 ==> !f.admits(r),
        f.admits(r) && f.search is Some ==> (crate::text::contains_str(lowercase(r.msg@), lowercase(f.search->0@))
            || crate::text::contains_str(lowercase(r.app@), lowercase(f.search->0@))),
        f.host is None && f.min_severity is None && f.search is None ==> f.admits(r),
        (f.host is None || r.host@ == f.host->0@)
            && (f.min_severity is None || r.severity <= f.min_severity->0)
            && (f.search is None || crate::text::contains_str(lowercase(r.msg@), lowercase(f.search->0@))
                || crate::text::contains_str(lowercase(r.app@), lowercase(f.search->0@)))
            ==> f.admits(r),
{
}

/// How many rows a query for the `last` most recent returns at most.
pub fn want(last: i64) -> (n: usize)
    ensures
        n == (if last <= 0 { 0 } else if last > usize::MAX { usize::MAX as int } else { last as int }),
{
    if last <= 0 {
        0
    } else if (last as u64) as u128 > usize::MAX as u128 {
        usize::MAX
    } else {
        last as usize
    }
}

/// The fleet's logs, under Observe.
pub fn nav() -> (r: Vec<crate::nav::NavSection>)
    ensures
        crate::nav::sections_view(r@) == seq![("Observe"@, 30i32, crate::nav::NavKind::Work, seq![("Fleet logs"@, "#/logs"@, 0i32)])],
{
    let s0_0 = crate::nav::NavSection::new("Observe", 30);
    let s0_1 = s0_0.item("Fleet logs", "#/logs");
    assert(crate::nav::items_view(s0_1) =~= seq![("Fleet logs"@, "#/logs"@, 0i32)]);
    let r = vec![s0_1];
    assert(crate::nav::sections_view(r@) =~= seq![crate::nav::section_view(s0_1)]);
    r
}

} // verus!
