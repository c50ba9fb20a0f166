use stormconsole::logs::beacon::{from_line, insert_param, parse_params};
use stormconsole::logs::parse::{parse, LogEvent};
use stormconsole::logs::ring::{arrive, dedup_key, insert_step, prune_count, prune_stats, severity_after, stats_after_evict, stats_after_insert, summary_after_evict, summary_after_insert, want, Filter, Found, Stats, StoredEvent};

fn at_now(_: ()) -> String {
    "2026-08-28T00:00:00Z".to_string()
}

#[test]
fn full_5424_line_parses() {
    let e = parse("<131>1 2026-08-28T12:00:00Z storm-a1 stormd 1 - - process web crashed", "192.168.8.20", || at_now(()));
    assert_eq!(e.severity, 3);
    assert_eq!(e.facility, 16);
    assert_eq!(e.host, "storm-a1");
    assert_eq!(e.app, "stormd");
    assert_eq!(e.msg, "process web crashed");
    assert_eq!(e.ts, "2026-08-28T12:00:00Z");
}

#[test]
fn structured_data_is_skipped() {
    let e = parse("<134>1 - - beacon 1 - [storm@0 cores=\"8\"] hello", "10.0.0.9", || at_now(()));
    assert_eq!(e.host, "10.0.0.9");
    assert_eq!(e.msg, "hello");
    assert_eq!(e.ts, "2026-08-28T00:00:00Z");
}

#[test]
fn garbage_survives_as_message_from_source() {
    let e = parse("plain kernel text", "10.0.0.5", || at_now(()));
    assert_eq!(e.host, "10.0.0.5");
    assert_eq!(e.severity, 6);
    assert_eq!(e.msg, "plain kernel text");
}

fn at(line: &str, src: &str) -> LogEvent {
    parse(line, src, || "2026-09-09T00:00:00Z".to_string())
}

#[test]
fn the_address_is_kept_even_when_the_node_names_itself() {
    let e = at("<134>1 2026-09-09T12:00:00Z storm-2c91b3 stormd 1 - - up", "192.168.8.106");
    assert_eq!(e.host, "storm-2c91b3");
    assert_eq!(e.addr, "192.168.8.106");
}

#[test]
fn an_unparseable_line_still_carries_the_address() {
    let e = at("not syslog at all", "192.168.8.107");
    assert_eq!(e.host, "192.168.8.107", "falls back to the address as a name");
    assert_eq!(e.addr, "192.168.8.107");
}

#[test]
fn a_dash_hostname_falls_back_to_the_address_for_both() {
    let e = at("<134>1 2026-09-09T12:00:00Z - stormd 1 - - up", "192.168.8.108");
    assert_eq!(e.host, "192.168.8.108");
    assert_eq!(e.addr, "192.168.8.108");
}

#[test]
fn a_trailing_newline_is_not_part_of_the_message() {
    let e = at("<11>1 2026-09-09T12:00:00Z n a 1 - - disk gone\r\n", "10.0.0.1");
    assert_eq!(e.severity, 3);
    assert_eq!(e.facility, 1);
    assert_eq!(e.msg, "disk gone");
}

const LINE: &str = r#"<134>1 2026-09-20T21:48:46.017941Z storm-06f96d beacon - - [storm-beacon@0 cores="8" arch="x86_64" running="14" failed="0" mem_bytes="16708300800" drives="3" uptime_s="56" pallets="busybox,cadvisor,cilium"] node beacon — 14 running, 0 failed"#;

#[test]
fn a_real_beacon_parses() {
    let b = from_line(LINE, "192.168.30.2").expect("beacon");
    assert_eq!(b.host, "storm-06f96d");
    assert_eq!(b.addr, "192.168.30.2");
    assert_eq!(b.ts, "2026-09-20T21:48:46.017941Z");
    assert_eq!(b.cores(), Some(8));
    assert_eq!(b.arch(), Some("x86_64"));
    assert_eq!(b.mem_bytes(), Some(16_708_300_800));
    assert_eq!(b.drives(), Some(3));
    assert_eq!(b.running(), Some(14));
    assert_eq!(b.failed(), Some(0));
    assert_eq!(b.uptime_s(), Some(56));
    assert_eq!(b.pallets(), vec!["busybox", "cadvisor", "cilium"]);
}

#[test]
fn an_absent_field_is_none_and_not_zero() {
    let b = from_line(LINE, "1.2.3.4").unwrap();
    assert_eq!(b.role(), None);
    assert_eq!(b.release(), None);
}

#[test]
fn an_ordinary_log_line_is_not_a_beacon() {
    let line = "<134>1 2026-09-20T21:48:46Z storm-06f96d stormpump - - - boot complete";
    assert!(from_line(line, "1.2.3.4").is_none());
}

#[test]
fn an_escaped_bracket_does_not_end_the_element() {
    let line = r#"<134>1 - host app - - [storm-beacon@0 pallets="a\]b" cores="2"] msg"#;
    let b = from_line(line, "1.2.3.4").unwrap();
    assert_eq!(b.get("pallets"), Some("a]b"));
    assert_eq!(b.cores(), Some(2));
}

#[test]
fn quotes_and_backslashes_come_back() {
    let line = r#"<134>1 - host app - - [storm-beacon@0 note="say \"hi\"\\ok"] msg"#;
    let b = from_line(line, "1.2.3.4").unwrap();
    assert_eq!(b.get("note"), Some(r#"say "hi"\ok"#));
}

#[test]
fn our_element_is_found_among_others() {
    let line = r#"<134>1 - host app - - [other@1 x="1"][storm-beacon@0 cores="4"] msg"#;
    assert_eq!(from_line(line, "1.2.3.4").unwrap().cores(), Some(4));
}

#[test]
fn a_field_this_build_has_never_heard_of_is_still_kept() {
    let line = r#"<134>1 - host app - - [storm-beacon@0 cores="4" gpus="2"] msg"#;
    let b = from_line(line, "1.2.3.4").unwrap();
    assert_eq!(b.get("gpus"), Some("2"));
}

#[test]
fn utf8_in_a_value_survives() {
    let line = r#"<134>1 - host app - - [storm-beacon@0 note="café — 8 cores"] msg"#;
    let b = from_line(line, "1.2.3.4").unwrap();
    assert_eq!(b.get("note"), Some("café — 8 cores"));
}

#[test]
fn a_number_that_is_not_one_is_absent() {
    let line = r#"<134>1 - host app - - [storm-beacon@0 cores="eight" drives=""] msg"#;
    let b = from_line(line, "1.2.3.4").unwrap();
    assert_eq!(b.cores(), None);
    assert_eq!(b.drives(), None);
    assert!(b.pallets().is_empty());
}

fn line(msg: &str) -> LogEvent {
    LogEvent {
        ts: "2026-09-09T12:00:00Z".into(),
        host: "n1".into(),
        addr: "10.0.0.1".into(),
        app: "stormd".into(),
        severity: 3,
        facility: 1,
        msg: msg.into(),
    }
}

#[test]
fn the_dedup_key_joins_with_the_unit_separator() {
    assert_eq!(dedup_key("n1", "stormd", 3, "up"), "n1\u{1f}stormd\u{1f}3\u{1f}up");
}

#[test]
fn a_repeat_counts_and_is_throttled() {
    let first = arrive(None, &line("up"), 10_000);
    assert!(first.notify);
    assert_eq!(first.event.count, 1);
    assert_eq!(first.event.first_seen, 10_000);
    let again = arrive(Some(first.event.clone()), &line("up"), 10_500);
    assert_eq!(again.event.count, 2);
    assert!(!again.notify, "within a second of the last notice");
    assert_eq!(again.event.last_notified, 10_000);
    assert_eq!(again.event.last_seen, 10_500);
    let later = arrive(Some(again.event.clone()), &line("up"), 11_000);
    assert!(later.notify);
    assert_eq!(later.event.count, 3);
    assert_eq!(later.event.last_notified, 11_000);
    assert_eq!(later.event.first_seen, 10_000);
}

#[test]
fn pruning_drops_the_oldest_to_cap_and_the_stale() {
    assert_eq!(prune_count(&[1, 2, 3, 4, 5], 3, 10, 0), 2);
    assert_eq!(prune_count(&[1, 2, 3], 10, 10, 0), 0);
    // Entries unseen for longer than the window go too.
    assert_eq!(prune_count(&[1, 2, 8, 9], 10, 10, 5), 2);
    assert_eq!(prune_count(&[], 0, 10, 5), 0);
}

#[test]
fn a_host_summary_follows_inserts_and_evictions() {
    let s = summary_after_insert(None, "n1", "10.0.0.1", "t1", false);
    assert_eq!((s.count, s.entries), (1, 1));
    let s = summary_after_insert(Some(s), "n1", "10.0.0.2", "t2", true);
    assert_eq!((s.count, s.entries), (2, 1));
    assert_eq!(s.addr, "10.0.0.2");
    assert_eq!(s.last_ts, "t2");
    assert!(summary_after_evict(s.clone(), 2).is_none());
    let s = summary_after_insert(Some(s), "n1", "10.0.0.2", "t3", false);
    let left = summary_after_evict(s, 2).unwrap();
    assert_eq!((left.count, left.entries), (1, 1));
}

fn stored(app: &str, severity: u8, msg: &str) -> StoredEvent {
    StoredEvent {
        ts: "t".into(),
        host: "n1".into(),
        app: app.into(),
        severity,
        facility: 1,
        msg: msg.into(),
        count: 1,
        first_ts: "t".into(),
        first_seen: 0,
        last_seen: 0,
        last_notified: 0,
    }
}

#[test]
fn a_query_filters_by_host_severity_and_text() {
    let f = Filter { host: Some("n1".into()), min_severity: Some(4), search: Some("DISK".into()) };
    assert!(f.matches(&stored("stormd", 3, "disk gone")));
    assert!(!f.matches(&stored("stormd", 6, "disk gone")));
    assert!(!f.matches(&stored("stormd", 3, "all fine")));
    assert!(f.matches(&stored("diskd", 3, "all fine")));
    let any = Filter { host: None, min_severity: None, search: None };
    assert!(any.matches(&stored("x", 7, "y")));
    assert_eq!(want(-1), 0);
    assert_eq!(want(50), 50);
}

#[test]
fn a_line_that_is_not_5424_is_kept_whole_with_its_priority() {
    let e = at("<13>oops\n", "10.0.0.4");
    assert_eq!(e.msg, "<13>oops");
    assert_eq!(e.severity, 5);
    assert_eq!(e.facility, 1);
    assert_eq!(e.host, "10.0.0.4");
    assert_eq!(e.app, "");
    assert_eq!(e.ts, "2026-09-09T00:00:00Z");
    assert!(stormconsole::logs::parse::accepts("<13>oops"));
    assert!(!stormconsole::logs::parse::accepts(r"<134>1 - h a - - [x \"));
}

#[test]
fn a_beacon_line_that_cannot_be_read_is_no_beacon() {
    let line = "<134>1 - host app - - [storm-beacon@0 note=\"caf\\é\"] msg";
    assert!(from_line(line, "1.2.3.4").is_none());
}

#[test]
fn the_counters_follow_inserts_and_evictions() {
    let s = stats_after_insert(Stats::default(), false);
    let s = stats_after_insert(s, true);
    assert_eq!((s.entries, s.occurrences, s.suppressed), (1, 2, 1));
    let s = stats_after_evict(s, 2);
    assert_eq!((s.entries, s.occurrences, s.suppressed), (0, 0, 1));
    assert_eq!(severity_after(3, true, 0), 4);
    assert_eq!(severity_after(3, false, 5), 0);
}

fn owned_pairs(v: &[(&str, &str)]) -> Vec<(String, String)> {
    v.iter().map(|(a, b)| (a.to_string(), b.to_string())).collect()
}

#[test]
fn escaped_parameters_read_back_whole_and_sorted() {
    let s: Vec<char> = r#"b="x\"y" a="1\]2\\3" c="é""#.chars().collect();
    assert_eq!(
        parse_params(&s),
        Some(owned_pairs(&[("a", "1]2\\3"), ("b", "x\"y"), ("c", "é")]))
    );
}

#[test]
fn a_later_parameter_of_the_same_name_wins() {
    let mut m: Vec<(String, String)> = Vec::new();
    insert_param(&mut m, "m".to_string(), "1".to_string());
    insert_param(&mut m, "a".to_string(), "2".to_string());
    insert_param(&mut m, "m".to_string(), "3".to_string());
    assert_eq!(m, owned_pairs(&[("a", "2"), ("m", "3")]));
}

#[test]
fn a_repeat_of_a_live_entry_takes_its_row_and_moves_to_the_tail() {
    let first = arrive(None, &line("disk full"), 1_000).event;
    let p = insert_step(Some(7), true, Found::Entry(3, first.clone()), 0, &line("disk full"), 5_000);
    assert_eq!(p.seq, 7);
    assert_eq!(p.next_seq, 8);
    assert_eq!(p.remove, Some(3));
    assert!(p.repeat);
    assert_eq!(p.insert.event.count, 2);
    assert_eq!(p.insert.event.first_seen, 1_000);
    assert_eq!(p.insert.event.last_seen, 5_000);
    assert!(p.insert.notify);
    assert!(!p.prune);
    assert_eq!(p.since_prune, 1);
}

#[test]
fn a_stale_index_row_or_dedup_off_makes_a_fresh_entry() {
    let first = arrive(None, &line("x"), 1).event;
    let p = insert_step(None, true, Found::Stale(3), 10, &line("x"), 9);
    assert_eq!((p.seq, p.remove, p.repeat, p.insert.event.count), (1, None, false, 1));
    let p = insert_step(Some(4), false, Found::Entry(3, first), 10, &line("x"), 9);
    assert_eq!((p.seq, p.remove, p.repeat, p.insert.event.count), (4, None, false, 1));
}

#[test]
fn every_4096th_insert_prunes() {
    let p = insert_step(Some(9), true, Found::Nothing, 4094, &line("x"), 9);
    assert!(!p.prune);
    assert_eq!(p.since_prune, 4095);
    let p = insert_step(Some(9), true, Found::Nothing, 4095, &line("x"), 9);
    assert!(p.prune);
    assert_eq!(p.since_prune, 0);
}

#[test]
fn pruning_takes_the_removed_entries_out_of_the_counters() {
    let s = Stats { entries: 5, occurrences: 20, suppressed: 15 };
    let r = prune_stats(s, &[3, 7]);
    assert_eq!((r.entries, r.occurrences, r.suppressed), (3, 10, 15));
}
