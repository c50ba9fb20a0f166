use stormconsole::access::Viewer;
use stormconsole::etcd::card::{build, Readings, Seen, Space, STORE};
use stormconsole::etcd::decode::decode;
use stormconsole::etcd::gateway::{prefix_end, Alarm, Error, Member, Status};
use stormconsole::etcd::routes::{admin_only, chunk, classify_snapshot, next_piece, ChunkError, Piece, defrag_base, disarm_member, parse_hex, take_line, tree};
use stormconsole::json::{Json, Number};
use stormconsole::view::{ComponentSummary, Health};

fn conv(v: serde_json::Value) -> Json {
    match v {
        serde_json::Value::Null => Json::Null,
        serde_json::Value::Bool(b) => Json::Bool(b),
        serde_json::Value::Number(n) => Json::Num(Number { text: n.to_string(), as_u64: n.as_u64(), as_i64: n.as_i64() }),
        serde_json::Value::String(s) => Json::Str(s),
        serde_json::Value::Array(a) => Json::Arr(a.into_iter().map(conv).collect()),
        serde_json::Value::Object(o) => Json::Obj(o.into_iter().map(|(k, v)| (k, conv(v))).collect()),
    }
}

fn js(text: &str) -> Json {
    conv(serde_json::from_str(text).unwrap())
}

/// What the scrape of a healthy fastetcd reads.
fn healthy() -> Readings {
    Readings {
        revision: Some(412),
        compacted: Some(12),
        db: Some(4194304),
        in_use: Some(1048576),
        quota: Some(2147483648),
        disk_free: Some(107374182400),
        snapshots: None,
        has_leader: Some(1),
        leader_changes: Some(1),
        leader_changes_alt: None,
        nospace: Some(0),
        watchers: None,
        slow_watchers: None,
        space: Some(Space { high: false, whole: "0".into(), tenths: "0.2".into() }),
    }
}

/// fastetcd today: /health and /metrics, no gateway.
fn fastetcd(metrics: Readings) -> Seen {
    Seen {
        alive: Some(true),
        alive_err: String::new(),
        metrics: Some(metrics),
        metrics_err: String::new(),
        status: None,
        members: vec![],
        alarms: vec![],
        gateway_err: Some(Error::NotServed("/v3/maintenance/status responded 404".into())),
        objects: None,
        rates: vec![],
    }
}

fn metric<'a>(c: &'a ComponentSummary, label: &str) -> Option<&'a str> {
    c.metrics.iter().find(|m| m.label == label).map(|m| m.value.as_str())
}

fn member_id(id: &str) -> String {
    format!("etcd:member:{id}")
}

#[test]
fn fastetcd_today_is_healthy_and_says_what_it_cannot_show() {
    let (h, line, cs) = build(&fastetcd(healthy()), Some("plugin:k8s"));
    assert_eq!(h, Health::Healthy);
    assert_eq!(cs.len(), 1, "no members invented from nothing");
    let store = &cs[0];
    assert_eq!(store.id, STORE);
    assert_eq!(metric(store, "revision"), Some("412"));
    assert_eq!(metric(store, "compacted to"), Some("12"));
    assert_eq!(metric(store, "db size"), Some("4.0 MB"));
    assert_eq!(metric(store, "defrag frees"), Some("3.0 MB"));
    assert_eq!(metric(store, "alarms"), Some("none"));
    assert_eq!(metric(store, "leader"), Some("yes"));
    assert_eq!(metric(store, "leader changes"), Some("1"));
    assert_eq!(metric(store, "members"), None, "a count it does not have is not 0");
    assert!(store.detail.contains("fastetcd#28"), "{}", store.detail);
    assert!(store.detail.contains("fastetcd#29"), "{}", store.detail);
    assert!(!line.contains("Not shown"), "the card line stays short: {line}");
    assert!(store.actions.is_empty(), "no verb without something to perform it");
    assert!(store.relations.iter().any(|r| r.name == "serves" && r.targets == vec!["plugin:k8s".to_string()]));
}

#[test]
fn nospace_from_the_scrape_is_an_error_that_says_writes_are_refused() {
    let mut m = healthy();
    m.nospace = Some(1);
    let (h, line, cs) = build(&fastetcd(m), None);
    assert_eq!(h, Health::Error);
    assert!(line.contains("NOSPACE") && line.contains("writes are refused"), "{line}");
    assert_eq!(metric(&cs[0], "alarms"), Some("NOSPACE"));
}

#[test]
fn no_leader_is_an_error() {
    let mut m = healthy();
    m.has_leader = Some(0);
    let (h, line, _) = build(&fastetcd(m), None);
    assert_eq!(h, Health::Error);
    assert!(line.contains("no leader"), "{line}");
}

#[test]
fn nearly_full_warns() {
    let mut m = healthy();
    m.space = Some(Space { high: true, whole: "85".into(), tenths: "85.0".into() });
    let (h, line, cs) = build(&fastetcd(m), None);
    assert_eq!(h, Health::Warn);
    assert_eq!(metric(&cs[0], "space used"), Some("85.0%"));
    assert!(line.contains("85% of its space used"), "{line}");
}

#[test]
fn metrics_off_is_a_warning_not_an_outage() {
    let mut s = fastetcd(healthy());
    s.metrics = None;
    s.metrics_err = "Connection refused (os error 111)".into();
    let (h, line, _) = build(&s, None);
    assert_eq!(h, Health::Warn);
    assert!(line.contains("metrics not reachable"), "{line}");
}

#[test]
fn nothing_answering_is_unreachable() {
    let mut s = fastetcd(healthy());
    s.alive = None;
    s.alive_err = "Connection refused (os error 111)".into();
    s.metrics = None;
    s.gateway_err = Some(Error::Failed("refused".into()));
    let (h, line, cs) = build(&s, None);
    assert_eq!(h, Health::Error);
    assert!(line.starts_with("unreachable"), "{line}");
    assert!(!cs[0].detail.contains("fastetcd#28"), "an unreachable store has no gaps to explain");
}

fn mem(id: &str, name: &str, learner: bool) -> Member {
    Member {
        id: id.into(),
        name: name.into(),
        peer_urls: vec![format!("http://{name}:2380")],
        client_urls: vec![format!("http://{name}:2379")],
        is_learner: learner,
    }
}

fn gateway(alarms: Vec<Alarm>) -> Seen {
    let mut s = fastetcd(healthy());
    s.gateway_err = None;
    s.status = Some(Status {
        member_id: "a1".into(),
        cluster_id: "c".into(),
        leader: "b2".into(),
        version: "3.5.17".into(),
        revision: 500,
        raft_term: 3,
        raft_index: 900,
        raft_applied_index: 900,
        db_size: 8 << 20,
        db_size_in_use: 2 << 20,
        is_learner: false,
        errors: vec![],
    });
    s.members = vec![mem("a1", "n1", false), mem("b2", "n2", false), mem("c3", "n3", true)];
    s.alarms = alarms;
    s.objects = Some(1234);
    s
}

#[test]
fn with_the_gateway_every_member_is_a_row_and_the_leader_is_marked() {
    let (h, _, cs) = build(&gateway(vec![]), None);
    assert_eq!(h, Health::Healthy);
    let store = &cs[0];
    assert!(!store.detail.contains("fastetcd#28"), "{}", store.detail);
    assert_eq!(metric(store, "revision"), Some("500"), "the gateway's revision wins");
    assert_eq!(metric(store, "raft term"), Some("3"));
    assert_eq!(metric(store, "members"), Some("3"));
    assert_eq!(metric(store, "objects"), Some("1234"));
    assert_eq!(metric(store, "version"), Some("3.5.17"));
    let rel = store.relations.iter().find(|r| r.name == "members").unwrap();
    assert_eq!(rel.targets.len(), 3);
    let role = |id: &str| metric(cs.iter().find(|c| c.id == member_id(id)).unwrap(), "role").unwrap().to_string();
    assert_eq!(role("a1"), "follower");
    assert_eq!(role("b2"), "leader");
    assert_eq!(role("c3"), "learner");
    let me = cs.iter().find(|c| c.id == member_id("a1")).unwrap();
    assert_eq!(metric(me, "answering"), Some("this node's store"));
    let ids: Vec<&str> = store.actions.iter().map(|a| a.id.as_str()).collect();
    assert_eq!(ids, vec!["compact", "defragment"]);
    assert!(store.actions.iter().all(|a| a.danger), "every verb here is confirmed");
    assert_eq!(store.actions[0].path, "/api/plugins/etcd/compact?revision=500");
}

#[test]
fn an_alarm_lands_on_its_member_with_a_way_to_disarm_it() {
    let (h, _, cs) = build(&gateway(vec![Alarm { member_id: "b2".into(), alarm: "CORRUPT".into() }]), None);
    assert_eq!(h, Health::Error);
    let n2 = cs.iter().find(|c| c.id == member_id("b2")).unwrap();
    assert_eq!(n2.health, Health::Error);
    assert!(n2.actions.iter().any(|a| a.path == "/api/plugins/etcd/disarm?member=b2&alarm=CORRUPT"));
    let n1 = cs.iter().find(|c| c.id == member_id("a1")).unwrap();
    assert_eq!(n1.health, Health::Healthy, "the alarm is b2's, not everyone's");
}

#[test]
fn the_keyspace_reads_as_directories() {
    let keys: Vec<String> = [
        "/registry/namespaces/default",
        "/registry/namespaces/kube-system",
        "/registry/pods/default/web-1",
        "/registry/pods/default/web-2",
        "/registry/apps/deployments/default/web",
        "/registry/ranges",
    ]
    .iter()
    .map(|s| s.to_string())
    .collect();
    let t = tree("/registry/", &keys, 6, false);
    let by = |n: &str| t.children.iter().find(|c| c.name == n).unwrap().clone();
    assert_eq!(by("namespaces/").count, 2);
    assert_eq!(by("pods/").count, 2);
    assert_eq!(by("apps/").path, "/registry/apps/");
    assert!(by("ranges").leaf);
    assert_eq!(t.total, 6);
    assert_eq!(t.scanned, 6);
    assert!(!t.truncated);
}

#[test]
fn only_admin_reads_the_keyspace() {
    let op = Viewer { user: Some("o".into()), roles: vec!["operator".into()], ..Viewer::anonymous() };
    let ad = Viewer { user: Some("a".into()), roles: vec!["admin".into()], ..Viewer::anonymous() };
    assert!(admin_only(&op).is_some());
    assert!(admin_only(&ad).is_none());
}

#[test]
fn status_in_etcds_own_shape() {
    let v = js(r#"{
        "header": {"cluster_id": "14841639068965178418", "member_id": "10276657743932975437",
                   "revision": "412", "raft_term": "2"},
        "version": "3.5.17", "dbSize": "25001984", "leader": "10276657743932975437",
        "raftIndex": "431", "raftTerm": "2", "raftAppliedIndex": "431",
        "dbSizeInUse": "24981504", "errors": ["memberID:1 alarm:NOSPACE "]
    }"#);
    let s = Status::from_json(&v);
    assert_eq!(s.member_id, "8e9e05c52164694d");
    assert_eq!(s.leader, s.member_id);
    assert_eq!(s.revision, 412);
    assert_eq!(s.raft_term, 2);
    assert_eq!(s.raft_index, 431);
    assert_eq!(s.db_size, 25001984);
    assert_eq!(s.db_size_in_use, 24981504);
    assert_eq!(s.version, "3.5.17");
    assert_eq!(s.errors.len(), 1);
    assert!(!s.is_learner);
}

#[test]
fn members_in_either_spelling() {
    let v = js(r#"{"ID": "10276657743932975437", "name": "default",
                   "peerURLs": ["http://localhost:2380"], "clientURLs": ["http://localhost:2379"]}"#);
    let m = Member::from_json(&v);
    assert_eq!(m.id, "8e9e05c52164694d");
    assert_eq!(m.client_urls, vec!["http://localhost:2379"]);
    let v = js(r#"{"id": 1, "name": "b", "peer_urls": ["p"], "is_learner": true}"#);
    let m = Member::from_json(&v);
    assert_eq!((m.id.as_str(), m.peer_urls.len(), m.is_learner), ("1", 1, true));
}

#[test]
fn a_prefix_range_ends_one_past_the_prefix() {
    assert_eq!(prefix_end(b"/registry/"), b"/registry0".to_vec());
    assert_eq!(prefix_end(b"a\xff"), b"b".to_vec());
    assert_eq!(prefix_end(b""), vec![0]);
}

fn ld(field: u8, bytes: &[u8]) -> Vec<u8> {
    let mut v = vec![(field << 3) | 2, bytes.len() as u8];
    v.extend_from_slice(bytes);
    v
}

#[test]
fn rustkube_writes_json() {
    let d = decode(br#"{"apiVersion":"v1","kind":"Namespace","metadata":{"name":"default"}}"#);
    assert_eq!(d.encoding, "json");
    assert_eq!(d.kind.as_deref(), Some("Namespace"));
    assert_eq!(d.json.unwrap().str_at(&["metadata", "name"]), Some("default"));
}

#[test]
fn the_protobuf_envelope_says_what_it_holds() {
    let mut tm = ld(1, b"apps/v1");
    tm.extend(ld(2, b"Deployment"));
    let mut unk = ld(1, &tm);
    unk.extend(ld(2, &[0x0a, 0x03, b'w', b'e', b'b']));
    let mut v = b"k8s\0".to_vec();
    v.extend(unk);
    let d = decode(&v);
    assert_eq!(d.encoding, "protobuf");
    assert_eq!(d.api_version.as_deref(), Some("apps/v1"));
    assert_eq!(d.kind.as_deref(), Some("Deployment"));
    assert_eq!(d.hex.as_deref(), Some("0a 03 77 65 62"));
    assert!(d.note.contains("5 byte body"), "{}", d.note);
}

#[test]
fn a_truncated_envelope_is_not_a_panic() {
    let d = decode(b"k8s\0\x0a\x7f\x0a");
    assert_eq!(d.encoding, "protobuf");
    assert_eq!(d.kind, None);
}

#[test]
fn text_and_bytes() {
    assert_eq!(decode(b"default/kubernetes").encoding, "text");
    assert_eq!(decode(b"42").encoding, "text");
    let d = decode(&[0u8, 1, 2, 0xff]);
    assert_eq!(d.encoding, "binary");
    assert_eq!(d.hex.as_deref(), Some("00 01 02 ff"));
}

#[test]
fn hex_member_ids_read_back_as_the_integer_etcd_keeps() {
    assert_eq!(parse_hex("8e9e05c52164694d"), Some(10276657743932975437));
    assert_eq!(parse_hex("+ff"), Some(255));
    assert_eq!(parse_hex("FF"), Some(255));
    assert_eq!(parse_hex(""), None);
    assert_eq!(parse_hex("+"), None);
    assert_eq!(parse_hex("xyz"), None);
    assert_eq!(parse_hex("1ffffffffffffffff"), None);
    assert_eq!(disarm_member("8e9e05c52164694d"), Ok("10276657743932975437".to_string()));
    assert_eq!(disarm_member("n1"), Err("n1 is not a member id".to_string()));
}

#[test]
fn a_defragment_goes_to_the_member_named() {
    let ms = vec![mem("a1", "n1", false), Member { client_urls: vec![], ..mem("b2", "n2", false) }];
    assert_eq!(defrag_base("http://127.0.0.1:2379", None, &ms), Ok("http://127.0.0.1:2379".to_string()));
    assert_eq!(defrag_base("http://127.0.0.1:2379", Some("a1"), &ms), Ok("http://n1:2379".to_string()));
    assert_eq!(
        defrag_base("http://127.0.0.1:2379", Some("b2"), &ms),
        Err("member b2 has no client URL to defragment through".to_string())
    );
    assert!(defrag_base("http://127.0.0.1:2379", Some("zz"), &ms).is_err());
}

#[test]
fn a_snapshot_stream_comes_apart_into_lines_and_chunks() {
    let mut buf = b"{\"result\":{\"blob\":\"aGk=\"}}\n{\"result\"".to_vec();
    let line = take_line(&mut buf).unwrap();
    assert_eq!(line, b"{\"result\":{\"blob\":\"aGk=\"}}\n".to_vec());
    assert_eq!(buf, b"{\"result\"".to_vec());
    assert_eq!(take_line(&mut buf), None);
    assert_eq!(chunk(&line).ok(), Some(Some(b"hi".to_vec())));
    assert_eq!(chunk(b"   \n").ok(), Some(None));
    assert!(chunk(b"{\"error\":{\"message\":\"gone\"}}").is_err());
}

#[test]
fn a_length_past_any_index_is_the_end_of_the_envelope() {
    let mut v = b"k8s\0".to_vec();
    v.extend([0x0a, 0xff, 0xff, 0xff, 0xff, 0xff, 0xff, 0xff, 0xff, 0xff, 0x01]);
    let d = decode(&v);
    assert_eq!(d.encoding, "protobuf");
    assert_eq!(d.kind, None);
}

#[test]
fn a_blob_with_stray_trailing_bits_is_not_base64() {
    let r = chunk(b"{\"result\":{\"blob\":\"aGl=\"}}");
    assert!(matches!(r, Err(ChunkError::NotBase64)));
    let r = chunk(b"{\"result\":{\"blob\":\"aGk\"}}");
    assert!(matches!(r, Err(ChunkError::NotBase64)));
    assert_eq!(chunk(b"{\"result\":{\"blob\":\"aGVsbG8=\"}}").ok(), Some(Some(b"hello".to_vec())));
}

#[test]
fn the_snapshot_reply_is_decided_before_the_stream() {
    let gap = stormconsole::etcd::card::GATEWAY_GAP.to_string();
    assert_eq!(classify_snapshot(404, "404 Not Found", "application/json"), Err((501, gap.clone())));
    assert_eq!(classify_snapshot(405, "405 Method Not Allowed", "application/json"), Err((501, gap.clone())));
    assert_eq!(classify_snapshot(200, "200 OK", "text/plain"), Err((501, gap)));
    assert_eq!(
        classify_snapshot(500, "500 Internal Server Error", "application/json"),
        Err((502, "snapshot responded 500 Internal Server Error".to_string()))
    );
    assert_eq!(classify_snapshot(200, "200 OK", "application/json; charset=utf-8"), Ok(()));
}

#[test]
fn the_snapshot_stream_comes_apart_piece_by_piece() {
    let mut buf = b"{\"result\":{\"blob\":\"aGk=\"}}\n\n{\"result\":{\"blob\":\"aGk".to_vec();
    assert!(matches!(next_piece(&mut buf, false), Piece::Bytes(b) if b == b"hi".to_vec()));
    assert!(matches!(next_piece(&mut buf, false), Piece::Skip));
    assert!(matches!(next_piece(&mut buf, false), Piece::More));
    buf.extend_from_slice(b"=\"}}");
    assert!(matches!(next_piece(&mut buf, true), Piece::Bytes(b) if b == b"hi".to_vec()));
    assert!(buf.is_empty());
    assert!(matches!(next_piece(&mut buf, true), Piece::End));
    let mut bad = b"{\"error\":{\"code\":14}}\n".to_vec();
    assert!(matches!(next_piece(&mut bad, false), Piece::Fail(ChunkError::Upstream(_))));
}
