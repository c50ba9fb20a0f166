use stormconsole::access::{Access, Allow, Viewer};
use stormconsole::events::{unclaimed, Event, Events};
use stormconsole::feed::{remap, summarize};
use stormconsole::json::{Json, Number};
use stormconsole::nav::{merge, NavKind, NavSection};
use stormconsole::registry::owns;
use stormconsole::upstream::{describe, detail, host_port, is_loopback};
use stormconsole::value::{field, human_bytes};
use stormconsole::view::{Action, ComponentSummary, Health, Relation};
use stormconsole::registry::{access_report, limits_of};
use stormconsole::feed::{observe, Fetched};

fn conv(v: serde_json::Value) -> Json {
    match v {
        serde_json::Value::Null => Json::Null,
        serde_json::Value::Bool(b) => Json::Bool(b),
        serde_json::Value::Number(n) => Json::Num(Number { text: n.to_string(), as_u64: n.as_u64(), as_i64: n.as_i64() }),
        serde_json::Value::String(s) => Json::Str(s),
        serde_json::Value::Array(a) => Json::Arr(a.into_iter().map(conv).collect()),
        serde_json::Value::Object(o) => Json::Obj(o.into_iter().map(|(k, v)| (k, conv(v))).collect()),
    }
}

fn js(text: &str) -> Json {
    conv(serde_json::from_str(text).unwrap())
}

#[test]
fn unrestricted_allows_everything_and_hides_nothing() {
    let a = Access::Unrestricted;
    assert!(a.allows("k8s:pod:kube-system/x"));
    assert_eq!(a.hidden(), 0);
    assert!(a.is_unrestricted());
}

#[test]
fn limited_carries_its_predicate_and_its_explanation() {
    let a = Access::limited(Allow::Contains(":default/".into()), 2, "2 namespaces you cannot view");
    assert!(a.allows("k8s:pod:default/web"));
    assert!(!a.allows("k8s:pod:kube-system/dns"));
    assert_eq!(a.hidden(), 2);
    assert_eq!(a.note(), "2 namespaces you cannot view");
}

#[test]
fn an_anonymous_viewer_is_the_one_with_neither_half() {
    assert!(Viewer::anonymous().is_anonymous());
    assert!(!Viewer { user: Some("gw".into()), ..Default::default() }.is_anonymous());
    assert!(!Viewer { token: Some("t".into()), ..Default::default() }.is_anonymous());
}

#[test]
fn the_other_rules_admit_what_they_say() {
    assert!(Allow::AllBut("sc:b".into()).check("sc:a"));
    assert!(!Allow::AllBut("sc:b".into()).check("sc:b"));
    assert!(Allow::Lacks("secret".into()).check("k8s:pod:default/web"));
    assert!(!Allow::Lacks("secret".into()).check("k8s:secret:default/x"));
    let hidden = Allow::OutsideNamespaces(vec!["kube-system".into()]);
    assert!(!hidden.check("k8s:pod:kube-system/dns"));
    assert!(hidden.check("k8s:pod:default/web"));
    assert!(hidden.check("sb:volume:1"));
}

#[test]
fn admin_holds_every_role() {
    let admin = Viewer { roles: vec!["admin".into()], ..Default::default() };
    assert!(admin.has_role("operator"));
    assert!(admin.may_write());
    let reader = Viewer { user: Some("r".into()), ..Default::default() };
    assert!(!reader.has_role("operator"));
    let op = Viewer { roles: vec!["operator".into()], ..Default::default() };
    assert!(op.has_role("operator"));
    assert!(!op.has_role("admin"));
}

fn at(t: &str) -> Event {
    Event {
        time: t.into(),
        kind: "Normal".into(),
        reason: "Started".into(),
        message: String::new(),
        source: String::new(),
        count: 1,
    }
}

#[test]
fn newest_first_and_bounded() {
    let e = Events::of(vec![at("2026-09-22T10:00:00Z"), at("2026-09-22T12:00:00Z"), at("2026-09-22T11:00:00Z")]).newest(2);
    assert_eq!(e.items.len(), 2);
    assert_eq!(e.items[0].time, "2026-09-22T12:00:00Z");
    assert_eq!(e.items[1].time, "2026-09-22T11:00:00Z");
}

#[test]
fn nothing_happened_and_nobody_is_writing_are_different_answers() {
    let quiet = Events::of(vec![]);
    assert!(quiet.available && quiet.items.is_empty());

    let deaf = unclaimed("sb:volume:1f4c");
    assert!(!deaf.available);
    assert!(deaf.reason.contains("do not write any"), "{}", deaf.reason);
}

#[test]
fn a_warning_is_named_by_its_kind() {
    let mut w = at("2026-09-22T10:00:00Z");
    assert!(!w.is_warning());
    w.kind = "Warning".into();
    assert!(w.is_warning());
    let none = Events::none("no apiserver");
    assert!(!none.available);
    assert_eq!(none.reason, "no apiserver");
}

#[test]
fn a_section_is_work_unless_every_contributor_calls_it_administration() {
    let merged = merge(vec![
        NavSection::new("Storage", 40).admin().item("Slabs", "#/slabs"),
        NavSection::new("Storage", 40).item("PVCs", "#/k8s/pvc"),
        NavSection::new("Hardware", 70).admin().item("Drives", "#/drives"),
    ]);
    let by = |l: &str| merged.iter().find(|s| s.label == l).unwrap().kind;
    assert_eq!(by("Storage"), NavKind::Work, "PVCs are work, so the section opens");
    assert_eq!(by("Hardware"), NavKind::Admin);
}

#[test]
fn a_section_nobody_classified_stays_open() {
    let merged = merge(vec![NavSection::new("Something new", 90).item("x", "#/x")]);
    assert_eq!(merged[0].kind, NavKind::Work);
}

#[test]
fn sections_merge_by_label_and_sort_by_order() {
    let merged = merge(vec![
        NavSection::new("Storage", 40).item("Volumes", "#/grid?id=sb:volumes"),
        NavSection::new("Home", 0).item("Overview", "#/"),
        NavSection::new("Storage", 40).item("Drives", "#/grid?id=drive:all"),
    ]);
    assert_eq!(merged.len(), 2);
    assert_eq!(merged[0].label, "Home");
    assert_eq!(merged[1].items.len(), 2);
}

#[test]
fn items_sort_by_order_then_label() {
    let merged = merge(vec![
        NavSection::new("Storage", 40).item_at("Zeta", "#/z", 1).item_at("Alpha", "#/a", 2),
        NavSection::new("Storage", 40).item_at("Beta", "#/b", 1),
    ]);
    let labels: Vec<&str> = merged[0].items.iter().map(|i| i.label.as_str()).collect();
    assert_eq!(labels, vec!["Beta", "Zeta", "Alpha"]);
}

#[test]
fn ownership_is_the_prefix_rule_the_feed_already_uses() {
    assert!(owns("k8s", "k8s:pod:default/web"));
    assert!(owns("k8s", "plugin:k8s"));
    assert!(!owns("k8s", "k8sx:thing"));
    assert!(!owns("sb", "k8s:pod:default/web"));
}

#[test]
fn host_and_port_come_out_of_any_base_url() {
    assert_eq!(host_port("http://127.0.0.1:9092"), ("127.0.0.1", Some("9092")));
    assert_eq!(host_port("https://k.example:6443/"), ("k.example", Some("6443")));
    assert_eq!(host_port("http://[::1]:9092"), ("::1", Some("9092")));
    assert_eq!(host_port("http://registry.gt.lo"), ("registry.gt.lo", None));
    assert_eq!(host_port("192.168.8.106:9090"), ("192.168.8.106", Some("9090")));
}

#[test]
fn loopback_is_never_offered_as_an_address() {
    for url in ["http://127.0.0.1:9092", "https://localhost:6443", "http://[::1]:5100", "http://127.0.1.1:1"] {
        assert!(is_loopback(url), "{url}");
        assert!(!describe(url).contains("127."), "{url} → {}", describe(url));
        assert!(describe(url).starts_with("on this node"), "{url}");
    }
}

#[test]
fn a_real_address_is_kept_because_a_browser_can_use_it() {
    assert_eq!(describe("https://192.168.8.106:6443"), "192.168.8.106:6443");
    assert_eq!(describe("http://sptest.g8.lo:9092"), "sptest.g8.lo:9092");
}

#[test]
fn detail_reads_as_a_sentence() {
    assert_eq!(detail("rustkube", "https://127.0.0.1:6443", ""), "rustkube on this node :6443");
    assert_eq!(detail("stormdrive", "http://127.0.0.1:9092", "1 drives"), "stormdrive on this node :9092 · 1 drives");
}

#[test]
fn field_takes_the_first_present_key() {
    let v = js(r#"{"name": "", "id": 7, "digest": "sha256:ab"}"#);
    assert_eq!(field(&v, &["name", "digest", "id"]), Some("sha256:ab".into()));
    assert_eq!(field(&v, &["id"]), Some("7".into()));
    assert_eq!(field(&v, &["nope"]), None);
}

#[test]
fn human_bytes_matches_stormblock() {
    assert_eq!(human_bytes(134217728), "128.0 MB");
    assert_eq!(human_bytes(512), "512 B");
    assert_eq!(human_bytes(26986151936), "25.1 GB");
}

#[test]
fn human_bytes_edges() {
    assert_eq!(human_bytes(0), "0 B");
    assert_eq!(human_bytes(1023), "1023 B");
    assert_eq!(human_bytes(1024), "1.0 KB");
    assert_eq!(human_bytes(1536), "1.5 KB");
}

fn component(id: &str, h: Health) -> ComponentSummary {
    ComponentSummary {
        id: id.into(),
        kind: "x".into(),
        label: id.into(),
        health: h,
        detail: format!("{id} detail"),
        metrics: vec![],
        actions: vec![],
        relations: vec![],
        link: None,
    }
}

#[test]
fn remap_prefixes_ids_and_targets_and_proxies_actions() {
    let mut c = component("drive:abc", Health::Healthy);
    c.kind = "drive".into();
    c.label = "sda".into();
    c.detail = String::new();
    c.actions = vec![Action {
        id: "locate".into(),
        label: "Locate".into(),
        method: "POST".into(),
        path: "/api/v1/drives/abc/locate/on".into(),
        enabled: true,
        danger: false,
        tone: None,
    }];
    c.relations = vec![Relation::belongs_to("shelf", "shelf:1".into())];
    c.link = Some("#/drives".into());
    let out = remap(vec![c], "drive", "/api/plugins/drive/proxy");
    assert_eq!(out[0].id, "drive:drive:abc");
    assert_eq!(out[0].relations[0].targets, vec!["drive:shelf:1"]);
    assert_eq!(out[0].actions[0].path, "/api/plugins/drive/proxy/api/v1/drives/abc/locate/on");
    assert!(out[0].link.is_none());
}

#[test]
fn summary_prefers_the_system_card() {
    let (h, d) = summarize(&vec![component("system", Health::Warn), component("a", Health::Error)]);
    assert_eq!(h, Health::Warn);
    assert_eq!(d, "system detail");
    let (h, _) = summarize(&vec![component("a", Health::Healthy), component("b", Health::Error)]);
    assert_eq!(h, Health::Error);
}

#[test]
fn only_plugins_that_withhold_something_are_limits() {
    let all = vec![
        ("k8s".to_string(), Access::limited(Allow::AllBut("x".into()), 3, "3 namespaces you cannot view")),
        ("sb".to_string(), Access::Unrestricted),
    ];
    let limits = limits_of(all);
    assert_eq!(limits.len(), 1);
    assert_eq!(limits[0].0, "k8s");
    let viewer = Viewer { user: Some("gw".into()), ..Default::default() };
    let r = access_report(&viewer, &limits);
    assert!(r.enforced && r.identified);
    assert_eq!(r.plugins, vec![("k8s".to_string(), 3, "3 namespaces you cannot view".to_string())]);
    let open = access_report(&Viewer::anonymous(), &[]);
    assert!(!open.enforced && !open.identified);
}

#[test]
fn a_poll_that_fails_shows_no_stale_rows() {
    let s = observe(Fetched::Unreachable("connection refused".into()), "drive", "/api/plugins/drive/proxy");
    assert_eq!(s.health, Health::Error);
    assert_eq!(s.detail, "unreachable: connection refused");
    assert!(s.components.is_empty());
    let s = observe(Fetched::Responded("503 Service Unavailable".into()), "drive", "/p");
    assert_eq!((s.health, s.detail.as_str()), (Health::Warn, "responded 503 Service Unavailable"));
    let s = observe(Fetched::Unreadable("expected value".into()), "drive", "/p");
    assert_eq!(s.detail, "feed unreadable: expected value");
    let s = observe(Fetched::List(vec![component("system", Health::Warn), component("a", Health::Healthy)]), "drive", "/p");
    assert_eq!(s.health, Health::Warn);
    assert_eq!(s.detail, "system detail");
    assert_eq!(s.components[1].id, "drive:a");
}

#[test]
fn a_feed_plugin_opens_its_own_card() {
    let nav = stormconsole::feed::feed_nav("Storage", 40, "Engine", "storage");
    assert_eq!(nav[0].items[0].href, "#/grid?id=plugin:storage");
    assert_eq!(nav[0].items[0].label, "Engine");
}

#[test]
fn no_roles_is_a_reader() {
    assert!(Viewer::anonymous().has_role("viewer"));
    assert!(!Viewer::anonymous().has_role("operator"));
    assert!(!Viewer::anonymous().may_write());
    let op = Viewer { roles: vec!["operator".into()], ..Default::default() };
    assert!(!op.has_role("viewer"));
}
