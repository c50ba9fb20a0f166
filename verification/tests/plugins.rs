use stormconsole::access::Viewer;
use stormconsole::json::{Json, Number};
use stormconsole::plugins::block::{place, slab, volume, volume_kind, Place};
use stormconsole::plugins::catalog::{image, orphan_job, Job};
use stormconsole::plugins::drive::{prefix, proxy_base, wanted, with_node};
use stormconsole::plugins::ipmi::{allowed, forwardable, ws_url};
use stormconsole::plugins::sbregistry::{clone_, pushed_image, readiness, short_digest, since};
use stormconsole::view::{ComponentSummary, Health, RelationKind};
use stormconsole::plugins::drive::{nodes_detail, nodes_health, rank};
use stormconsole::plugins::block::{poll_result, token_of};

fn conv(v: serde_json::Value) -> Json {
    match v {
        serde_json::Value::Null => Json::Null,
        serde_json::Value::Bool(b) => Json::Bool(b),
        serde_json::Value::Number(n) => Json::Num(Number { text: n.to_string(), as_u64: n.as_u64(), as_i64: n.as_i64() }),
        serde_json::Value::String(s) => Json::Str(s),
        serde_json::Value::Array(a) => Json::Arr(a.into_iter().map(conv).collect()),
        serde_json::Value::Object(o) => Json::Obj(o.into_iter().map(|(k, v)| (k, conv(v))).collect()),
    }
}

fn js(text: &str) -> Json {
    conv(serde_json::from_str(text).unwrap())
}

fn metric(c: &ComponentSummary, l: &str) -> Option<String> {
    c.metrics.iter().find(|m| m.label == l).map(|m| m.value.clone())
}

#[test]
fn every_node_the_fleet_knows_and_the_configured_ones_but_not_this_one() {
    let discovered = vec![
        ("storm-a".to_string(), "192.168.8.106".to_string()),
        ("storm-b".to_string(), "192.168.8.107".to_string()),
        ("storm-c".to_string(), String::new()),
        ("here".to_string(), "192.168.8.1".to_string()),
    ];
    let statics = vec![
        ("storm-b".to_string(), "http://10.0.0.7:9092/".to_string()),
        ("storm-z".to_string(), "http://10.0.0.9:9092".to_string()),
    ];
    let w = wanted(&discovered, &statics, "here");
    let get = |h: &str| w.iter().find(|(k, _)| k == h).map(|(_, v)| v.as_str());
    assert_eq!(get("storm-a"), Some("http://192.168.8.106:9092"));
    assert_eq!(get("storm-b"), Some("http://10.0.0.7:9092"), "configured wins");
    assert!(get("storm-z").is_some());
    assert!(get("storm-c").is_none(), "no address, nothing to dial");
    assert!(get("here").is_none(), "this node is read once, locally");
    let hosts: Vec<&str> = w.iter().map(|(k, _)| k.as_str()).collect();
    assert_eq!(hosts, vec!["storm-a", "storm-b", "storm-z"]);
}

#[test]
fn this_nodes_ids_are_unchanged_and_others_are_named() {
    assert_eq!(prefix(None), "drive");
    assert_eq!(prefix(Some("storm-b")), "drive@storm-b");
    assert_eq!(proxy_base(Some("storm-b")), "/api/plugins/drive/node/storm-b/proxy");
    assert_eq!(proxy_base(None), "/api/plugins/drive/proxy");
}

#[test]
fn drives_and_shelves_say_their_node() {
    let c = |kind: &str| ComponentSummary::bare("x".into(), kind.into(), "x".into(), Health::Healthy, String::new());
    let out = with_node(vec![c("drive"), c("shelf"), c("storage")], "storm-b");
    assert!(out[0].metrics.iter().any(|m| m.label == "node" && m.value == "storm-b"));
    assert!(out[1].metrics.iter().any(|m| m.label == "node"));
    assert!(out[2].metrics.is_empty(), "only hardware is stamped");
}

fn viewer(roles: &[&str]) -> Viewer {
    Viewer { user: Some("x".into()), roles: roles.iter().map(|r| r.to_string()).collect(), ..Viewer::anonymous() }
}

#[test]
fn reads_are_open_and_every_write_is_an_administrators() {
    for m in ["POST", "PUT", "DELETE", "PATCH"] {
        assert!(!allowed(m, &viewer(&["operator"])), "{m}");
        assert!(!allowed(m, &viewer(&["viewer"])), "{m}");
        assert!(allowed(m, &viewer(&["admin"])), "{m}");
    }
    assert!(allowed("GET", &viewer(&["viewer"])));
}

#[test]
fn only_the_machines_surface_is_forwarded() {
    for p in ["api/v1/machines", "/api/v1/machines/ABC/power/on", "api/v1/releases", "api/v1/components", "api/v1/hosts/metal/sim-0/console"] {
        assert!(forwardable(p), "{p}");
    }
    for p in ["metrics", "api/v1/other", "../etc/passwd", "api/v1/componentsx", "api/v1/machines/../../metrics"] {
        assert!(!forwardable(p), "{p}");
    }
}

#[test]
fn the_console_url_is_a_websocket_to_the_host() {
    assert_eq!(
        ws_url("http://10.0.0.5:9097/", "/api/v1/hosts/metal/sim-0/console/serial"),
        "ws://10.0.0.5:9097/api/v1/hosts/metal/sim-0/console/serial"
    );
    assert!(ws_url("https://b:9097", "/x").starts_with("wss://"));
}

#[test]
fn a_clones_parent_is_upward() {
    let c = volume(&js(r#"{"id": "v2", "name": "v2", "parent": "v1"}"#));
    let parent = c.relations.iter().find(|r| r.name == "parent").unwrap();
    assert_eq!(parent.kind, RelationKind::BelongsTo);
    assert_eq!(parent.targets, vec!["sb:volume:v1"]);
}

#[test]
fn a_volume_maps_health_size_and_delete() {
    let c = volume(&js(r#"{
        "id": "1f4c", "name": "stormblock", "virtual_size_human": "128.0 MB",
        "allocated_human": "23.0 MB", "redundancy": "none", "health": "healthy",
        "physical_bytes": 24117248, "sealed": true, "parent": "aa"
    }"#));
    assert_eq!(c.id, "sb:volume:1f4c");
    assert_eq!(c.health, Health::Healthy);
    assert_eq!(metric(&c, "kind"), Some("golden".into()));
    assert!(c.detail.starts_with("golden"), "{}", c.detail);
    assert!(c.detail.contains("128.0 MB"), "{}", c.detail);
    assert_eq!(metric(&c, "sealed"), Some("✓".into()));
    assert_eq!(metric(&c, "healthy"), Some("✓".into()));
    assert_eq!(c.actions[0].method, "DELETE");
    assert_eq!(c.actions[0].path, "/api/plugins/sb/proxy/api/v1/volumes/1f4c");
    assert!(c.relations.iter().any(|r| r.targets == vec!["sb:volume:aa"]));
    assert_eq!(volume(&js(r#"{"id": "x", "health": "degraded"}"#)).health, Health::Warn);

    let c = volume(&js(r#"{
        "id": "c1", "name": "misc", "virtual_size_human": "33.0 MB",
        "allocated_human": "1.0 MB", "shared_human": "32.0 MB",
        "health": "healthy", "sealed": false, "parent": "aa", "writable": true
    }"#));
    assert_eq!(metric(&c, "kind"), Some("clone".into()));
    assert_eq!(metric(&c, "shared"), Some("32.0 MB".into()));
    assert_eq!(metric(&c, "sealed"), Some("·".into()));
    assert_eq!(c.detail, "clone · 1.0 MB of 33.0 MB written");
}

#[test]
fn the_engine_says_what_a_volume_is_and_who_uses_it() {
    let claim = js(r#"{
        "id": "c9", "name": "pvc-db", "kind": "volume", "parent": "t1", "sealed": false, "writable": true,
        "virtual_size_human": "10.0 GB", "allocated_human": "4.0 MB", "health": "healthy",
        "in_use": true,
        "attachments": [{"transport": "nvme-tcp", "target": "nqn.x", "nsid": 3}],
        "consumer": {"kind": "PersistentVolumeClaim", "namespace": "shop", "name": "db"},
        "owner": {"kind": "PersistentVolumeClaim", "namespace": "shop", "name": "db"}
    }"#);
    assert_eq!(place(&claim), Place::Attached);
    let c = volume(&claim);
    assert_eq!(metric(&c, "consumer"), Some("PersistentVolumeClaim shop/db".into()));
    assert_eq!(metric(&c, "attached"), Some("nvme-tcp nsid 3".into()));
    assert_eq!(metric(&c, "owner"), None, "the consumer says it once");
    assert!(c.relations.iter().any(|r| r.name == "consumer" && r.targets == vec!["k8s:pvc:shop/db"]));
    assert!(!c.actions[0].enabled, "not deletable while in use");
    assert!(c.detail.contains("PersistentVolumeClaim shop/db"), "{}", c.detail);

    let idle = js(r#"{"id": "c1", "kind": "volume", "in_use": false, "attachments": []}"#);
    assert_eq!(place(&idle), Place::Unattached);
    let c = volume(&idle);
    assert!(c.metrics.iter().any(|m| m.label == "attached" && m.value == "nothing"));
    assert!(c.actions[0].enabled);

    for k in ["golden", "blank", "media", "snapshot", "template"] {
        let v = js(&format!(r#"{{"id": "g", "kind": "{k}", "sealed": true, "in_use": false}}"#));
        assert_eq!(place(&v), Place::Image, "{k}");
        assert_eq!(volume_kind(&v), k);
    }
    let m = volume(&js(r#"{"id": "m", "kind": "volume", "in_use": true,
        "attachments": [{"transport": "ublk", "device": "/dev/ublkb0", "mounted_at": "/data/x"}],
        "consumer": {"kind": "Mount", "name": "/data/x"}}"#));
    assert!(m.metrics.iter().any(|x| x.label == "attached" && x.value == "ublk /dev/ublkb0 → /data/x"));
    assert!(m.relations.iter().all(|r| r.name != "consumer"));
}

#[test]
fn an_older_engine_keeps_every_unsealed_volume_in_volumes() {
    assert_eq!(place(&js(r#"{"id": "a", "sealed": false}"#)), Place::Volume);
    assert_eq!(place(&js(r#"{"id": "a", "sealed": true}"#)), Place::Image);
}

#[test]
fn a_slab_warns_when_nearly_full() {
    let c = slab(&js(r#"{"id": "s", "tier": "hot", "domain": "drive=SB0003+168044",
        "slot_size": 1048576, "role": "system",
        "total_bytes": 1000, "free_bytes": 100, "free_slots": 1}"#));
    assert_eq!(c.health, Health::Warn);
    assert_eq!(metric(&c, "used"), Some("90".into()));
    assert_eq!(metric(&c, "free"), Some("100 B".into()));
    assert_eq!(metric(&c, "drive"), Some("SB0003".into()));
    assert!(c.label.starts_with("SB0003"), "{}", c.label);
}

#[test]
fn readiness_names_the_failed_step() {
    let v = js(r#"{"ready": true, "warmup": {"complete": true, "done": 3, "failed": 1, "total": 4,
        "errors": {"pvc-ladder": "6 of 6 PVC size(s) have no sealed template"}}}"#);
    let (h, d) = readiness(&v);
    assert_eq!(h, Health::Warn);
    assert!(d.contains("pvc-ladder"), "{d}");
    let (h, _) = readiness(&js(r#"{"ready": true, "warmup": {"complete": true, "done": 4, "total": 4}}"#));
    assert_eq!(h, Health::Healthy);
    let (h, _) = readiness(&js(r#"{"ready": false}"#));
    assert_eq!(h, Health::Warn);
}

const PUSH_REC: &str = r#"{
    "image": "quay.io/cilium/cilium:v1.20.1",
    "digest": "sha256:f70030cc1ee5aad3e15a5b37324a5f3dd4ec039c082a22c589d439fbaf3ac68d",
    "config": {
        "Entrypoint": ["/usr/bin/cilium-agent"],
        "Cmd": ["--config-dir=/tmp/cilium/config-map"],
        "Env": ["PATH=/usr/bin", "CILIUM_HOME=/"],
        "WorkingDir": "/home/cilium",
        "User": "1000"
    },
    "pushed_unix": 1
}"#;

#[test]
fn an_image_carries_what_its_record_holds() {
    let c = pushed_image(&js(PUSH_REC), 100);
    assert_eq!(c.label, "quay.io/cilium/cilium:v1.20.1");
    assert!(c.id.starts_with("reg:image:sha256:"));
    assert_eq!(metric(&c, "command").as_deref(), Some("/usr/bin/cilium-agent --config-dir=/tmp/cilium/config-map"));
    assert_eq!(metric(&c, "user").as_deref(), Some("1000"));
    assert_eq!(metric(&c, "workdir").as_deref(), Some("/home/cilium"));
    assert_eq!(metric(&c, "env").as_deref(), Some("2"));
    assert_eq!(metric(&c, "digest").as_deref(), Some("f70030cc1ee5"));
}

#[test]
fn an_image_links_the_golden_built_from_it() {
    let c = pushed_image(&js(PUSH_REC), 100);
    assert!(c.relations.iter().any(|r| r.targets == vec!["reg:golden:img-f70030cc1ee5"]), "{:?}", c.relations);
}

#[test]
fn an_image_with_no_config_says_so_rather_than_looking_empty() {
    let c = pushed_image(&js(r#"{"image": "x:1", "digest": "sha256:abcdefabcdef0000", "pushed_unix": 1}"#), 100);
    assert!(c.detail.contains("no config recorded"), "{}", c.detail);
    assert!(c.metrics.iter().all(|m| m.label != "command"));
}

#[test]
fn a_digest_that_is_not_one_yields_no_golden_edge() {
    let c = pushed_image(&js(r#"{"image": "x:1", "digest": "notadigest", "pushed_unix": 1}"#), 100);
    assert!(c.relations.iter().all(|r| r.name != "golden"), "{:?}", c.relations);
    assert_eq!(short_digest("sha256:f70030cc1ee5aad3"), Some("f70030cc1ee5".to_string()));
    assert_eq!(short_digest("sha256:f700"), None);
    assert_eq!(short_digest("sha256:g70030cc1ee5aad3"), None);
}

#[test]
fn a_clone_links_its_golden_and_volume() {
    let c = clone_(&js(r#"{"id": "c1", "volume_name": "pvc-1", "volume_id": "v9", "golden": "g", "template": "t"}"#));
    assert_eq!(c.id, "reg:clone:c1");
    assert!(c.relations.iter().any(|r| r.targets == vec!["reg:golden:g"]));
    assert!(c.relations.iter().any(|r| r.targets == vec!["sb:volume:v9"]));
}

#[test]
fn a_push_says_how_long_ago() {
    assert_eq!(since(100, 100), "just now");
    assert_eq!(since(100, 40), "");
    assert_eq!(since(0, 40), "");
    assert_eq!(since(100, 100 + 600), "10m ago");
    assert_eq!(since(100, 100 + 7200), "2h ago");
    assert_eq!(since(100, 100 + 3 * 86_400), "3d ago");
}

#[test]
fn an_image_reads_as_its_kind_lineage_and_clones() {
    let v = js(r#"{
        "name": "img-3f9a0c1d2e4b-root", "kind": "golden", "sealed": true,
        "source": "nginx:1.27", "digest": "sha256:3f9a0c1d2e4b5566",
        "parent": "base-aa11bb22cc33", "virtual_size_bytes": 1073741824,
        "allocated_bytes": 52428800, "clones": 3,
        "clone_names": ["web-1", "web-2", "web-3"], "releases": ["11.40", "11.43"],
        "volume_id": "9c2e", "location": "local"
    }"#);
    let c = image(&v, &[]);
    assert_eq!(c.id, "reg:cat:img-3f9a0c1d2e4b-root");
    assert_eq!(c.health, Health::Healthy);
    assert_eq!(c.detail, "golden · nginx:1.27 · 1.0 GB");
    assert_eq!(metric(&c, "clones"), Some("3".into()));
    assert_eq!(metric(&c, "releases"), Some("11.43 (+1 older)".into()));
    assert_eq!(metric(&c, "digest"), Some("3f9a0c1d2e4b".into()));
    assert!(c.relations.iter().any(|r| r.name == "base" && r.targets == vec!["reg:cat:base-aa11bb22cc33"]));
    assert!(c.relations.iter().any(|r| r.name == "volume" && r.targets == vec!["sb:volume:9c2e"]));
}

#[test]
fn a_peers_image_is_its_own_and_says_where() {
    let c = image(&js(r#"{"name": "golden-stormlb", "kind": "component", "component": "stormlb", "location": "forge"}"#), &[]);
    assert_eq!(c.id, "reg:cat:forge/golden-stormlb");
    assert!(c.metrics.iter().any(|m| m.label == "location" && m.value == "forge"));
    assert!(c.detail.contains("stormlb"));
}

#[test]
fn an_image_arriving_says_from_where_and_how_far() {
    let jobs = vec![Job {
        record: js(r#"{"repository": "media/rocky", "reference": "9.4", "phase": "fetching",
            "source": "https://dl.rockylinux.org/pub/rocky/9/x.qcow2", "bytes": 100, "percent": 42.4,
            "attempts": 1, "resumed_from": 0, "golden": "media-abc"}"#),
        percent: Some("42".into()),
    }];
    let c = image(&js(r#"{"name": "media-abc", "kind": "media", "sealed": false, "state": "writing"}"#), &jobs);
    assert_eq!(c.health, Health::Warn);
    assert!(c.detail.starts_with("downloading from dl.rockylinux.org, 42%"), "{}", c.detail);
}

const FETCHING: &str = r#"{"repository": "media/deb", "reference": "12", "phase": "fetching",
    "source": "http://mirror.lan/deb.iso", "bytes": 5242880, "attempts": 3, "resumed_from": 1048576}"#;

#[test]
fn a_job_with_no_image_yet_is_a_row_and_a_done_one_is_not() {
    let fetching = Job { record: js(FETCHING), percent: None };
    let c = orphan_job(&fetching, &[]).unwrap();
    assert_eq!(c.detail, "downloading from mirror.lan, 5.0 MB so far");
    assert!(c.metrics.iter().any(|m| m.label == "attempts" && m.value == "3"));
    let failed = Job {
        record: js(r#"{"repository": "media/x", "phase": "failed", "source": "http://h/x",
            "fault": "upstream", "error": "404 Not Found"}"#),
        percent: None,
    };
    let f = orphan_job(&failed, &[]).unwrap();
    assert_eq!(f.health, Health::Error);
    assert_eq!(f.detail, "failed (upstream): 404 Not Found");
    let done = Job { record: js(r#"{"repository": "media/y", "phase": "done", "source": "local", "golden": "media-1"}"#), percent: None };
    assert!(orphan_job(&done, &[]).is_none());
    let mut rec: serde_json::Value = serde_json::from_str(FETCHING).unwrap();
    rec["golden"] = serde_json::Value::String("media-9".into());
    let j = Job { record: conv(rec), percent: None };
    assert!(orphan_job(&j, &["media-9".into()]).is_none());
}

fn feed(h: Health, kinds: &[&str]) -> stormconsole::feed::FeedState {
    stormconsole::feed::FeedState {
        health: h,
        detail: "4 drives".into(),
        components: kinds.iter().map(|k| ComponentSummary::bare("x".into(), k.to_string(), "x".into(), h, String::new())).collect(),
    }
}

#[test]
fn a_node_without_stormdrive_is_not_a_failing_one() {
    assert!(rank(Health::Unknown) < rank(Health::Healthy));
    assert_eq!(nodes_health(Health::Healthy, &[feed(Health::Error, &[]), feed(Health::Warn, &["drive"])]), Health::Warn);
    assert_eq!(nodes_health(Health::Healthy, &[feed(Health::Unknown, &["shelf"])]), Health::Unknown);
    let local = feed(Health::Healthy, &["drive", "drive", "shelf"]);
    let d = nodes_detail(&local, "http://127.0.0.1:9092", &[feed(Health::Healthy, &["drive"]), feed(Health::Error, &[])]);
    assert_eq!(d, "3 drives on 2 nodes (1 without stormdrive) · this node: stormdrive on this node :9092 · 4 drives");
    let one = nodes_detail(&local, "http://127.0.0.1:9092", &[]);
    assert!(one.starts_with("2 drives on 1 node · "), "{one}");
}

#[test]
fn a_token_of_blanks_is_no_token() {
    assert_eq!(token_of(Some("  abc \n".into())), Some("abc".to_string()));
    assert_eq!(token_of(Some("   ".into())), None);
    assert_eq!(token_of(None), None);
}

#[test]
fn each_plugin_says_where_it_sits() {
    let sb = stormconsole::plugins::block::nav();
    assert_eq!(sb[0].label, "Storage");
    assert_eq!(sb[0].items.len(), 5);
    let drives = stormconsole::plugins::drive::nav();
    assert_eq!(drives[0].items[1].order, 20);
    let machines = stormconsole::plugins::ipmi::nav();
    assert_eq!(machines[0].items[0].href, "#/machines");
    let reg = stormconsole::plugins::sbregistry::nav();
    assert_eq!(reg[0].items[3].href, "#/grid?id=reg:registry&rel=images");
    let fleet = stormconsole::plugins::fleet::nav();
    assert_eq!(fleet[0].items[0].href, "#/nodes");
    let etcd = stormconsole::etcd::card::nav();
    assert_eq!(etcd[0].items[1].href, "#/grid?id=etcd:store&rel=members");
    let logs = stormconsole::logs::ring::nav();
    assert_eq!(logs[0].label, "Observe");
    let merged = stormconsole::nav::merge(vec![sb.into_iter().next().unwrap(), drives.into_iter().next().unwrap(), machines.into_iter().next().unwrap()]);
    let hw = merged.iter().find(|s| s.label == "Hardware").unwrap();
    let labels: Vec<&str> = hw.items.iter().map(|i| i.label.as_str()).collect();
    assert_eq!(labels, vec!["Machines", "Drives", "Shelves"]);
}

#[test]
fn without_its_volumes_the_engine_is_unreachable_and_other_lists_may_fail() {
    let (h, d, cs) = poll_result(Err("connection refused".to_string()), None, None, None, None);
    assert_eq!(h, Health::Error);
    assert_eq!(d, "unreachable: connection refused");
    assert_eq!(cs.len(), 1);
    assert_eq!(cs[0].id, "sb:engine");
    let vols = vec![js(r#"{"id": "v1", "name": "v1", "health": "healthy"}"#)];
    let (h, _, cs) = poll_result(Ok(vols), None, None, None, None);
    assert_eq!(h, Health::Healthy);
    assert_eq!(cs.len(), 2);
    assert_eq!(cs[1].id, "sb:volume:v1");
    assert!(cs.iter().all(|c| c.metrics.iter().all(|m| m.unit.is_none())));
}
