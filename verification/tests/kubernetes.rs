use stormconsole::k8s::apply::{creators, parse_documents, target};
use stormconsole::k8s::authz::{is_system_namespace, names, note, Source};
use stormconsole::k8s::cache::{catalogue, is_namespaced, spec};
use stormconsole::k8s::components::{render_mem, short_label, KindObjects, PodRequests};
use stormconsole::k8s::network::{describe, identity_labels, ipam, ipam_metric, selects};
use stormconsole::k8s::objevents::{about, about_container, container_of, event, object_of};
use stormconsole::k8s::pages::quota_row;
use stormconsole::k8s::projects::{binding, check_name, suggest, Subject};
use stormconsole::k8s::scope::{namespace_in_path, visible_to};
use stormconsole::json::{Json, Number};
use stormconsole::view::{ComponentSummary, Health, RelationKind};
use stormconsole::k8s::scope::viewer_access;
use stormconsole::k8s::projects::{apiserver_says, refusal_status};
use stormconsole::k8s::projects::isolation_of;
use stormconsole::k8s::pages::{inventory, inventory_kinds, objects_in};
use stormconsole::k8s::pages::object_key;
use stormconsole::k8s::watch::{after_list, KindCache, ListOutcome};

fn conv(v: serde_json::Value) -> Json {
    match v {
        serde_json::Value::Null => Json::Null,
        serde_json::Value::Bool(b) => Json::Bool(b),
        serde_json::Value::Number(n) => Json::Num(Number { text: n.to_string(), as_u64: n.as_u64(), as_i64: n.as_i64() }),
        serde_json::Value::String(s) => Json::Str(s),
        serde_json::Value::Array(a) => Json::Arr(a.into_iter().map(conv).collect()),
        serde_json::Value::Object(o) => Json::Obj(o.into_iter().map(|(k, v)| (k, conv(v))).collect()),
    }
}

fn js(text: &str) -> Json {
    conv(serde_json::from_str(text).unwrap())
}

/// A store snapshot: each kind once, its objects in the order given.
fn snap(pairs: &[(&str, &str, &str)]) -> Vec<KindObjects> {
    let mut out: Vec<KindObjects> = Vec::new();
    for (kind, key, obj) in pairs {
        let entry = (key.to_string(), js(obj));
        match out.iter_mut().find(|k| k.kind == *kind) {
            Some(k) => k.objects.push(entry),
            None => out.push(KindObjects { kind: kind.to_string(), objects: vec![entry] }),
        }
    }
    out
}

const POD: &str = r#"{
    "metadata": {"name": "web", "namespace": "default"},
    "spec": {"nodeName": "n1", "containers": [
        {"name": "app", "image": "nginx:1.27", "ports": [{"containerPort": 8080}]}
    ]},
    "status": {
        "phase": "Running",
        "podIP": "10.0.0.5",
        "conditions": [{"type": "Ready", "status": "True"}],
        "containerStatuses": [{
            "name": "app", "restartCount": 2, "ready": true,
            "imageID": "docker.io/library/nginx@sha256:abc",
            "state": {"running": {"startedAt": "2026-09-20T22:04:46Z"}}
        }]
    }
}"#;

fn find<'a>(out: &'a [ComponentSummary], id: &str) -> &'a ComponentSummary {
    out.iter()
        .find(|c| c.id == id)
        .unwrap_or_else(|| panic!("no component {id} in {:?}", out.iter().map(|c| &c.id).collect::<Vec<_>>()))
}

fn map_of(s: Vec<KindObjects>) -> Vec<ComponentSummary> {
    stormconsole::k8s::components::map(&s, None, &[])
}

#[test]
fn running_ready_pod_is_ok() {
    let out = map_of(snap(&[("pod", "default/web", POD)]));
    let pod = find(&out, "k8s:pod:default/web");
    assert_eq!(pod.health, Health::Healthy);
    assert_eq!(pod.detail, "Running");
    let edge = |name: &str| pod.relations.iter().find(|r| r.name == name).map(|r| r.targets.join(",")).unwrap_or_default();
    assert_eq!(edge("namespace"), "k8s:ns:default");
    assert_eq!(edge("node"), "k8s:node:n1");
    let metric = |label: &str| pod.metrics.iter().find(|m| m.label == label).map(|m| m.value.clone());
    assert_eq!(metric("restarts"), Some("2".into()));
    assert_eq!(metric("ready"), Some("1/1".into()));
    assert_eq!(metric("IP"), Some("10.0.0.5".into()));
    assert!(pod.actions.iter().any(|a| a.id == "delete"));
}

#[test]
fn a_pod_carries_its_containers() {
    let out = map_of(snap(&[("pod", "default/web", POD)]));
    let pod = find(&out, "k8s:pod:default/web");
    let rel = pod.relations.iter().find(|r| r.name == "containers").expect("the pod has a containers relation");
    assert_eq!(rel.targets, vec!["k8s:container:default/web/app"]);

    let c = find(&out, "k8s:container:default/web/app");
    assert_eq!(c.label, "app");
    assert_eq!(c.health, Health::Healthy);
    assert_eq!(c.detail, "running");
    let m = |name: &str| c.metrics.iter().find(|m| m.label == name).map(|m| m.value.clone());
    assert_eq!(m("image").as_deref(), Some("nginx:1.27"));
    assert_eq!(m("restarts").as_deref(), Some("2"));
    assert_eq!(m("ports").as_deref(), Some("8080"));
    assert!(m("imageID").is_some());
    assert!(c.relations.iter().any(|r| r.name == "pod" && r.targets == vec!["k8s:pod:default/web"]));
}

#[test]
fn a_pod_belongs_to_its_node_rather_than_owning_it() {
    let out = map_of(snap(&[("pod", "default/web", POD)]));
    let pod = find(&out, "k8s:pod:default/web");
    let node = pod.relations.iter().find(|r| r.name == "node").expect("a node edge");
    assert_eq!(node.kind, RelationKind::BelongsTo);
    let downward: Vec<&str> =
        pod.relations.iter().filter(|r| r.kind != RelationKind::BelongsTo).map(|r| r.name.as_str()).collect();
    assert_eq!(downward, vec!["containers"]);
}

#[test]
fn a_pods_requests_are_shown_as_rendered() {
    let reqs = [PodRequests { key: "default/web".into(), cpu: "250m".into(), memory: "256Mi".into() }];
    let out = stormconsole::k8s::components::map(&snap(&[("pod", "default/web", POD)]), None, &reqs);
    let pod = find(&out, "k8s:pod:default/web");
    let metric = |label: &str| pod.metrics.iter().find(|m| m.label == label).map(|m| m.value.clone());
    assert_eq!(metric("requests"), Some("250m cpu · 256Mi".into()));
    let bare_pod = map_of(snap(&[("pod", "default/web", POD)]));
    assert!(find(&bare_pod, "k8s:pod:default/web").metrics.iter().all(|m| m.label != "requests"));
}

#[test]
fn a_crash_looping_container_says_so_and_is_an_error() {
    let out = map_of(snap(&[(
        "pod",
        "default/web",
        r#"{
            "metadata": {"name": "web", "namespace": "default"},
            "spec": {"containers": [{"name": "app", "image": "nginx"}]},
            "status": {
                "phase": "Running",
                "containerStatuses": [{
                    "name": "app", "restartCount": 7, "ready": false,
                    "state": {"waiting": {"reason": "CrashLoopBackOff"}}
                }]
            }
        }"#,
    )]));
    let c = find(&out, "k8s:container:default/web/app");
    assert_eq!(c.health, Health::Error);
    assert_eq!(c.detail, "waiting · CrashLoopBackOff");
}

#[test]
fn an_init_container_is_listed_first_and_marked() {
    let out = map_of(snap(&[(
        "pod",
        "default/web",
        r#"{
            "metadata": {"name": "web", "namespace": "default"},
            "spec": {
                "initContainers": [{"name": "setup", "image": "busybox"}],
                "containers": [{"name": "app", "image": "nginx"}]
            },
            "status": {
                "phase": "Running",
                "initContainerStatuses": [{
                    "name": "setup", "restartCount": 0,
                    "state": {"terminated": {"exitCode": 0, "reason": "Completed"}}
                }],
                "containerStatuses": [{
                    "name": "app", "restartCount": 0, "ready": true,
                    "state": {"running": {}}
                }]
            }
        }"#,
    )]));
    let pod = find(&out, "k8s:pod:default/web");
    let rel = pod.relations.iter().find(|r| r.name == "containers").unwrap();
    assert_eq!(rel.targets, vec!["k8s:container:default/web/setup", "k8s:container:default/web/app"]);
    let init = find(&out, "k8s:container:default/web/setup");
    assert_eq!(init.detail, "init · terminated · Completed (0)");
    assert_eq!(init.health, Health::Idle);
}

#[test]
fn a_container_state_is_matched_by_name_not_by_position() {
    let out = map_of(snap(&[(
        "pod",
        "default/web",
        r#"{
            "metadata": {"name": "web", "namespace": "default"},
            "spec": {"containers": [
                {"name": "app", "image": "nginx"},
                {"name": "sidecar", "image": "envoy"}
            ]},
            "status": {
                "phase": "Running",
                "containerStatuses": [
                    {"name": "sidecar", "restartCount": 5, "ready": true, "state": {"running": {}}},
                    {"name": "app", "restartCount": 0, "ready": true, "state": {"running": {}}}
                ]
            }
        }"#,
    )]));
    let restarts = |id: &str| find(&out, id).metrics.iter().find(|m| m.label == "restarts").unwrap().value.clone();
    assert_eq!(restarts("k8s:container:default/web/app"), "0");
    assert_eq!(restarts("k8s:container:default/web/sidecar"), "5");
}

#[test]
fn a_container_the_kubelet_has_not_reported_is_still_listed() {
    let out = map_of(snap(&[(
        "pod",
        "default/web",
        r#"{
            "metadata": {"name": "web", "namespace": "default"},
            "spec": {"containers": [{"name": "app", "image": "nginx"}]},
            "status": {"phase": "Pending"}
        }"#,
    )]));
    let c = find(&out, "k8s:container:default/web/app");
    assert_eq!(c.health, Health::Unknown);
    assert_eq!(c.detail, "not started");
}

#[test]
fn degraded_deployment_is_warn() {
    let out = map_of(snap(&[(
        "deploy",
        "default/api",
        r#"{
            "metadata": {"name": "api", "namespace": "default"},
            "spec": {"replicas": 3},
            "status": {"readyReplicas": 1}
        }"#,
    )]));
    assert_eq!(out[0].health, Health::Warn);
    assert_eq!(out[0].detail, "1/3 ready");
}

#[test]
fn notready_node_is_error_and_namespace_links_pods() {
    let out = map_of(snap(&[
        (
            "node",
            "n1",
            r#"{"metadata": {"name": "n1"},
                "status": {"conditions": [{"type": "Ready", "status": "False"}],
                           "nodeInfo": {"kubeletVersion": "v0.2.3"}}}"#,
        ),
        ("ns", "default", r#"{"metadata": {"name": "default"}, "status": {"phase": "Active"}}"#),
        (
            "pod",
            "default/web",
            r#"{"metadata": {"name": "web", "namespace": "default"},
                "spec": {"nodeName": "n1"}, "status": {"phase": "Running"}}"#,
        ),
    ]));
    let node = find(&out, "k8s:node:n1");
    assert_eq!(node.health, Health::Error);
    assert_eq!(node.relations[0].targets, vec!["k8s:pod:default/web"]);
    let ns = find(&out, "k8s:ns:default");
    assert!(ns.relations.iter().any(|r| r.name == "pods"));
    assert_eq!(ns.link.as_deref(), Some("#/k8s/ns/default"));
}

#[test]
fn cilium_endpoint_and_card() {
    let out = map_of(snap(&[
        (
            "cep",
            "kube-system/coredns-1",
            r#"{"status": {"state": "ready", "identity": {"id": 42},
                "networking": {"addressing": [{"ipv4": "10.0.0.5"}]}}}"#,
        ),
        (
            "cid",
            "42",
            r#"{"security-labels": {"k8s:io.kubernetes.pod.namespace": "kube-system", "k8s:k8s-app": "kube-dns", "k8s:io.cilium.k8s.policy.cluster": "default"}}"#,
        ),
        (
            "cn",
            "storm-1",
            r#"{"spec": {"addresses": [{"type": "InternalIP", "ip": "192.168.8.106"}], "ipam": {"podCIDRs": ["10.0.0.0/24"]}}}"#,
        ),
        (
            "cnp",
            "default/allow-dns",
            r#"{"spec": {"endpointSelector": {"matchLabels": {"app": "web"}}, "egress": [{}, {}]}}"#,
        ),
    ]));
    let ep = find(&out, "k8s:cep:kube-system/coredns-1");
    assert_eq!(ep.health, Health::Healthy);
    assert!(ep.detail.starts_with("10.0.0.5 · identity 42 · ready"), "{}", ep.detail);
    assert!(ep.relations.iter().any(|r| r.targets == vec!["k8s:cid:42"]));
    let id = find(&out, "k8s:cid:42");
    assert_eq!(id.detail, "kube-system · k8s-app=kube-dns");
    let pol = find(&out, "k8s:cnp:default/allow-dns");
    assert_eq!(pol.detail, "selects app=web · 0 ingress · 2 egress");
    assert_eq!(pol.actions[0].method, "DELETE");
    assert_eq!(pol.actions[0].path, "/api/plugins/k8s/raw/apis/cilium.io/v2/namespaces/default/ciliumnetworkpolicies/allow-dns");
    let card = find(&out, "k8s:cilium");
    assert_eq!(card.health, Health::Healthy);
    assert!(card.detail.starts_with("1/1 endpoints ready · 1 identities · 1 nodes · 1 policies"), "{}", card.detail);
}

#[test]
fn a_down_agent_outranks_a_healthy_crd_view() {
    let s = || {
        snap(&[(
            "cep",
            "default/web",
            r#"{"status": {"state": "ready", "networking": {"addressing": [{"ipv4": "10.0.0.5"}]}}}"#,
        )])
    };
    let out = stormconsole::k8s::components::map(&s(), Some((Health::Error, "unreachable: connection refused".into())), &[]);
    let card = find(&out, "k8s:cilium");
    assert_eq!(card.health, Health::Error);
    assert!(card.detail.contains("agent unreachable"), "{}", card.detail);
    assert_eq!(card.metrics[0].label, "agent");
    assert_eq!(card.metrics[0].value, "down");

    let up = stormconsole::k8s::components::map(&s(), Some((Health::Healthy, "reachable · 200 OK".into())), &[]);
    let card = find(&up, "k8s:cilium");
    assert_eq!(card.health, Health::Healthy);
    assert_eq!(card.metrics[0].value, "up");
}

#[test]
fn an_agent_on_a_node_with_no_crds_still_gets_a_card() {
    assert!(stormconsole::k8s::components::map(&vec![], None, &[]).iter().all(|c| c.id != "k8s:cilium"));
    let out = stormconsole::k8s::components::map(&vec![], Some((Health::Healthy, "reachable · 200 OK".into())), &[]);
    let card = find(&out, "k8s:cilium");
    assert_eq!(card.metrics[0].value, "up");
}

#[test]
fn a_machine_that_never_ran_cilium_gets_no_cilium_card() {
    let out = stormconsole::k8s::components::map(&vec![], Some((Health::Error, "unreachable: connection refused".into())), &[]);
    assert!(out.iter().all(|c| c.id != "k8s:cilium"), "no CRDs and no agent means no card");
}

#[test]
fn no_cilium_means_no_card() {
    assert!(stormconsole::k8s::components::map(&vec![], None, &[]).iter().all(|c| c.id != "k8s:cilium"));
}

#[test]
fn a_mirror_pod_shows_without_the_node_it_repeats() {
    assert_eq!(short_label("stormconsole-storm-06f96d", Some("storm-06f96d")), "stormconsole");
}

#[test]
fn an_ordinary_pod_keeps_its_name() {
    assert_eq!(short_label("coredns-aa22fcb9f6-3f2ed", Some("storm-06f96d")), "coredns-aa22fcb9f6-3f2ed");
    assert_eq!(short_label("web-1", None), "web-1");
}

#[test]
fn a_pod_actually_named_after_the_node_is_not_emptied() {
    assert_eq!(short_label("storm-06f96d", Some("storm-06f96d")), "storm-06f96d");
}

#[test]
fn a_partial_match_is_not_trimmed() {
    assert_eq!(short_label("thing-storm-06f96", Some("storm-06f96d")), "thing-storm-06f96");
}

#[test]
fn memory_renders_in_the_unit_it_was_written_in() {
    assert_eq!(render_mem(256 * 1024 * 1024), "256Mi");
    assert_eq!(render_mem(1024 * 1024 * 1024), "1Gi");
    assert_eq!(render_mem(1536 * 1024 * 1024), "1.5Gi");
    assert_eq!(render_mem(512), "512");
    assert_eq!(render_mem(1536), "1.5Ki");
}

#[test]
fn a_hidden_namespace_hides_its_namespaced_objects_and_itself() {
    let h = vec!["kube-system".to_string()];
    assert!(!visible_to("k8s:ns:kube-system", &h));
    assert!(!visible_to("k8s:pod:kube-system/coredns", &h));
    assert!(!visible_to("k8s:cnp:kube-system/allow-dns", &h));
    assert!(visible_to("k8s:ns:default", &h));
    assert!(visible_to("k8s:pod:default/web", &h));
}

#[test]
fn cluster_scoped_objects_are_never_hidden_by_a_namespace() {
    let h = vec!["kube-system".to_string()];
    assert!(visible_to("k8s:node:storm-1", &h));
    assert!(visible_to("k8s:cid:42", &h));
    assert!(visible_to("k8s:apiserver", &h));
    assert!(visible_to("k8s:cilium", &h));
    assert!(visible_to("k8s:whatever:kube-system/x", &h));
    assert!(visible_to("sb:volume:kube-system", &h));
}

#[test]
fn the_catalogue_says_what_the_selector_applies_to() {
    let c = catalogue();
    let by = |k: &str| c.iter().find(|v| v.kind == k).unwrap().clone();
    assert!(by("pod").namespaced);
    assert_eq!(by("pod").title, "Pods");
    assert_eq!(by("pod").href, "#/k8s/pod");
    assert!(!by("node").namespaced);
    assert!(!by("ns").namespaced);
    assert!(!by("ns").inventory, "a namespace is not in its own inventory");
    assert!(by("cnp").namespaced);
    assert!(!by("ccnp").namespaced);
    assert!(by("quota").inventory);
    assert!(is_namespaced("pod") && !is_namespaced("node"));
    assert!(!is_namespaced("nosuchkind"));
}

#[test]
fn a_quota_prints_used_against_hard() {
    let q = js(r#"{
        "metadata": {"name": "compute"},
        "spec": {"hard": {"cpu": "4", "memory": "8Gi"}},
        "status": {"hard": {"cpu": "4", "memory": "8Gi"}, "used": {"cpu": "1", "memory": "2Gi"}}
    }"#);
    let row = quota_row(&q);
    assert_eq!(row.name, "compute");
    assert_eq!(row.resources[0].0, "cpu");
    assert_eq!(row.resources[0].1, "4");
    assert_eq!(row.resources[0].2, "1");
    assert_eq!(row.resources[1], ("memory".to_string(), "8Gi".to_string(), "2Gi".to_string()));
}

#[test]
fn the_namespace_a_write_acts_in_comes_off_its_path() {
    assert_eq!(namespace_in_path("/api/v1/namespaces/team-a/pods"), Some("team-a"));
    assert_eq!(namespace_in_path("/apis/apps/v1/namespaces/kube-system/deployments/dns"), Some("kube-system"));
    assert_eq!(namespace_in_path("/api/v1/nodes/storm-1"), None);
    assert_eq!(namespace_in_path("/api/v1/namespaces"), None);
    assert_eq!(namespace_in_path("/api/v1/namespaces/"), None);
}

#[test]
fn an_object_path_is_derived_from_the_list_path() {
    assert_eq!(spec("pod").unwrap().object_path("default/web"), "/api/v1/namespaces/default/pods/web");
    assert_eq!(spec("deploy").unwrap().object_path("kube-system/dns"), "/apis/apps/v1/namespaces/kube-system/deployments/dns");
    assert_eq!(spec("node").unwrap().object_path("storm-1"), "/api/v1/nodes/storm-1");
    assert_eq!(spec("ns").unwrap().object_path("default"), "/api/v1/namespaces/default");
    assert_eq!(
        spec("cnp").unwrap().object_path("default/allow-dns"),
        "/apis/cilium.io/v2/namespaces/default/ciliumnetworkpolicies/allow-dns"
    );
    assert_eq!(spec("ccnp").unwrap().object_path("deny-all"), "/apis/cilium.io/v2/ciliumclusterwidenetworkpolicies/deny-all");
    assert!(spec("nosuchkind").is_none());
}

#[test]
fn names_come_out_of_a_list_response() {
    let v = js(r#"{"items": [
        {"metadata": {"name": "default"}},
        {"metadata": {"name": "kube-system"}},
        {"metadata": {}}
    ]}"#);
    let got = names(&v);
    assert_eq!(got.len(), 2);
    assert!(got.contains(&"default".to_string()) && got.contains(&"kube-system".to_string()));
    assert!(names(&js("{}")).is_empty());
}

#[test]
fn the_note_counts_and_says_when_it_could_not_ask() {
    assert_eq!(note(1, Source::Listed), "1 namespace you cannot view");
    assert_eq!(note(3, Source::Probed), "3 namespaces you cannot view");
    assert_eq!(note(0, Source::Unavailable), "the apiserver could not be asked what you may see");
}

#[test]
fn an_identity_resolves_to_the_labels_policy_is_written_against() {
    let cid = js(r#"{"security-labels": {
        "k8s:app": "web",
        "k8s:io.kubernetes.pod.namespace": "default",
        "k8s:io.cilium.k8s.policy.cluster": "default",
        "k8s:tier": "frontend"
    }}"#);
    assert_eq!(identity_labels(&cid), "app=web tier=frontend");
}

fn bare(id: &str, kind: &str, label: &str) -> ComponentSummary {
    ComponentSummary::bare(id.into(), kind.into(), label.into(), Health::Healthy, String::new())
}

#[test]
fn a_pod_carries_what_the_network_knows_about_it() {
    let sn = snap(&[
        ("cep", "default/web-1", r#"{"status": {"state": "ready", "identity": {"id": 12345}}}"#),
        ("cid", "12345", r#"{"security-labels": {"k8s:app": "web"}}"#),
        ("cnp", "default/allow-web", r#"{"spec": {"endpointSelector": {"matchLabels": {"app": "web"}}}}"#),
        ("cnp", "default/allow-db", r#"{"spec": {"endpointSelector": {"matchLabels": {"app": "db"}}}}"#),
        ("cnp", "other/allow-web", r#"{"spec": {"endpointSelector": {"matchLabels": {"app": "web"}}}}"#),
    ]);
    let mut c = bare("k8s:pod:default/web-1", "pod", "web-1");
    describe(&sn, "default/web-1", &mut c);
    let metric = |l: &str| c.metrics.iter().find(|m| m.label == l).map(|m| m.value.clone());
    assert_eq!(metric("datapath"), Some("ready".into()));
    assert_eq!(metric("identity"), Some("app=web".into()), "the number answers nothing");
    assert_eq!(metric("policies"), Some("1".into()));
    let policy = c.relations.iter().find(|r| r.name == "policy").unwrap();
    assert_eq!(policy.targets, vec!["k8s:cnp:default/allow-web"]);
    assert!(c.relations.iter().any(|r| r.name == "endpoint"));
}

#[test]
fn no_endpoint_means_nothing_is_said() {
    let sn = snap(&[]);
    let mut c = bare("k8s:pod:default/web-1", "pod", "web-1");
    describe(&sn, "default/web-1", &mut c);
    assert!(c.metrics.is_empty() && c.relations.is_empty());
}

#[test]
fn a_match_expression_is_not_guessed_at() {
    let policy = js(r#"{"spec": {"endpointSelector": {
        "matchExpressions": [{"key": "app", "operator": "In", "values": ["web"]}]
    }}}"#);
    assert!(!selects(&policy, &vec![("app".into(), "web".into())]));
    let all = js(r#"{"spec": {"endpointSelector": {}}}"#);
    assert!(selects(&all, &vec![]));
}

#[test]
fn a_node_says_how_many_addresses_are_left() {
    let cn = js(r#"{
        "spec": {"ipam": {"pool": {"10.0.0.1": {}, "10.0.0.2": {}, "10.0.0.3": {},
                                   "10.0.0.4": {}, "10.0.0.5": {}, "10.0.0.6": {},
                                   "10.0.0.7": {}, "10.0.0.8": {}, "10.0.0.9": {},
                                   "10.0.0.10": {}}}},
        "status": {"ipam": {"used": {"10.0.0.1": {}, "10.0.0.2": {}}}}
    }"#);
    assert_eq!(ipam(&cn), Some((2, 10)));
    let mut c = bare("k8s:cn:n1", "cn", "n1");
    ipam_metric(&cn, &mut c);
    let m = c.metrics.iter().find(|m| m.label == "addresses").unwrap();
    assert_eq!(m.value, "8 free of 10");
    assert_eq!(m.tone.as_deref(), Some("ok"));
}

#[test]
fn a_component_id_names_an_api_object() {
    assert_eq!(object_of("k8s:pod:default/web-1"), Some(("Pod", "default".into(), "web-1".into())));
    assert_eq!(object_of("k8s:node:storm-a"), Some(("Node", String::new(), "storm-a".into())));
    assert_eq!(object_of("k8s:pvc:default/pg").unwrap().0, "PersistentVolumeClaim");
    assert_eq!(object_of("k8s:cronjob:default/nightly").unwrap().0, "CronJob");
    assert_eq!(object_of("k8s:netpol:default/deny").unwrap().0, "NetworkPolicy");
    assert_eq!(object_of("vm:instance:default/web-1"), None, "not this plugin's");
    assert_eq!(object_of("k8s:nope:default/x"), None);
}

#[test]
fn a_service_and_a_deployment_of_one_name_do_not_share_events() {
    let e = js(r#"{"involvedObject": {"kind": "Service", "name": "web", "namespace": "default"}}"#);
    assert!(about(&e, "Service", "default", "web"));
    assert!(!about(&e, "Deployment", "default", "web"));
    assert!(!about(&e, "Service", "other", "web"));
}

#[test]
fn a_containers_events_are_the_pods_narrowed_by_field_path() {
    assert_eq!(
        container_of("k8s:container:default/web-1/sidecar"),
        Some(("default".into(), "web-1".into(), "sidecar".into()))
    );
    let e = js(r#"{"involvedObject": {"fieldPath": "spec.containers{sidecar}"}}"#);
    assert!(about_container(&e, "sidecar"));
    assert!(!about_container(&e, "app"));
}

#[test]
fn an_event_keeps_what_a_reader_needs() {
    let e = event(&js(r#"{
        "type": "Warning", "reason": "FailedScheduling", "count": 47,
        "lastTimestamp": "2026-09-22T10:00:00Z",
        "message": "0/2 nodes are available",
        "source": {"component": "default-scheduler", "host": "storm-a"}
    }"#));
    assert!(e.is_warning());
    assert_eq!(e.count, 47);
    assert_eq!(e.source, "default-scheduler on storm-a");
    assert_eq!(e.time, "2026-09-22T10:00:00Z");
}

#[test]
fn names_and_suggestions() {
    assert!(check_name("gw-work").is_ok());
    assert!(check_name("GW").is_err());
    assert!(check_name("-x").is_err());
    assert_eq!(suggest("Glenn West", "vms"), "glenn-west-vms");
    assert_eq!(suggest("", "work"), "my-work");
}

#[test]
fn a_binding_is_rbacs_shape() {
    let b = binding("demo", "bob", "edit").unwrap();
    assert_eq!(b.name, "edit-bob");
    assert_eq!(b.role, "edit");
    assert_eq!(b.subject, Subject::User { name: "bob".into() });
    let sa = binding("demo", "system:serviceaccount:ci:runner", "view").unwrap();
    assert_eq!(sa.subject, Subject::ServiceAccount { name: "runner".into(), namespace: "ci".into() });
    assert!(binding("demo", "bob", "cluster-admin").unwrap_err().contains("not a project role"));
    assert!(binding("demo", " ", "view").is_err());
}

#[test]
fn system_namespaces_are_never_projects() {
    let extra = vec!["cilium".to_string()];
    for ns in ["default", "kube-system", "kube-node-lease", "openshift", "openshift-infra", "cilium"] {
        assert!(is_system_namespace(ns, &extra), "{ns}");
    }
    for ns in ["gw-work", "web", "defaults", "kubefoo"] {
        assert!(!is_system_namespace(ns, &extra), "{ns}");
    }
}

#[test]
fn documents_split_and_convert() {
    let docs = parse_documents(
        "apiVersion: v1\nkind: Namespace\nmetadata:\n  name: a\n---\n---\napiVersion: apps/v1\nkind: Deployment\nmetadata:\n  name: d\n  namespace: x\n",
    )
    .unwrap();
    assert_eq!(docs.len(), 2);
    assert_eq!(target(&docs[0], None).unwrap().2, "/api/v1/namespaces");
    assert_eq!(
        target(&docs[1], Some("elsewhere")).unwrap().2,
        "/apis/apps/v1/namespaces/x/deployments",
        "the document's own namespace wins"
    );
}

#[test]
fn namespaced_goes_to_the_project_never_default_and_plurals_are_right() {
    let d = parse_documents("apiVersion: networking.k8s.io/v1\nkind: Ingress\nmetadata:\n  name: i\n").unwrap();
    assert_eq!(target(&d[0], Some("gw-work")).unwrap().2, "/apis/networking.k8s.io/v1/namespaces/gw-work/ingresses");
    assert!(target(&d[0], None).unwrap_err().contains("no project was chosen"), "not default by omission");
    let d = parse_documents("apiVersion: v1\nkind: Pod\nmetadata:\n  name: p\n  namespace: kube-system\n").unwrap();
    assert_eq!(target(&d[0], None).unwrap().2, "/api/v1/namespaces/kube-system/pods");
}

#[test]
fn every_template_parses_to_one_document() {
    for c in creators().into_iter().filter(|c| c.mode == "yaml") {
        let docs = parse_documents(&c.template).unwrap();
        assert_eq!(docs.len(), 1, "{}", c.id);
        assert!(!c.template.contains("namespace: default"), "{} puts things in default", c.id);
        target(&docs[0], Some("p")).unwrap();
        let namespaced = docs[0].str_at(&["metadata", "namespace"]).is_none()
            && !["Namespace", "CiliumClusterwideNetworkPolicy"].contains(&docs[0].str_at(&["kind"]).unwrap_or(""));
        assert_eq!(c.project, namespaced, "{} asks for a project exactly when its objects live in one", c.id);
    }
}

#[test]
fn missing_fields_are_named() {
    let d = parse_documents("kind: Pod\nmetadata:\n  name: p\n").unwrap();
    assert!(target(&d[0], None).unwrap_err().contains("apiVersion"));
    assert!(parse_documents("just: [a\n").is_err());
}

#[test]
fn a_project_row_carries_its_owner() {
    let ns = js(r#"{"metadata": {"name": "gw-work", "annotations": {
        "openshift.io/requester": "gw", "openshift.io/display-name": "GW's work", "openshift.io/description": ""}},
        "status": {"phase": "Active"}}"#);
    let r = stormconsole::k8s::projects::row(&ns, false, None);
    assert_eq!(r.requester.as_deref(), Some("gw"));
    assert_eq!(r.display_name.as_deref(), Some("GW's work"));
    assert_eq!(r.description, None, "an empty annotation is no description");
    assert_eq!(r.phase.as_deref(), Some("Active"));
    assert!(!r.isolated && !r.dns);
}

#[test]
fn members_are_bindings_to_project_roles_only() {
    let b = js(r#"{"items": [
        {"metadata": {"name": "admin"}, "roleRef": {"kind": "ClusterRole", "name": "admin"},
         "subjects": [{"kind": "User", "name": "alice"}]},
        {"metadata": {"name": "view-bob"}, "roleRef": {"kind": "ClusterRole", "name": "view"},
         "subjects": [{"kind": "User", "name": "bob"}]},
        {"metadata": {"name": "sa"}, "roleRef": {"kind": "Role", "name": "pod-reader"},
         "subjects": [{"kind": "User", "name": "carol"}]}
    ]}"#);
    let m = stormconsole::k8s::projects::members(&b);
    assert_eq!(m.len(), 2, "a namespace Role is not project membership");
    assert_eq!(m[0].name.as_deref(), Some("alice"));
    assert_eq!(m[0].role, "admin");
    assert_eq!(m[1].role, "view");
    assert_eq!(m[1].binding.as_deref(), Some("view-bob"));
}

#[test]
fn members_sort_by_role_then_name() {
    let b = js(r#"{"items": [
        {"metadata": {"name": "v"}, "roleRef": {"kind": "ClusterRole", "name": "view"},
         "subjects": [{"kind": "User", "name": "zed"}, {"kind": "ServiceAccount", "name": "ci", "namespace": "ops"}]},
        {"metadata": {"name": "e"}, "roleRef": {"kind": "ClusterRole", "name": "edit"},
         "subjects": [{"kind": "User", "name": "yan"}]}
    ]}"#);
    let m = stormconsole::k8s::projects::members(&b);
    let names: Vec<(&str, &str)> = m.iter().map(|r| (r.role.as_str(), r.name.as_deref().unwrap_or(""))).collect();
    assert_eq!(names, vec![("edit", "yan"), ("view", "ci"), ("view", "zed")]);
    assert_eq!(m[1].namespace.as_deref(), Some("ops"));
    assert!(stormconsole::k8s::projects::members(&js("{}")).is_empty());
}

#[test]
fn isolation_is_within_the_namespace_and_dns_is_opt_in() {
    let p = stormconsole::k8s::projects::isolation("demo", false);
    assert_eq!(p.len(), 1);
    assert_eq!(p[0].name, "storm-isolate");
    assert_eq!(p[0].namespace, "demo");
    let d = stormconsole::k8s::projects::isolation("demo", true);
    assert_eq!(d.len(), 2);
    assert_eq!(d[1].name, "storm-isolate-dns");
    assert!(d[1].dns);
}

#[test]
fn a_namespace_is_isolated_by_its_policies() {
    let keys = vec!["a/storm-isolate".to_string(), "a/storm-isolate-dns".to_string(), "b/storm-isolate".to_string(), "c/storm-isolate-dns".to_string()];
    assert_eq!(isolation_of("a", &keys), Some(true));
    assert_eq!(isolation_of("b", &keys), Some(false));
    assert_eq!(isolation_of("c", &keys), None, "the DNS exception alone isolates nothing");
    assert_eq!(isolation_of("d", &keys), None);
}

#[test]
fn a_listing_puts_the_system_apart_and_sorts_by_name() {
    let objects = vec![
        js(r#"{"metadata": {"name": "web"}}"#),
        js(r#"{"metadata": {"name": "kube-system"}}"#),
        js(r#"{"metadata": {"name": "api"}}"#),
        js(r#"{"metadata": {"name": "default"}}"#),
    ];
    let keys = vec!["web/storm-isolate".to_string()];
    let (projects, system) = stormconsole::k8s::projects::project_rows(&objects, &[], &keys);
    let names: Vec<&str> = projects.iter().map(|r| r.name.as_str()).collect();
    assert_eq!(names, vec!["api", "web"]);
    assert!(projects[1].isolated && !projects[1].dns);
    let sys: Vec<&str> = system.iter().map(|r| r.name.as_str()).collect();
    assert_eq!(sys, vec!["default", "kube-system"]);
    assert!(system.iter().all(|r| r.system));
}

#[test]
fn a_refusal_keeps_the_apiservers_reason() {
    assert_eq!(apiserver_says(403, &js(r#"{"message": "forbidden: no"}"#)), "forbidden: no");
    assert_eq!(apiserver_says(500, &js("{}")), "apiserver returned 500");
    assert_eq!(refusal_status(403), 403);
    assert_eq!(refusal_status(422), 400);
    assert_eq!(refusal_status(409), 409);
    assert_eq!(refusal_status(500), 502);
}

#[test]
fn annotations_drop_the_one_that_is_not_an_annotation() {
    let obj = js(r#"{"metadata": {"annotations": {
        "openshift.io/requester": "gwest",
        "openshift.io/description": "gwest-dev",
        "kubectl.kubernetes.io/last-applied-configuration": "{\"a\":1}"
    }}}"#);
    let a = stormconsole::k8s::pages::annotations_of(&obj);
    let get = |k: &str| a.iter().find(|(n, _)| *n == k).map(|(_, v)| v.as_str().unwrap_or(""));
    assert_eq!(get("openshift.io/requester"), Some("gwest"));
    assert_eq!(get("openshift.io/description"), Some("gwest-dev"));
    assert!(get("kubectl.kubernetes.io/last-applied-configuration").is_none());
    assert_eq!(a.len(), 2);
}

#[test]
fn a_namespace_with_no_annotations_yields_an_object_not_a_null() {
    assert!(stormconsole::k8s::pages::annotations_of(&js(r#"{"metadata": {}}"#)).is_empty());
}

#[test]
fn an_object_is_keyed_by_namespace_and_name() {
    assert_eq!(object_key(&js(r#"{"metadata": {"name": "web", "namespace": "default"}}"#)), Some("default/web".to_string()));
    assert_eq!(object_key(&js(r#"{"metadata": {"name": "n1"}}"#)), Some("n1".to_string()));
    assert_eq!(object_key(&js(r#"{"metadata": {}}"#)), None);
    let l = js(r#"{"metadata": {"name": "l"}, "spec": {"limits": [{"type": "Container"}]}}"#);
    let (name, limits) = stormconsole::k8s::pages::limit_row(&l);
    assert_eq!(name, "l");
    assert_eq!(limits.map(|l| l.len()), Some(1));
}

#[test]
fn a_namespace_page_lists_its_objects_by_name_and_counts_its_kinds() {
    let objs = vec![
        ("team/zeta".to_string(), js(r#"{"metadata": {"name": "zeta"}}"#)),
        ("other/x".to_string(), js(r#"{"metadata": {"name": "x"}}"#)),
        ("team/alpha".to_string(), js(r#"{"metadata": {"name": "alpha"}}"#)),
    ];
    let found = objects_in(&objs, "team");
    let got: Vec<&str> = found.iter().map(|n| n.name.as_str()).collect();
    assert_eq!(got, vec!["alpha", "zeta"]);
    let kinds = inventory_kinds();
    assert!(kinds.iter().all(|k| k.inventory));
    assert!(kinds.iter().any(|k| k.kind == "pod"));
    let counts: Vec<usize> = (0..kinds.len()).collect();
    let rows = inventory("team", &counts);
    assert_eq!(rows.len(), kinds.len());
    assert_eq!(rows[1].count, 1);
    assert_eq!(rows[0].href, format!("#/k8s/{}?ns=team", kinds[0].kind));
}

#[test]
fn the_cluster_navigation_opens_with_projects() {
    let nav = stormconsole::k8s::pages::nav();
    assert_eq!(nav[0].label, "Home");
    assert_eq!(nav[0].items[1].href, "#/projects");
    let net = nav.iter().find(|s| s.label == "Networking").unwrap();
    assert_eq!(net.items.len(), 7);
    assert_eq!(net.kind, stormconsole::nav::NavKind::Admin);
}

#[test]
fn a_hidden_namespace_list_limits_the_viewer() {
    let a = viewer_access(Some((vec!["kube-system".into()], "1 namespace you cannot view".into())));
    assert!(!a.allows("k8s:pod:kube-system/dns"));
    assert!(a.allows("k8s:pod:default/web"));
    assert_eq!(a.hidden(), 1);
    assert_eq!(a.note(), "1 namespace you cannot view");
    assert!(viewer_access(None).is_unrestricted());
}

#[test]
fn a_document_that_cannot_be_loaded_is_named_as_yaml() {
    let e = parse_documents("a: 1\n---\nb: [\n").unwrap_err();
    assert!(e.starts_with("yaml: "), "{e}");
}

fn held_keys(c: &KindCache) -> Option<Vec<String>> {
    c.objects.as_ref().map(|v| v.iter().map(|(k, _)| k.clone()).collect())
}

#[test]
fn a_list_replaces_what_a_kind_holds_and_the_watch_resumes_from_its_version() {
    let mut c = KindCache::new();
    assert_eq!(held_keys(&c), None);
    let list = js(r#"{"metadata": {"resourceVersion": "42"}, "items": [
        {"metadata": {"name": "a", "namespace": "default"}},
        {"metadata": {"namespace": "default"}},
        {"metadata": {"name": "b"}},
        {"metadata": {"name": "a", "namespace": "default"}, "spec": {}}
    ]}"#);
    let (wait, rv) = after_list(&mut c, 8, false, ListOutcome::Listed(list));
    assert_eq!(wait, 1);
    assert_eq!(rv, Some("42".to_string()));
    assert_eq!(held_keys(&c), Some(vec!["default/a".to_string(), "b".to_string()]));
    assert!(c.synced && !c.absent);
    let (_, rv) = after_list(&mut c, 1, false, ListOutcome::Listed(js(r#"{"items": []}"#)));
    assert_eq!(rv, Some("0".to_string()));
    assert_eq!(held_keys(&c), Some(vec![]));
}

#[test]
fn watch_events_insert_and_remove_by_key() {
    let mut c = KindCache::new();
    c.apply("ADDED", js(r#"{"metadata": {"name": "x"}}"#));
    c.apply("MODIFIED", js(r#"{"metadata": {"name": "y"}}"#));
    c.apply("MODIFIED", js(r#"{"metadata": {"name": "x"}, "v": 2}"#));
    assert_eq!(held_keys(&c), Some(vec!["x".to_string(), "y".to_string()]));
    c.apply("DELETED", js(r#"{"metadata": {"name": "x"}}"#));
    c.apply("DELETED", js(r#"{"metadata": {}}"#));
    c.apply("BOOKMARK", js(r#"{"metadata": {"name": "z"}}"#));
    assert_eq!(held_keys(&c), Some(vec!["y".to_string()]));
    c.set_stale();
    assert!(!c.synced);
    assert_eq!(held_keys(&c), Some(vec!["y".to_string()]));
}

#[test]
fn a_failed_list_backs_off_to_half_a_minute_and_an_uninstalled_kind_waits_a_minute() {
    let mut c = KindCache::new();
    let mut wait = 1;
    let mut seen = Vec::new();
    for _ in 0..6 {
        let (w, rv) = after_list(&mut c, wait, false, ListOutcome::Failed(Some(500)));
        assert_eq!(rv, None);
        wait = w;
        seen.push(w);
    }
    assert_eq!(seen, vec![2, 4, 8, 16, 30, 30]);
    assert!(!c.synced);
    let (w, _) = after_list(&mut c, 4, false, ListOutcome::Failed(Some(404)));
    assert_eq!(w, 8);
    assert!(!c.absent);
    let (w, _) = after_list(&mut c, 4, true, ListOutcome::Failed(Some(404)));
    assert_eq!(w, 60);
    assert!(c.absent && c.synced);
    assert_eq!(held_keys(&c), None);
    let (w, _) = after_list(&mut c, 60, true, ListOutcome::Failed(None));
    assert_eq!(w, 30);
}
