use stormconsole::logs::beacon::{insert_param, Beacon};
use stormconsole::logs::ring::HostSummary;
use stormconsole::plugins::fleet::{
    describe, fleet_detail, fleet_health, host_age, hostname_from, human_bytes, node_address, node_detail_of,
    node_metrics, node_ports, node_upstream, note, service_from, stormd_name, summarize, urlencode, NodeService,
};
use stormconsole::view::{ComponentSummary, Health};

fn beacon(pairs: &[(&str, &str)]) -> Beacon {
    let mut params = Vec::new();
    for (k, v) in pairs {
        insert_param(&mut params, k.to_string(), v.to_string());
    }
    Beacon { host: "storm-1".into(), addr: "192.168.30.2".into(), ts: String::new(), params }
}

#[test]
fn a_full_beacon_describes_the_machine() {
    let b = beacon(&[("cores", "8"), ("mem_bytes", "16708300800"), ("drives", "3")]);
    assert_eq!(describe(&b), "8 cores · 16 GB RAM · 3 drives");
}

#[test]
fn one_drive_is_not_pluralised() {
    assert_eq!(describe(&beacon(&[("drives", "1")])), "1 drive");
}

#[test]
fn absent_fields_are_left_out_rather_than_zeroed() {
    let b = beacon(&[("cores", "4")]);
    assert_eq!(describe(&b), "4 cores");
    assert!(!describe(&b).contains("0 drives"));
    assert!(!describe(&b).contains("RAM"));
}

#[test]
fn a_beacon_with_nothing_readable_says_so() {
    assert_eq!(describe(&beacon(&[("something_new", "1")])), "beacon carries no known fields");
}

#[test]
fn memory_is_binary_because_that_is_how_it_is_sold() {
    assert_eq!(human_bytes(16 * (1 << 30)), "16 GB");
    assert_eq!(human_bytes(1536 * (1 << 20)), "1.5 GB");
    assert_eq!(human_bytes(512), "512 B");
}

fn host(count: i64) -> HostSummary {
    HostSummary { host: "storm-1".into(), addr: "192.168.30.2".into(), count, entries: count, last_ts: String::new() }
}

#[test]
fn failed_workloads_tone_the_metric() {
    let h = host(10);
    let healthy = beacon(&[("running", "18"), ("failed", "0")]);
    let sick = beacon(&[("running", "14"), ("failed", "4")]);

    let m = node_metrics(&h, true, 3, Some(&healthy));
    let w = m.iter().find(|m| m.label == "workloads").expect("workloads");
    assert_eq!(w.value, "18 up, 0 down");
    assert_eq!(w.tone.as_deref(), Some("muted"));

    let m = node_metrics(&h, true, 3, Some(&sick));
    let w = m.iter().find(|m| m.label == "workloads").expect("workloads");
    assert_eq!(w.value, "14 up, 4 down");
    assert_eq!(w.tone.as_deref(), Some("warn"));
}

#[test]
fn a_node_with_no_beacon_still_gets_its_old_metrics() {
    let h = host(42);
    let m = node_metrics(&h, true, 2, None);
    assert!(m.iter().any(|m| m.label == "events" && m.value == "42"));
    assert!(m.iter().any(|m| m.label == "services" && m.value == "2"));
    assert!(!m.iter().any(|m| m.label == "cores"));
}

#[test]
fn a_node_with_no_address_says_what_is_wrong_rather_than_looking_broken() {
    let n = note("", 0, 0);
    assert!(n.contains("never with an address"), "{n}");
}

#[test]
fn silence_on_every_port_is_explained_not_reported_as_failure() {
    let n = note("192.168.8.106", 0, 15);
    assert!(n.contains("it is up"), "{n}");
    assert!(!n.to_lowercase().contains("error"), "{n}");
    assert_eq!(note("192.168.8.106", 3, 15), "3 services answering, 15 ports quiet");
}

#[test]
fn the_layout_covers_the_daemons_a_node_actually_runs() {
    let layout = node_ports();
    let named: Vec<&str> = layout.iter().map(|(_, n)| *n).collect();
    for d in ["stormd", "stormdrive", "stormstorage", "stormconsole", "stormipmi", "stormvm", "stormlb"] {
        assert!(named.iter().any(|n| n.starts_with(d)), "{d} missing from the port layout");
    }
    for p in [9090u16, 9095, 5100] {
        assert!(layout.iter().all(|(q, _)| *q != p), "{p} serves no /api/v1/components");
    }
    let mut ports: Vec<u16> = layout.iter().map(|(p, _)| *p).collect();
    ports.sort_unstable();
    let before = ports.len();
    ports.dedup();
    assert_eq!(before, ports.len(), "duplicate port in the layout");
}

fn c(id: &str, health: Health) -> ComponentSummary {
    ComponentSummary {
        id: id.into(),
        kind: "x".into(),
        label: id.into(),
        health,
        detail: format!("{id} detail"),
        metrics: vec![],
        actions: vec![],
        relations: vec![],
        link: None,
    }
}

#[test]
fn a_feed_with_no_system_card_still_gets_a_verdict() {
    let (h, d) = summarize(&vec![c("plugin:k8s", Health::Healthy), c("plugin:sb", Health::Error)]);
    assert_eq!(h, Health::Error, "the worst component stands in");
    assert_eq!(d, "1 failed · 1 ready");

    let (h, d) = summarize(&vec![c("system", Health::Warn), c("drive:a", Health::Error)]);
    assert_eq!(h, Health::Warn);
    assert_eq!(d, "system detail");

    assert_eq!(summarize(&vec![]).0, Health::Idle);
}

#[test]
fn a_service_is_reached_through_this_console_never_the_node() {
    let s = NodeService {
        port: 9092,
        expected: "stormdrive".into(),
        name: "stormdrive · storm-1".into(),
        health: Health::Healthy,
        detail: "7 drives".into(),
        components: 9,
        proxy: format!("/api/plugins/fleet/nodes/{}/{}", "192.168.8.106", 9092),
    };
    assert!(s.proxy.starts_with("/api/plugins/fleet/"), "{}", s.proxy);
    assert!(!s.proxy.starts_with("http"), "a browser must not be handed a node address");

    let mut sys = c("system", Health::Warn);
    sys.label = "stormdrive · storm-1".into();
    let found = service_from("192.168.8.106", 9092, "stormdrive", &vec![sys, c("drive:a", Health::Healthy)]);
    assert_eq!(found.proxy, "/api/plugins/fleet/nodes/192.168.8.106/9092");
    assert_eq!(found.name, "stormdrive · storm-1");
    assert_eq!(found.components, 2);
    assert_eq!(found.health, Health::Warn);
    let anon = service_from("10.0.0.1", 9093, "stormstorage", &vec![c("x", Health::Idle)]);
    assert_eq!(anon.name, "stormstorage");
}

#[test]
fn a_node_page_lists_what_answered_in_port_order() {
    let svc = |port: u16| service_from("10.0.0.1", port, "stormd", &vec![c("x", Health::Healthy)]);
    let d = node_detail_of(
        "storm-1".into(),
        "10.0.0.1".into(),
        vec![(9092, Some(svc(9092))), (9080, Some(svc(9080))), (9093, None)],
    );
    assert!(d.reachable);
    let ports: Vec<u16> = d.services.iter().map(|s| s.port).collect();
    assert_eq!(ports, vec![9080, 9092]);
    assert_eq!(d.silent, vec![9093]);
    assert_eq!(d.note, "2 services answering, 1 ports quiet");
    let none = node_detail_of("storm-2".into(), "10.0.0.2".into(), vec![(9080, None)]);
    assert!(!none.reachable);
}

#[test]
fn names_in_a_route_are_percent_encoded() {
    assert_eq!(urlencode("storm-1.a_b~"), "storm-1.a_b~");
    assert_eq!(urlencode("a b#c"), "a%20b%23c");
    assert_eq!(urlencode("é"), "%C3%A9");
}

#[test]
fn a_node_is_dialled_only_at_an_address_the_fleet_has_heard() {
    let hosts = vec![host(1), HostSummary { host: "storm-2".into(), addr: "192.168.30.3".into(), ..host(1) }];
    assert_eq!(node_address(&hosts, "storm-2", "storm-1", "127.0.0.1"), Some("192.168.30.3".to_string()));
    assert!(node_upstream(&hosts, "127.0.0.1", "192.168.30.3", 9092).is_ok());
    assert!(node_upstream(&hosts, "127.0.0.1", "10.9.9.9", 9092).is_err());
}

#[test]
fn the_fleet_card_reads_its_nodes() {
    assert_eq!(fleet_health(&[]), Health::Idle);
    assert_eq!(fleet_health(&[Health::Healthy, Health::Warn]), Health::Warn);
    assert!(fleet_detail(3, "239.255.0.1:5514", 2).contains('3'));
    let mut sys = c("system", Health::Healthy);
    sys.label = "stormd on storm-1".into();
    sys.kind = "system".into();
    assert_eq!(stormd_name(&vec![sys]), Some("stormd on storm-1".to_string()));
    assert_eq!(stormd_name(&vec![c("x", Health::Healthy)]), None);
    assert_eq!(hostname_from(Some("storm-1\n")), "storm-1");
    assert_eq!(hostname_from(None), "localhost");
}

#[test]
fn a_host_heard_just_now_is_not_old() {
    assert_eq!(host_age("2026-09-09T12:00:00Z", 1_788_955_200, 0), 0);
    assert_eq!(host_age("2026-09-09T11:59:00Z", 1_788_955_200, 0), 60);
    assert_eq!(host_age("yesterday", 1_788_955_200, 0), i64::MAX);
}
