//! Firewall rule production, reconciliation, UDP sessions, the HTTP
//! redirect, counters, and the engine's passes.

use smart_forward::common::{CommonManager, ProbeKind};
use smart_forward::config::{Config, ForwardRule, LoggingConfig, NetworkConfig};
use smart_forward::endpoint::Endpoint;
use smart_forward::firewall::{
    FirewallBackend, FirewallRule, ForwardType, IptablesManager, NftablesManager, PfctlManager,
    rewrite_target,
};
use smart_forward::forwarder::{SmartForwarder, UnifiedForwarder};
use smart_forward::http::{build_redirect_response, build_redirect_url, parse_http_request};
use smart_forward::stats::{get_standard_stats, get_stats_with_target, ConnectionStats};
use smart_forward::sync::{make_rule_id, FirewallScheduler};
use smart_forward::udp::{DatagramAction, SessionTable};

fn ep(ip: &str, port: u16) -> Endpoint {
    Endpoint { ip: ip.to_string(), port }
}

fn rule_with(name: &str, port: u16, protocols: &[&str], targets: &[&str]) -> ForwardRule {
    ForwardRule {
        name: name.to_string(),
        listen_port: port,
        protocol: None,
        protocols: if protocols.is_empty() {
            None
        } else {
            Some(protocols.iter().map(|p| p.to_string()).collect())
        },
        buffer_size: None,
        targets: targets.iter().map(|t| t.to_string()).collect(),
        dynamic_update: None,
    }
}

fn config_of(rules: Vec<ForwardRule>) -> Config {
    Config {
        logging: LoggingConfig { level: "info".to_string(), format: "text".to_string() },
        network: NetworkConfig { listen_addrs: vec!["192.168.1.2".to_string()] },
        buffer_size: None,
        rules,
        dynamic_update: None,
        dns: None,
    }
}

#[test]
fn test_ip_version_detection() {
    assert_eq!(NftablesManager::detect_ip_version("192.168.1.1:80"), "ip");
    assert_eq!(NftablesManager::detect_ip_version("121.40.167.222:443"), "ip");
    assert_eq!(NftablesManager::detect_ip_version("10.0.0.1"), "ip");

    assert_eq!(NftablesManager::detect_ip_version("2001:db8::1:80"), "ip6");
    assert_eq!(NftablesManager::detect_ip_version("[2001:db8::1]:80"), "ip6");
    assert_eq!(NftablesManager::detect_ip_version("fe80::1"), "ip6");
    assert_eq!(
        NftablesManager::detect_ip_version("2001:0db8:85a3:0000:0000:8a2e:0370:7334:443"),
        "ip6"
    );

    assert_eq!(NftablesManager::detect_ip_version("::1"), "ip6");
    assert_eq!(NftablesManager::detect_ip_version("::"), "ip6");
}

#[test]
fn ipv6_rewrite_targets_are_bracketed() {
    assert_eq!(rewrite_target("[2001:db8::1]:443", 5000), "[2001:db8::1]:443");
    assert_eq!(rewrite_target("2001:db8::1", 5000), "[2001:db8::1]:5000");
    assert_eq!(rewrite_target("10.0.0.1:443", 5000), "10.0.0.1:443");
    assert_eq!(rewrite_target("10.0.0.1", 5000), "10.0.0.1:5000");
}

#[test]
fn nft_dnat_arguments() {
    let m = NftablesManager::new("192.168.1.2".to_string());
    let r = FirewallRule::new(
        "r1_tcp_dnat".to_string(),
        8080,
        "tcp".to_string(),
        "10.0.0.1:80".to_string(),
        ForwardType::DNAT,
        0,
    );
    assert_eq!(r.priority, -150);
    assert!(r.enabled);
    let args = m.generate_dnat_rule(&r);
    assert_eq!(
        args,
        vec![
            "add", "rule", "inet", "smart_forward", "prerouting", "ip", "daddr", "192.168.1.2",
            "tcp", "dport", "8080", "dnat", "ip", "to", "10.0.0.1:80",
        ]
    );
    let snat = m.generate_snat_rule(&r);
    assert_eq!(
        snat,
        vec![
            "add", "rule", "inet", "smart_forward", "postrouting", "oifname", "!=", "\"lo\"",
            "masquerade",
        ]
    );
}

#[test]
fn nft_wildcard_listen_addr_omits_daddr() {
    let m = NftablesManager::new("0.0.0.0".to_string());
    let r = FirewallRule::new(
        "r1_udp_dnat".to_string(),
        53,
        "udp".to_string(),
        "[2001:db8::1]:53".to_string(),
        ForwardType::DNAT,
        0,
    );
    let args = m.generate_dnat_rule(&r);
    assert_eq!(
        args,
        vec![
            "add", "rule", "inet", "smart_forward", "prerouting", "udp", "dport", "53", "dnat",
            "ip6", "to", "[2001:db8::1]:53",
        ]
    );
}

#[test]
fn iptables_arguments() {
    let m = IptablesManager::new("192.168.1.2".to_string());
    let r = FirewallRule::new(
        "r1_tcp_dnat".to_string(),
        8080,
        "tcp".to_string(),
        "10.0.0.1:80".to_string(),
        ForwardType::DNAT,
        0,
    );
    assert_eq!(
        m.generate_dnat_args(&r),
        vec![
            "-t", "nat", "-A", "SMART_FORWARD_PREROUTING", "-d", "192.168.1.2", "-p", "tcp",
            "--dport", "8080", "-j", "DNAT", "--to-destination", "10.0.0.1:80",
        ]
    );
    assert_eq!(
        m.generate_snat_args(),
        vec!["-t", "nat", "-A", "SMART_FORWARD_POSTROUTING", "!", "-o", "lo", "-j", "MASQUERADE"]
    );
}

#[test]
fn pfctl_rule_line() {
    let m = PfctlManager::new();
    assert_eq!(m.anchor_name, "smart_forward");
    let r = FirewallRule::new(
        "r1_tcp_dnat".to_string(),
        8080,
        "tcp".to_string(),
        "10.0.0.1:80".to_string(),
        ForwardType::DNAT,
        0,
    );
    assert_eq!(
        m.generate_nat_rule(&r),
        "rdr pass on lo0 proto tcp from any to any port 8080 -> 10.0.0.1 port 80"
    );
}

#[test]
fn rule_ids() {
    assert_eq!(make_rule_id("r4", "tcp", ForwardType::DNAT), "r4_tcp_dnat");
    assert_eq!(make_rule_id("r4", "udp", ForwardType::SNAT), "r4_udp_snat");
}

#[test]
fn scheduler_pairs_per_protocol() {
    let config = config_of(vec![rule_with("r4", 5000, &["tcp", "udp"], &["t:5000"])]);
    let mut s = FirewallScheduler::new(FirewallBackend::Nftables, "192.168.1.2".to_string());
    let targets = vec![Some(ep("10.0.0.7", 5000))];
    s.create_initial_rules(&config, &targets);
    assert_eq!(s.rules.len(), 4);
    let ids: Vec<&str> = s.rules.iter().map(|r| r.rule_id.as_str()).collect();
    assert!(ids.contains(&"r4_tcp_dnat"));
    assert!(ids.contains(&"r4_tcp_snat"));
    assert!(ids.contains(&"r4_udp_dnat"));
    assert!(ids.contains(&"r4_udp_snat"));
    for r in &s.rules {
        assert_eq!(r.target_addr, "10.0.0.7:5000");
        assert_eq!(r.listen_port, 5000);
        assert!(r.enabled);
    }
}

#[test]
fn reconciliation_is_idempotent() {
    let config = config_of(vec![rule_with("r4", 5000, &["tcp", "udp"], &["t:5000"])]);
    let mut s = FirewallScheduler::new(FirewallBackend::Nftables, "192.168.1.2".to_string());
    let targets = vec![Some(ep("10.0.0.7", 5000))];
    s.create_initial_rules(&config, &targets);
    let first = s.sync_with_targets(&config, &targets);
    assert!(!first, "selection unchanged: no kernel state change");
    // a switch rewrites every pair's target, once
    let switched = vec![Some(ep("10.0.0.8", 5000))];
    assert!(s.sync_with_targets(&config, &switched));
    for r in &s.rules {
        assert_eq!(r.target_addr, "10.0.0.8:5000");
    }
    assert!(!s.sync_with_targets(&config, &switched));
}

#[test]
fn shutdown_clears_managed_rules() {
    let config = config_of(vec![rule_with("r4", 5000, &["tcp"], &["t:5000"])]);
    let mut s = FirewallScheduler::new(FirewallBackend::Nftables, "192.168.1.2".to_string());
    let targets = vec![Some(ep("10.0.0.7", 5000))];
    s.create_initial_rules(&config, &targets);
    assert_eq!(s.rules.len(), 2);
    s.clear_all();
    assert!(s.rules.is_empty());
}

#[test]
fn nft_rebuild_plan_flushes_then_replays() {
    let mut m = NftablesManager::new("192.168.1.2".to_string());
    let r = FirewallRule::new(
        "r1_tcp_dnat".to_string(),
        8080,
        "tcp".to_string(),
        "10.0.0.1:80".to_string(),
        ForwardType::DNAT,
        0,
    );
    let dnat_args = m.generate_dnat_rule(&r);
    m.add_forward_rule(r);
    let plan = m.rebuild_commands();
    assert_eq!(plan.len(), 2);
    assert_eq!(plan[0], vec!["flush", "table", "inet", "smart_forward"]);
    assert_eq!(plan[1], dnat_args);
    assert!(m.is_rule_exists("r1_tcp_dnat"));
    m.remove_forward_rule("r1_tcp_dnat");
    assert!(!m.is_rule_exists("r1_tcp_dnat"));
}

#[test]
fn udp_sessions_one_per_client() {
    let mut table = SessionTable::new();
    let client = ep("192.0.2.50", 40000);
    let target = ep("192.0.2.9", 53);
    match table.process_datagram(&client, &target, 100) {
        DatagramAction::ConnectUpstream => {},
        DatagramAction::Send { .. } => panic!("fresh session has no upstream"),
    }
    assert_eq!(table.len(), 1);
    table.attach_upstream(&client, 7, &target, 100);
    // the same client again: still one session, now usable
    match table.process_datagram(&client, &target, 110) {
        DatagramAction::Send { upstream_id } => assert_eq!(upstream_id, 7),
        DatagramAction::ConnectUpstream => panic!("session should be connected"),
    }
    assert_eq!(table.len(), 1);
    // a target switch forces a reconnect
    match table.process_datagram(&client, &ep("192.0.2.10", 53), 120) {
        DatagramAction::ConnectUpstream => {},
        DatagramAction::Send { .. } => panic!("target changed"),
    }
    assert_eq!(table.len(), 1);
}

#[test]
fn udp_idle_sessions_evicted() {
    let mut table = SessionTable::new();
    let c1 = ep("192.0.2.50", 40000);
    let c2 = ep("192.0.2.51", 40001);
    table.process_datagram(&c1, &ep("192.0.2.9", 53), 100);
    table.process_datagram(&c2, &ep("192.0.2.9", 53), 150);
    assert_eq!(table.len(), 2);
    table.gc(161);
    // c1 idle for 61 s is evicted; c2 idle for 11 s stays
    assert_eq!(table.len(), 1);
    assert_eq!(table.sessions[0].client.ip, "192.0.2.51");
    table.gc(300);
    assert_eq!(table.len(), 0);
}

#[test]
fn http_redirect() {
    let request = "GET /foo HTTP/1.1\r\nHost: x.test\r\nUser-Agent: t\r\n\r\n";
    let (method, path, host) = parse_http_request(request).expect("request parses");
    assert_eq!(method, "GET");
    assert_eq!(path, "/foo");
    assert_eq!(host, "x.test");
    assert_eq!(build_redirect_url(&host, &path), "https://x.test/foo");
    let response = build_redirect_response(&host, &path);
    assert_eq!(
        response,
        "HTTP/1.1 301 Moved Permanently\r\nLocation: https://x.test/foo\r\nConnection: close\r\nContent-Length: 0\r\n\r\n"
    );
}

#[test]
fn http_redirect_root_path_and_default_host() {
    let (_, path, host) = parse_http_request("GET / HTTP/1.1\r\n\r\n").expect("parses");
    assert_eq!(path, "/");
    assert_eq!(host, "localhost");
    assert_eq!(build_redirect_url(&host, &path), "https://localhost");
    assert!(parse_http_request("").is_none());
    assert!(parse_http_request("GET").is_none());
}

#[test]
fn connection_counters() {
    let mut s = ConnectionStats::new(100);
    s.add_bytes_sent(10);
    s.add_bytes_sent(5);
    s.add_bytes_received(7);
    s.increment_connections();
    assert_eq!(s.bytes_sent, 15);
    assert_eq!(s.bytes_received, 7);
    assert_eq!(s.connections, 1);
    assert_eq!(s.get_uptime(160), 60);
    let kv = get_standard_stats(&s, 160);
    assert_eq!(
        kv,
        vec![
            ("connections".to_string(), "1".to_string()),
            ("bytes_sent".to_string(), "15".to_string()),
            ("bytes_received".to_string(), "7".to_string()),
            ("uptime".to_string(), "60".to_string()),
        ]
    );
    let kv2 = get_stats_with_target(&s, "10.0.0.1:80", 160);
    assert_eq!(kv2.last().unwrap(), &("target_addr".to_string(), "10.0.0.1:80".to_string()));
}

#[test]
fn engine_selects_and_switches() {
    let config = config_of(vec![rule_with("r1", 8080, &["tcp"], &["10.0.0.1:8080", "10.0.0.2:8080"])]);
    let mut m = CommonManager::new(config);
    m.initialize_rule_targets(0, &vec![Some(ep("10.0.0.1", 8080)), Some(ep("10.0.0.2", 8080))], 0);
    let events = m.update_rule_targets(1);
    assert!(events.is_empty(), "initial selection is no switch");
    assert_eq!(m.get_best_target("r1").expect("selected").ip, "10.0.0.1");
    assert_eq!(m.get_best_target_string("r1").expect("selected"), "10.0.0.1:8080");

    // first candidate fails a probe: next pass switches to the second
    m.apply_probe_results(&vec![("10.0.0.1:8080".to_string(), false), ("10.0.0.2:8080".to_string(), true)], 2);
    let events = m.update_rule_targets(3);
    assert_eq!(events.len(), 1);
    assert_eq!(events[0].rule_name, "r1");
    assert_eq!(events[0].old_endpoint.ip, "10.0.0.1");
    assert_eq!(events[0].new_endpoint.ip, "10.0.0.2");
    assert_eq!(m.get_best_target("r1").expect("selected").ip, "10.0.0.2");

    // recovery: the higher-priority candidate comes back and wins
    m.apply_probe_results(&vec![("10.0.0.1:8080".to_string(), true)], 4);
    let events = m.update_rule_targets(5);
    assert_eq!(events.len(), 1);
    assert_eq!(events[0].new_endpoint.ip, "10.0.0.1");
}

#[test]
fn engine_dns_drift_switches_endpoint() {
    let config = config_of(vec![rule_with("r3", 8443, &["tcp"], &["h:8443"])]);
    let mut m = CommonManager::new(config);
    m.initialize_rule_targets(0, &vec![Some(ep("1.2.3.4", 8443))], 0);
    m.update_rule_targets(1);
    assert_eq!(m.get_best_target("r3").expect("selected").ip, "1.2.3.4");

    // unchanged answer: no spurious switch
    let changed = m.apply_dns_results(&vec![("h:8443".to_string(), Some(ep("1.2.3.4", 8443)))], 2);
    assert!(!changed);
    assert!(m.update_rule_targets(3).is_empty());

    // drifted answer: the endpoint follows and the callback fires
    let changed = m.apply_dns_results(&vec![("h:8443".to_string(), Some(ep("5.6.7.8", 8443)))], 4);
    assert!(changed);
    let events = m.update_rule_targets(5);
    assert_eq!(events.len(), 1);
    assert_eq!(events[0].old_endpoint.ip, "1.2.3.4");
    assert_eq!(events[0].new_endpoint.ip, "5.6.7.8");
    assert_eq!(m.get_best_target("r3").expect("selected").ip, "5.6.7.8");
}

#[test]
fn unified_forwarder_wires_protocols() {
    let rule = rule_with("r1", 8080, &["tcp", "udp"], &["10.0.0.1:80"]);
    let mut f = UnifiedForwarder::new_with_target(&rule, "192.168.1.2:8080", "10.0.0.1:80");
    f.start();
    assert!(f.running);
    assert!(f.tcp_forwarder.is_some());
    assert!(f.udp_forwarder.is_some());
    assert!(f.http_forwarder.is_none());
    f.update_target("10.0.0.2:80", 9);
    assert_eq!(f.target_addr, "10.0.0.2:80");
    assert_eq!(f.tcp_forwarder.as_ref().unwrap().target_addr, "10.0.0.2:80");
    assert_eq!(f.udp_forwarder.as_ref().unwrap().target_addr, "10.0.0.2:80");
    assert!(f.should_update_target_with_interval(5, 14));
    assert!(!f.should_update_target_with_interval(5, 10));
    f.stop();
    assert!(!f.running);
    assert!(!f.tcp_forwarder.as_ref().unwrap().running);
}

#[test]
fn smart_forwarder_auto_redirect_decision() {
    let with_443 = SmartForwarder::new(config_of(vec![rule_with("tls", 443, &["tcp"], &["a:1"])]));
    assert!(with_443.needs_auto_http_redirect());
    let with_both = SmartForwarder::new(config_of(vec![
        rule_with("tls", 443, &["tcp"], &["a:1"]),
        rule_with("web", 80, &["http"], &["a:1"]),
    ]));
    assert!(!with_both.needs_auto_http_redirect());
}

#[test]
fn probe_protocol_choice() {
    let config = config_of(vec![
        rule_with("u", 53, &["udp"], &["9.9.9.9:53", "udphost"]),
        rule_with("t", 443, &["tcp"], &["9.9.9.9:53"]),
    ]);
    let m = CommonManager::new(config);
    // shared by a TCP rule: probed over TCP
    assert!(matches!(m.probe_kind_for_target("9.9.9.9:53"), ProbeKind::Tcp));
    // UDP-only and not a literal: reachable when it resolves
    assert!(matches!(m.probe_kind_for_target("udphost"), ProbeKind::UdpResolve));
    // unreferenced targets default to TCP
    assert!(matches!(m.probe_kind_for_target("8.8.8.8:53"), ProbeKind::Tcp));
    let udp_only = config_of(vec![rule_with("u", 53, &["udp"], &["9.9.9.9:53"])]);
    let m2 = CommonManager::new(udp_only);
    assert!(matches!(m2.probe_kind_for_target("9.9.9.9:53"), ProbeKind::UdpLiteral));
}

#[test]
fn nft_namespace_lifecycle_commands() {
    let m = NftablesManager::new("192.168.1.2".to_string());
    let create = m.create_commands();
    assert_eq!(create.len(), 3);
    assert_eq!(create[0], vec!["add", "table", "inet", "smart_forward"]);
    assert_eq!(create[1][4], "prerouting");
    assert_eq!(create[1][11], "-150");
    assert_eq!(create[2][4], "postrouting");
    assert_eq!(create[2][11], "50");
    let clear = m.clear_commands();
    assert_eq!(clear, vec![vec!["delete", "table", "inet", "smart_forward"]]);
}

#[test]
fn engine_store_snapshot() {
    let config = config_of(vec![rule_with("r1", 1, &["tcp"], &["10.0.0.1:80", "10.0.0.2:80"])]);
    let mut m = CommonManager::new(config);
    m.initialize_rule_targets(0, &vec![Some(ep("10.0.0.1", 80)), Some(ep("10.0.0.2", 80))], 7);
    let mut keys: Vec<String> = m.snapshot_targets().into_iter().map(|(k, _)| k).collect();
    keys.sort();
    assert_eq!(keys, vec!["10.0.0.1:80".to_string(), "10.0.0.2:80".to_string()]);
    for (_, t) in m.snapshot_targets() {
        assert!(t.healthy);
        assert_eq!(t.last_check, 7);
    }
}

#[test]
fn manager_update_rebuilds_consistently() {
    let mut m = NftablesManager::new("192.168.1.2".to_string());
    let r = FirewallRule::new(
        "r1_tcp_dnat".to_string(),
        8080,
        "tcp".to_string(),
        "10.0.0.1:80".to_string(),
        ForwardType::DNAT,
        0,
    );
    m.add_forward_rule(r);
    let mut moved = m.list_rules().remove(0);
    moved.target_addr = "10.0.0.9:80".to_string();
    let plan = m.update_forward_rule(moved);
    assert_eq!(plan[0], vec!["flush", "table", "inet", "smart_forward"]);
    assert_eq!(plan[1].last().unwrap(), "10.0.0.9:80");
    assert_eq!(m.list_rules()[0].target_addr, "10.0.0.9:80");
}

#[test]
fn dns_failure_unhealthies_target() {
    let config = config_of(vec![rule_with("r3", 8443, &["tcp"], &["h:8443"])]);
    let mut m = CommonManager::new(config);
    m.initialize_rule_targets(0, &vec![Some(ep("1.2.3.4", 8443))], 0);
    let changed = m.apply_dns_results(&vec![("h:8443".to_string(), None)], 1);
    assert!(!changed, "a failed lookup moves no endpoint");
    let (_, t) = m
        .snapshot_targets()
        .into_iter()
        .find(|(k, _)| k == "h:8443")
        .expect("tracked");
    assert!(!t.healthy);
    assert_eq!(t.fail_count, 1);
    assert_eq!(t.resolved.ip, "1.2.3.4", "stale endpoint kept");
}

#[test]
fn udp_session_at_ttl_boundary_survives() {
    let mut table = SessionTable::new();
    table.process_datagram(&ep("192.0.2.50", 40000), &ep("192.0.2.9", 53), 100);
    table.gc(160);
    assert_eq!(table.len(), 1, "idle exactly the TTL is not yet evicted");
    table.gc(161);
    assert_eq!(table.len(), 0);
}

#[test]
fn host_header_is_case_insensitive() {
    let (_, _, host) =
        parse_http_request("GET /a HTTP/1.1\r\nHOST:  example.org \r\n\r\n").expect("parses");
    assert_eq!(host, "example.org");
}

#[test]
fn host_header_keeps_port() {
    let (_, path, host) =
        parse_http_request("GET /foo HTTP/1.1\r\nHost: example.com:8080\r\n\r\n").expect("parses");
    assert_eq!(host, "example.com:8080");
    assert_eq!(build_redirect_url(&host, &path), "https://example.com:8080/foo");
}

#[test]
fn ip_detection_ignores_brackets_after_the_address() {
    // only the token before the first colon counts as the address part
    assert_eq!(NftablesManager::detect_ip_version("a:b["), "ip");
    assert_eq!(NftablesManager::detect_ip_version("[::1]:80"), "ip6");
}

#[test]
fn pfctl_lowercases_the_protocol() {
    let m = PfctlManager::new();
    let r = FirewallRule::new(
        "r1_tcp_dnat".to_string(),
        8080,
        "TCP".to_string(),
        "10.0.0.1:80".to_string(),
        ForwardType::DNAT,
        0,
    );
    assert_eq!(
        m.generate_nat_rule(&r),
        "rdr pass on lo0 proto tcp from any to any port 8080 -> 10.0.0.1 port 80"
    );
}

#[test]
fn pfctl_anchor_plans() {
    let m = PfctlManager::new();
    assert_eq!(m.anchor_path("r1_tcp_dnat"), "smart_forward/r1_tcp_dnat");
    assert_eq!(
        m.load_anchor_args("r1_tcp_dnat", "/tmp/rule.conf"),
        vec!["-a", "smart_forward/r1_tcp_dnat", "-f", "/tmp/rule.conf"]
    );
    assert_eq!(
        m.remove_commands("r1_tcp_dnat"),
        vec![vec!["-a", "smart_forward/r1_tcp_dnat", "-F", "nat"]]
    );
    assert_eq!(m.clear_commands(), vec![vec!["-a", "smart_forward", "-F", "all"]]);
}

#[test]
fn iptables_brackets_ipv6_rewrite() {
    let m = IptablesManager::new("0.0.0.0".to_string());
    let r = FirewallRule::new(
        "r1_tcp_dnat".to_string(),
        443,
        "tcp".to_string(),
        "2001:db8::1".to_string(),
        ForwardType::DNAT,
        0,
    );
    let args = m.generate_dnat_args(&r);
    assert_eq!(args.last().unwrap(), "[2001:db8::1]:443");
}

#[test]
fn iptables_namespace_lifecycle_commands() {
    let m = IptablesManager::new("192.168.1.2".to_string());
    let create = m.create_commands();
    assert_eq!(
        create,
        vec![
            vec!["-t", "nat", "-N", "SMART_FORWARD_PREROUTING"],
            vec!["-t", "nat", "-N", "SMART_FORWARD_POSTROUTING"],
            vec!["-t", "nat", "-I", "PREROUTING", "1", "-j", "SMART_FORWARD_PREROUTING"],
            vec!["-t", "nat", "-I", "POSTROUTING", "1", "-j", "SMART_FORWARD_POSTROUTING"],
        ]
    );
    let clear = m.clear_commands();
    assert_eq!(clear.len(), 6);
    assert_eq!(clear[0], vec!["-t", "nat", "-F", "SMART_FORWARD_PREROUTING"]);
    assert_eq!(clear[2], vec!["-t", "nat", "-D", "PREROUTING", "-j", "SMART_FORWARD_PREROUTING"]);
    assert_eq!(clear[4], vec!["-t", "nat", "-X", "SMART_FORWARD_PREROUTING"]);
}

#[test]
fn iptables_rebuild_flushes_then_replays() {
    let mut m = IptablesManager::new("192.168.1.2".to_string());
    let r = FirewallRule::new(
        "r1_tcp_dnat".to_string(),
        8080,
        "tcp".to_string(),
        "10.0.0.1:80".to_string(),
        ForwardType::DNAT,
        0,
    );
    let dnat_args = m.generate_dnat_args(&r);
    m.add_forward_rule(r);
    let plan = m.rebuild_commands();
    assert_eq!(plan.len(), 3);
    assert_eq!(plan[0], vec!["-t", "nat", "-F", "SMART_FORWARD_PREROUTING"]);
    assert_eq!(plan[1], vec!["-t", "nat", "-F", "SMART_FORWARD_POSTROUTING"]);
    assert_eq!(plan[2], dnat_args);
}
