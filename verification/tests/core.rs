//! Parsing, configuration and selection behaviour.

use smart_forward::config::{Config, ConfigError, DnsConfig, ForwardRule, LoggingConfig, NetworkConfig};
use smart_forward::endpoint::{parse_endpoint, Endpoint};
use smart_forward::resolve::{classify_target, first_txt_endpoint, pick_answer_address, DnsAnswer,
    ResolveCache, ResolveError, TargetClass};
use smart_forward::selection::{select_best_target_with_stickiness, update_rule_selection, RuleInfo};
use smart_forward::target::TargetInfo;
use smart_forward::text::{parse_u16, split_on_char, str_count_char, u64_to_string};

fn ep(ip: &str, port: u16) -> Endpoint {
    Endpoint { ip: ip.to_string(), port }
}

fn target(original: &str, ip: &str, port: u16, healthy: bool) -> TargetInfo {
    let mut t = TargetInfo::new(original.to_string(), ep(ip, port), 0);
    if !healthy {
        t.record_failure(0);
    }
    t
}

fn rule(name: &str, port: u16, targets: &[&str]) -> ForwardRule {
    ForwardRule {
        name: name.to_string(),
        listen_port: port,
        protocol: None,
        protocols: None,
        buffer_size: None,
        targets: targets.iter().map(|t| t.to_string()).collect(),
        dynamic_update: None,
    }
}

fn config_of(rules: Vec<ForwardRule>) -> Config {
    Config {
        logging: LoggingConfig { level: "info".to_string(), format: "text".to_string() },
        network: NetworkConfig { listen_addrs: vec!["192.168.1.2".to_string()] },
        buffer_size: None,
        rules,
        dynamic_update: None,
        dns: None,
    }
}

#[test]
fn decimal_rendering() {
    assert_eq!(u64_to_string(0), "0");
    assert_eq!(u64_to_string(65535), "65535");
    assert_eq!(u64_to_string(1234567890), "1234567890");
}

#[test]
fn port_parsing() {
    assert_eq!(parse_u16("443"), Some(443));
    assert_eq!(parse_u16("65535"), Some(65535));
    assert_eq!(parse_u16("65536"), None);
    assert_eq!(parse_u16(""), None);
    assert_eq!(parse_u16("4a3"), None);
}

#[test]
fn splitting() {
    let parts = split_on_char("10.0.0.1", '.');
    assert_eq!(parts, vec!["10", "0", "0", "1"]);
    assert_eq!(split_on_char("abc", ':'), vec!["abc"]);
    assert_eq!(str_count_char("2001:db8::1", ':'), 3);
}

#[test]
fn endpoint_literals() {
    let e = parse_endpoint("10.0.0.1:8080").expect("v4 literal");
    assert_eq!(e.ip, "10.0.0.1");
    assert_eq!(e.port, 8080);
    let e6 = parse_endpoint("[2001:db8::1]:443").expect("v6 literal");
    assert_eq!(e6.ip, "2001:db8::1");
    assert_eq!(e6.port, 443);
    assert!(parse_endpoint("example.com:80").is_none());
    assert!(parse_endpoint("10.0.0.1").is_none());
    assert!(parse_endpoint("10.0.0.256:80").is_none());
    assert!(parse_endpoint("[zz]:80").is_none());
}

#[test]
fn endpoint_rendering() {
    assert_eq!(ep("10.0.0.1", 80).to_addr_string(), "10.0.0.1:80");
    assert_eq!(ep("2001:db8::1", 443).to_addr_string(), "[2001:db8::1]:443");
}

#[test]
fn target_grammar() {
    match classify_target("10.0.0.1:53") {
        Ok(TargetClass::Literal(e)) => assert_eq!(e.port, 53),
        _ => panic!("expected literal"),
    }
    match classify_target("example.com:8443") {
        Ok(TargetClass::HostPort(h, p)) => {
            assert_eq!(h, "example.com");
            assert_eq!(p, 8443);
        },
        _ => panic!("expected host:port"),
    }
    match classify_target("example.com") {
        Ok(TargetClass::TxtHost(h)) => assert_eq!(h, "example.com"),
        _ => panic!("expected txt host"),
    }
    assert_eq!(
        classify_target("a:b:c").err(),
        Some(ResolveError::InvalidFormat)
    );
    assert_eq!(
        classify_target("example.com:99999").err(),
        Some(ResolveError::InvalidPort)
    );
}

#[test]
fn dns_answer_choice() {
    let answers = vec![
        DnsAnswer { ip: "2001:db8::1".to_string(), is_ipv4: false },
        DnsAnswer { ip: "1.2.3.4".to_string(), is_ipv4: true },
    ];
    let e = pick_answer_address(&answers, 8443).expect("answers exist");
    assert_eq!(e.ip, "1.2.3.4");
    assert_eq!(e.port, 8443);
    let only_v6 = vec![DnsAnswer { ip: "2001:db8::2".to_string(), is_ipv4: false }];
    assert_eq!(pick_answer_address(&only_v6, 80).unwrap().ip, "2001:db8::2");
    assert!(pick_answer_address(&Vec::new(), 80).is_none());
}

#[test]
fn txt_record_scan() {
    let txts = vec![
        "not an endpoint".to_string(),
        "\" 192.0.2.9:53 \"".to_string(),
        "198.51.100.7:53".to_string(),
    ];
    let e = first_txt_endpoint(&txts).expect("second record parses");
    assert_eq!(e.ip, "192.0.2.9");
    assert_eq!(e.port, 53);
    assert!(first_txt_endpoint(&vec!["nope".to_string()]).is_none());
}

#[test]
fn selection_prefers_first_healthy() {
    let targets = vec![
        target("10.0.0.1:8080", "10.0.0.1", 8080, true),
        target("10.0.0.2:8080", "10.0.0.2", 8080, true),
    ];
    let r = select_best_target_with_stickiness(&targets, None).expect("candidates exist");
    assert_eq!(r.resolved.ip, "10.0.0.1");
}

#[test]
fn selection_skips_unhealthy() {
    let targets = vec![
        target("10.0.0.1:8080", "10.0.0.1", 8080, false),
        target("10.0.0.2:8080", "10.0.0.2", 8080, true),
    ];
    let current = target("10.0.0.1:8080", "10.0.0.1", 8080, true);
    let r = select_best_target_with_stickiness(&targets, Some(&current)).expect("candidates");
    assert_eq!(r.resolved.ip, "10.0.0.2");
}

#[test]
fn selection_keeps_current_when_all_unhealthy() {
    let targets = vec![
        target("10.0.0.1:8080", "10.0.0.1", 8080, false),
        target("10.0.0.2:8080", "10.0.0.2", 8080, false),
    ];
    let current = target("10.0.0.2:8080", "10.0.0.2", 8080, true);
    let r = select_best_target_with_stickiness(&targets, Some(&current)).expect("kept");
    assert_eq!(r.resolved.ip, "10.0.0.2");
}

#[test]
fn selection_single_candidate_is_stable() {
    let targets = vec![target("10.0.0.9:70", "10.0.0.9", 70, true)];
    let other = target("10.0.0.1:70", "10.0.0.1", 70, true);
    let r = select_best_target_with_stickiness(&targets, Some(&other)).expect("one candidate");
    assert_eq!(r.resolved.ip, "10.0.0.9");
    let again = select_best_target_with_stickiness(&targets, Some(&r)).expect("same");
    assert_eq!(again.resolved.ip, "10.0.0.9");
}

#[test]
fn selection_falls_back_to_first_candidate() {
    let targets = vec![target("10.0.0.5:70", "10.0.0.5", 70, false)];
    let r = select_best_target_with_stickiness(&targets, None).expect("fallback");
    assert_eq!(r.resolved.ip, "10.0.0.5");
}

#[test]
fn health_accounting() {
    let mut t = target("10.0.0.1:80", "10.0.0.1", 80, true);
    assert!(t.healthy);
    assert_eq!(t.fail_count, 0);
    t.record_failure(5);
    assert!(!t.healthy);
    assert_eq!(t.fail_count, 1);
    assert_eq!(t.last_check, 5);
    t.record_failure(6);
    assert_eq!(t.fail_count, 2);
    t.record_success(7);
    assert!(t.healthy);
    assert_eq!(t.fail_count, 0);
}

#[test]
fn resolve_unchanged_is_noop() {
    let mut t = target("h:80", "1.2.3.4", 80, true);
    let changed = t.apply_resolve_success(ep("1.2.3.4", 80), 9);
    assert!(!changed);
    assert!(t.healthy);
    assert_eq!(t.resolved.ip, "1.2.3.4");
    let changed2 = t.apply_resolve_success(ep("5.6.7.8", 80), 10);
    assert!(changed2);
    assert_eq!(t.resolved.ip, "5.6.7.8");
}

#[test]
fn switch_event_fires_iff_endpoint_changes() {
    let mut info = RuleInfo {
        targets: Vec::new(),
        selected_target: Some(target("10.0.0.1:8080", "10.0.0.1", 8080, true)),
        last_update: 0,
    };
    // first candidate unhealthy: selection moves, event fires
    let updated = vec![
        target("10.0.0.1:8080", "10.0.0.1", 8080, false),
        target("10.0.0.2:8080", "10.0.0.2", 8080, true),
    ];
    let ev = update_rule_selection("r1", &mut info, updated, 1).expect("switch event");
    assert_eq!(ev.rule_name, "r1");
    assert_eq!(ev.old_endpoint.ip, "10.0.0.1");
    assert_eq!(ev.new_endpoint.ip, "10.0.0.2");
    // same selection again: no event
    let updated2 = vec![
        target("10.0.0.1:8080", "10.0.0.1", 8080, false),
        target("10.0.0.2:8080", "10.0.0.2", 8080, true),
    ];
    assert!(update_rule_selection("r1", &mut info, updated2, 2).is_none());
}

#[test]
fn config_validation_accepts_sane_rules() {
    let c = config_of(vec![rule("r1", 8080, &["10.0.0.1:80"]), rule("r2", 8443, &["h:443"])]);
    assert!(c.validate().is_ok());
}

#[test]
fn config_empty_targets_rejected() {
    let c = config_of(vec![rule("r1", 8080, &[])]);
    assert_eq!(c.validate().err(), Some(ConfigError::NoTargets { index: 0 }));
}

#[test]
fn config_error_variants() {
    let empty = config_of(Vec::new());
    assert_eq!(empty.validate().err(), Some(ConfigError::NoRules));

    let unnamed = config_of(vec![rule("", 8080, &["10.0.0.1:80"])]);
    assert_eq!(unnamed.validate().err(), Some(ConfigError::EmptyName { index: 0 }));

    let zero_port = config_of(vec![rule("r1", 0, &["10.0.0.1:80"])]);
    assert_eq!(zero_port.validate().err(), Some(ConfigError::ZeroPort { index: 0 }));

    let mut bad_proto = rule("r1", 8080, &["10.0.0.1:80"]);
    bad_proto.protocol = Some("icmp".to_string());
    assert_eq!(
        config_of(vec![bad_proto]).validate().err(),
        Some(ConfigError::BadProtocol { index: 0 })
    );

    let dup = config_of(vec![rule("r1", 80, &["a:1"]), rule("r1", 81, &["b:2"])]);
    assert_eq!(dup.validate().err(), Some(ConfigError::DuplicateName { index: 1 }));
}

#[test]
fn config_defaults() {
    let mut c = config_of(vec![rule("r1", 8080, &["10.0.0.1:80"])]);
    c.network.listen_addrs = Vec::new();
    c.apply_defaults();
    assert_eq!(c.buffer_size, Some(16384));
    assert_eq!(c.network.listen_addrs, vec!["0.0.0.0".to_string()]);
    let du = c.dynamic_update.expect("defaulted");
    assert_eq!(du.check_interval, Some(5));
    assert_eq!(du.connection_timeout, Some(3));
}

#[test]
fn config_getters() {
    let mut r = rule("r1", 9000, &["10.0.0.1:80"]);
    assert_eq!(r.get_protocols(), vec!["tcp".to_string(), "udp".to_string()]);
    r.protocol = Some("http".to_string());
    assert_eq!(r.get_protocols(), vec!["http".to_string()]);
    assert_eq!(r.get_protocol(), "http");
    r.protocols = Some(vec!["tcp".to_string(), "udp".to_string()]);
    assert_eq!(r.get_protocols(), vec!["tcp".to_string(), "udp".to_string()]);
    assert_eq!(r.get_effective_buffer_size(8192), 8192);
    r.buffer_size = Some(4096);
    assert_eq!(r.get_effective_buffer_size(8192), 4096);
    assert_eq!(r.get_listen_addr("192.168.1.2"), "192.168.1.2:9000");
    assert!(r.is_protocol_supported("udp"));
    assert!(!r.is_protocol_supported("sctp"));

    let c = config_of(vec![rule("r1", 1, &["a:1"])]);
    let dns: DnsConfig = c.get_dns_config();
    assert_eq!(dns.servers, vec!["223.5.5.5:53".to_string(), "223.6.6.6:53".to_string()]);
    assert_eq!(dns.timeout, Some(2));
    assert_eq!(dns.attempts, Some(2));
    let du = c.get_dynamic_update_config();
    assert_eq!(du.get_check_interval(), 5);
    assert_eq!(du.get_connection_timeout(), 3);
    assert!(!c.network.contains_wildcard());
}

#[test]
fn config_duplicate_protocol_rejected() {
    let mut r = rule("r1", 8080, &["10.0.0.1:80"]);
    r.protocols = Some(vec!["tcp".to_string(), "tcp".to_string()]);
    assert_eq!(
        config_of(vec![r]).validate().err(),
        Some(ConfigError::DuplicateProtocol { index: 0 })
    );
    let mut ok = rule("r1", 8080, &["10.0.0.1:80"]);
    ok.protocols = Some(vec!["tcp".to_string(), "udp".to_string(), "http".to_string()]);
    assert!(config_of(vec![ok]).validate().is_ok());
}

#[test]
fn ascii_lowercase_maps_letters_only() {
    assert_eq!(smart_forward::text::ascii_lowercase("TCP"), "tcp");
    assert_eq!(smart_forward::text::ascii_lowercase("uDp2-X"), "udp2-x");
    assert_eq!(smart_forward::text::ascii_lowercase(""), "");
}

#[test]
fn resolve_cache_hits_misses_and_replaces() {
    let mut c = ResolveCache::new();
    assert!(c.lookup("h:80", 1000).is_none());
    c.store("h:80", ep("1.2.3.4", 80), 1000);
    assert_eq!(c.lookup("h:80", 1200).unwrap().ip, "1.2.3.4");
    // a stale entry misses
    assert!(c.lookup("h:80", 1000 + 300).is_none());
    // a fresh store replaces the entry rather than accumulating a duplicate
    c.store("h:80", ep("5.6.7.8", 80), 1400);
    assert_eq!(c.entries.len(), 1);
    assert_eq!(c.lookup("h:80", 1500).unwrap().ip, "5.6.7.8");
}
