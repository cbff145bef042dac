use easytier_bridge::api;
use easytier_bridge::config::{
    is_private_ipv4_addr, is_private_network, sanitize_config, Cidr, Flags, IpAddress,
    NetworkConfig, PortForward, ProxyCidr, SocketAddress, VpnPortal,
};
use easytier_bridge::errors::{
    get_error_msg, get_latest_error_msg, set_err_msg_ptr, set_error_msg, ErrorMessage, OutText,
};
use easytier_bridge::infos::{
    collect_network_infos, combine_running_infos, get_running_info, running_info, InstanceInfo,
};
use easytier_bridge::instances::{has_name, InstanceTable};
use easytier_bridge::session::{
    init_logger, parse_config, retain_network_instance, run_network_instance, set_tun_fd,
    status_code, stop_network_instance, Bridge, LogSettings, RetainEvent, RunEvent, Step,
    StopEvent, TunEvent,
};
use easytier_bridge::watch::{
    is_over_since, is_session_over, register_running_info_callback, register_stop_callback,
    InfoWatch, StopWatch, WatchAction,
};
use serde_json::Value;

fn v4(a: u8, b: u8, c: u8, d: u8) -> SocketAddress {
    SocketAddress { ip: IpAddress::V4([a, b, c, d]), port: 11010 }
}

fn proxy(a: u8, b: u8, c: u8, d: u8, network_length: u8) -> ProxyCidr {
    ProxyCidr {
        cidr: Cidr { first_address: [a, b, c, d], network_length },
        mapped_cidr: None,
    }
}

fn open_config(name: &str) -> NetworkConfig {
    NetworkConfig {
        inst_name: name.to_string(),
        flags: Flags {
            enable_exit_node: true,
            proxy_forward_by_system: true,
            accept_dns: true,
            enable_ipv6: true,
            relay_all_peer_rpc: true,
            p2p_only: true,
        },
        exit_nodes: vec![IpAddress::V4([10, 0, 0, 1]), IpAddress::V6([1, 0, 0, 0, 0, 0, 0, 1])],
        routes: Some(vec![Cidr { first_address: [0, 0, 0, 0], network_length: 0 }]),
        socks5_portal: Some("socks5://0.0.0.0:1080".to_string()),
        port_forwards: vec![PortForward {
            bind_addr: v4(0, 0, 0, 0),
            dst_addr: v4(10, 1, 1, 1),
            proto: "tcp".to_string(),
        }],
        proxy_cidrs: vec![
            proxy(192, 168, 1, 0, 24),
            proxy(8, 8, 8, 0, 24),
            ProxyCidr {
                cidr: Cidr { first_address: [10, 1, 0, 0], network_length: 16 },
                mapped_cidr: Some(Cidr { first_address: [10, 2, 0, 0], network_length: 16 }),
            },
            proxy(172, 32, 0, 0, 16),
        ],
        vpn_portal: Some(VpnPortal {
            client_cidr: Cidr { first_address: [10, 14, 14, 0], network_length: 24 },
            wireguard_listen: v4(0, 0, 0, 0),
        }),
    }
}

fn done<A>(step: Step<A, Result<(), String>>) -> Result<(), String> {
    match step {
        Step::Done(outcome) => outcome,
        Step::Perform(_) => panic!("the operation goes on"),
    }
}

fn perform<A, R>(step: Step<A, R>) -> A {
    match step {
        Step::Perform(a) => a,
        Step::Done(_) => panic!("the operation has ended"),
    }
}

fn launched(name: &str, id: u128) -> RunEvent {
    RunEvent::Launched { name: name.to_string(), result: Ok(id) }
}

fn names(all: &[&str]) -> Vec<String> {
    all.iter().map(|n| n.to_string()).collect()
}

fn is_text(out: &OutText, text: &str) -> bool {
    match out {
        OutText::Text(bytes) => &bytes[..] == text.as_bytes(),
        _ => false,
    }
}

#[test]
fn private_addresses_are_those_of_the_four_blocks() {
    for (octets, private) in [
        ([10, 0, 0, 0], true),
        ([10, 255, 255, 255], true),
        ([9, 255, 255, 255], false),
        ([11, 0, 0, 0], false),
        ([172, 15, 255, 255], false),
        ([172, 16, 0, 0], true),
        ([172, 31, 255, 255], true),
        ([172, 32, 0, 0], false),
        ([192, 167, 255, 255], false),
        ([192, 168, 0, 0], true),
        ([192, 168, 255, 255], true),
        ([192, 169, 0, 0], false),
        ([100, 63, 255, 255], false),
        ([100, 64, 0, 0], true),
        ([100, 127, 255, 255], true),
        ([100, 128, 0, 0], false),
        ([127, 0, 0, 1], false),
        ([169, 254, 0, 1], false),
        ([0, 0, 0, 0], false),
        ([8, 8, 8, 8], false),
    ] {
        assert_eq!(is_private_ipv4_addr(octets), private, "{:?}", octets);
    }
}

#[test]
fn private_networks_hold_private_addresses_only() {
    for (p, private) in [
        (proxy(10, 0, 0, 0, 8), true),
        (proxy(10, 0, 0, 0, 7), false),
        (proxy(10, 255, 255, 255, 32), true),
        (proxy(172, 16, 0, 0, 12), true),
        (proxy(172, 16, 0, 0, 11), false),
        (proxy(172, 31, 255, 0, 24), true),
        (proxy(192, 168, 0, 0, 16), true),
        (proxy(192, 168, 0, 0, 15), false),
        (proxy(192, 168, 0, 0, 13), false),
        (proxy(100, 64, 0, 0, 10), true),
        (proxy(100, 64, 0, 0, 9), false),
        (proxy(0, 0, 0, 0, 0), false),
        (proxy(255, 255, 255, 255, 0), false),
        (proxy(8, 8, 8, 8, 32), false),
        (proxy(10, 0, 0, 1, 33), true),
        (proxy(10, 255, 255, 0, 23), false),
    ] {
        assert_eq!(is_private_network(p.cidr), private, "{:?}", p.cidr);
    }
}

#[test]
fn a_network_with_a_public_address_is_dropped() {
    let mut cfg = open_config("home");
    let wide = proxy(10, 0, 0, 0, 7);
    let whole = proxy(10, 0, 0, 0, 8);
    let mixed = proxy(192, 168, 0, 0, 13);
    cfg.proxy_cidrs = vec![wide, whole, mixed];
    assert_eq!(sanitize_config(&mut cfg), vec![wide, mixed]);
    assert_eq!(cfg.proxy_cidrs, vec![whole]);
}

#[test]
fn the_policy_overrides_the_configuration() {
    let before = open_config("home");
    let mut cfg = before.clone();
    let dropped = sanitize_config(&mut cfg);
    let off = Flags {
        enable_exit_node: false,
        proxy_forward_by_system: false,
        accept_dns: false,
        enable_ipv6: false,
        relay_all_peer_rpc: false,
        p2p_only: false,
    };
    assert_eq!(cfg.inst_name, "home");
    assert_eq!(cfg.flags, off);
    assert!(cfg.exit_nodes.is_empty());
    assert_eq!(cfg.routes, None);
    assert_eq!(cfg.socks5_portal, None);
    assert!(cfg.port_forwards.is_empty());
    assert_eq!(cfg.proxy_cidrs, vec![before.proxy_cidrs[0], before.proxy_cidrs[2]]);
    assert_eq!(dropped, vec![before.proxy_cidrs[1], before.proxy_cidrs[3]]);
    let portal = cfg.vpn_portal.unwrap();
    assert_eq!(portal.client_cidr, before.vpn_portal.unwrap().client_cidr);
    assert_eq!(
        portal.wireguard_listen,
        SocketAddress { ip: IpAddress::V4([127, 0, 0, 1]), port: 0 }
    );
}

#[test]
fn the_policy_is_idempotent() {
    let mut once = open_config("home");
    sanitize_config(&mut once);
    let mut twice = once.clone();
    assert!(sanitize_config(&mut twice).is_empty());
    assert_eq!(once, twice);
}

#[test]
fn a_safe_configuration_stays_as_it_is() {
    let mut cfg = open_config("home");
    sanitize_config(&mut cfg);
    cfg.vpn_portal = None;
    let before = cfg.clone();
    sanitize_config(&mut cfg);
    assert_eq!(cfg, before);
}

#[test]
fn an_instance_is_started() {
    let mut bridge = Bridge::new();
    bridge.stop_requested = true;
    let mut dropped = vec![proxy(1, 1, 1, 0, 24)];
    let event = RunEvent::Parsed(Ok(open_config("home")));
    let launch = perform(run_network_instance(&mut bridge, event, &mut dropped));
    assert!(!bridge.stop_requested);
    assert!(bridge.instances.is_empty());
    assert_eq!(launch.config.inst_name, "home");
    assert!(!launch.config.flags.enable_exit_node);
    assert_eq!(launch.config.proxy_cidrs.len(), 2);
    assert_eq!(dropped, vec![proxy(8, 8, 8, 0, 24), proxy(172, 32, 0, 0, 16)]);
    assert_eq!(done(run_network_instance(&mut bridge, launched("home", 42), &mut dropped)), Ok(()));
    assert!(dropped.is_empty());
    assert!(bridge.instances.contains(&"home".to_string()));
    assert_eq!(bridge.instances.get_instance_id(), Some(42));
    assert_eq!(bridge.error.text(), "");
}

#[test]
fn a_configuration_that_cannot_be_parsed_is_refused() {
    let mut bridge = Bridge::new();
    bridge.stop_requested = true;
    let event = RunEvent::Parsed(Err("line 3".to_string()));
    let outcome = done(run_network_instance(&mut bridge, event, &mut Vec::new()));
    assert_eq!(outcome, Err("failed to parse config: line 3".to_string()));
    assert_eq!(bridge.error.text(), "failed to parse config: line 3");
    assert!(bridge.stop_requested);
    assert_eq!(status_code(&outcome), -1);
    assert_eq!(status_code(&Ok(())), 0);
}

#[test]
fn a_running_name_is_refused() {
    let mut bridge = Bridge::new();
    done(run_network_instance(&mut bridge, launched("home", 1), &mut Vec::new())).unwrap();
    bridge.stop_requested = true;
    let mut dropped = Vec::new();
    let event = RunEvent::Parsed(Ok(open_config("home")));
    let outcome = done(run_network_instance(&mut bridge, event, &mut dropped));
    assert_eq!(dropped, vec![proxy(8, 8, 8, 0, 24), proxy(172, 32, 0, 0, 16)]);
    assert_eq!(outcome, Err("instance already exists".to_string()));
    assert_eq!(bridge.error.text(), "instance already exists");
    assert!(!bridge.stop_requested);
    assert_eq!(bridge.instances.get_instance_id(), Some(1));
}

#[test]
fn a_failed_launch_leaves_the_table_alone() {
    let mut bridge = Bridge::new();
    let event = RunEvent::Launched { name: "home".to_string(), result: Err("busy".to_string()) };
    assert_eq!(
        done(run_network_instance(&mut bridge, event, &mut Vec::new())),
        Err("failed to start instance: busy".to_string())
    );
    assert!(bridge.instances.is_empty());
    assert_eq!(bridge.error.text(), "failed to start instance: busy");
}

#[test]
fn a_stop_ends_all_instances() {
    let mut bridge = Bridge::new();
    done(run_network_instance(&mut bridge, launched("a", 1), &mut Vec::new())).unwrap();
    done(run_network_instance(&mut bridge, launched("b", 2), &mut Vec::new())).unwrap();
    assert!(!is_session_over(&bridge));
    assert!(perform(stop_network_instance(&mut bridge, StopEvent::Requested)).is_empty());
    assert!(bridge.stop_requested && is_session_over(&bridge));
    assert!(!bridge.instances.is_empty());
    assert_eq!(
        done(stop_network_instance(&mut bridge, StopEvent::Ended(Err("x".to_string())))),
        Err("failed to stop instances: x".to_string())
    );
    assert!(bridge.stop_requested && !bridge.instances.is_empty());
    assert_eq!(done(stop_network_instance(&mut bridge, StopEvent::Ended(Ok(())))), Ok(()));
    assert!(bridge.instances.is_empty());
    assert_eq!(
        done(set_tun_fd(&mut bridge, 5, TunEvent::Requested)),
        Err("no running instance".to_string())
    );
    perform(run_network_instance(&mut bridge, RunEvent::Parsed(Ok(open_config("a"))), &mut Vec::new()));
}

#[test]
fn the_tunnel_device_goes_to_the_instance() {
    let mut bridge = Bridge::new();
    done(run_network_instance(&mut bridge, launched("home", 99), &mut Vec::new())).unwrap();
    let request = perform(set_tun_fd(&mut bridge, 17, TunEvent::Requested));
    assert_eq!((request.id, request.fd), (99, 17));
    assert_eq!(done(set_tun_fd(&mut bridge, 17, TunEvent::Applied(Ok(())))), Ok(()));
    assert_eq!(bridge.error.text(), "");
    assert_eq!(
        done(set_tun_fd(&mut bridge, 17, TunEvent::Applied(Err("gone".to_string())))),
        Err("failed to set tun fd: gone".to_string())
    );
    assert_eq!(bridge.error.text(), "failed to set tun fd: gone");
}

#[test]
fn named_instances_are_kept() {
    let mut bridge = Bridge::new();
    for (name, id) in [("a", 1), ("b", 2), ("c", 3)] {
        done(run_network_instance(&mut bridge, launched(name, id), &mut Vec::new())).unwrap();
    }
    let kept = names(&["c", "x", "a", "c"]);
    let ids = perform(retain_network_instance(&mut bridge, &kept, RetainEvent::Requested));
    assert_eq!(ids, vec![3, 1, 3]);
    assert!(bridge.instances.contains(&"b".to_string()));
    let failed = RetainEvent::Ended(Err("no".to_string()));
    assert_eq!(
        done(retain_network_instance(&mut bridge, &kept, failed)),
        Err("failed to retain instances: no".to_string())
    );
    assert!(bridge.instances.contains(&"b".to_string()));
    for _ in 0..2 {
        let ended = RetainEvent::Ended(Ok(()));
        assert_eq!(done(retain_network_instance(&mut bridge, &kept, ended)), Ok(()));
        assert!(!bridge.instances.contains(&"b".to_string()));
        assert_eq!(bridge.instances.ids(&names(&["a", "b", "c"])), vec![1, 3]);
    }
}

#[test]
fn keeping_no_instance_ends_all() {
    let mut bridge = Bridge::new();
    done(run_network_instance(&mut bridge, launched("a", 1), &mut Vec::new())).unwrap();
    let none = names(&[]);
    assert!(perform(retain_network_instance(&mut bridge, &none, RetainEvent::Requested)).is_empty());
    done(retain_network_instance(&mut bridge, &none, RetainEvent::Ended(Ok(())))).unwrap();
    assert!(bridge.instances.is_empty());
    assert!(!bridge.stop_requested);
}

#[test]
fn the_table_maps_names_to_ids() {
    let mut table = InstanceTable::new();
    assert!(table.is_empty());
    assert_eq!(table.get_instance_id(), None);
    table.insert("a".to_string(), 1);
    table.insert("b".to_string(), 2);
    table.insert("a".to_string(), 3);
    assert_eq!(table.ids(&names(&["b", "a", "c"])), vec![2, 3]);
    assert!(matches!(table.get_instance_id(), Some(2) | Some(3)));
    assert!(table.contains(&"a".to_string()) && !table.contains(&"c".to_string()));
    table.retain(&names(&["b"]));
    assert_eq!(table.get_instance_id(), Some(2));
    table.clear();
    assert!(table.is_empty());
    assert!(has_name(&names(&["x", "y"]), &"y".to_string()));
    assert!(!has_name(&names(&["x", "y"]), &"z".to_string()));
}

#[test]
fn parsing_is_reported() {
    let mut bridge = Bridge::new();
    assert_eq!(parse_config(&mut bridge, Ok(())), Ok(()));
    assert_eq!(bridge.error.text(), "");
    assert_eq!(
        parse_config(&mut bridge, Err("bad".to_string())),
        Err("failed to parse config: bad".to_string())
    );
    assert_eq!(bridge.error.text(), "failed to parse config: bad");
    assert_eq!(api::parse_config(&mut bridge, Ok(())), "ok");
    assert_eq!(
        api::parse_config(&mut bridge, Err("worse".to_string())),
        "failed to parse config: worse"
    );
}

#[test]
fn the_latest_error_is_what_was_set() {
    let mut error = ErrorMessage::new();
    assert!(matches!(get_latest_error_msg(&error, true), (0, OutText::Null)));
    assert!(matches!(get_error_msg(&error), OutText::Null));
    assert_eq!(api::get_latest_error_msg(&error), "");
    set_error_msg(&mut error, "a longer message first");
    set_error_msg(&mut error, "启动失败");
    let (code, out) = get_latest_error_msg(&error, true);
    assert_eq!(code, 0);
    assert!(is_text(&out, "启动失败"));
    assert!(is_text(&get_error_msg(&error), "启动失败"));
    assert_eq!(api::get_latest_error_msg(&error), "启动失败");
    assert!(matches!(get_latest_error_msg(&error, false), (-1, OutText::Untouched)));
}

#[test]
fn an_error_with_nul_is_no_c_string() {
    let mut error = ErrorMessage::new();
    set_error_msg(&mut error, "a\0b");
    assert!(matches!(get_latest_error_msg(&error, true), (0, OutText::Null)));
    assert!(matches!(get_error_msg(&error), OutText::Untouched));
    assert!(matches!(set_err_msg_ptr(true, "a\0b"), OutText::Untouched));
    assert!(is_text(&set_err_msg_ptr(true, "plain"), "plain"));
    assert!(is_text(&set_err_msg_ptr(true, ""), ""));
    assert!(matches!(set_err_msg_ptr(false, "plain"), OutText::Untouched));
}

#[test]
fn the_log_settings_are_recorded() {
    let text = |s: &str| Some(s.to_string());
    let mut log = LogSettings::new();
    assert_eq!((&log.path, &log.level, &log.subsystem), (&None, &None, &None));
    assert_eq!(init_logger(&mut log, text("/tmp/a"), text("info"), text("vpn.tunnel")), 0);
    assert_eq!(log.path, text("/tmp/a"));
    assert_eq!(log.level, text("info"));
    assert_eq!(log.subsystem, text("vpn.tunnel"));
    assert_eq!(init_logger(&mut log, None, text("debug"), None), 0);
    assert_eq!(log.path, text("/tmp/a"));
    assert_eq!(log.level, text("debug"));
    assert_eq!(log.subsystem, text("vpn.tunnel"));
    assert_eq!(init_logger(&mut log, None, None, None), 0);
    assert_eq!(log.level, text("debug"));
}

#[test]
fn running_infos_are_combined() {
    let text = |s: &str| Some(Value::String(s.to_string()));
    assert_eq!(combine_running_infos(vec![]), Value::Null);
    assert_eq!(combine_running_infos(vec![None]), Value::Null);
    assert_eq!(combine_running_infos(vec![text("a")]), Value::String("a".to_string()));
    assert_eq!(
        combine_running_infos(vec![text("a"), None, text("b")]),
        Value::Array(vec![text("a").unwrap(), text("b").unwrap()])
    );
    assert_eq!(combine_running_infos(vec![None, None]), Value::Array(vec![]));
}

#[test]
fn running_infos_are_written() {
    let mut bridge = Bridge::new();
    let info: Value = serde_json::from_str(r#"{"name":"a","peers":[1,2]}"#).unwrap();
    assert_eq!(running_info(&mut bridge, Ok(vec![])), Ok("null".to_string()));
    assert_eq!(
        running_info(&mut bridge, Ok(vec![Some(info.clone())])),
        Ok(r#"{"name":"a","peers":[1,2]}"#.to_string())
    );
    assert_eq!(
        running_info(&mut bridge, Ok(vec![Some(info), Some(Value::Bool(true))])),
        Ok(r#"[{"name":"a","peers":[1,2]},true]"#.to_string())
    );
    assert_eq!(bridge.error.text(), "");
    assert_eq!(
        running_info(&mut bridge, Err("lost".to_string())),
        Err("failed to collect running info: lost".to_string())
    );
    assert_eq!(bridge.error.text(), "failed to collect running info: lost");
}

#[test]
fn a_request_for_running_infos_is_answered() {
    let mut bridge = Bridge::new();
    let reply = get_running_info(&mut bridge, false, Err("lost".to_string()));
    assert!(matches!(reply.json, OutText::Untouched));
    assert_eq!((reply.code, reply.error), (-1, None));
    assert_eq!(bridge.error.text(), "");
    let text = Value::String("a\0b".to_string());
    let reply = get_running_info(&mut bridge, true, Ok(vec![Some(text)]));
    assert!(is_text(&reply.json, "\"a\\u0000b\""));
    assert_eq!((reply.code, reply.error), (0, None));
    let reply = get_running_info(&mut bridge, true, Err("lost".to_string()));
    assert!(matches!(reply.json, OutText::Null));
    assert_eq!(reply.code, -1);
    assert_eq!(reply.error.as_deref(), Some("failed to collect running info: lost"));
    assert_eq!(bridge.error.text(), "failed to collect running info: lost");
}

fn info(name: Option<&str>, value: Result<&str, &str>) -> InstanceInfo {
    InstanceInfo {
        name: name.map(|n| n.to_string()),
        value: value.map(|v| v.to_string()).map_err(|e| e.to_string()),
    }
}

#[test]
fn network_infos_are_reported_as_pairs() {
    let mut bridge = Bridge::new();
    let all = || vec![info(None, Err("never")), info(Some("a"), Ok("1")), info(Some("b"), Ok("2"))];
    let reply = collect_network_infos(&mut bridge, Ok(all()), 8);
    assert_eq!(reply.code, 2);
    let pairs: Vec<(&str, &str)> =
        reply.pairs.iter().map(|p| (p.key.as_str(), p.value.as_str())).collect();
    assert_eq!(pairs, vec![("a", "1"), ("b", "2")]);
    let reply = collect_network_infos(&mut bridge, Ok(all()), 1);
    assert_eq!((reply.code, reply.pairs.len()), (1, 1));
    assert_eq!(bridge.error.text(), "");
}

#[test]
fn a_report_ends_at_the_first_state_that_cannot_be_written() {
    let mut bridge = Bridge::new();
    let all = || vec![info(Some("a"), Ok("1")), info(Some("b"), Err("nan")), info(Some("c"), Ok("3"))];
    let reply = collect_network_infos(&mut bridge, Ok(all()), 3);
    assert_eq!((reply.code, reply.pairs.len()), (-1, 1));
    assert_eq!(bridge.error.text(), "failed to serialize instance info: nan");
    let mut bridge = Bridge::new();
    let reply = collect_network_infos(&mut bridge, Ok(all()), 1);
    assert_eq!((reply.code, reply.pairs.len()), (1, 1));
    assert_eq!(bridge.error.text(), "");
}

#[test]
fn collecting_may_fail() {
    let mut bridge = Bridge::new();
    let reply = collect_network_infos(&mut bridge, Err("lost".to_string()), 0);
    assert_eq!((reply.code, reply.pairs.len()), (0, 0));
    assert_eq!(bridge.error.text(), "");
    let reply = collect_network_infos(&mut bridge, Err("lost".to_string()), 4);
    assert_eq!((reply.code, reply.pairs.len()), (-1, 0));
    assert_eq!(bridge.error.text(), "failed to collect network infos: lost");
    assert_eq!(api::collect_network_infos(Err("lost".to_string())), "{}");
    assert_eq!(api::collect_network_infos(Ok("[1]".to_string())), "[1]");
}

#[test]
fn the_user_interface_gets_yes_or_no() {
    let mut bridge = Bridge::new();
    assert!(matches!(
        api::run_network_instance(&mut bridge, RunEvent::Parsed(Err("x".to_string())), &mut Vec::new()),
        Step::Done(false)
    ));
    let launch =
        perform(api::run_network_instance(&mut bridge, RunEvent::Parsed(Ok(open_config("home"))), &mut Vec::new()));
    assert_eq!(launch.config.inst_name, "home");
    assert!(matches!(
        api::run_network_instance(&mut bridge, launched("home", 6), &mut Vec::new()),
        Step::Done(true)
    ));
    assert_eq!(perform(api::set_tun_fd(&mut bridge, 3, TunEvent::Requested)).id, 6);
    assert!(matches!(
        api::set_tun_fd(&mut bridge, 3, TunEvent::Applied(Ok(()))),
        Step::Done(true)
    ));
    assert!(perform(api::stop_network_instance(&mut bridge, StopEvent::Requested)).is_empty());
    assert!(matches!(
        api::stop_network_instance(&mut bridge, StopEvent::Ended(Ok(()))),
        Step::Done(true)
    ));
    assert!(matches!(
        api::set_tun_fd(&mut bridge, 3, TunEvent::Requested),
        Step::Done(false)
    ));
    assert_eq!(api::get_latest_error_msg(&bridge.error), "no running instance");
}

fn running(names: &[&str]) -> Bridge {
    let mut bridge = Bridge::new();
    for name in names {
        done(run_network_instance(&mut bridge, launched(name, 1), &mut Vec::new())).unwrap();
    }
    bridge
}

fn start(bridge: &mut Bridge, name: &str) {
    let event = RunEvent::Parsed(Ok(open_config(name)));
    perform(run_network_instance(bridge, event, &mut Vec::new()));
    done(run_network_instance(bridge, launched(name, 2), &mut Vec::new())).unwrap();
}

fn stop(bridge: &mut Bridge) {
    perform(stop_network_instance(bridge, StopEvent::Requested));
    done(stop_network_instance(bridge, StopEvent::Ended(Ok(())))).unwrap();
}

#[test]
fn the_stop_callback_fires_once() {
    let mut bridge = running(&["a"]);
    assert!(matches!(register_stop_callback(&bridge, false), (0, None)));
    let (code, watch) = register_stop_callback(&bridge, true);
    let mut watch: StopWatch = watch.unwrap();
    assert_eq!(code, 0);
    assert_eq!(watch, StopWatch::Armed { seen: 0 });
    for _ in 0..3 {
        assert_eq!(watch.step(&bridge), WatchAction::Sleep(500));
    }
    stop(&mut bridge);
    assert_eq!(watch.step(&bridge), WatchAction::Fire);
    assert_eq!(watch.step(&bridge), WatchAction::End);
    start(&mut bridge, "a");
    stop(&mut bridge);
    assert_eq!(watch.step(&bridge), WatchAction::End);
}

#[test]
fn the_stop_callback_fires_where_nothing_runs() {
    let bridge = Bridge::new();
    let mut watch = register_stop_callback(&bridge, true).1.unwrap();
    assert_eq!(watch.step(&bridge), WatchAction::Sleep(500));
    assert_eq!(watch.step(&bridge), WatchAction::Fire);
    assert_eq!(watch.step(&bridge), WatchAction::End);
}

#[test]
fn a_stop_is_reported_though_a_start_follows_at_once() {
    let mut bridge = running(&["a"]);
    let mut watch = register_stop_callback(&bridge, true).1.unwrap();
    assert_eq!(watch.step(&bridge), WatchAction::Sleep(500));
    assert_eq!(watch.step(&bridge), WatchAction::Sleep(500));
    stop(&mut bridge);
    start(&mut bridge, "a");
    assert!(!is_session_over(&bridge));
    assert_eq!(watch.step(&bridge), WatchAction::Fire);
    assert_eq!(watch.step(&bridge), WatchAction::End);

    let mut again = register_stop_callback(&bridge, true).1.unwrap();
    assert_eq!(again.step(&bridge), WatchAction::Sleep(500));
    assert_eq!(again.step(&bridge), WatchAction::Sleep(500));
}

#[test]
fn the_end_of_the_last_instance_counts_as_a_stop() {
    let mut bridge = running(&["a", "b"]);
    let before = bridge.stops;
    let kept = |bridge: &mut Bridge, all: &[&str]| {
        done(retain_network_instance(bridge, &names(all), RetainEvent::Ended(Ok(())))).unwrap()
    };
    kept(&mut bridge, &["a"]);
    assert!(!is_over_since(&bridge, before));
    kept(&mut bridge, &["c"]);
    start(&mut bridge, "a");
    assert!(!is_session_over(&bridge));
    assert!(is_over_since(&bridge, before));
    let between = bridge.stops;
    kept(&mut bridge, &[]);
    start(&mut bridge, "a");
    assert!(is_over_since(&bridge, between));
    let last = bridge.stops;
    done(stop_network_instance(&mut bridge, StopEvent::Ended(Ok(())))).unwrap();
    start(&mut bridge, "a");
    assert!(is_over_since(&bridge, last));
}

#[test]
fn stops_are_counted_as_far_as_that_goes() {
    let mut bridge = running(&["a"]);
    perform(stop_network_instance(&mut bridge, StopEvent::Requested));
    assert_eq!(bridge.stops, 1);
    let failed = StopEvent::Ended(Err("busy".to_string()));
    assert!(done(stop_network_instance(&mut bridge, failed)).is_err());
    assert_eq!(bridge.stops, 1);
    bridge.stops = u64::MAX;
    perform(stop_network_instance(&mut bridge, StopEvent::Requested));
    assert_eq!(bridge.stops, u64::MAX);
}

#[test]
fn the_running_info_callback_keeps_its_schedule() {
    assert!(matches!(register_running_info_callback(false), (0, None)));
    let (code, watch) = register_running_info_callback(true);
    let mut watch: InfoWatch = watch.unwrap();
    assert_eq!(code, 0);
    let overs = [true, true, true, false, true, false, false, true, false];
    let actions: Vec<WatchAction> = overs.iter().map(|o| watch.step(*o)).collect();
    assert_eq!(
        actions,
        vec![
            WatchAction::Sleep(2000),
            WatchAction::Fire,
            WatchAction::Sleep(30000),
            WatchAction::Fire,
            WatchAction::Sleep(30000),
            WatchAction::Fire,
            WatchAction::Sleep(30000),
            WatchAction::End,
            WatchAction::End,
        ]
    );
}
