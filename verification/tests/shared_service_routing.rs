use coast_daemon::routing::{
    allocate_alias_ip, build_proxy_setup_script, build_routing_plan, dedupe_container_ports,
    resolve_docker0_cidr_output, Ipv4Addr, SharedServiceConfig, SharedServicePort,
    SharedServiceRoute, SharedServiceRoutingPlan,
};
use coast_daemon::shell::shell_quote;

#[test]
fn test_resolve_docker0_cidr_output_parses_ip_and_prefix() {
    let output = "6: docker0    inet 172.17.0.1/16 brd 172.17.255.255 scope global docker0";
    let (ip, prefix) = resolve_docker0_cidr_output(output).unwrap();

    assert_eq!(ip, Ipv4Addr::new(172, 17, 0, 1));
    assert_eq!(prefix, 16);
}

#[test]
fn test_allocate_alias_ip_uses_high_addresses() {
    let first = allocate_alias_ip(Ipv4Addr::new(172, 17, 0, 1), 16, 0).unwrap();
    let second = allocate_alias_ip(Ipv4Addr::new(172, 17, 0, 1), 16, 1).unwrap();

    assert_eq!(first, Ipv4Addr::new(172, 17, 255, 254));
    assert_eq!(second, Ipv4Addr::new(172, 17, 255, 253));
}

#[test]
fn test_build_routing_plan_is_deterministic_by_service_name() {
    let shared_services = vec![
        SharedServiceConfig { name: "redis-db".to_string(), ports: vec![SharedServicePort::same(6379)] },
        SharedServiceConfig { name: "db".to_string(), ports: vec![SharedServicePort::same(5432)] },
    ];
    let targets = vec![
        ("db".to_string(), "shared-db".to_string()),
        ("redis-db".to_string(), "shared-redis".to_string()),
    ];

    let plan = build_routing_plan(&shared_services, &targets, Ipv4Addr::new(172, 17, 0, 1), 16).unwrap();

    assert_eq!(plan.routes[0].service_name, "db");
    assert_eq!(plan.routes[0].alias_ip, Ipv4Addr::new(172, 17, 255, 254));
    assert_eq!(plan.routes[1].service_name, "redis-db");
    assert_eq!(plan.routes[1].alias_ip, Ipv4Addr::new(172, 17, 255, 253));
}

#[test]
fn test_build_proxy_setup_script_binds_alias_ips() {
    let plan = SharedServiceRoutingPlan {
        docker0_prefix_len: 16,
        routes: vec![SharedServiceRoute {
            service_name: "postgis-db".to_string(),
            alias_ip: Ipv4Addr::new(172, 17, 255, 254),
            target_container: "yc-shared-services-postgis-db".to_string(),
            ports: vec![SharedServicePort::new(5433, 5432)],
        }],
    };

    let script = build_proxy_setup_script(&plan);

    assert!(script.contains("command -v socat"));
    assert!(script.contains("apk add --no-cache socat"));
    assert!(script.contains("ip addr add '172.17.255.254/16' dev docker0"));
    assert!(script.contains("TCP-LISTEN:5432,bind=172.17.255.254,fork,reuseaddr"));
    assert!(script.contains("TCP:yc-shared-services-postgis-db:5432"));
}

#[test]
fn test_dedupe_container_ports_keeps_first_mapping_for_each_container_port() {
    let deduped = dedupe_container_ports(&vec![
        SharedServicePort::new(5433, 5432),
        SharedServicePort::new(6433, 5432),
        SharedServicePort::same(6379),
    ]);

    assert_eq!(deduped, vec![SharedServicePort::new(5433, 5432), SharedServicePort::same(6379)]);
}

#[test]
fn routing_errors_and_edges() {
    assert!(resolve_docker0_cidr_output("").is_err());
    assert!(resolve_docker0_cidr_output("docker0 inet 300.1.1.1/16").is_err());
    assert!(resolve_docker0_cidr_output("docker0 inet 10.0.0.1/40").is_err());
    assert!(allocate_alias_ip(Ipv4Addr::new(10, 0, 0, 1), 30, 5).is_err());
    assert_eq!(allocate_alias_ip(Ipv4Addr::new(10, 0, 0, 1), 24, 0).unwrap(), Ipv4Addr::new(10, 0, 0, 254));
    let missing = build_routing_plan(
        &vec![SharedServiceConfig { name: "db".to_string(), ports: vec![SharedServicePort::same(5432)] }],
        &vec![],
        Ipv4Addr::new(172, 17, 0, 1),
        16,
    );
    assert!(missing.is_err());
    assert_eq!(Ipv4Addr::new(172, 17, 255, 254).text(), "172.17.255.254");
    assert_eq!(shell_quote("it's"), "'it'\\''s'");
}

#[test]
fn routing_plan_without_room_fails_and_order_does_not_matter() {
    let db = || SharedServiceConfig { name: "db".to_string(), ports: vec![SharedServicePort::same(5432)] };
    let cache = || SharedServiceConfig { name: "cache".to_string(), ports: vec![SharedServicePort::same(6379)] };
    let targets = vec![
        ("db".to_string(), "shared-db".to_string()),
        ("cache".to_string(), "shared-cache".to_string()),
    ];
    let no_room = build_routing_plan(&vec![db()], &targets, Ipv4Addr::new(10, 0, 0, 1), 31);
    match no_room {
        Err(e) => assert!(e.message().contains("does not have enough room")),
        Ok(_) => panic!("a /31 subnet has no room for an alias"),
    }
    let a = build_routing_plan(&vec![db(), cache()], &targets, Ipv4Addr::new(172, 17, 0, 1), 16).unwrap();
    let b = build_routing_plan(&vec![cache(), db()], &targets, Ipv4Addr::new(172, 17, 0, 1), 16).unwrap();
    let view = |p: &SharedServiceRoutingPlan| -> Vec<(String, Ipv4Addr, String)> {
        p.routes.iter().map(|r| (r.service_name.clone(), r.alias_ip, r.target_container.clone())).collect()
    };
    assert_eq!(view(&a), view(&b));
    assert_eq!(a.routes[0].service_name, "cache");
}
