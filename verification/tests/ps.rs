use coast_daemon::ps::{
    enrich_compose_services, extract_services_with_ports, parse_compose_ps_output,
    remove_shared_services, service_from_fields, set_kind, ServiceStatus,
};
use coast_daemon::json::JsonField;
use coast_daemon::yaml::Yaml;

fn to_yaml(v: &serde_yaml::Value) -> Yaml {
    match v {
        serde_yaml::Value::Null => Yaml::Null,
        serde_yaml::Value::Bool(b) => Yaml::Bool(*b),
        serde_yaml::Value::Number(n) => Yaml::Number(n.to_string()),
        serde_yaml::Value::String(s) => Yaml::Str(s.clone()),
        serde_yaml::Value::Sequence(items) => Yaml::List(items.iter().map(to_yaml).collect()),
        serde_yaml::Value::Mapping(m) => {
            Yaml::Mapping(m.iter().map(|(k, v)| (to_yaml(k), to_yaml(v))).collect())
        }
        serde_yaml::Value::Tagged(t) => {
            Yaml::Tagged(t.tag.to_string(), Box::new(to_yaml(&t.value)))
        }
    }
}

/// The configuration text as YAML, `None` when it is not YAML.
fn parse_config(text: &str) -> Option<Yaml> {
    serde_yaml::from_str::<serde_yaml::Value>(text).ok().map(|v| to_yaml(&v))
}

fn svc(name: &str, status: &str, kind: Option<&str>) -> ServiceStatus {
    ServiceStatus {
        name: name.to_string(),
        status: status.to_string(),
        ports: String::new(),
        image: String::new(),
        kind: kind.map(|k| k.to_string()),
    }
}

fn yaml_with_ports(services: &[(&str, bool)]) -> String {
    let mut y = "services:\n".to_string();
    for (name, has_ports) in services {
        y.push_str(&format!("  {name}:\n    image: img\n"));
        if *has_ports {
            y.push_str("    ports:\n      - \"3000:3000\"\n");
        }
    }
    y
}

#[test]
fn test_parse_compose_ps_json_output() {
    let output = r#"
{"Service":"web","State":"running","Ports":"0.0.0.0:3000->3000/tcp"}
{"Service":"db","State":"running","Ports":"5432/tcp"}
"#;
    let services = parse_compose_ps_output(output).unwrap();
    assert_eq!(services.len(), 2);
    assert_eq!(services[0].name, "web");
    assert_eq!(services[0].status, "running");
    assert_eq!(services[0].ports, "0.0.0.0:3000->3000/tcp");
    assert!(services[0].kind.is_none());
    assert_eq!(services[1].name, "db");
    assert!(services[1].kind.is_none());
}

#[test]
fn test_kind_set_after_parsing() {
    let output = r#"{"Service":"web","State":"running"}"#;
    let mut services = parse_compose_ps_output(output).unwrap();
    set_kind(&mut services, "bare");
    assert_eq!(services[0].kind.as_deref(), Some("bare"));
}

#[test]
fn test_parse_compose_ps_empty_output() {
    let services = parse_compose_ps_output("").unwrap();
    assert!(services.is_empty());
}

#[test]
fn test_parse_compose_ps_invalid_json() {
    let services = parse_compose_ps_output("not json\nalso not json").unwrap();
    assert!(services.is_empty());
}

#[test]
fn ps_fields_fall_back() {
    let services = parse_compose_ps_output("{\"Name\":\"proj-web-1\",\"Status\":\"Up 2 minutes\",\"Image\":\"nginx\"}\n{\"Service\":5}\n[1,2]").unwrap();
    assert_eq!(services.len(), 3);
    assert_eq!(services[0].name, "proj-web-1");
    assert_eq!(services[0].status, "Up 2 minutes");
    assert_eq!(services[0].image, "nginx");
    assert_eq!(services[0].ports, "");
    assert_eq!(services[1].name, "unknown");
    assert_eq!(services[1].status, "unknown");
    assert_eq!(services[2].name, "unknown");
}

#[test]
fn test_enrich_keeps_running_compose_service() {
    let yaml = yaml_with_ports(&[("web", true)]);
    let mut services = vec![svc("web", "running", Some("compose"))];
    enrich_compose_services(&mut services, parse_config(&yaml).as_ref(), &vec![]);
    assert_eq!(services.len(), 1);
    assert_eq!(services[0].status, "running");
}

#[test]
fn test_enrich_filters_exited_no_port_service() {
    let yaml = yaml_with_ports(&[("web", true), ("migrate", false)]);
    let mut services = vec![svc("web", "running", Some("compose")), svc("migrate", "exited", Some("compose"))];
    enrich_compose_services(&mut services, parse_config(&yaml).as_ref(), &vec![]);
    assert_eq!(services.len(), 1);
    assert_eq!(services[0].name, "web");
}

#[test]
fn test_enrich_adds_down_for_missing_port_service() {
    let yaml = yaml_with_ports(&[("web", true), ("worker", true)]);
    let mut services = vec![svc("web", "running", Some("compose"))];
    enrich_compose_services(&mut services, parse_config(&yaml).as_ref(), &vec![]);
    assert_eq!(services.len(), 2);
    let down = services.iter().find(|s| s.name == "worker").unwrap();
    assert_eq!(down.status, "down");
}

#[test]
fn test_enrich_excludes_shared_from_down() {
    let yaml = yaml_with_ports(&[("web", true), ("redis", true)]);
    let mut services = vec![svc("web", "running", Some("compose"))];
    let shared = vec!["redis".to_string()];
    enrich_compose_services(&mut services, parse_config(&yaml).as_ref(), &shared);
    assert_eq!(services.len(), 1);
    assert_eq!(services[0].name, "web");
}

#[test]
fn services_with_ports_and_shared_removal() {
    let yaml = yaml_with_ports(&[("web", true), ("migrate", false), ("api", true)]);
    assert_eq!(extract_services_with_ports(parse_config(&yaml).as_ref()), vec!["web", "api"]);
    assert!(extract_services_with_ports(parse_config(": not yaml : [").as_ref()).is_empty());
    assert!(extract_services_with_ports(parse_config("other: 1").as_ref()).is_empty());
    let mut services = vec![svc("web", "running", None), svc("redis", "running", None), svc("bare", "exited", Some("bare"))];
    remove_shared_services(&mut services, &vec!["redis".to_string()]);
    let names: Vec<&str> = services.iter().map(|s| s.name.as_str()).collect();
    assert_eq!(names, vec!["web", "bare"]);
    let mut listing = vec![svc("job", "exited", Some("bare"))];
    enrich_compose_services(&mut listing, parse_config(&yaml).as_ref(), &vec![]);
    let names: Vec<&str> = listing.iter().map(|s| s.name.as_str()).collect();
    assert_eq!(names, vec!["job", "web", "api"]);
    assert_eq!(listing[1].kind.as_deref(), Some("compose"));
}

#[test]
fn ports_must_be_a_non_empty_list_under_a_string_key() {
    let text = "services:\n  a:\n    ports: []\n  b:\n    ports: \"80:80\"\n  c: !custom\n    ports:\n      - \"1:1\"\n  7:\n    ports:\n      - \"2:2\"\n  d:\n    image: x\n";
    assert_eq!(extract_services_with_ports(parse_config(text).as_ref()), vec!["c"]);
    assert!(extract_services_with_ports(None).is_empty());
    assert!(extract_services_with_ports(parse_config("services: 3").as_ref()).is_empty());
}

#[test]
fn enrich_without_config_drops_stopped_compose_services() {
    let mut services = vec![
        svc("web", "running", Some("compose")),
        svc("db", "exited", Some("compose")),
        svc("tool", "exited", None),
    ];
    enrich_compose_services(&mut services, None, &vec![]);
    let names: Vec<&str> = services.iter().map(|s| s.name.as_str()).collect();
    assert_eq!(names, vec!["web", "tool"]);
}

#[test]
fn service_fields_fall_back_to_name_and_status() {
    let text = |s: &str| JsonField::Text(s.to_string());
    let s = service_from_fields(JsonField::Missing, text("app-web-1"), JsonField::Missing, text("Up 3s"), JsonField::Other, text("nginx"));
    assert_eq!((s.name.as_str(), s.status.as_str(), s.ports.as_str(), s.image.as_str()), ("app-web-1", "Up 3s", "", "nginx"));
    assert_eq!(s.kind, None);
    let s = service_from_fields(JsonField::Other, text("n"), text("running"), text("Up"), text("80/tcp"), JsonField::Missing);
    assert_eq!((s.name.as_str(), s.status.as_str(), s.ports.as_str(), s.image.as_str()), ("unknown", "running", "80/tcp", ""));
    let s = service_from_fields(JsonField::Missing, JsonField::Missing, JsonField::Missing, JsonField::Missing, JsonField::Missing, JsonField::Missing);
    assert_eq!((s.name.as_str(), s.status.as_str()), ("unknown", "unknown"));
}
