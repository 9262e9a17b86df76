use coast_daemon::compose_rewrite::{
    rewrite_compose_yaml, strip_omitted_services_and_volumes, CoastfileCompose,
    ComposeRewriteConfig,
};
use coast_daemon::compose::rewrite_volume_with_rslave;
use coast_daemon::compose_rewrite::rslave_volume_entry;
use coast_daemon::yaml::Yaml;

fn to_yaml(v: &serde_yaml::Value) -> Yaml {
    match v {
        serde_yaml::Value::Null => Yaml::Null,
        serde_yaml::Value::Bool(b) => Yaml::Bool(*b),
        serde_yaml::Value::Number(n) => Yaml::Number(n.to_string()),
        serde_yaml::Value::String(s) => Yaml::Str(s.clone()),
        serde_yaml::Value::Sequence(items) => Yaml::List(items.iter().map(to_yaml).collect()),
        serde_yaml::Value::Mapping(m) => {
            Yaml::Mapping(m.iter().map(|(k, v)| (to_yaml(k), to_yaml(v))).collect())
        }
        serde_yaml::Value::Tagged(t) => {
            Yaml::Tagged(t.tag.to_string(), Box::new(to_yaml(&t.value)))
        }
    }
}

fn from_yaml(y: &Yaml) -> serde_yaml::Value {
    match y {
        Yaml::Null => serde_yaml::Value::Null,
        Yaml::Bool(b) => serde_yaml::Value::Bool(*b),
        Yaml::Number(n) => serde_yaml::from_str(n).unwrap(),
        Yaml::Str(s) => serde_yaml::Value::String(s.clone()),
        Yaml::List(items) => serde_yaml::Value::Sequence(items.iter().map(from_yaml).collect()),
        Yaml::Mapping(m) => {
            let mut out = serde_yaml::Mapping::new();
            for (k, v) in m {
                out.insert(from_yaml(k), from_yaml(v));
            }
            serde_yaml::Value::Mapping(out)
        }
        Yaml::Tagged(t, v) => serde_yaml::Value::Tagged(Box::new(serde_yaml::value::TaggedValue {
            tag: serde_yaml::value::Tag::new(t.clone()),
            value: from_yaml(v),
        })),
    }
}

fn rewrite(compose: &str, config: &ComposeRewriteConfig) -> Option<String> {
    let value: serde_yaml::Value = serde_yaml::from_str(compose).ok()?;
    let out = rewrite_compose_yaml(to_yaml(&value), config)?;
    serde_yaml::to_string(&from_yaml(&out)).ok()
}

fn base_config() -> ComposeRewriteConfig {
    ComposeRewriteConfig {
        shared_service_names: vec![],
        coastfile: None,
        per_instance_image_tags: vec![],
        has_volume_mounts: false,
        bridge_gateway_ip: None,
        secret_container_paths: vec![],
        hot_services: vec![],
        default_hot: false,
    }
}

fn parse_output(yaml_str: &str) -> serde_yaml::Value {
    serde_yaml::from_str(yaml_str).unwrap()
}

fn get_service_names(yaml: &serde_yaml::Value) -> Vec<String> {
    yaml.get("services")
        .and_then(|s| s.as_mapping())
        .map(|m| m.keys().filter_map(|k| k.as_str().map(String::from)).collect())
        .unwrap_or_default()
}

#[test]
fn test_removes_shared_service_and_its_volume() {
    let compose = r#"
services:
  web:
    image: nginx:latest
    depends_on:
      - postgres
  postgres:
    image: postgres:16
    volumes:
      - pgdata:/var/lib/postgresql/data
volumes:
  pgdata:
"#;
    let config = ComposeRewriteConfig {
        shared_service_names: vec!["postgres".to_string()],
        ..base_config()
    };
    let result = rewrite(compose, &config).unwrap();
    let yaml = parse_output(&result);

    let services = get_service_names(&yaml);
    assert!(services.contains(&"web".to_string()));
    assert!(!services.contains(&"postgres".to_string()));

    let volumes = yaml.get("volumes").and_then(|v| v.as_mapping());
    let has_pgdata = volumes
        .map(|m| m.contains_key(&serde_yaml::Value::String("pgdata".into())))
        .unwrap_or(false);
    assert!(!has_pgdata, "pgdata volume should be removed with its service");
}

#[test]
fn test_strips_depends_on_sequence_referencing_removed_service() {
    let compose = r#"
services:
  web:
    image: nginx
    depends_on:
      - redis
      - postgres
  redis:
    image: redis:7
  postgres:
    image: postgres:16
"#;
    let config = ComposeRewriteConfig {
        shared_service_names: vec!["postgres".to_string()],
        ..base_config()
    };
    let result = rewrite(compose, &config).unwrap();
    let yaml = parse_output(&result);

    let web_deps = yaml
        .get("services")
        .and_then(|s| s.get("web"))
        .and_then(|w| w.get("depends_on"))
        .and_then(|d| d.as_sequence())
        .unwrap();
    let dep_names: Vec<&str> = web_deps.iter().filter_map(|v| v.as_str()).collect();
    assert_eq!(dep_names, vec!["redis"]);
}

#[test]
fn test_strips_depends_on_map_referencing_removed_service() {
    let compose = r#"
services:
  web:
    image: nginx
    depends_on:
      postgres:
        condition: service_healthy
      redis:
        condition: service_started
  redis:
    image: redis:7
  postgres:
    image: postgres:16
"#;
    let config = ComposeRewriteConfig {
        shared_service_names: vec!["postgres".to_string()],
        ..base_config()
    };
    let result = rewrite(compose, &config).unwrap();
    let yaml = parse_output(&result);

    let web_deps = yaml
        .get("services")
        .and_then(|s| s.get("web"))
        .and_then(|w| w.get("depends_on"))
        .and_then(|d| d.as_mapping())
        .unwrap();
    assert!(web_deps.contains_key(&serde_yaml::Value::String("redis".into())));
    assert!(!web_deps.contains_key(&serde_yaml::Value::String("postgres".into())));
}

#[test]
fn test_removes_depends_on_entirely_when_all_deps_removed() {
    let compose = r#"
services:
  web:
    image: nginx
    depends_on:
      - postgres
  postgres:
    image: postgres:16
"#;
    let config = ComposeRewriteConfig {
        shared_service_names: vec!["postgres".to_string()],
        ..base_config()
    };
    let result = rewrite(compose, &config).unwrap();
    let yaml = parse_output(&result);

    let has_depends_on = yaml
        .get("services")
        .and_then(|s| s.get("web"))
        .and_then(|w| w.get("depends_on"))
        .is_some();
    assert!(!has_depends_on, "depends_on should be removed entirely");
}

#[test]
fn test_image_override_replaces_build_directive() {
    let compose = r#"
services:
  app:
    build: .
    ports:
      - "3000:3000"
  worker:
    build:
      context: ./worker
"#;
    let config = ComposeRewriteConfig {
        per_instance_image_tags: vec![
            ("app".to_string(), "my-app:coast-abc123".to_string()),
            ("worker".to_string(), "my-worker:coast-abc123".to_string()),
        ],
        ..base_config()
    };
    let result = rewrite(compose, &config).unwrap();
    let yaml = parse_output(&result);

    let app = yaml.get("services").unwrap().get("app").unwrap();
    assert_eq!(app.get("image").unwrap().as_str().unwrap(), "my-app:coast-abc123");
    assert!(app.get("build").is_none(), "build directive should be removed");
    assert!(app.get("ports").is_some(), "non-build fields should be preserved");

    let worker = yaml.get("services").unwrap().get("worker").unwrap();
    assert_eq!(worker.get("image").unwrap().as_str().unwrap(), "my-worker:coast-abc123");
    assert!(worker.get("build").is_none());
}

#[test]
fn test_extra_hosts_added_to_all_services() {
    let compose = r#"
services:
  web:
    image: nginx
  api:
    image: node:20
"#;
    let config = base_config();
    let result = rewrite(compose, &config).unwrap();
    let yaml = parse_output(&result);

    for svc_name in &["web", "api"] {
        let hosts = yaml
            .get("services")
            .and_then(|s| s.get(*svc_name))
            .and_then(|s| s.get("extra_hosts"))
            .and_then(|h| h.as_sequence())
            .unwrap();
        let host_strs: Vec<&str> = hosts.iter().filter_map(|v| v.as_str()).collect();
        assert!(
            host_strs.contains(&"host.docker.internal:host-gateway"),
            "service {svc_name} should have host.docker.internal"
        );
    }
}

#[test]
fn test_shared_service_hostname_uses_bridge_gateway_ip() {
    let compose = r#"
services:
  web:
    image: nginx
"#;
    let config = ComposeRewriteConfig {
        shared_service_names: vec!["postgres".to_string()],
        bridge_gateway_ip: Some("172.17.0.1".to_string()),
        ..base_config()
    };
    let result = rewrite(compose, &config).unwrap();
    let yaml = parse_output(&result);

    let hosts = yaml
        .get("services")
        .and_then(|s| s.get("web"))
        .and_then(|s| s.get("extra_hosts"))
        .and_then(|h| h.as_sequence())
        .unwrap();
    let host_strs: Vec<&str> = hosts.iter().filter_map(|v| v.as_str()).collect();
    assert!(host_strs.contains(&"postgres:172.17.0.1"));
}

#[test]
fn test_secret_mounts_injected_into_all_services() {
    let compose = r#"
services:
  web:
    image: nginx
  api:
    image: node:20
"#;
    let config = ComposeRewriteConfig {
        secret_container_paths: vec!["/run/secrets/db_password".to_string()],
        ..base_config()
    };
    let result = rewrite(compose, &config).unwrap();
    let yaml = parse_output(&result);

    for svc_name in &["web", "api"] {
        let vols = yaml
            .get("services")
            .and_then(|s| s.get(*svc_name))
            .and_then(|s| s.get("volumes"))
            .and_then(|v| v.as_sequence())
            .unwrap();
        let vol_strs: Vec<&str> = vols.iter().filter_map(|v| v.as_str()).collect();
        assert!(
            vol_strs.contains(&"/run/secrets/db_password:/run/secrets/db_password:ro"),
            "service {svc_name} should have secret mount"
        );
    }
}

#[test]
fn test_no_changes_returns_none() {
    let result = rewrite("not: valid: yaml: {{", &base_config());
    assert!(result.is_none());
}

#[test]
fn test_combined_shared_removal_and_image_override() {
    let compose = r#"
services:
  web:
    build: .
    depends_on:
      - postgres
  postgres:
    image: postgres:16
    volumes:
      - pgdata:/var/lib/postgresql/data
volumes:
  pgdata:
"#;
    let config = ComposeRewriteConfig {
        shared_service_names: vec!["postgres".to_string()],
        per_instance_image_tags: vec![("web".to_string(), "my-web:coast-xyz".to_string())],
        ..base_config()
    };
    let result = rewrite(compose, &config).unwrap();
    let yaml = parse_output(&result);

    let services = get_service_names(&yaml);
    assert_eq!(services, vec!["web"]);

    let web = yaml.get("services").unwrap().get("web").unwrap();
    assert_eq!(web.get("image").unwrap().as_str().unwrap(), "my-web:coast-xyz");
    assert!(web.get("build").is_none());
    assert!(web.get("depends_on").is_none());
}

#[test]
fn test_rslave_short_form_bind_mount() {
    let compose = r#"
services:
  web:
    image: node:20
    volumes:
      - ./src:/app/src
"#;
    let config = ComposeRewriteConfig {
        hot_services: vec!["web".to_string()],
        ..base_config()
    };
    let result = rewrite(compose, &config).unwrap();
    assert!(
        result.contains("./src:/app/src:rslave"),
        "short-form bind mount should get :rslave, got: {result}"
    );
}

#[test]
fn test_rslave_short_form_with_existing_mode() {
    let compose = r#"
services:
  web:
    image: node:20
    volumes:
      - ./src:/app/src:rw
"#;
    let config = ComposeRewriteConfig {
        hot_services: vec!["web".to_string()],
        ..base_config()
    };
    let result = rewrite(compose, &config).unwrap();
    assert!(
        result.contains("./src:/app/src:rw,rslave"),
        "existing mode should be preserved with rslave appended, got: {result}"
    );
}

#[test]
fn test_rslave_long_form_bind_mount() {
    let compose = r#"
services:
  web:
    image: node:20
    volumes:
      - type: bind
        source: ./src
        target: /app/src
"#;
    let config = ComposeRewriteConfig {
        hot_services: vec!["web".to_string()],
        ..base_config()
    };
    let result = rewrite(compose, &config).unwrap();
    let yaml: serde_yaml::Value = serde_yaml::from_str(&result).unwrap();
    let vol = &yaml["services"]["web"]["volumes"][0];
    let prop = vol["bind"]["propagation"].as_str().unwrap();
    assert_eq!(prop, "rslave");
}

#[test]
fn test_rslave_skips_named_volumes() {
    let compose = r#"
services:
  web:
    image: node:20
    volumes:
      - pgdata:/var/lib/postgresql
"#;
    let config = ComposeRewriteConfig {
        hot_services: vec!["web".to_string()],
        ..base_config()
    };
    let result = rewrite(compose, &config).unwrap();
    assert!(
        result.contains("pgdata:/var/lib/postgresql"),
        "named volumes should be unchanged"
    );
    assert!(!result.contains("rslave"), "named volumes should not get rslave");
}

#[test]
fn test_rslave_only_hot_services() {
    let compose = r#"
services:
  web:
    image: node:20
    volumes:
      - ./src:/app/src
  api:
    image: node:20
    volumes:
      - ./api:/app/api
"#;
    let config = ComposeRewriteConfig {
        hot_services: vec!["web".to_string()],
        ..base_config()
    };
    let result = rewrite(compose, &config).unwrap();
    assert!(result.contains("./src:/app/src:rslave"), "hot service web should get rslave");
    assert!(result.contains("./api:/app/api"), "non-hot service api should be unchanged");
    assert!(
        !result.contains("./api:/app/api:rslave"),
        "non-hot service should NOT get rslave"
    );
}

#[test]
fn test_rslave_default_hot_all_services() {
    let compose = r#"
services:
  web:
    image: node:20
    volumes:
      - ./src:/app/src
  api:
    image: node:20
    volumes:
      - ./api:/app/api
"#;
    let config = ComposeRewriteConfig {
        default_hot: true,
        ..base_config()
    };
    let result = rewrite(compose, &config).unwrap();
    assert!(result.contains("./src:/app/src:rslave"), "web should get rslave with default_hot");
    assert!(result.contains("./api:/app/api:rslave"), "api should get rslave with default_hot");
}

#[test]
fn omitted_services_and_volumes_come_out() {
    let compose = r#"
services:
  web:
    image: nginx
    depends_on:
      worker:
        condition: service_started
  worker:
    image: worker
volumes:
  cache:
  keep:
"#;
    let config = ComposeRewriteConfig {
        coastfile: Some(CoastfileCompose {
            omit_services: vec!["worker".to_string()],
            omit_volumes: vec!["cache".to_string()],
            volume_names: vec![],
        }),
        ..base_config()
    };
    let result = rewrite(compose, &config).unwrap();
    let yaml = parse_output(&result);
    assert_eq!(get_service_names(&yaml), vec!["web"]);
    assert!(yaml["services"]["web"].get("depends_on").is_none());
    let volumes = yaml.get("volumes").and_then(|v| v.as_mapping()).unwrap();
    assert!(!volumes.contains_key(&serde_yaml::Value::String("cache".into())));
    assert!(volumes.contains_key(&serde_yaml::Value::String("keep".into())));
}

#[test]
fn managed_volumes_are_bound_to_the_volume_directory() {
    let compose = r#"
services:
  db:
    image: postgres
"#;
    let config = ComposeRewriteConfig {
        has_volume_mounts: true,
        coastfile: Some(CoastfileCompose {
            omit_services: vec![],
            omit_volumes: vec![],
            volume_names: vec!["pgdata".to_string()],
        }),
        ..base_config()
    };
    let result = rewrite(compose, &config).unwrap();
    let yaml = parse_output(&result);
    let def = &yaml["volumes"]["pgdata"];
    assert_eq!(def["driver"].as_str(), Some("local"));
    assert_eq!(def["driver_opts"]["type"].as_str(), Some("none"));
    assert_eq!(def["driver_opts"]["device"].as_str(), Some("/coast-volumes/pgdata"));
    assert_eq!(def["driver_opts"]["o"].as_str(), Some("bind"));
}

#[test]
fn existing_host_entries_are_not_repeated() {
    let compose = r#"
services:
  web:
    image: nginx
    extra_hosts:
      - "host.docker.internal:host-gateway"
"#;
    let config = ComposeRewriteConfig {
        shared_service_names: vec!["redis".to_string()],
        ..base_config()
    };
    let result = rewrite(compose, &config).unwrap();
    let yaml = parse_output(&result);
    let hosts: Vec<&str> = yaml["services"]["web"]["extra_hosts"]
        .as_sequence()
        .unwrap()
        .iter()
        .filter_map(|v| v.as_str())
        .collect();
    assert_eq!(hosts, vec!["host.docker.internal:host-gateway", "redis:host-gateway"]);
}

#[test]
fn nothing_to_change_returns_none() {
    let compose = r#"
services:
  web:
    image: nginx
    extra_hosts:
      - "host.docker.internal:host-gateway"
"#;
    assert!(rewrite(compose, &base_config()).is_none());
}

#[test]
fn rslave_keeps_existing_propagation() {
    let compose = r#"
services:
  web:
    image: node:20
    volumes:
      - ./a:/a:rshared
      - type: bind
        source: ./b
        target: /b
        bind:
          propagation: private
"#;
    let config = ComposeRewriteConfig {
        hot_services: vec!["web".to_string()],
        ..base_config()
    };
    let result = rewrite(compose, &config).unwrap();
    let yaml = parse_output(&result);
    let vols = &yaml["services"]["web"]["volumes"];
    assert_eq!(vols[0].as_str(), Some("./a:/a:rshared"));
    assert_eq!(vols[1]["bind"]["propagation"].as_str(), Some("private"));
}

fn strip(rewritten: &str, services: &[&str], volumes: &[&str]) -> String {
    let services: Vec<String> = services.iter().map(|s| s.to_string()).collect();
    let volumes: Vec<String> = volumes.iter().map(|s| s.to_string()).collect();
    let Ok(value) = serde_yaml::from_str::<serde_yaml::Value>(rewritten) else {
        return rewritten.to_string();
    };
    match strip_omitted_services_and_volumes(to_yaml(&value), &services, &volumes) {
        Some(doc) => serde_yaml::to_string(&from_yaml(&doc)).unwrap_or(rewritten.to_string()),
        None => rewritten.to_string(),
    }
}

#[test]
fn test_strip_omitted_services_and_volumes_removes_references() {
    let rewritten = strip(
        r#"services:
  app:
    image: myapp:latest
    depends_on:
      - keycloak
      - db
  keycloak:
    image: quay.io/keycloak/keycloak
  redash:
    image: redash/redash
  db:
    image: postgres:16
volumes:
  keycloak-db-data:
  app-data:
"#,
        &["keycloak", "redash"],
        &["keycloak-db-data"],
    );

    let doc: serde_yaml::Value = serde_yaml::from_str(&rewritten).unwrap();
    let services = doc.get("services").unwrap().as_mapping().unwrap();
    assert!(!services.contains_key(serde_yaml::Value::String("keycloak".into())));
    assert!(!services.contains_key(serde_yaml::Value::String("redash".into())));

    let app = services.get(serde_yaml::Value::String("app".into())).unwrap();
    let deps = app
        .get("depends_on")
        .unwrap()
        .as_sequence()
        .unwrap()
        .iter()
        .filter_map(|value| value.as_str())
        .collect::<Vec<_>>();
    assert!(!deps.contains(&"keycloak"));
    assert!(deps.contains(&"db"));

    let volumes = doc.get("volumes").unwrap().as_mapping().unwrap();
    assert!(!volumes.contains_key(serde_yaml::Value::String("keycloak-db-data".into())));
    assert!(volumes.contains_key(serde_yaml::Value::String("app-data".into())));
}

#[test]
fn stripping_nothing_keeps_the_text() {
    let text = "services:\n  app:\n    image: x\n";
    assert_eq!(strip(text, &[], &[]), text);
    assert_eq!(strip(text, &["other"], &["gone"]), text);
}

#[test]
fn rslave_rewrite_is_idempotent() {
    for v in ["./src:/app", "./src:/app:rw", "/abs:/x:ro,z"] {
        let once = rewrite_volume_with_rslave(v).unwrap();
        assert_eq!(rewrite_volume_with_rslave(&once), None);
    }
    assert_eq!(rewrite_volume_with_rslave("./src:/app").as_deref(), Some("./src:/app:rslave"));
}

#[test]
fn rslave_volume_entry_forms() {
    let long: serde_yaml::Value = serde_yaml::from_str("type: bind\nsource: ./src\ntarget: /app\n").unwrap();
    let once = from_yaml(&rslave_volume_entry(to_yaml(&long)));
    assert_eq!(once["bind"]["propagation"].as_str(), Some("rslave"));
    assert_eq!(once["source"].as_str(), Some("./src"));
    let twice = from_yaml(&rslave_volume_entry(to_yaml(&once)));
    assert_eq!(twice, once);

    let set: serde_yaml::Value = serde_yaml::from_str("type: bind\nsource: ./s\ntarget: /t\nbind:\n  propagation: shared\n").unwrap();
    assert_eq!(from_yaml(&rslave_volume_entry(to_yaml(&set))), set);

    let named: serde_yaml::Value = serde_yaml::from_str("type: volume\nsource: data\ntarget: /d\n").unwrap();
    assert_eq!(from_yaml(&rslave_volume_entry(to_yaml(&named))), named);

    let short = rslave_volume_entry(Yaml::Str("./src:/app".to_string()));
    assert!(matches!(&short, Yaml::Str(s) if s == "./src:/app:rslave"));
    let again = rslave_volume_entry(short);
    assert!(matches!(&again, Yaml::Str(s) if s == "./src:/app:rslave"));
    let named_short = rslave_volume_entry(Yaml::Str("pgdata:/var/lib/postgresql".to_string()));
    assert!(matches!(&named_short, Yaml::Str(s) if s == "pgdata:/var/lib/postgresql"));
}

#[test]
fn strip_twice_removes_nothing_more() {
    let text = "services:\n  app:\n    image: a\n    depends_on:\n      - cache\n  cache:\n    image: c\nvolumes:\n  cache-data:\n  app-data:\n";
    let value: serde_yaml::Value = serde_yaml::from_str(text).unwrap();
    let services = vec!["cache".to_string()];
    let volumes = vec!["cache-data".to_string()];
    let once = strip_omitted_services_and_volumes(to_yaml(&value), &services, &volumes).unwrap();
    let stripped = from_yaml(&once);
    let keys = |section: &str| -> Vec<String> {
        stripped[section].as_mapping().unwrap().keys().map(|k| k.as_str().unwrap().to_string()).collect()
    };
    assert_eq!(keys("services"), vec!["app"]);
    assert_eq!(keys("volumes"), vec!["app-data"]);
    assert!(stripped["services"]["app"].get("depends_on").is_none());
    assert!(strip_omitted_services_and_volumes(once, &services, &volumes).is_none());
}

#[test]
fn strip_writes_nothing_when_no_omitted_name_is_there() {
    let text = "services:\n  app:\n    depends_on:\n      - ghost\nvolumes:\n  data:\n";
    let value: serde_yaml::Value = serde_yaml::from_str(text).unwrap();
    let r = strip_omitted_services_and_volumes(to_yaml(&value), &vec!["ghost".to_string()], &vec!["other".to_string()]);
    assert!(r.is_none());
}
