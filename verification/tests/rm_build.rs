use coast_daemon::builds::{
    build_in_use_map, image_matches_project, in_use_build_ids, plan_build_removals,
    validate_removable, volume_belongs_to_project, InstanceBuild, SharedServiceRecord,
};

fn make_instance(name: &str, build_id: Option<&str>) -> InstanceBuild {
    InstanceBuild { name: name.to_string(), build_id: build_id.map(String::from) }
}

fn labels(pairs: &[(&str, &str)]) -> Vec<(String, String)> {
    pairs.iter().map(|(k, v)| (k.to_string(), v.to_string())).collect()
}

fn shared(name: &str, status: &str) -> SharedServiceRecord {
    SharedServiceRecord { service_name: name.to_string(), status: status.to_string() }
}

#[test]
fn test_validate_removable_no_instances_no_shared_services() {
    assert!(validate_removable("my-app", 0, &vec![]).is_ok());
}

#[test]
fn test_validate_removable_instances_exist() {
    let err = validate_removable("my-app", 1, &vec![]).unwrap_err();
    let msg = err.message();
    assert!(msg.contains("instance(s) still exist"), "got: {msg}");
}

#[test]
fn test_validate_removable_running_shared_services() {
    let err = validate_removable("my-app", 0, &vec![shared("redis", "running")]).unwrap_err();
    let msg = err.message();
    assert!(msg.contains("shared service(s) still running"), "got: {msg}");
}

#[test]
fn test_validate_removable_stopped_shared_services_ok() {
    assert!(validate_removable("my-app", 0, &vec![shared("redis", "stopped")]).is_ok());
}

#[test]
fn validate_removable_messages_are_exact() {
    assert_eq!(
        validate_removable("my-app", 2, &vec![]).unwrap_err().message(),
        "Cannot remove build for 'my-app': 2 instance(s) still exist. Run `coast rm --all --project my-app` first."
    );
    assert_eq!(
        validate_removable("my-app", 0, &vec![shared("redis", "running"), shared("pg", "stopped"), shared("mq", "running")])
            .unwrap_err()
            .message(),
        "Cannot remove build for 'my-app': 2 shared service(s) still running (redis, mq). Run `coast shared-services stop --all --project my-app` first."
    );
}

#[test]
fn test_build_in_use_map_with_build_id() {
    let instances = vec![make_instance("inst-a", Some("abc"))];
    let map = build_in_use_map(&instances, None);
    assert_eq!(map.get("abc").unwrap(), vec!["inst-a".to_string()]);
}

#[test]
fn test_build_in_use_map_without_build_id_uses_latest() {
    let instances = vec![make_instance("inst-a", None)];
    let map = build_in_use_map(&instances, Some("xyz"));
    assert_eq!(map.get("xyz").unwrap(), vec!["inst-a".to_string()]);
}

#[test]
fn test_build_in_use_map_without_build_id_no_latest() {
    let instances = vec![make_instance("inst-a", None)];
    let map = build_in_use_map(&instances, None);
    assert!(map.is_empty());
}

#[test]
fn test_build_in_use_map_multiple_instances_same_build() {
    let instances = vec![make_instance("inst-a", Some("abc")), make_instance("inst-b", Some("abc"))];
    let map = build_in_use_map(&instances, None);
    let mut names = map.get("abc").unwrap().clone();
    names.sort();
    assert_eq!(names, vec!["inst-a".to_string(), "inst-b".to_string()]);
}

#[test]
fn test_build_in_use_map_empty_instances() {
    let map = build_in_use_map(&vec![], None);
    assert!(map.is_empty());
}

#[test]
fn in_use_builds_are_skipped_by_removal() {
    let instances = vec![make_instance("inst-a", Some("abc")), make_instance("inst-b", None)];
    let usage = build_in_use_map(&instances, Some("latest-build"));
    let ids = vec!["abc".to_string(), "old".to_string(), "latest-build".to_string()];
    let plan = plan_build_removals(&ids, &usage, Some("latest-build"));
    assert_eq!(plan.len(), 3);
    assert!(plan[0].skip && !plan[0].is_latest);
    assert!(!plan[1].skip && !plan[1].is_latest);
    assert!(plan[2].skip && plan[2].is_latest);

    let mut in_use = in_use_build_ids(&instances, Some("latest-build"));
    in_use.sort();
    assert_eq!(in_use, vec!["abc".to_string(), "latest-build".to_string()]);
    assert_eq!(in_use_build_ids(&vec![make_instance("a", Some("x"))], Some("y")), vec!["x".to_string()]);
}

#[test]
fn test_shared_volume_matches() {
    assert!(volume_belongs_to_project("coast-shared--my-app--pg_data", "my-app", &labels(&[])));
}

#[test]
fn test_shared_volume_different_project_does_not_match() {
    assert!(!volume_belongs_to_project("coast-shared--other-app--pg_data", "my-app", &labels(&[])));
}

#[test]
fn test_compose_volume_matches() {
    assert!(volume_belongs_to_project("my-app-coasts-web_data", "my-app", &labels(&[])));
}

#[test]
fn test_shared_services_volume_matches() {
    assert!(volume_belongs_to_project("my-app-shared-services-redis_data", "my-app", &labels(&[])));
}

#[test]
fn test_isolated_volume_with_correct_label_matches() {
    assert!(volume_belongs_to_project("coast--dev--pg", "my-app", &labels(&[("coast.project", "my-app")])));
}

#[test]
fn test_isolated_volume_with_wrong_label_does_not_match() {
    assert!(!volume_belongs_to_project("coast--dev--pg", "my-app", &labels(&[("coast.project", "other-app")])));
}

#[test]
fn test_isolated_volume_with_no_label_does_not_match() {
    assert!(!volume_belongs_to_project("coast--dev--pg", "my-app", &labels(&[])));
}

#[test]
fn test_unrelated_volume_does_not_match() {
    assert!(!volume_belongs_to_project("postgres_data", "my-app", &labels(&[])));
}

#[test]
fn test_coast_image_tag_matches() {
    let tags = vec!["coast-image/my-app:abc123".to_string()];
    assert!(image_matches_project(&tags, "my-app"));
}

#[test]
fn test_coasts_compose_image_matches() {
    let tags = vec!["my-app-coasts-web:latest".to_string()];
    assert!(image_matches_project(&tags, "my-app"));
}

#[test]
fn test_different_project_tag_does_not_match() {
    let tags = vec!["coast-image/other-app:abc123".to_string()];
    assert!(!image_matches_project(&tags, "my-app"));
}

#[test]
fn test_empty_tags_does_not_match() {
    let tags: Vec<String> = vec![];
    assert!(!image_matches_project(&tags, "my-app"));
}

#[test]
fn test_multiple_tags_one_matches() {
    let tags = vec!["postgres:15".to_string(), "coast-image/my-app:abc123".to_string()];
    assert!(image_matches_project(&tags, "my-app"));
}
