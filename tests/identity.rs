use honeybeepf::identity::{
    extract_container_id, parse_container_id_from_cgroup_line, short_container_id, OwnerRef,
    PodEvent, PodInfo, PodResolver,
};

#[test]
fn test_parse_cgroup_v2_plain() {
    let line = "0::/kubepods/besteffort/podabc123/a1b2c3d4e5f6a1b2c3d4e5f6a1b2c3d4e5f6a1b2c3d4e5f6a1b2c3d4e5f6a1b2";
    let id = parse_container_id_from_cgroup_line(line);
    assert_eq!(id, Some("a1b2c3d4e5f6".to_string()));
}

#[test]
fn test_parse_cgroup_v1() {
    let line = "12:memory:/kubepods/besteffort/podxyz/a1b2c3d4e5f6a1b2c3d4e5f6a1b2c3d4e5f6a1b2c3d4e5f6a1b2c3d4e5f6a1b2";
    let id = parse_container_id_from_cgroup_line(line);
    assert_eq!(id, Some("a1b2c3d4e5f6".to_string()));
}

#[test]
fn test_parse_cgroup_systemd_scope_containerd() {
    let line = "0::/kubepods.slice/kubepods-besteffort.slice/kubepods-besteffort-pod123.slice/cri-containerd-a1b2c3d4e5f6a1b2c3d4e5f6a1b2c3d4e5f6a1b2c3d4e5f6a1b2c3d4e5f6a1b2.scope";
    let id = parse_container_id_from_cgroup_line(line);
    assert_eq!(id, Some("a1b2c3d4e5f6".to_string()));
}

#[test]
fn test_parse_cgroup_systemd_scope_docker() {
    let line = "0::/kubepods.slice/kubepods-burstable.slice/kubepods-burstable-pod456.slice/docker-a1b2c3d4e5f6a1b2c3d4e5f6a1b2c3d4e5f6a1b2c3d4e5f6a1b2c3d4e5f6a1b2.scope";
    let id = parse_container_id_from_cgroup_line(line);
    assert_eq!(id, Some("a1b2c3d4e5f6".to_string()));
}

#[test]
fn test_parse_non_container_cgroup() {
    let line = "0::/user.slice/user-1000.slice/session-1.scope";
    let id = parse_container_id_from_cgroup_line(line);
    assert_eq!(id, None);
}

#[test]
fn test_parse_empty_cgroup() {
    let line = "0::/";
    let id = parse_container_id_from_cgroup_line(line);
    assert_eq!(id, None);
}

#[test]
fn test_resolver_returns_none_without_k8s() {
    let mut resolver = PodResolver::new();
    // pid 1 (init) won't have a container cgroup
    let cgroup = "0::/init.scope\n";
    assert!(resolver.resolve(12345, Some(cgroup)).is_none());
}

#[test]
fn test_resolver_caches_negative_result() {
    let mut resolver = PodResolver::new();
    // First call caches
    let cgroup = "0::/init.scope\n";
    let _ = resolver.resolve(99999, Some(cgroup));
    // Verify cache was populated
    assert!(resolver.is_cached(99999));
}

#[test]
fn test_pod_info_service_name() {
    let info = PodInfo {
        pod_name: "my-app-7d4b8c9f5-abc12".to_string(),
        namespace: "default".to_string(),
        workload_kind: Some("Deployment".to_string()),
        workload_name: Some("my-app".to_string()),
    };
    assert_eq!(info.service_name(), "my-app");
}

#[test]
fn test_pod_info_service_name_fallback() {
    let info = PodInfo {
        pod_name: "standalone-pod".to_string(),
        namespace: "default".to_string(),
        workload_kind: None,
        workload_name: None,
    };
    assert_eq!(info.service_name(), "standalone-pod");
}

const CID: &str = "a1b2c3d4e5f6a1b2c3d4e5f6a1b2c3d4e5f6a1b2c3d4e5f6a1b2c3d4e5f6a1b2";

fn pod_event(name: &str, owner_kind: &str, owner_name: &str) -> PodEvent {
    PodEvent {
        name: Some(name.to_string()),
        namespace: Some("prod".to_string()),
        owner: Some(OwnerRef { kind: owner_kind.to_string(), name: owner_name.to_string() }),
        container_ids: vec![format!("containerd://{}", CID)],
    }
}

#[test]
fn cgroup_text_first_matching_line_wins() {
    let text = format!("1:cpu:/user.slice\r\n0::/kubepods/besteffort/podx/{}\n", CID);
    assert_eq!(extract_container_id(&text), Some("a1b2c3d4e5f6".to_string()));
    assert_eq!(extract_container_id("0::/user.slice\n"), None);
    assert_eq!(extract_container_id(""), None);
}

#[test]
fn cgroup_line_needs_runtime_and_full_id() {
    // A 64-hex segment outside any container runtime's hierarchy.
    let line = format!("0::/system.slice/{}", CID);
    assert_eq!(parse_container_id_from_cgroup_line(&line), None);
    // A short id is not a container id.
    assert_eq!(parse_container_id_from_cgroup_line("0::/docker/a1b2c3"), None);
    // Fewer than two colons: no path field.
    assert_eq!(parse_container_id_from_cgroup_line("kubepods"), None);
}

#[test]
fn short_id_from_status() {
    assert_eq!(short_container_id(&format!("docker://{}", CID)), Some("a1b2c3d4e5f6".to_string()));
    assert_eq!(short_container_id("containerd://abc"), None);
}

#[test]
fn resolver_maps_cgroup_to_pod_and_sweeps() {
    let mut resolver = PodResolver::new();
    resolver.apply_pod_event(&pod_event("web-7d4b8c9f5-abc12", "ReplicaSet", "web-7d4b8c9f5"), false);
    let text = format!("0::/kubepods/besteffort/podx/{}\n", CID);
    let info = resolver.resolve(7, Some(&text)).expect("pod is known");
    assert_eq!(info.pod_name, "web-7d4b8c9f5-abc12");
    assert_eq!(info.namespace, "prod");
    assert_eq!(info.workload_kind, Some("Deployment".to_string()));
    assert_eq!(info.workload_name, Some("web".to_string()));
    // Cached: the file is not consulted again.
    assert!(resolver.resolve(7, None).is_some());
    // Deleting the pod forgets it and the cgroups that named it.
    resolver.apply_pod_event(&pod_event("web-7d4b8c9f5-abc12", "ReplicaSet", "web-7d4b8c9f5"), true);
    assert!(!resolver.is_cached(7));
    assert!(resolver.resolve(7, None).is_none());
}

#[test]
fn resolver_keeps_other_owners_verbatim() {
    let mut resolver = PodResolver::new();
    resolver.apply_pod_event(&pod_event("db-0", "StatefulSet", "db"), false);
    let info = resolver.pod_for_container(&"a1b2c3d4e5f6".to_string()).expect("stored");
    assert_eq!(info.workload_kind, Some("StatefulSet".to_string()));
    assert_eq!(info.workload_name, Some("db".to_string()));
}

#[test]
fn sweep_evicts_cgroups_of_unknown_containers() {
    let mut resolver = PodResolver::new();
    let text = format!("0::/kubepods/besteffort/podx/{}\n", CID);
    assert!(resolver.resolve(3, Some(&text)).is_none());
    assert!(resolver.resolve(4, None).is_none());
    resolver.sweep_cache();
    // The container is not in the pod store: evicted. The negative entry stays.
    assert!(!resolver.is_cached(3));
    assert!(resolver.is_cached(4));
}
