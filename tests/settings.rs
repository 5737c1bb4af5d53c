use honeybeepf::settings::{
    threshold_ns, BuiltinProbes, FileAccessProbe, FilesystemProbes, NetworkProbes, SchedulerProbes,
    Settings, VfsLatencyProbe, DEFAULT_PROBE_INTERVAL_SECONDS,
};

#[test]
fn test_to_common_config() {
    let settings = Settings {
        otel_exporter_otlp_endpoint: None,
        otel_exporter_otlp_protocol: None,
        builtin_probes: BuiltinProbes {
            network: NetworkProbes { tcp_connect: Some(true), tcp_retrans: None, dns: Some(true) },
            filesystem: FilesystemProbes {
                vfs_latency: Some(true),
                vfs_latency_threshold_ms: Some(10),
                file_access: None,
                watched_paths: None,
            },
            scheduler: SchedulerProbes {
                runqueue: None,
                runqueue_threshold_ms: None,
                offcpu: Some(true),
                offcpu_threshold_ms: Some(5),
            },
            llm: None,
            interval: None,
        },
        custom_probe_config: None,
    };

    let common = settings.to_common_config();

    assert_eq!(common.probe_tcp_connect, 1);
    assert_eq!(common.probe_tcp_retrans, 0);
    assert_eq!(common.probe_dns, 1);
    assert_eq!(common.probe_vfs_latency, 1);
    assert_eq!(common.probe_file_access, 0);
    assert_eq!(common.probe_runqueue, 0);
    assert_eq!(common.probe_offcpu, 1);
    assert_eq!(common.probe_interval, DEFAULT_PROBE_INTERVAL_SECONDS);
}

#[test]
fn thresholds_are_nanoseconds() {
    assert_eq!(threshold_ns(Some(5)), 5_000_000);
    assert_eq!(threshold_ns(None), 10_000_000);
    assert_eq!(VfsLatencyProbe::new(25).threshold_ns, 25_000_000);
}

#[test]
fn watched_paths_hash_like_the_kernel() {
    let probe = FileAccessProbe::new(vec!["/etc/shadow".to_string(), "".to_string()]);
    let hashes = probe.watched_hashes();
    assert_eq!(hashes.len(), 2);
    assert_eq!(hashes[1], 0xcbf29ce484222325);
    assert_eq!(hashes[0], honeybeepf::fnv::simple_hash(b"/etc/shadow"));
}

use honeybeepf::settings::get_otlp_endpoint;
use honeybeepf::targets::parse_ldconfig_output;

#[test]
fn test_get_otlp_endpoint_not_set() {
    // Returns None if the variable is not set
    assert!(get_otlp_endpoint(None).is_none());
}

#[test]
fn test_get_otlp_endpoint_empty() {
    // Returns None if the variable is empty
    assert!(get_otlp_endpoint(Some("")).is_none());
}

#[test]
fn test_get_otlp_endpoint_from_env() {
    let endpoint = get_otlp_endpoint(Some("http://custom:4317"));
    assert_eq!(endpoint, Some("http://custom:4317".to_string()));
}

#[test]
fn test_get_otlp_endpoint_adds_http_prefix() {
    let endpoint = get_otlp_endpoint(Some("collector:4317"));
    assert_eq!(endpoint, Some("http://collector:4317".to_string()));
}

#[test]
fn https_endpoint_kept() {
    assert_eq!(get_otlp_endpoint(Some("https://c:4318")), Some("https://c:4318".to_string()));
}

#[test]
fn ldconfig_listing() {
    let text = "1234 libs found in cache `/etc/ld.so.cache'\n\tlibssl.so.3 (libc6,x86-64) => /lib/x86_64-linux-gnu/libssl.so.3\n\tlibssl.so.3 (libc6,x86-64) => /lib/x86_64-linux-gnu/libssl.so.3\n\tlibc.so.6 (libc6,x86-64) => /lib/x86_64-linux-gnu/libc.so.6\n\tlibssl.so (libc6) => /usr/lib32/libssl.so\r\n";
    assert_eq!(
        parse_ldconfig_output(text, "libssl.so"),
        vec!["/lib/x86_64-linux-gnu/libssl.so.3".to_string(), "/usr/lib32/libssl.so".to_string()]
    );
    assert!(parse_ldconfig_output(text, "libnccl.so").is_empty());
}

use honeybeepf::settings::{parse_bool_value, parse_list_value, parse_u32_value};

#[test]
fn setting_values() {
    assert_eq!(parse_bool_value("true"), Some(true));
    assert_eq!(parse_bool_value(" 0 "), Some(false));
    assert_eq!(parse_bool_value("yes"), None);
    assert_eq!(parse_u32_value("42"), Some(42));
    assert_eq!(parse_u32_value("4294967295"), Some(u32::MAX));
    assert_eq!(parse_u32_value("4294967296"), None);
    assert_eq!(parse_u32_value("4x"), None);
    assert_eq!(parse_u32_value(""), None);
    assert_eq!(
        parse_list_value("/etc/shadow, /root/.ssh/id_rsa,,"),
        vec!["/etc/shadow".to_string(), "/root/.ssh/id_rsa".to_string()]
    );
    assert!(parse_list_value(" ").is_empty());
}
