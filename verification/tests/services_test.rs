use webtop::services::manifest::{from_raw, RawManifest, RawService, SUPPORTED_SCHEMA};
use webtop::services::probe::{
    escalation_step, launchd_entry, parse_etime, parse_launchd_services, parse_ps_rows, port_to_probe, restart_target,
    service_state, tree_usage, EscalationStep, LaunchdEntry, ProcRow, ServiceState, STARTUP_GRACE_SEC,
};
use webtop::services::{default_manifest_path, ManifestSource};

fn raw(name: &str, port: Option<u16>, group: Option<&str>, mem_budget: Option<u64>, deps: &[&str]) -> RawService {
    RawService {
        name: name.to_string(),
        label: format!("com.example.{name}"),
        port,
        group: group.map(|g| g.to_string()),
        mem_budget,
        depends_on: deps.iter().map(|d| d.to_string()).collect(),
    }
}

fn row(pid: u32, ppid: u32, mem_bytes: u64, uptime_sec: u64) -> ProcRow {
    ProcRow { pid, ppid, mem_bytes, uptime_sec }
}

#[test]
fn etime_covers_every_ps_shape() {
    assert_eq!(parse_etime("05:51"), Some(351));
    assert_eq!(parse_etime("04:30:24"), Some(16_224));
    assert_eq!(parse_etime("2-04:30:24"), Some(189_024));
    assert_eq!(parse_etime("garbage"), None);
}

#[test]
fn launchd_rows_are_parsed_and_pid_zero_means_down() {
    let text = "\
some header = {
\tservices = {
\t\t    1848      - \tcom.example.model-worker
\t\t   76949    -15 \tcom.example.gateway
\t\t       0      1 \tcom.example.broken
\t}
\tdisabled services = {
\t\t\"com.example.model-worker\" => enabled
\t}
";
    let m = parse_launchd_services(text);
    assert_eq!(m.len(), 3, "the disabled block must not contribute rows");
    let worker = launchd_entry(&m, "com.example.model-worker").unwrap();
    assert_eq!(worker.pid, Some(1848));
    assert_eq!(worker.last_exit, None);
    assert_eq!(launchd_entry(&m, "com.example.gateway").unwrap().last_exit, Some(-15));
    // PID 0 is launchd's way of saying "registered, not running".
    let broken = launchd_entry(&m, "com.example.broken").unwrap();
    assert_eq!(broken.pid, None);
    assert_eq!(broken.last_exit, Some(1));
    assert_eq!(launchd_entry(&m, "com.example.absent"), None);
}

#[test]
fn a_label_listed_twice_keeps_its_last_row() {
    let text = "\tservices = {\n\t\t 10 - \tcom.x\n\t\t 20 - \tcom.x\n\t}\n";
    let m = parse_launchd_services(text);
    assert_eq!(m.len(), 1);
    assert_eq!(launchd_entry(&m, "com.x").unwrap().pid, Some(20));
}

#[test]
fn tree_usage_reaches_grandchildren() {
    // The shape that matters: launchd's PID is a shell, the memory is two
    // levels down.
    let rows = vec![row(1848, 1, 2_000, 3_100), row(1858, 1848, 2_000, 50), row(1979, 1858, 9_000_000, 10)];
    let u = tree_usage(&rows, 1848);
    assert_eq!(u.mem_bytes, 9_004_000);
    assert_eq!(u.proc_count, 3);
    // CPU is summed over the members by the caller.
    let cpu: f64 = u.members.iter().map(|_| 1.0).sum();
    assert_eq!(cpu, 3.0);
    // Uptime is the root's, not the newest child's.
    assert_eq!(u.uptime_sec, 3_100);
    assert_eq!(u.members[0], 1848);
}

#[test]
fn tree_walk_terminates_on_a_cycle() {
    let rows = vec![row(10, 11, 1, 0), row(11, 10, 1, 0)];
    let u = tree_usage(&rows, 10);
    assert_eq!(u.proc_count, 2);
}

#[test]
fn tree_usage_ignores_processes_outside_the_tree() {
    let rows = vec![row(5, 1, 100, 7), row(6, 5, 10, 1), row(7, 1, 1_000, 1)];
    let u = tree_usage(&rows, 5);
    assert_eq!(u.mem_bytes, 110);
    assert_eq!(u.proc_count, 2);
    assert!(!u.members.contains(&7));
}

#[test]
fn ps_rows_convert_kilobytes_and_elapsed_time() {
    let text = "  100     1   2048  3.5     01:05\n  bogus line\n  200   100     10  0.0  1-00:00:00\n";
    let rows = parse_ps_rows(text);
    assert_eq!(rows.len(), 2);
    assert_eq!(rows[0].pid, 100);
    assert_eq!(rows[0].rss_bytes, 2048 * 1024);
    assert_eq!(rows[0].cpu_field, "3.5");
    assert_eq!(rows[0].uptime_sec, 65);
    assert_eq!(rows[1].ppid, 100);
    assert_eq!(rows[1].uptime_sec, 86_400);
}

#[test]
fn only_a_live_or_unregistered_service_has_its_port_probed() {
    let up = LaunchdEntry { pid: Some(5), last_exit: None };
    let down = LaunchdEntry { pid: None, last_exit: Some(1) };
    assert_eq!(port_to_probe(Some(up), Some(80)), Some(80));
    assert_eq!(port_to_probe(Some(down), Some(80)), None);
    assert_eq!(port_to_probe(None, Some(80)), Some(80));
    assert_eq!(port_to_probe(Some(up), None), None);
}

#[test]
fn service_states_cover_every_combination() {
    let up = LaunchdEntry { pid: Some(5), last_exit: None };
    let down = LaunchdEntry { pid: None, last_exit: Some(1) };
    assert_eq!(service_state(Some(up), Some(80), true, 0), ServiceState::Running);
    assert_eq!(service_state(Some(up), None, false, 0), ServiceState::Running);
    assert_eq!(service_state(Some(up), Some(80), false, 10), ServiceState::Starting);
    assert_eq!(service_state(Some(up), Some(80), false, STARTUP_GRACE_SEC), ServiceState::Unhealthy);
    assert_eq!(service_state(Some(down), Some(80), false, 0), ServiceState::Down);
    assert_eq!(service_state(None, Some(80), false, 0), ServiceState::Unregistered);
    assert_eq!(service_state(None, Some(80), true, 0), ServiceState::Rogue);
}

#[test]
fn a_restart_needs_a_running_process() {
    assert_eq!(restart_target("api", Some(9)), Ok(9));
    assert_eq!(restart_target("api", None), Err(String::from("api is not running")));
}

#[test]
fn a_stop_escalates_to_kill_only_after_the_grace_period() {
    assert_eq!(escalation_step(false, 10, 5), EscalationStep::Finished);
    assert_eq!(escalation_step(true, 4, 5), EscalationStep::Wait);
    assert_eq!(escalation_step(true, 5, 5), EscalationStep::Kill);
}

#[test]
fn parses_a_realistic_manifest() {
    let m = RawManifest {
        schema: Some(1),
        services: vec![
            raw("model-worker", Some(8001), Some("models"), Some(47_244_640_256), &[]),
            raw("gateway", Some(4000), None, None, &["model-worker"]),
        ],
    };
    let defs = from_raw(m).expect("manifest should parse");
    assert_eq!(defs.len(), 2);
    assert_eq!(defs[0].mem_budget, Some(44 * 1024 * 1024 * 1024));
    assert_eq!(defs[0].group, "models");
    // Unspecified group falls back rather than failing the whole parse.
    assert_eq!(defs[1].group, "other");
    assert_eq!(defs[1].depends_on, vec!["model-worker"]);
    assert_eq!(defs[1].mem_budget, None);
}

#[test]
fn unsupported_schema_is_rejected() {
    let err = from_raw(RawManifest { schema: Some(2), services: vec![] }).unwrap_err();
    assert!(err.contains("schema"), "got: {err}");
    assert_eq!(
        err,
        "manifest schema 2 is not supported (expected 1) — rebuild webtop against the current macosctl contract"
    );
}

#[test]
fn missing_schema_is_rejected() {
    let err = from_raw(RawManifest { schema: None, services: vec![] }).unwrap_err();
    assert!(err.contains("schema"), "got: {err}");
}

#[test]
fn services_from_a_merged_fragment_are_visible() {
    let m = RawManifest {
        schema: Some(SUPPORTED_SCHEMA),
        services: vec![
            raw("gateway", Some(4000), Some("edge"), None, &["postgresql", "phoenix"]),
            raw("worker-api", Some(7861), Some("dashboard"), None, &[]),
            raw("worker-jobs", Some(7862), Some("dashboard"), None, &[]),
        ],
    };
    let defs = from_raw(m).expect("manifest should parse");
    let web = defs.iter().find(|s| s.name == "worker-api").expect("worker-api should be present");
    assert_eq!(web.port, Some(7861));
    assert_eq!(web.group, "dashboard");
    let worker = defs.iter().find(|s| s.name == "worker-jobs").expect("worker-jobs should be present");
    assert_eq!(worker.port, Some(7862));
    assert_eq!(worker.group, "dashboard");
}

#[test]
fn an_empty_group_falls_back_to_other() {
    let m = RawManifest { schema: Some(1), services: vec![raw("x", None, Some(""), None, &[])] };
    assert_eq!(from_raw(m).unwrap()[0].group, "other");
}

#[test]
fn the_manifest_cache_is_keyed_by_modification_time() {
    let mut src = ManifestSource::new(default_manifest_path("/Users/me"));
    assert_eq!(src.path(), "/Users/me/.webtop/services.json");
    assert!(src.cached(5).is_none());
    let defs = from_raw(RawManifest { schema: Some(1), services: vec![raw("a", Some(1), None, None, &[])] }).unwrap();
    src.remember(5, &defs);
    let hit = src.cached(5).expect("same mtime is served from cache");
    assert_eq!(hit[0].name, "a");
    assert!(src.cached(6).is_none(), "a newer file is re-read");
}
