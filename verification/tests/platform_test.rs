use webtop::collector::disks::{list_disks, RawDisk};
use webtop::collector::snapshot::MemBreakdown;
use webtop::config::{expand_tilde, home_or_default, Command, Config};
use webtop::launchd::{
    bootstrap_failure, generate_plist, gui_domain, in_gui_session, manager_name, plist_path, service_target, LABEL,
};
use webtop::logging::{log_paths, rotate_tail, rotation_start, KEEP_TAIL_BYTES, MAX_LOG_BYTES};
use webtop::paths::{child_path, join_path, parent_path, path_components, path_string, path_within, has_parent_dir};
use webtop::sync::guard;
use webtop::system_info::{core_kinds, disk_total, gpu_cores_from_displays, link_speed_from_media, sysctl_u32, SystemInfo, DEFAULT_LINK_BYTES_SEC};
use webtop::text::{join_strings, parse_i64_str};
use std::sync::{Mutex, RwLock};

fn disk(mount: &str, total: u64, available: u64) -> RawDisk {
    RawDisk {
        name: mount.to_string(),
        mount_point: mount.to_string(),
        fs_type: String::from("apfs"),
        total,
        available,
        is_removable: false,
    }
}

#[test]
fn returns_the_guard_when_the_lock_is_healthy() {
    let m = Mutex::new(7);
    assert_eq!(*guard(m.lock()), 7);
}

#[test]
fn works_for_rwlock_too() {
    let rw = RwLock::new(String::from("ok"));
    assert_eq!(*guard(rw.read()), "ok");
    guard(rw.write()).push('!');
    assert_eq!(*guard(rw.read()), "ok!");
}

#[test]
fn leaves_small_files_untouched() {
    assert_eq!(rotation_start(0), None);
    assert_eq!(rotation_start(MAX_LOG_BYTES), None);
}

#[test]
fn truncates_oversized_file_to_bounded_size() {
    let len = MAX_LOG_BYTES + 1024;
    let start = rotation_start(len).expect("should rotate");
    assert_eq!(start, len - KEEP_TAIL_BYTES);
    let tail: Vec<u8> = (0..KEEP_TAIL_BYTES).map(|i| if i % 10 == 9 { b'\n' } else { b'x' }).collect();
    let r = rotate_tail(len, tail);
    let size = r.header.len() as u64 + r.kept.len() as u64;
    assert!(size < MAX_LOG_BYTES, "post-rotation size {size} should be under the ceiling");
    assert_eq!(r.dropped, len - r.kept.len() as u64);
}

#[test]
fn keeps_the_newest_lines_and_starts_on_a_boundary() {
    let mut text = String::new();
    for n in 0..100 {
        text.push_str(&format!("line {n}\n"));
    }
    let bytes = text.as_bytes();
    let len = bytes.len() as u64;
    // Read the last 50 bytes: they start mid-line.
    let tail = bytes[bytes.len() - 50..].to_vec();
    let r = rotate_tail(len, tail);
    assert!(r.header.starts_with("--- log truncated"));
    assert_eq!(r.header, format!("--- log truncated, dropped {} bytes ---\n", r.dropped));
    let kept = String::from_utf8(r.kept).unwrap();
    assert!(kept.ends_with("line 99\n"), "newest line must survive");
    for line in kept.lines() {
        assert!(line.starts_with("line "), "found a partial line: {line:?}");
    }
}

#[test]
fn a_tail_without_a_newline_is_kept_whole() {
    let r = rotate_tail(10, b"abc".to_vec());
    assert_eq!(r.kept, b"abc".to_vec());
    assert_eq!(r.dropped, 7);
    assert_eq!(r.header, "--- log truncated, dropped 7 bytes ---\n");
}

#[test]
fn the_log_files_live_in_the_webtop_directory() {
    let [out, err] = log_paths("/Users/me");
    assert_eq!(out, "/Users/me/.webtop/webtop.out.log");
    assert_eq!(err, "/Users/me/.webtop/webtop.err.log");
}

#[test]
fn the_plist_runs_the_binary_on_the_requested_port() {
    let plist = generate_plist("/usr/local/bin/webtop", 8085, "/Users/me");
    assert!(plist.contains("<string>com.webtop</string>"));
    assert!(plist.contains("<string>/usr/local/bin/webtop</string>\n        <string>--port</string>\n        <string>8085</string>"));
    assert!(plist.contains("<string>/Users/me/.webtop/webtop.err.log</string>"));
    assert!(plist.contains("<key>WorkingDirectory</key>\n    <string>/Users/me</string>"));
    assert!(plist.ends_with("</plist>\n"));
    assert_eq!(plist_path("/Users/me"), "/Users/me/Library/LaunchAgents/com.webtop.plist");
    assert_eq!(LABEL, "com.webtop");
}

#[test]
fn launchctl_targets_name_the_gui_domain() {
    assert_eq!(gui_domain(501), "gui/501");
    assert_eq!(service_target(501), "gui/501/com.webtop");
}

#[test]
fn bootstrap_failures_explain_a_non_gui_session() {
    assert_eq!(manager_name(Some("Aqua\n")), "Aqua");
    assert_eq!(manager_name(None), "unknown");
    assert!(in_gui_session("Aqua"));
    assert!(!in_gui_session("Background"));
    assert_eq!(bootstrap_failure(" Input/output error \n", "Aqua"), "launchctl bootstrap failed: Input/output error");
    let m = bootstrap_failure("boom", "Background");
    assert!(m.starts_with("launchctl could not reach the GUI session (currently in the 'Background' launchd domain)."));
    assert!(m.ends_with("launchctl said: boom"));
}

#[test]
fn tilde_expands_to_the_home_directory() {
    assert_eq!(expand_tilde("~/.webtop/metrics.db", "/Users/me"), "/Users/me/.webtop/metrics.db");
    assert_eq!(expand_tilde("/abs/path", "/Users/me"), "/abs/path");
    let cfg = Config {
        port: 8085,
        db_path: String::from("~/.webtop/metrics.db"),
        electricity_rate: 30,
        services_manifest: String::from("~/.webtop/services.json"),
        control_helper: String::from("/usr/local/libexec/svc"),
        cmd: Some(Command::Status),
    };
    assert_eq!(cfg.resolved_db_path("/h"), "/h/.webtop/metrics.db");
    assert_eq!(cfg.resolved_manifest_path("/h"), "/h/.webtop/services.json");
    assert_eq!(home_or_default(None), "/tmp");
    assert_eq!(home_or_default(Some(String::from("/Users/x"))), "/Users/x");
}

#[test]
fn paths_are_compared_by_component() {
    let root = path_components("/a/b");
    assert!(path_within(&path_components("/a/b/c"), &root));
    assert!(path_within(&root, &root));
    assert!(!path_within(&path_components("/a/bc"), &root));
    assert!(has_parent_dir("/a/../b"));
    assert!(!has_parent_dir("/a/..b"));
    assert_eq!(path_components("//a/./b/"), vec![String::from("a"), String::from("b")]);
    assert_eq!(path_string(&child_path(&root, &String::from("c"))), "/a/b/c");
    assert_eq!(path_string(&parent_path(&root).unwrap()), "/a");
    assert!(parent_path(&Vec::new()).is_none());
    assert_eq!(join_path("/a", "b"), "/a/b");
    assert_eq!(join_path("/a/", "b"), "/a/b");
}

#[test]
fn text_helpers_behave_like_std() {
    assert_eq!(join_strings(&vec![String::from("a"), String::from("b")], ", "), "a, b");
    assert_eq!(parse_i64_str("-9223372036854775808"), Some(i64::MIN));
    assert_eq!(parse_i64_str("9223372036854775808"), None);
    assert_eq!(parse_i64_str(""), None);
}

#[test]
fn core_kinds_list_efficiency_cores_first() {
    assert_eq!(core_kinds(2, 3, 5), vec!["E", "E", "P", "P", "P"]);
    assert_eq!(core_kinds(2, 3, 4), vec!["P", "P", "P", "P"]);
}

#[test]
fn the_fastest_wired_link_sets_the_speed() {
    let text = "media: autoselect (100baseTX <full-duplex>)\nmedia: autoselect (1000baseT <full-duplex>)\n";
    assert_eq!(link_speed_from_media(text), 125_000_000);
    assert_eq!(link_speed_from_media("media: autoselect (10GbaseT)"), 1_250_000_000);
    assert_eq!(link_speed_from_media("no wired link"), DEFAULT_LINK_BYTES_SEC);
}

#[test]
fn sysctl_answers_are_trimmed_numbers() {
    assert_eq!(sysctl_u32(Some("8\n")), Some(8));
    assert_eq!(sysctl_u32(Some("eight")), None);
    assert_eq!(sysctl_u32(None), None);
}

#[test]
fn gpu_cores_come_from_the_first_display_that_reports_them() {
    assert_eq!(gpu_cores_from_displays(&vec![None, Some(String::from("38_gpu_cores")), Some(String::from("10"))]), Some(38));
    assert_eq!(gpu_cores_from_displays(&vec![None]), None);
}

#[test]
fn the_disk_total_is_the_boot_volume() {
    let disks = vec![(String::from("/Volumes/big"), 9_000), (String::from("/"), 1_000)];
    assert_eq!(disk_total(&disks), 1_000);
    assert_eq!(disk_total(&vec![(String::from("/a"), 5), (String::from("/b"), 7)]), 7);
    assert_eq!(disk_total(&vec![]), 0);
}

#[test]
fn system_facts_fall_back_to_defaults() {
    let s = SystemInfo::assemble(None, String::from("Apple M2"), None, Some(2), None, None, None, 6, 8, 9, None, 10);
    assert_eq!(s.model, "Mac");
    assert_eq!(s.p_core_count, 4);
    assert_eq!(s.e_core_count, 2);
    assert_eq!(s.gpu_core_count, 0);
    assert_eq!(s.os_version, "");
    assert_eq!(s.core_kinds, vec!["E", "E", "P", "P", "P", "P"]);
}

#[test]
fn drives_list_the_boot_volume_first_then_by_size() {
    let raw = vec![
        disk("/Volumes/small", 100, 50),
        disk("/System/Volumes/Data", 5_000, 1_000),
        disk("/Volumes/large", 900, 100),
        disk("/", 500, 100),
        disk("/Volumes/empty", 0, 0),
    ];
    let listed = list_disks(&raw);
    let mounts: Vec<&str> = listed.iter().map(|d| d.mount_point.as_str()).collect();
    assert_eq!(mounts, vec!["/", "/Volumes/large", "/Volumes/small"]);
    assert!(listed[0].is_boot);
    assert_eq!(listed[0].used_bytes, 400);
}

#[test]
fn a_zeroed_memory_breakdown_is_the_default() {
    let m = MemBreakdown::default();
    assert_eq!(m, MemBreakdown::zero());
    assert_eq!(m.wired + m.active + m.inactive + m.compressed + m.free, 0);
}
