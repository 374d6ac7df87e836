use webtop::server::control_api::{control_step, ControlStep};
use webtop::paths::{path_components, path_in};
use webtop::server::api::{bucket_ms_for_range, history_plan, totals_since, tz_offset_from_east, window_ms_for_range};
use webtop::server::control_api::{
    check_declared, check_verb, control_response, guard, helper_outcome, is_known_verb, no_such_service, BAD_REQUEST,
    FORBIDDEN, NOT_FOUND,
};
use webtop::server::folder_api::{effective_limit, rescan_response, select_verify_paths, verify_response, MAX_VERIFY_PATHS};
use webtop::server::folder_scan::{
    is_within_root, saturating_sub_i64, scan_root, time_until_due, verify_cost, ScanCoordinator,
    FULL_SCAN_INTERVAL_MS, WEDGED_AFTER_MS,
};
use webtop::server::services_api::{could_not_probe, restart_message, services_response};
use std::time::{SystemTime, UNIX_EPOCH};

const HOME: &str = "/Users/me";

fn now_ms() -> i64 {
    SystemTime::now().duration_since(UNIX_EPOCH).unwrap_or_default().as_millis() as i64
}

#[test]
fn guard_rejects_request_without_header() {
    assert!(guard(false).is_err());
}

#[test]
fn guard_accepts_request_with_header() {
    assert!(guard(true).is_ok());
}

#[test]
fn a_refused_control_request_is_forbidden_with_a_reason() {
    let (status, body) = guard(false).unwrap_err();
    assert_eq!(status, FORBIDDEN);
    assert!(!body.ok);
    assert_eq!(body.message, "missing x-svc-control header; control requests must set it");
}

#[test]
fn only_the_five_verbs_are_known() {
    for verb in ["start", "stop", "restart", "enable", "disable"] {
        assert!(is_known_verb(verb), "{verb} should be accepted");
    }
    for verb in ["delete", "bootstrap", "", "STOP", "stop; rm -rf /"] {
        assert!(!is_known_verb(verb), "{verb} should be refused");
    }
}

#[test]
fn an_unknown_verb_is_a_bad_request() {
    assert!(check_verb("stop").is_ok());
    let (status, body) = check_verb("nuke").unwrap_err();
    assert_eq!(status, BAD_REQUEST);
    assert_eq!(body.message, "unknown verb 'nuke'");
}

#[test]
fn an_undeclared_service_is_not_found() {
    assert!(check_declared("api", true).is_ok());
    let (status, body) = check_declared("ghost", false).unwrap_err();
    assert_eq!(status, NOT_FOUND);
    assert_eq!(body.message, "no service named 'ghost' in the manifest");
    assert_eq!(no_such_service("x"), "no service named 'x' in the manifest");
}

#[test]
fn the_helper_outcome_prefers_its_own_words() {
    assert_eq!(helper_outcome(true, "  started api\n", "", "svc"), Ok(String::from("started api")));
    assert_eq!(helper_outcome(true, "", " note ", "svc"), Ok(String::from("note")));
    assert_eq!(helper_outcome(false, "out", "boom\n", "svc"), Err(String::from("boom")));
    assert_eq!(helper_outcome(false, "only out", "", "svc"), Err(String::from("only out")));
}

#[test]
fn a_missing_sudoers_rule_is_explained() {
    let r = helper_outcome(false, "", "sudo: a password is required", "svc-helper");
    assert_eq!(
        r,
        Err(String::from(
            "svc-helper is not permitted without a password — install the sudoers rule (sudo: a password is required)"
        ))
    );
}

#[test]
fn control_responses_carry_the_outcome() {
    let ok = control_response(Ok(String::from("done")));
    assert!(ok.ok);
    assert_eq!(ok.message, "done");
    let err = control_response(Err(String::from("bad")));
    assert!(!err.ok);
    assert_eq!(err.message, "bad");
}

#[test]
fn one_claim_at_a_time() {
    let mut c = ScanCoordinator::default();

    let first = c.try_claim().expect("uncontended claim succeeds");
    assert!(c.is_running());
    assert!(c.try_claim().is_none(), "second claim must be refused");

    first.release(&mut c);
    assert!(!c.is_running());
    assert!(c.try_claim().is_some(), "claim is reusable once released");
}

#[test]
fn a_wedged_scan_hands_its_claim_to_the_next_caller() {
    let mut c = ScanCoordinator::default();
    let stuck = c.try_claim().expect("uncontended claim succeeds");

    let just_before = now_ms() + WEDGED_AFTER_MS - 1;
    assert!(c.try_claim_at(just_before).is_none(), "a scan still inside its allowance keeps the claim");

    let past_it = now_ms() + WEDGED_AFTER_MS + 1;
    let taken_over = c.try_claim_at(past_it).expect("a wedged scan must not disable the feature forever");

    stuck.release(&mut c);
    assert!(c.is_running(), "the takeover still holds the claim after the wedged scan unwinds");

    taken_over.release(&mut c);
    assert!(!c.is_running());
}

#[test]
fn a_heartbeat_keeps_a_slow_scan_from_being_taken_over() {
    let mut c = ScanCoordinator::new();
    let g = c.try_claim_at(1_000).unwrap();
    g.heartbeat_at(&mut c, 1_000 + WEDGED_AFTER_MS);
    assert!(c.try_claim_at(1_000 + WEDGED_AFTER_MS + 5).is_none());
    assert!(c.try_claim_at(1_000 + 2 * WEDGED_AFTER_MS).is_some());
}

#[test]
fn claims_carry_increasing_generations() {
    let mut c = ScanCoordinator::new();
    let a = c.try_claim_at(0).unwrap();
    assert_eq!(a.generation(), 1);
    let b = c.try_claim_at(WEDGED_AFTER_MS).unwrap();
    assert_eq!(b.generation(), 2);
}

#[test]
fn blocked_directories_survive_between_scans() {
    let mut c = ScanCoordinator::default();
    assert!(c.blocked().is_empty());

    c.remember_blocked(&vec![path_components("/tmp/webtop-test-closed")]);
    c.remember_blocked(&vec![path_components("/tmp/webtop-test-closed-too")]);

    let known = c.blocked();
    assert!(path_in(&known, &path_components("/tmp/webtop-test-closed")));
    assert!(
        path_in(&known, &path_components("/tmp/webtop-test-closed-too")),
        "later scans must add to what earlier ones learned, not replace it"
    );
}

#[test]
fn remembering_a_directory_twice_keeps_one_entry() {
    let mut c = ScanCoordinator::new();
    c.remember_blocked(&vec![path_components("/a/b")]);
    c.remember_blocked(&vec![path_components("/a/b"), path_components("/a/c")]);
    assert_eq!(c.blocked().len(), 2);
}

#[test]
fn the_root_itself_is_allowed() {
    let root = HOME;
    assert!(is_within_root(root, Some(root), Some(root)));
}

#[test]
fn a_real_directory_under_the_root_is_allowed() {
    assert!(is_within_root("/Users/me/Projects", Some("/Users/me/Projects"), Some(HOME)));
}

#[test]
fn absolute_paths_outside_the_root_are_rejected() {
    assert!(!is_within_root("/etc", Some("/private/etc"), Some(HOME)));
    assert!(!is_within_root("/System/Library", Some("/System/Library"), Some(HOME)));
}

#[test]
fn dot_dot_cannot_climb_out_of_the_root() {
    // Each of these resolves to somewhere; the `..` alone refuses it.
    assert!(!is_within_root("/Users/me/../../etc", Some("/private/etc"), Some(HOME)));
    assert!(!is_within_root("/Users/me/..", Some("/Users"), Some(HOME)));
    assert!(!is_within_root("/Users/me/../../../", Some("/"), Some(HOME)));
}

#[test]
fn a_symlink_pointing_out_of_the_root_is_rejected() {
    // A link inside home is judged by where it really leads.
    assert!(!is_within_root("/Users/me/escape", Some("/private/etc"), Some(HOME)));
}

#[test]
fn a_path_that_does_not_exist_is_rejected() {
    assert!(!is_within_root("/Users/me/no-such-directory-here", None, Some(HOME)));
}

#[test]
fn a_sibling_with_the_root_as_a_name_prefix_is_outside() {
    assert!(!is_within_root("/Users/meow", Some("/Users/meow"), Some(HOME)));
    assert!(!is_within_root(HOME, Some(HOME), None));
}

#[test]
fn the_scan_root_is_the_home_directory() {
    assert_eq!(scan_root("/Users/me"), vec![String::from("Users"), String::from("me")]);
    assert!(scan_root("/").is_empty());
}

#[test]
fn a_fresh_cache_defers_the_walk_across_a_restart() {
    let now = 100_000_000_000;
    let due_in = time_until_due(Some(now - 3_600_000), now);
    assert_eq!(due_in, FULL_SCAN_INTERVAL_MS - 3_600_000);
    assert!(due_in > 4 * 3_600_000 && due_in < FULL_SCAN_INTERVAL_MS);
}

#[test]
fn a_stale_or_absent_cache_is_due_immediately() {
    let now = 100_000_000_000;
    assert_eq!(time_until_due(None, now), 0, "a database that has never been scanned is due now");
    assert_eq!(time_until_due(Some(now - 7 * 3600 * 1000), now), 0, "older than the interval is due now");
}

#[test]
fn a_timestamp_from_the_future_is_treated_as_fresh() {
    let now = 100_000_000_000;
    assert_eq!(time_until_due(Some(now + 3_600_000), now), FULL_SCAN_INTERVAL_MS);
}

#[test]
fn extreme_timestamps_do_not_overflow() {
    assert_eq!(saturating_sub_i64(i64::MIN, 1), i64::MIN);
    assert_eq!(saturating_sub_i64(i64::MAX, -1), i64::MAX);
    assert_eq!(time_until_due(Some(i64::MIN), i64::MAX), 0);
    assert_eq!(time_until_due(Some(i64::MAX), i64::MIN), FULL_SCAN_INTERVAL_MS);
}

#[test]
fn an_unrecorded_folder_is_assumed_expensive() {
    assert_eq!(verify_cost(Some(12)), 12);
    assert_eq!(verify_cost(None), u64::MAX);
}

#[test]
fn the_listing_limit_is_clamped() {
    assert_eq!(effective_limit(None), 5);
    assert_eq!(effective_limit(Some(0)), 1);
    assert_eq!(effective_limit(Some(7)), 7);
    assert_eq!(effective_limit(Some(500)), 50);
}

#[test]
fn verify_keeps_only_allowed_paths_up_to_the_cap() {
    let paths: Vec<String> = (0..20).map(|i| format!("/Users/me/d{i}")).collect();
    let mut allowed = vec![true; 20];
    allowed[0] = false;
    allowed[3] = false;
    let picked = select_verify_paths(&paths, &allowed);
    assert_eq!(picked.len(), MAX_VERIFY_PATHS);
    assert_eq!(picked[0], "/Users/me/d1");
    assert_eq!(picked[2], "/Users/me/d4");
    assert!(select_verify_paths(&paths, &vec![false; 20]).is_empty());
}

#[test]
fn verify_and_rescan_responses_report_what_happened() {
    assert!(!verify_response(Vec::new()).ran);
    assert!(rescan_response(false).started);
    assert!(!rescan_response(true).started);
}

#[test]
fn history_ranges_have_windows_and_buckets() {
    assert_eq!(window_ms_for_range("1h"), Some(3_600_000));
    assert_eq!(bucket_ms_for_range("7d"), Some(1_680_000));
    assert_eq!(window_ms_for_range("2h"), None);
    assert_eq!(bucket_ms_for_range(""), None);
}

#[test]
fn a_history_plan_reads_the_week_from_the_rollup() {
    let now = 1_000_000_000_000;
    let week = history_plan(Some("7d"), now).unwrap();
    assert_eq!(week.since, now - 604_800_000);
    assert!(week.rolled);
    let hour = history_plan(None, now).unwrap();
    assert_eq!(hour.bucket_ms, 10_000);
    assert!(!hour.rolled);
    assert_eq!(history_plan(Some("1y"), now), None);
    assert_eq!(history_plan(Some("1m"), 10).unwrap().since, 0);
}

#[test]
fn network_totals_start_where_the_window_starts() {
    assert_eq!(totals_since(Some("24h"), 100_000_000), Some(100_000_000 - 86_400_000));
    assert_eq!(totals_since(Some("bogus"), 100), None);
}

#[test]
fn zone_offsets_follow_the_browser_convention() {
    assert_eq!(tz_offset_from_east(7200), -120);
    assert_eq!(tz_offset_from_east(-18000), 300);
    assert_eq!(tz_offset_from_east(0), 0);
}

#[test]
fn service_messages_name_the_service() {
    assert_eq!(restart_message("api", Some(42)), "sent SIGTERM to api (pid Some(42)); launchd will restart it");
    assert_eq!(restart_message("api", None), "sent SIGTERM to api (pid None); launchd will restart it");
    assert_eq!(could_not_probe("db"), "could not probe 'db'");
}

#[test]
fn a_failed_manifest_load_explains_the_empty_list() {
    let ok = services_response::<u8>(Ok(vec![1, 2]), String::from("/m.toml"));
    assert_eq!(ok.services, vec![1, 2]);
    assert!(ok.error.is_none());
    let err = services_response::<u8>(Err(String::from("missing")), String::from("/m.toml"));
    assert!(err.services.is_empty());
    assert_eq!(err.error.as_deref(), Some("missing"));
    assert_eq!(err.manifest_path, "/m.toml");
}

#[test]
fn control_checks_header_then_verb_then_declared() {
    match control_step(false, "bogus", "api", Some(false)) {
        ControlStep::Refuse(s, m) => {
            assert_eq!(s, 403);
            assert_eq!(m.message, "missing x-svc-control header; control requests must set it");
        }
        _ => panic!("missing header must be refused first"),
    }
    match control_step(true, "bogus", "api", Some(false)) {
        ControlStep::Refuse(s, m) => {
            assert_eq!(s, 400);
            assert_eq!(m.message, "unknown verb 'bogus'");
        }
        _ => panic!("unknown verb must be refused before the lookup"),
    }
    assert!(matches!(control_step(true, "restart", "api", None), ControlStep::LookUp));
    match control_step(true, "restart", "api", Some(false)) {
        ControlStep::Refuse(s, m) => {
            assert_eq!(s, 404);
            assert_eq!(m.message, "no service named 'api' in the manifest");
        }
        _ => panic!("an undeclared service must be refused"),
    }
    assert!(matches!(control_step(true, "stop", "api", Some(true)), ControlStep::RunHelper));
}
