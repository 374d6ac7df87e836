use webtop::collector::disk_io::{counter_delta, counter_from_raw, total_of_devices, DiskIoSampler};
use webtop::collector::gpu_procs::{accumulate_gpu_time, app_usage_gpu_time, parse_creator_pid};
use webtop::collector::metrics::{
    disk_capacity, efficiency_core_count, is_countable_iface, month_key, total_network, DiskRefreshClock,
    NetCounters,
};
use webtop::collector::net_interfaces::{
    channel_to_band, classify_name_fallback, classify_sc_interface, kind_rank, normalize_security,
    parse_channel, parse_media_speed, parse_noise, parse_rssi, security_label, WifiSecurity,
};
use webtop::collector::processes::{merge_rankings, parse_args_output, parse_ps_line, truncate_args, ARGS_MAX};
use webtop::collector::footprint::phys_footprint_or;
use webtop::collector::mem_breakdown::{breakdown_from_pages, page_size_or_default, PageCounts, FALLBACK_PAGE_SIZE};
use std::collections::HashMap;

#[test]
fn cumulative_disk_counters_handle_first_sample_and_reset() {
    assert_eq!(counter_delta(None, 1_000), 0);
    assert_eq!(counter_delta(Some(1_000), 1_750), 750);
    assert_eq!(counter_delta(Some(1_750), 100), 0);
}

#[test]
fn disk_sampler_reports_deltas_and_absorbs_resets() {
    let mut s = DiskIoSampler::new(Some((100, 200)));
    assert_eq!(s.sample_delta(Some((150, 260))), (50, 60));
    // A counter that went backwards (device removed) reads as no traffic.
    assert_eq!(s.sample_delta(Some((10, 300))), (0, 40));
    // A failed read leaves the baseline and reports nothing.
    assert_eq!(s.sample_delta(None), (0, 0));
    assert_eq!(s.sample_delta(Some((20, 310))), (10, 10));
}

#[test]
fn a_sampler_without_a_baseline_reports_zero_first() {
    let mut s = DiskIoSampler::new(None);
    assert_eq!(s.sample_delta(Some((5_000, 7_000))), (0, 0));
    assert_eq!(s.sample_delta(Some((5_500, 7_100))), (500, 100));
}

#[test]
fn device_totals_saturate_instead_of_wrapping() {
    assert_eq!(total_of_devices(&vec![(1, 2), (3, 4)]), (4, 6));
    assert_eq!(total_of_devices(&vec![(u64::MAX, 1), (5, 1)]), (u64::MAX, 2));
    assert_eq!(total_of_devices(&vec![]), (0, 0));
}

#[test]
fn negative_raw_counters_are_rejected() {
    assert_eq!(counter_from_raw(Some(42)), Some(42));
    assert_eq!(counter_from_raw(Some(-1)), None);
    assert_eq!(counter_from_raw(None), None);
}

#[test]
fn native_creator_string_yields_pid() {
    assert_eq!(parse_creator_pid("pid 426, WindowServer"), Some(426));
    assert_eq!(parse_creator_pid("WindowServer"), None);
}

#[test]
fn creator_strings_without_a_number_yield_nothing() {
    assert_eq!(parse_creator_pid("pid , x"), None);
    assert_eq!(parse_creator_pid("pid 12"), Some(12));
    assert_eq!(parse_creator_pid("pid 99999999999, big"), None);
}

#[test]
fn gpu_time_sums_the_readable_entries() {
    assert_eq!(app_usage_gpu_time(&vec![Some(10), None, Some(5), Some(-3)]), 15);
    assert_eq!(app_usage_gpu_time(&vec![]), 0);
    let mut totals: HashMap<u32, u64> = HashMap::new();
    accumulate_gpu_time(&mut totals, 7, 100);
    accumulate_gpu_time(&mut totals, 7, 50);
    accumulate_gpu_time(&mut totals, 8, 1);
    assert_eq!(totals[&7], 150);
    assert_eq!(totals[&8], 1);
}

#[test]
fn counts_physical_nics() {
    assert!(is_countable_iface("en0"));
    assert!(is_countable_iface("en1"));
    assert!(is_countable_iface("eth0"));
}

#[test]
fn skips_virtual_and_peer_interfaces() {
    for n in [
        "lo0", "utun0", "utun10", "ipsec0", "ppp0", "awdl0", "llw0", "ap1", "bridge0", "bridge100", "anpi0",
        "pktap0", "gif0", "stf0", "tap0", "tun0",
    ] {
        assert!(!is_countable_iface(n), "{n} should be skipped");
    }
}

#[test]
fn network_totals_count_only_physical_interfaces() {
    let ifaces = vec![
        (String::from("en0"), 100, 10),
        (String::from("lo0"), 5_000, 5_000),
        (String::from("en1"), 1, 2),
        (String::from("utun3"), 7, 7),
    ];
    assert_eq!(total_network(&ifaces), (101, 12));
}

#[test]
fn net_counters_report_the_growth_since_the_last_reading() {
    let mut c = NetCounters::new(1_000, 2_000);
    assert_eq!(c.advance(1_500, 2_100), (500, 100));
    // An interface that vanished lowers the total: no negative traffic.
    assert_eq!(c.advance(400, 2_200), (0, 100));
    assert_eq!(c.advance(450, 2_200), (50, 0));
}

#[test]
fn the_disk_list_is_refreshed_on_the_first_tick_and_then_periodically() {
    let mut clock = DiskRefreshClock::new();
    let mut due = Vec::new();
    for _ in 0..70 {
        due.push(clock.tick());
    }
    assert!(due[0]);
    assert!(!due[1]);
    assert!(due[15]);
    assert!(!due[14]);
    assert_eq!(due.iter().filter(|d| **d).count(), 5);
}

#[test]
fn disk_capacity_reports_the_root_volume_else_the_largest_disk() {
    let disks = vec![(String::from("/Volumes/x"), 5_000, 500), (String::from("/"), 1_000, 400)];
    assert_eq!(disk_capacity(&disks), (600, 1_000));
    let no_root = vec![(String::from("/Volumes/a"), 700, 100), (String::from("/Volumes/b"), 900, 300)];
    assert_eq!(disk_capacity(&no_root), (600, 900));
    assert_eq!(disk_capacity(&vec![]), (0, 0));
}

#[test]
fn efficiency_cores_are_known_for_the_common_core_counts() {
    assert_eq!(efficiency_core_count(8), Some(4));
    assert_eq!(efficiency_core_count(3), None);
}

#[test]
fn month_keys_are_zero_padded() {
    assert_eq!(month_key(2026, 4), "2026-04");
    assert_eq!(month_key(2025, 12), "2025-12");
}

#[test]
fn system_configuration_types_map_to_ui_kinds() {
    assert_eq!(classify_sc_interface("IEEE80211", "Wi-Fi"), Some("wifi"));
    assert_eq!(classify_sc_interface("Ethernet", "USB 10/100/1000 LAN"), Some("ethernet"));
    assert_eq!(classify_sc_interface("Bridge", "Thunderbolt Bridge"), Some("bridge"));
    assert_eq!(classify_sc_interface("Unknown", "Unknown"), None);
}

#[test]
fn native_wifi_security_has_stable_labels() {
    assert_eq!(security_label(WifiSecurity::Unsecured), Some("Open".into()));
    assert_eq!(security_label(WifiSecurity::Wpa3Transition), Some("WPA2/WPA3 Personal".into()));
    assert_eq!(security_label(WifiSecurity::Unknown), None);
}

#[test]
fn interface_kinds_sort_wireless_then_wired_then_virtual() {
    assert!(kind_rank("wifi") < kind_rank("ethernet"));
    assert!(kind_rank("ethernet") < kind_rank("vpn"));
    assert_eq!(kind_rank("something else"), 5);
    assert_eq!(classify_name_fallback("utun4"), "vpn");
    assert_eq!(classify_name_fallback("lo0"), "loopback");
}

#[test]
fn wifi_channels_and_bands_are_read_from_profiler_text() {
    assert_eq!(parse_channel("149 (5GHz, 80MHz)"), Some(149));
    assert_eq!(parse_channel("none"), None);
    assert_eq!(channel_to_band(6), "2.4 GHz");
    assert_eq!(channel_to_band(149), "5 GHz");
}

#[test]
fn signal_levels_and_security_names_are_normalised() {
    assert_eq!(parse_rssi("-52 dBm / -92 dBm"), Some(-52));
    assert_eq!(parse_noise("-52 dBm / -92 dBm"), Some(-92));
    assert_eq!(parse_rssi("n/a"), None);
    assert_eq!(normalize_security("spairport_security_mode_wpa2_personal"), "wpa2 personal");
    assert_eq!(normalize_security("WPA3"), "WPA3");
}

#[test]
fn media_speed_comes_from_the_ifconfig_media_line() {
    assert_eq!(parse_media_speed("media: autoselect (1000baseT <full-duplex>)"), Some(1_000_000_000));
    assert_eq!(parse_media_speed("media: autoselect"), None);
}

#[test]
fn parses_full_line_with_spaces_in_name() {
    let line = " 1341 alice  1011:41.34  123456 /Applications/Google Chrome.app/Contents/MacOS/Google Chrome Helper (Renderer)";
    let row = parse_ps_line(line).expect("should parse");
    assert_eq!(row.pid, 1341);
    assert_eq!(row.user, "alice");
    assert_eq!(row.rss_kb, 123456);
    assert_eq!(row.name, "Google Chrome Helper (Renderer)");
}

#[test]
fn parses_root_owned_line() {
    let line = "    1 root     20:54.34   34816 /sbin/launchd";
    let row = parse_ps_line(line).expect("should parse");
    assert_eq!(row.pid, 1);
    assert_eq!(row.user, "root");
    assert_eq!(row.name, "launchd");
}

#[test]
fn skips_blank_and_malformed_lines() {
    assert!(parse_ps_line("").is_none());
    assert!(parse_ps_line("   ").is_none());
    assert!(parse_ps_line("notanumber root 0:01 100 /bin/x").is_none());
}

#[test]
fn a_parsed_row_carries_its_cpu_time_and_resident_bytes() {
    let row = parse_ps_line("    1 root     20:54.34   34816 /sbin/launchd").unwrap();
    assert_eq!(row.cpu_time_field, "20:54.34");
    assert_eq!(row.mem_bytes, 34816 * 1024);
    assert_eq!(row.args, "");
}

#[test]
fn long_command_lines_are_cut_on_a_character_boundary() {
    let short = "a b c";
    assert_eq!(truncate_args(short), short);
    let long: String = std::iter::repeat("é").take(ARGS_MAX).collect();
    let cut = truncate_args(&long);
    assert!(cut.len() <= ARGS_MAX);
    assert!(long.starts_with(&cut));
    assert_eq!(cut.len(), ARGS_MAX);
    // With spaces the cut falls before the last whole token.
    let words: String = std::iter::repeat("a ").take(300).collect();
    let cut = truncate_args(&words);
    assert_eq!(cut.len(), ARGS_MAX - 1);
    assert!(cut.ends_with('a'));
}

#[test]
fn args_output_pairs_each_pid_with_its_command_line() {
    let text = "  12 /bin/zsh -l\n 345 /usr/bin/python3 x.py\nnot-a-pid thing\n";
    let parsed = parse_args_output(text);
    assert_eq!(parsed, vec![(12, String::from("/bin/zsh -l")), (345, String::from("/usr/bin/python3 x.py"))]);
}

#[test]
fn rankings_merge_without_repeating_a_pid() {
    assert_eq!(merge_rankings(&vec![5, 3, 5, 9, 3]), vec![5, 3, 9]);
}

#[test]
fn footprint_falls_back_only_when_unreadable() {
    assert_eq!(phys_footprint_or(Some(777), 4096), 777);
    assert_eq!(phys_footprint_or(None, 4096), 4096);
}

#[test]
fn page_size_defaults_when_sysctl_fails() {
    assert_eq!(page_size_or_default(0, 4096), 4096);
    assert_eq!(page_size_or_default(-1, 4096), FALLBACK_PAGE_SIZE);
    assert_eq!(page_size_or_default(0, 0), FALLBACK_PAGE_SIZE);
}

#[test]
fn memory_breakdown_multiplies_pages_by_page_size() {
    let c = PageCounts { free: 6, active: 3, inactive: 4, wire: 2, speculative: 1, compressor: 5 };
    let m = breakdown_from_pages(10, c);
    assert_eq!(m.wired, 20);
    assert_eq!(m.active, 30);
    assert_eq!(m.inactive, 40);
    assert_eq!(m.compressed, 50);
    assert_eq!(m.free, 70);
    let huge = PageCounts { free: u32::MAX, active: 0, inactive: 0, wire: 0, speculative: 0, compressor: 0 };
    assert_eq!(breakdown_from_pages(u64::MAX, huge).free, u64::MAX);
}

#[test]
fn unreadable_pid_falls_back_rather_than_reporting_zero() {
    // The kernel declined: the fallback comes back, never a silent 0.
    let fallback = 4_096;
    assert_eq!(phys_footprint_or(None, fallback), fallback);
    assert_eq!(phys_footprint_or(Some(0), fallback), 0);
}

#[test]
fn a_pid_that_cannot_exist_yields_the_fallback() {
    assert_eq!(phys_footprint_or(None, 777), 777);
}
