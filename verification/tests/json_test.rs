use webtop::collector::net_interfaces::{profiler_interfaces, wifi_info_from_report};
use webtop::json::{get, number_text_as_u32, text_of, u32_of, Json};
use webtop::system_info::{display_core_fields_of, gpu_cores_from_displays};

fn s(x: &str) -> Json {
    Json::Str(x.to_string())
}

fn obj(members: Vec<(&str, Json)>) -> Json {
    Json::Object(members.into_iter().map(|(k, v)| (k.to_string(), v)).collect())
}

fn report(rate: &str) -> Json {
    let network = obj(vec![
        ("_name", s("HomeNet")),
        ("spairport_network_bssid", s("<redacted>")),
        ("spairport_network_channel", s("149 (5GHz, 80MHz)")),
        ("spairport_signal_noise", s("-58 dBm / -92 dBm")),
        ("spairport_network_rate", Json::Number(rate.to_string())),
        ("spairport_security_mode", s("spairport_security_mode_wpa3_transition")),
    ]);
    let en0 = obj(vec![("_name", s("en0")), ("spairport_current_network_information", network)]);
    let awdl = obj(vec![("_name", s("awdl0"))]);
    obj(vec![(
        "SPAirPortDataType",
        Json::Array(vec![obj(vec![("spairport_airport_interfaces", Json::Array(vec![awdl, en0]))])]),
    )])
}

#[test]
fn number_text_truncates_like_a_cast() {
    assert_eq!(number_text_as_u32("866"), 866);
    assert_eq!(number_text_as_u32("144.5"), 144);
    assert_eq!(number_text_as_u32("0.5"), 0);
    assert_eq!(number_text_as_u32("-3"), 0);
    assert_eq!(number_text_as_u32("5000000000"), u32::MAX);
    assert_eq!(number_text_as_u32("1e16"), u32::MAX);
    assert_eq!(number_text_as_u32("5e-7"), 0);
}

#[test]
fn members_are_found_by_name() {
    let j = obj(vec![("a", s("x")), ("n", Json::Number("12".to_string()))]);
    assert!(get(&j, "missing").is_none());
    assert_eq!(text_of(&j, "a"), Some("x".to_string()));
    assert_eq!(text_of(&j, "n"), None);
    assert_eq!(u32_of(&j, "n"), Some(12));
    assert!(get(&Json::Null, "a").is_none());
}

#[test]
fn profiler_report_gives_the_wifi_details_of_the_interface() {
    let r = report("866.5");
    assert_eq!(profiler_interfaces(&r).unwrap().len(), 2);
    let w = wifi_info_from_report(&r, "en0").unwrap();
    assert_eq!(w.ssid, Some("HomeNet".to_string()));
    assert_eq!(w.bssid, None);
    assert_eq!(w.channel, Some(149));
    assert_eq!(w.rssi_dbm, Some(-58));
    assert_eq!(w.noise_dbm, Some(-92));
    assert_eq!(w.tx_rate_mbps, Some(866));
    assert!(wifi_info_from_report(&r, "awdl0").is_none());
    assert!(wifi_info_from_report(&r, "en9").is_none());
    assert!(wifi_info_from_report(&Json::Null, "en0").is_none());
}

#[test]
fn display_report_gives_the_gpu_core_count() {
    let r = obj(vec![(
        "SPDisplaysDataType",
        Json::Array(vec![obj(vec![("_name", s("Apple M3 Max"))]), obj(vec![("sppci_cores", s("40"))])]),
    )]);
    let fields = display_core_fields_of(&r);
    assert_eq!(fields, vec![None, Some("40".to_string())]);
    assert_eq!(gpu_cores_from_displays(&fields), Some(40));
    assert!(display_core_fields_of(&Json::Bool(true)).is_empty());
}
