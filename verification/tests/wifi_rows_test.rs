use webtop::collector::net_interfaces::{wifi_rows, NetInterfaceInfo};

fn row(name: &str, kind: &'static str) -> NetInterfaceInfo {
    NetInterfaceInfo {
        name: name.to_string(),
        is_up: true,
        mac: None,
        ipv4: Vec::new(),
        ipv6: Vec::new(),
        link_speed_bps: None,
        rx_bytes_sec: 0,
        tx_bytes_sec: 0,
        mtu: None,
        kind,
        wireless: None,
    }
}

#[test]
fn only_wifi_rows_get_wifi_details() {
    let rows = vec![row("en0", "wifi"), row("en1", "ethernet"), row("lo0", "loopback"), row("en5", "wifi")];
    assert_eq!(wifi_rows(&rows), vec![0, 3]);
    assert!(wifi_rows(&vec![row("en1", "ethernet")]).is_empty());
}
