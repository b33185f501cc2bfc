use esp_hal_app_framework::improv_wifi::{ImprovWifiPacket, ImprovWifiPacketData};
use esp_hal_app_framework::scan::{scan_reply, unique_network_positions, ScannedNetwork};

fn net(ssid: &str, rssi: i8, auth: bool) -> ScannedNetwork {
    ScannedNetwork { ssid: ssid.to_string(), signal_strength: rssi, auth_required: auth }
}

fn strings_of(frame: &[u8]) -> Vec<String> {
    match ImprovWifiPacket::from_bytes((frame, 0)) {
        Ok((_, p)) => match p.data {
            ImprovWifiPacketData::RPCResult(r) => r.strings,
            _ => panic!("expected a result"),
        },
        Err(e) => panic!("{:?}", e),
    }
}

#[test]
fn duplicate_ssids_are_reported_once_in_first_order() {
    let networks = vec![net("A", -30, true), net("B", -60, false), net("A", -90, false), net("C", -45, true)];
    assert_eq!(unique_network_positions(&networks), vec![0, 1, 3]);
    let frames = scan_reply(&networks);
    assert_eq!(frames.len(), 4);
    assert_eq!(strings_of(&frames[0]), vec!["A", "-30", "YES"]);
    assert_eq!(strings_of(&frames[1]), vec!["B", "-60", "NO"]);
    assert_eq!(strings_of(&frames[2]), vec!["C", "-45", "YES"]);
    assert!(strings_of(&frames[3]).is_empty());
}

#[test]
fn empty_scan_gives_only_the_end_marker() {
    let frames = scan_reply(&[]);
    assert_eq!(frames.len(), 1);
    assert!(strings_of(&frames[0]).is_empty());
}

#[test]
fn signal_strength_extremes_are_decimal() {
    let frames = scan_reply(&[net("x", -128, false), net("y", 127, true), net("z", 0, true)]);
    assert_eq!(strings_of(&frames[0])[1], "-128");
    assert_eq!(strings_of(&frames[1])[1], "127");
    assert_eq!(strings_of(&frames[2])[1], "0");
}

#[test]
fn all_same_ssid_keeps_the_first() {
    let networks = vec![net("S", -1, true), net("S", -2, true), net("S", -3, true)];
    assert_eq!(unique_network_positions(&networks), vec![0]);
    let frames = scan_reply(&networks);
    assert_eq!(frames.len(), 2);
    assert_eq!(strings_of(&frames[0]), vec!["S", "-1", "YES"]);
}
