use esp_hal_app_framework::connectivity::{
    Action, ConnectionManager, ConnectivityState, DeviceIdentity, Event, WebConfigMode, WifiConfig,
};
use esp_hal_app_framework::improv_wifi::{
    CurrentStateOption, ErrorStateOption, ImprovWifiPacket, ImprovWifiPacketData, RPCCommand,
    RPCCommandStruct, RPCResultStruct, SendWifiSettingsStruct,
};
use esp_hal_app_framework::scan::ScannedNetwork;

fn identity() -> DeviceIdentity {
    DeviceIdentity {
        firmware_name: "demo-app".to_string(),
        firmware_version: "0.4.1".to_string(),
        chip: "ESP32S3".to_string(),
        device_name: "WT32-SC01-Plus".to_string(),
        https: false,
        ap_address: (192, 168, 2, 1),
    }
}

fn no_credentials() -> WifiConfig {
    WifiConfig { ssid: None, password: None }
}

fn bytes_of(packet: ImprovWifiPacket) -> Vec<u8> {
    packet.to_bytes().unwrap()
}

fn command(c: RPCCommand) -> Vec<u8> {
    bytes_of(ImprovWifiPacket { data: ImprovWifiPacketData::RPC(RPCCommandStruct { data: c }) })
}

fn settings(ssid: &str, password: &str) -> Vec<u8> {
    command(RPCCommand::SendWifiSettings(SendWifiSettingsStruct {
        ssid: ssid.to_string(),
        password: password.to_string(),
    }))
}

fn device_info_frame() -> Vec<u8> {
    bytes_of(ImprovWifiPacket::new_rpc_result(
        RPCResultStruct::new_response_to_request_device_information(
            "demo-app",
            "0.4.1",
            "ESP32S3",
            "WT32-SC01-Plus",
        ),
    ))
}

fn sent(action: &Action) -> Vec<u8> {
    match action {
        Action::SendFrame(b) => b.clone(),
        _ => panic!("expected a frame"),
    }
}

fn asks_connect(actions: &[Action]) -> bool {
    actions.iter().any(|a| matches!(a, Action::Connect(_, _)))
}

fn count_disconnect_notices(actions: &[Action]) -> usize {
    actions.iter().filter(|a| matches!(a, Action::NotifyDisconnected)).count()
}

/// Boots without credentials and provisions over serial up to `Connected`.
fn provisioned_machine() -> ConnectionManager {
    let (mut m, _) = ConnectionManager::boot(identity(), no_credentials());
    m.handle(Event::SerialData(settings("Home", "pw123456")));
    m.handle(Event::CredentialsChecked(true));
    m.handle(Event::AddressAcquired((10, 0, 0, 7)));
    m.handle(Event::CredentialsStored(true));
    assert_eq!(m.state(), ConnectivityState::Connected);
    m
}

#[test]
fn stored_credentials_go_straight_to_connecting() {
    let stored = WifiConfig { ssid: Some("Home".to_string()), password: Some("pw".to_string()) };
    let (m, actions) = ConnectionManager::boot(identity(), stored);
    assert_eq!(m.state(), ConnectivityState::Connecting);
    assert_eq!(actions.len(), 1);
    match &actions[0] {
        Action::Connect(s, p) => {
            assert_eq!(s, "Home");
            assert_eq!(p, "pw");
        }
        _ => panic!("expected a connect"),
    }
    assert!(!actions.iter().any(|a| matches!(a, Action::SendFrame(_) | Action::SendHello(_))));
}

#[test]
fn ssid_without_password_is_not_credentials() {
    let stored = WifiConfig { ssid: Some("Home".to_string()), password: None };
    let (m, actions) = ConnectionManager::boot(identity(), stored);
    assert_eq!(m.state(), ConnectivityState::Bootstrapping);
    assert!(!asks_connect(&actions));
}

#[test]
fn boot_without_credentials_starts_access_point() {
    let (m, actions) = ConnectionManager::boot(identity(), no_credentials());
    assert_eq!(m.state(), ConnectivityState::Bootstrapping);
    assert_eq!(actions.len(), 4);
    assert!(matches!(actions[0], Action::StartAccessPoint));
    assert!(matches!(actions[1], Action::StartWebApp(WebConfigMode::AP)));
    assert!(matches!(actions[2], Action::ReportAddress(Some((192, 168, 2, 1)), true)));
    match &actions[3] {
        Action::SendHello(b) => {
            assert_eq!(b, &bytes_of(ImprovWifiPacket::new_current_state(CurrentStateOption::Ready)))
        }
        _ => panic!("expected the hello frame"),
    }
}

#[test]
fn requests_are_answered_and_no_connect_before_settings() {
    let (mut m, _) = ConnectionManager::boot(identity(), no_credentials());
    let mut input = command(RPCCommand::RequestCurrentState);
    input.extend(command(RPCCommand::RequestDeviceInformation));
    let actions = m.handle(Event::SerialData(input));
    assert_eq!(m.state(), ConnectivityState::AwaitingSettings);
    assert_eq!(actions.len(), 2);
    assert_eq!(sent(&actions[0]), bytes_of(ImprovWifiPacket::new_current_state(CurrentStateOption::Ready)));
    assert_eq!(sent(&actions[1]), device_info_frame());
    assert!(!asks_connect(&actions));
}

#[test]
fn frame_split_over_reads_is_kept_until_complete() {
    let (mut m, _) = ConnectionManager::boot(identity(), no_credentials());
    let frame = command(RPCCommand::RequestCurrentState);
    let first = m.handle(Event::SerialData(frame[..5].to_vec()));
    assert!(first.is_empty());
    let second = m.handle(Event::SerialData(frame[5..].to_vec()));
    assert_eq!(second.len(), 1);
}

#[test]
fn wifi_settings_are_checked_then_rejected() {
    let (mut m, _) = ConnectionManager::boot(identity(), no_credentials());
    let actions = m.handle(Event::SerialData(settings("Home", "wrong")));
    assert_eq!(m.state(), ConnectivityState::VerifyingSettings);
    assert_eq!(actions.len(), 4);
    assert_eq!(
        sent(&actions[0]),
        bytes_of(ImprovWifiPacket::new_current_state(CurrentStateOption::Provisioning))
    );
    assert!(matches!(actions[1], Action::StopWebApp));
    assert!(matches!(actions[2], Action::StopAccessPoint));
    match &actions[3] {
        Action::TryCredentials(s, p) => {
            assert_eq!(s, "Home");
            assert_eq!(p, "wrong");
        }
        _ => panic!("expected a credentials check"),
    }
    let rejected = m.handle(Event::CredentialsChecked(false));
    assert_eq!(m.state(), ConnectivityState::AwaitingSettings);
    assert_eq!(rejected.len(), 1);
    assert_eq!(
        sent(&rejected[0]),
        bytes_of(ImprovWifiPacket::new_error_state(ErrorStateOption::UnableToConnect))
    );
    // the access point is not started again: a second attempt does not stop it twice
    let again = m.handle(Event::SerialData(settings("Home", "right")));
    assert_eq!(again.len(), 2);
    assert!(matches!(again[1], Action::TryCredentials(_, _)));
    assert!(!asks_connect(&again));
}

#[test]
fn provisioning_stores_credentials_and_redirects() {
    let (mut m, _) = ConnectionManager::boot(identity(), no_credentials());
    m.handle(Event::SerialData(settings("Home", "pw123456")));
    let checked = m.handle(Event::CredentialsChecked(true));
    assert_eq!(m.state(), ConnectivityState::Connecting);
    assert_eq!(checked.len(), 1);
    assert!(matches!(checked[0], Action::WaitForAddress));
    let address = m.handle(Event::AddressAcquired((10, 0, 0, 7)));
    assert_eq!(address.len(), 2);
    assert!(matches!(address[0], Action::ReportAddress(Some((10, 0, 0, 7)), false)));
    match &address[1] {
        Action::StoreCredentials(s, p) => {
            assert_eq!(s, "Home");
            assert_eq!(p, "pw123456");
        }
        _ => panic!("expected storing"),
    }
    let stored = m.handle(Event::CredentialsStored(true));
    assert_eq!(m.state(), ConnectivityState::Connected);
    assert_eq!(stored.len(), 4);
    assert_eq!(
        sent(&stored[0]),
        bytes_of(ImprovWifiPacket::new_current_state(CurrentStateOption::Provisioned))
    );
    assert!(matches!(stored[1], Action::StartWebApp(WebConfigMode::STA)));
    assert_eq!(
        sent(&stored[2]),
        bytes_of(ImprovWifiPacket::new_rpc_result(
            RPCResultStruct::new_response_to_send_wifi_settings("http://10.0.0.7")
        ))
    );
    assert!(matches!(stored[3], Action::NotifyConnected));
}

#[test]
fn failed_store_halts_provisioning() {
    let (mut m, _) = ConnectionManager::boot(identity(), no_credentials());
    m.handle(Event::SerialData(settings("Home", "pw")));
    m.handle(Event::CredentialsChecked(true));
    m.handle(Event::AddressAcquired((10, 0, 0, 7)));
    let failed = m.handle(Event::CredentialsStored(false));
    assert_eq!(failed.len(), 1);
    assert!(matches!(failed[0], Action::Halt));
    assert_ne!(m.state(), ConnectivityState::Connected);
}

#[test]
fn reconnect_after_loss_notices_disconnect_once() {
    let mut m = provisioned_machine();
    let mut all = Vec::new();
    all.extend(m.handle(Event::LinkLost));
    assert_eq!(m.state(), ConnectivityState::Disconnected);
    for _ in 0..5 {
        let retry = m.handle(Event::BackoffElapsed);
        assert!(asks_connect(&retry));
        all.extend(retry);
        all.extend(m.handle(Event::ConnectFinished(false)));
        assert_eq!(m.state(), ConnectivityState::Disconnected);
    }
    all.extend(m.handle(Event::BackoffElapsed));
    all.extend(m.handle(Event::ConnectFinished(true)));
    all.extend(m.handle(Event::AddressAcquired((10, 0, 0, 8))));
    assert_eq!(m.state(), ConnectivityState::Connected);
    assert_eq!(count_disconnect_notices(&all), 1);
    assert_eq!(all.iter().filter(|a| matches!(a, Action::NotifyConnected)).count(), 1);
}

#[test]
fn link_loss_reports_no_address_then_backs_off() {
    let mut m = provisioned_machine();
    let lost = m.handle(Event::LinkLost);
    assert_eq!(lost.len(), 3);
    assert!(matches!(lost[0], Action::ReportAddress(None, false)));
    assert!(matches!(lost[1], Action::NotifyDisconnected));
    assert!(matches!(lost[2], Action::Backoff));
    assert!(m.handle(Event::LinkLost).is_empty());
}

#[test]
fn corrupt_bytes_are_dropped_to_the_terminator() {
    let (mut m, _) = ConnectionManager::boot(identity(), no_credentials());
    let mut input = vec![0x01, 0x02, 0x0A];
    input.extend(command(RPCCommand::RequestCurrentState));
    let actions = m.handle(Event::SerialData(input));
    assert_eq!(actions.len(), 1);
    assert_eq!(sent(&actions[0]), bytes_of(ImprovWifiPacket::new_current_state(CurrentStateOption::Ready)));
}

#[test]
fn truncated_device_information_request_is_answered() {
    let (mut m, _) = ConnectionManager::boot(identity(), no_credentials());
    let request = command(RPCCommand::RequestDeviceInformation);
    assert_eq!(request[request.len() - 2], 0xE6);
    let actions = m.handle(Event::SerialData(request[3..].to_vec()));
    assert_eq!(actions.len(), 1);
    assert_eq!(sent(&actions[0]), device_info_frame());
}

#[test]
fn serial_peer_gone_halts_bootstrap() {
    let (mut m, _) = ConnectionManager::boot(identity(), no_credentials());
    let actions = m.handle(Event::SerialClosed);
    assert_eq!(actions.len(), 1);
    assert!(matches!(actions[0], Action::Halt));
}

#[test]
fn scan_request_is_answered_once_the_scan_finishes() {
    let (mut m, _) = ConnectionManager::boot(identity(), no_credentials());
    let actions = m.handle(Event::SerialData(command(RPCCommand::RequestScannedWifiNetworks)));
    assert_eq!(actions.len(), 1);
    assert!(matches!(actions[0], Action::Scan));
    let networks = vec![
        ScannedNetwork { ssid: "A".to_string(), signal_strength: -40, auth_required: true },
        ScannedNetwork { ssid: "B".to_string(), signal_strength: -70, auth_required: false },
        ScannedNetwork { ssid: "A".to_string(), signal_strength: -80, auth_required: true },
        ScannedNetwork { ssid: "C".to_string(), signal_strength: 5, auth_required: false },
    ];
    let replies = m.handle(Event::ScanFinished(networks));
    assert_eq!(replies.len(), 4);
    let expect = |ssid: &str, rssi: &str, auth: bool| {
        bytes_of(ImprovWifiPacket::new_rpc_result(
            RPCResultStruct::new_response_to_request_scanned_wifi_networks(ssid, rssi, auth),
        ))
    };
    assert_eq!(sent(&replies[0]), expect("A", "-40", true));
    assert_eq!(sent(&replies[1]), expect("B", "-70", false));
    assert_eq!(sent(&replies[2]), expect("C", "5", false));
    assert_eq!(
        sent(&replies[3]),
        bytes_of(ImprovWifiPacket::new_rpc_result(
            RPCResultStruct::new_response_to_request_scanned_wifi_networks_end()
        ))
    );
}

#[test]
fn failed_scan_still_closes_the_list() {
    let (mut m, _) = ConnectionManager::boot(identity(), no_credentials());
    m.handle(Event::SerialData(command(RPCCommand::RequestScannedWifiNetworks)));
    let replies = m.handle(Event::ScanFinished(Vec::new()));
    assert_eq!(replies.len(), 1);
}

#[test]
fn connect_loop_retries_after_failure() {
    let stored = WifiConfig { ssid: Some("Home".to_string()), password: Some("pw".to_string()) };
    let (mut m, _) = ConnectionManager::boot(identity(), stored);
    let failed = m.handle(Event::ConnectFinished(false));
    assert_eq!(m.state(), ConnectivityState::Disconnected);
    assert_eq!(failed.len(), 1);
    assert!(matches!(failed[0], Action::Backoff));
    assert_eq!(count_disconnect_notices(&failed), 0);
    let retry = m.handle(Event::BackoffElapsed);
    assert_eq!(m.state(), ConnectivityState::Connecting);
    assert!(asks_connect(&retry));
    let ok = m.handle(Event::ConnectFinished(true));
    assert!(matches!(ok[0], Action::WaitForAddress));
    let address = m.handle(Event::AddressAcquired((172, 16, 0, 3)));
    assert_eq!(m.state(), ConnectivityState::Connected);
    assert_eq!(address.len(), 2);
    assert!(matches!(address[1], Action::NotifyConnected));
}
