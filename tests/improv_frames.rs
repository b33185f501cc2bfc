use esp_hal_app_framework::improv_wifi::{
    CurrentStateOption, ErrorStateOption, ImprovWifiPacket, ImprovWifiPacketData, ParseError,
    RPCCommand, RPCCommandStruct, RPCResultStruct, SendWifiSettingsStruct,
};

fn sum(bytes: &[u8]) -> u8 {
    bytes.iter().fold(0u8, |a, b| a.wrapping_add(*b))
}

fn wifi_settings(ssid: &str, password: &str) -> ImprovWifiPacket {
    ImprovWifiPacket {
        data: ImprovWifiPacketData::RPC(RPCCommandStruct {
            data: RPCCommand::SendWifiSettings(SendWifiSettingsStruct {
                ssid: ssid.to_string(),
                password: password.to_string(),
            }),
        }),
    }
}

fn command(c: RPCCommand) -> ImprovWifiPacket {
    ImprovWifiPacket { data: ImprovWifiPacketData::RPC(RPCCommandStruct { data: c }) }
}

fn decode(bytes: &[u8]) -> Result<(ImprovWifiPacket, usize), ParseError> {
    match ImprovWifiPacket::from_bytes((bytes, 0)) {
        Ok(((rest, offset), packet)) => {
            assert_eq!(offset, 0);
            Ok((packet, bytes.len() - rest.len()))
        }
        Err(e) => Err(e),
    }
}

fn all_sample_frames() -> Vec<ImprovWifiPacket> {
    vec![
        ImprovWifiPacket::new_current_state(CurrentStateOption::Ready),
        ImprovWifiPacket::new_current_state(CurrentStateOption::Provisioning),
        ImprovWifiPacket::new_current_state(CurrentStateOption::Provisioned),
        ImprovWifiPacket::new_error_state(ErrorStateOption::NoError),
        ImprovWifiPacket::new_error_state(ErrorStateOption::InvalidRPCPacket),
        ImprovWifiPacket::new_error_state(ErrorStateOption::UnknownRPCCommand),
        ImprovWifiPacket::new_error_state(ErrorStateOption::UnableToConnect),
        ImprovWifiPacket::new_error_state(ErrorStateOption::UnknownError),
        ImprovWifiPacket::new_rpc_command(),
        command(RPCCommand::RequestDeviceInformation),
        command(RPCCommand::RequestScannedWifiNetworks),
        wifi_settings("HomeNet", "s3cret-pass"),
        wifi_settings("", ""),
        ImprovWifiPacket::new_rpc_result(
            RPCResultStruct::new_response_to_request_device_information(
                "app", "1.2.3", "ESP32S3", "WT32-SC01-Plus",
            ),
        ),
        ImprovWifiPacket::new_rpc_result(
            RPCResultStruct::new_response_to_request_scanned_wifi_networks("Café", "-67", true),
        ),
        ImprovWifiPacket::new_rpc_result(
            RPCResultStruct::new_response_to_request_scanned_wifi_networks_end(),
        ),
        ImprovWifiPacket::new_rpc_result(RPCResultStruct::new_response_to_send_wifi_settings(
            "http://192.168.1.20",
        )),
    ]
}

#[test]
fn current_state_ready_encodes_to_known_bytes() {
    let bytes = ImprovWifiPacket::new_current_state(CurrentStateOption::Ready).to_bytes().unwrap();
    let mut expected = b"IMPROV".to_vec();
    expected.extend_from_slice(&[0x01, 0x01, 0x01, 0x02]);
    let checksum = sum(&expected);
    assert_eq!(checksum, 0xE2);
    expected.push(checksum);
    expected.push(0x0A);
    assert_eq!(bytes, expected);
}

#[test]
fn every_sample_frame_round_trips() {
    for packet in all_sample_frames() {
        let bytes = packet.to_bytes().unwrap();
        let (decoded, used) = decode(&bytes).unwrap();
        assert_eq!(used, bytes.len());
        assert_eq!(decoded.to_bytes().unwrap(), bytes);
        assert_eq!(format!("{:?}", decoded), format!("{:?}", packet));
    }
}

#[test]
fn decode_leaves_following_bytes() {
    let mut bytes = ImprovWifiPacket::new_rpc_command().to_bytes().unwrap();
    let n = bytes.len();
    bytes.extend_from_slice(&[1, 2, 3]);
    match ImprovWifiPacket::from_bytes((&bytes, 0)) {
        Ok(((rest, 0), packet)) => {
            assert_eq!(rest, &[1u8, 2, 3][..]);
            assert!(matches!(
                packet.data,
                ImprovWifiPacketData::RPC(RPCCommandStruct { data: RPCCommand::RequestCurrentState })
            ));
        }
        _ => panic!("expected a frame"),
    }
    assert_eq!(decode(&bytes).unwrap().1, n);
}

#[test]
fn wifi_settings_of_255_bytes_round_trip() {
    let ssid = "s".repeat(255);
    let password = "é".repeat(127) + "x";
    assert_eq!(password.len(), 255);
    let bytes = wifi_settings(&ssid, &password).to_bytes().unwrap();
    let (decoded, used) = decode(&bytes).unwrap();
    assert_eq!(used, bytes.len());
    match decoded.data {
        ImprovWifiPacketData::RPC(RPCCommandStruct {
            data: RPCCommand::SendWifiSettings(s),
        }) => {
            assert_eq!(s.ssid, ssid);
            assert_eq!(s.password, password);
        }
        _ => panic!("expected wifi settings"),
    }
}

#[test]
fn wifi_settings_with_unicode_round_trip() {
    let bytes = wifi_settings("réseau 📶", "мой пароль").to_bytes().unwrap();
    match decode(&bytes).unwrap().0.data {
        ImprovWifiPacketData::RPC(RPCCommandStruct {
            data: RPCCommand::SendWifiSettings(s),
        }) => {
            assert_eq!(s.ssid, "réseau 📶");
            assert_eq!(s.password, "мой пароль");
        }
        _ => panic!("expected wifi settings"),
    }
}

#[test]
fn every_strict_prefix_is_incomplete() {
    for packet in all_sample_frames() {
        let bytes = packet.to_bytes().unwrap();
        for k in 0..bytes.len() {
            assert_eq!(decode(&bytes[..k]).err(), Some(ParseError::Incomplete), "prefix {}", k);
        }
    }
}

#[test]
fn changed_length_or_value_byte_is_invalid_checksum() {
    let bytes = ImprovWifiPacket::new_current_state(CurrentStateOption::Ready).to_bytes().unwrap();
    let mut length_changed = bytes.clone();
    length_changed[8] = 0x07;
    assert_eq!(decode(&length_changed).err(), Some(ParseError::InvalidChecksum));
    let mut state_changed = bytes.clone();
    state_changed[9] = 0x03;
    assert_eq!(decode(&state_changed).err(), Some(ParseError::InvalidChecksum));
    let settings = wifi_settings("abc", "defgh").to_bytes().unwrap();
    for i in 11..settings.len() - 2 {
        if settings[i] >= 0x61 {
            let mut changed = settings.clone();
            changed[i] = changed[i] + 1;
            assert_eq!(decode(&changed).err(), Some(ParseError::InvalidChecksum), "byte {}", i);
        }
    }
}

#[test]
fn changed_magic_is_invalid_magic() {
    let mut bytes = ImprovWifiPacket::new_rpc_command().to_bytes().unwrap();
    bytes[0] = b'J';
    assert_eq!(decode(&bytes).err(), Some(ParseError::InvalidMagic));
    let mut version = ImprovWifiPacket::new_rpc_command().to_bytes().unwrap();
    version[6] = 0x02;
    assert_eq!(decode(&version).err(), Some(ParseError::InvalidMagic));
    assert_eq!(decode(b"IMPRO").err(), Some(ParseError::Incomplete));
    assert_eq!(decode(b"XMPROV").err(), Some(ParseError::Incomplete));
    assert_eq!(decode(b"XMPROV\x01").err(), Some(ParseError::InvalidMagic));
}

#[test]
fn wrong_terminator_is_invalid_magic() {
    let mut bytes = ImprovWifiPacket::new_rpc_command().to_bytes().unwrap();
    let last = bytes.len() - 1;
    bytes[last] = 0x0B;
    assert_eq!(decode(&bytes).err(), Some(ParseError::InvalidMagic));
}

fn frame(frame_type: u8, payload: &[u8]) -> Vec<u8> {
    let mut bytes = b"IMPROV\x01".to_vec();
    bytes.push(frame_type);
    bytes.push(payload.len() as u8);
    bytes.extend_from_slice(payload);
    bytes.push(sum(&bytes));
    bytes.push(0x0A);
    bytes
}

#[test]
fn unknown_values_give_typed_errors() {
    assert_eq!(decode(&frame(0x05, &[0x00])).err(), Some(ParseError::InvalidDataType(0x05)));
    assert_eq!(decode(&frame(0x01, &[0x07])).err(), Some(ParseError::InvalidState(0x07)));
    assert_eq!(decode(&frame(0x02, &[0x04])).err(), Some(ParseError::InvalidError(0x04)));
    assert_eq!(decode(&frame(0x03, &[0x09, 0x00])).err(), Some(ParseError::InvalidCommand(0x09)));
}

#[test]
fn invalid_utf8_in_a_string_is_rejected() {
    let bytes = frame(0x03, &[0x01, 0x04, 0x01, 0xFF, 0x00]);
    assert_eq!(decode(&bytes).err(), Some(ParseError::InvalidUtf8));
}

#[test]
fn bad_checksum_of_handmade_frame() {
    let mut bytes = frame(0x01, &[0x04]);
    let at = bytes.len() - 2;
    bytes[at] = bytes[at].wrapping_add(1);
    assert_eq!(decode(&bytes).err(), Some(ParseError::InvalidChecksum));
}

#[test]
fn bit_offset_input_is_incomplete() {
    let bytes = ImprovWifiPacket::new_rpc_command().to_bytes().unwrap();
    assert!(matches!(ImprovWifiPacket::from_bytes((&bytes, 3)), Err(ParseError::Incomplete)));
}

#[test]
fn data_lengths_follow_the_payload() {
    assert_eq!(CurrentStateOption::Provisioned.get_data_length(), 1);
    assert_eq!(ErrorStateOption::UnknownError.get_data_length(), 1);
    assert_eq!(RPCCommand::RequestScannedWifiNetworks.get_data_length(), 0);
    let settings = RPCCommand::SendWifiSettings(SendWifiSettingsStruct {
        ssid: "abc".to_string(),
        password: "de".to_string(),
    });
    assert_eq!(settings.get_data_length(), 7);
    let cmd = RPCCommandStruct { data: settings };
    assert_eq!(cmd.get_data_length(), 9);
    let result = RPCResultStruct::new_response_to_send_wifi_settings("http://x");
    assert_eq!(result.get_data_length(), 2 + 1 + 8);
    let data = ImprovWifiPacketData::RPCResult(result);
    assert_eq!(data.get_data_length(), 11);
    let bytes = ImprovWifiPacket { data }.to_bytes().unwrap();
    assert_eq!(bytes[7], 0x04);
    assert_eq!(bytes[8], 11);
    assert_eq!(bytes[9], 0x01);
    assert_eq!(bytes[10], 9);
}

#[test]
fn result_builders_hold_their_strings() {
    let info = RPCResultStruct::new_response_to_request_device_information("fw", "0.1", "chip", "dev");
    assert_eq!(info.command_responded, 0x03);
    assert_eq!(info.strings, vec!["fw", "0.1", "chip", "dev"]);
    let net = RPCResultStruct::new_response_to_request_scanned_wifi_networks("n", "-50", false);
    assert_eq!(net.command_responded, 0x04);
    assert_eq!(net.strings, vec!["n", "-50", "NO"]);
    let end = RPCResultStruct::new_response_to_request_scanned_wifi_networks_end();
    assert_eq!(end.command_responded, 0x04);
    assert!(end.strings.is_empty());
    let redirect = RPCResultStruct::new_response_to_send_wifi_settings("http://1.2.3.4");
    assert_eq!(redirect.command_responded, 0x01);
    assert_eq!(redirect.strings, vec!["http://1.2.3.4"]);
}

#[test]
fn empty_result_encodes_zero_strings() {
    let bytes = ImprovWifiPacket::new_rpc_result(
        RPCResultStruct::new_response_to_request_scanned_wifi_networks_end(),
    )
    .to_bytes()
    .unwrap();
    assert_eq!(&bytes[7..11], &[0x04, 0x02, 0x04, 0x00]);
    assert_eq!(bytes.len(), 13);
}
