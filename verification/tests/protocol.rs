use mcproto::connection::{handshake, packet_kind, ConnectionState, PacketKind, ProtocolViolation};
use mcproto::packets::{login, login_success, status_response_frame};
use mcproto::registry::{ChatType, DimensionEffect, PaintingVariant};
use mcproto::registry_data::{construct_registry_packet, RegistryEntry};

#[test]
fn handshake_next_state_byte_one_yields_status() {
    assert_eq!(ConnectionState::from_u8(1), ConnectionState::Status);
    // handshake payload: protocol version 767, an empty address, port, next state 1
    let payload = [0xFF, 0x05, 0x00, 0x63, 0xDD, 0x01];
    assert_eq!(handshake(&payload), Ok(ConnectionState::Status));
}

#[test]
fn handshake_next_state_byte_nine_is_fatal() {
    assert_eq!(ConnectionState::from_u8(9), ConnectionState::Unknown);
    let payload = [0xFF, 0x05, 0x00, 0x63, 0xDD, 0x09];
    assert_eq!(handshake(&payload), Err(ProtocolViolation::InvalidNextState));
}

#[test]
fn handshake_accepts_only_status_login_and_transfer() {
    // byte 0 names the handshake phase itself: not a phase a handshake may enter
    assert_eq!(handshake(&[0x00]), Err(ProtocolViolation::InvalidNextState));
    assert_eq!(handshake(&[0x01]), Ok(ConnectionState::Status));
    assert_eq!(handshake(&[0x02]), Ok(ConnectionState::Login));
    assert_eq!(handshake(&[0x03]), Ok(ConnectionState::Transfer));
    assert_eq!(handshake(&[0x04]), Err(ProtocolViolation::InvalidNextState));
}

#[test]
fn from_u8_maps_every_next_state_byte() {
    assert_eq!(ConnectionState::from_u8(0), ConnectionState::Handshake);
    assert_eq!(ConnectionState::from_u8(2), ConnectionState::Login);
    assert_eq!(ConnectionState::from_u8(3), ConnectionState::Transfer);
    assert_eq!(ConnectionState::from_u8(4), ConnectionState::Unknown);
    assert_eq!(ConnectionState::from_u8(255), ConnectionState::Unknown);
}

#[test]
fn state_names_read_as_expected() {
    assert_eq!(ConnectionState::Handshake.name(), "Handshake");
    assert_eq!(ConnectionState::Unknown.name(), "Unknown");
}

#[test]
fn packet_kind_routes_by_state() {
    assert_eq!(packet_kind(ConnectionState::Handshake, 0x00), PacketKind::Handshake);
    assert_eq!(packet_kind(ConnectionState::Handshake, 0xFE), PacketKind::LegacyPing);
    assert_eq!(packet_kind(ConnectionState::Status, 0x00), PacketKind::StatusRequest);
    assert_eq!(packet_kind(ConnectionState::Status, 0x01), PacketKind::PingRequest);
    assert_eq!(packet_kind(ConnectionState::Login, 0x00), PacketKind::LoginStart);
    assert_eq!(packet_kind(ConnectionState::Login, 0x05), PacketKind::Unrecognized);
    assert_eq!(packet_kind(ConnectionState::Transfer, 0x00), PacketKind::Unrecognized);
}

fn login_start_payload(name: &str, uuid: u128) -> Vec<u8> {
    let mut payload = vec![name.len() as u8];
    payload.extend_from_slice(name.as_bytes());
    payload.extend_from_slice(&uuid.to_be_bytes());
    payload
}

#[test]
fn login_start_parses_name_and_uuid() {
    let payload = login_start_payload("Steve", 0x0000_0000_0000_0000_0000_0000_0000_0001);
    let (name, uuid) = login(&payload).expect("a complete login start must parse");
    assert_eq!(name, "Steve");
    assert_eq!(uuid, 1);
}

#[test]
fn login_start_decodes_the_name_as_utf8() {
    // "é" is one character carried in two UTF-8 bytes
    let mut payload = vec![0x02, 0xC3, 0xA9];
    payload.extend_from_slice(&7u128.to_be_bytes());
    let (name, uuid) = login(&payload).expect("a UTF-8 name must parse");
    assert_eq!(name, "\u{e9}");
    assert_eq!(name.chars().count(), 1);
    assert_eq!(uuid, 7);
}

#[test]
fn login_start_rejects_a_name_that_is_not_utf8() {
    // a lone continuation byte is not UTF-8
    let mut payload = vec![0x01, 0xA9];
    payload.extend_from_slice(&7u128.to_be_bytes());
    assert_eq!(login(&payload), Err("invalid player name"));
}

#[test]
fn login_start_truncated_and_malformed_inputs_fail() {
    // name length says 5, but neither name nor UUID bytes follow
    assert_eq!(login(&[0x05]), Err("truncated login payload"));
    // the length prefix never terminates
    assert_eq!(login(&[0x80, 0x80]), Err("malformed login payload"));
}

#[test]
fn login_success_frame_for_steve() {
    let payload = login_start_payload("Steve", 1);
    let (name, uuid) = login(&payload).unwrap();
    let frame = login_success(name, uuid);

    // inner bytes: id 0x02, 16 UUID bytes, the name, a zero property count,
    // and the strict-enforcement flag
    let mut inner = vec![0x02u8];
    inner.extend_from_slice(&1u128.to_be_bytes());
    inner.extend_from_slice(&[0x05, b'S', b't', b'e', b'v', b'e']);
    inner.push(0x00);
    inner.push(0x01);

    let mut expected = vec![inner.len() as u8];
    expected.extend_from_slice(&inner);
    assert_eq!(frame, expected);
}

#[test]
fn login_success_keeps_the_name_bytes_of_the_login_start() {
    let mut payload = vec![0x02, 0xC3, 0xA9];
    payload.extend_from_slice(&7u128.to_be_bytes());
    let (name, uuid) = login(&payload).unwrap();
    let frame = login_success(name, uuid);
    // after the frame length, packet id and UUID: the same length-prefixed
    // name bytes the login start supplied
    assert_eq!(&frame[18..21], &[0x02, 0xC3, 0xA9]);
}

#[test]
fn status_response_frame_wraps_text() {
    let frame = status_response_frame(String::from("{}"));
    assert_eq!(frame, vec![0x04, 0x00, 0x02, b'{', b'}']);
}

#[test]
fn registry_packet_for_one_biome_entry() {
    let payload = vec![0xABu8; 42];
    let entry = RegistryEntry {
        entry_id: String::from("minecraft:plains"),
        has_data: true,
        data: Some(payload.clone()),
    };
    let packet = construct_registry_packet(String::from("minecraft:worldgen/biome"), vec![entry]);

    // inner bytes: packet id, registry id string, entry count, entry id
    // string, payload flag, payload
    let inner_len = 1 + (1 + 24) + 1 + (1 + 16) + 1 + 42;
    assert_eq!(packet[0] as usize, inner_len);
    assert_eq!(packet.len(), 1 + inner_len);
    assert_eq!(packet[1], 0x07);
    assert_eq!(packet[2] as usize, 24);
    assert_eq!(&packet[3..27], "minecraft:worldgen/biome".as_bytes());
    assert_eq!(packet[27], 0x01);
    assert_eq!(packet[28] as usize, 16);
    assert_eq!(&packet[29..45], "minecraft:plains".as_bytes());
    assert_eq!(packet[45], 0x01);
    assert_eq!(&packet[46..], &payload[..]);
}

#[test]
fn registry_packet_keeps_entry_order() {
    let first = RegistryEntry {
        entry_id: String::from("b"),
        has_data: false,
        data: None,
    };
    let second = RegistryEntry {
        entry_id: String::from("a"),
        has_data: false,
        data: None,
    };
    let packet = construct_registry_packet(String::from("r"), vec![first, second]);
    // id 0x07, "r", count 2, then "b" before "a", each with a zero flag
    assert_eq!(
        packet,
        vec![0x0A, 0x07, 0x01, b'r', 0x02, 0x01, b'b', 0x00, 0x01, b'a', 0x00]
    );
}

#[test]
fn registry_entry_without_payload_is_flag_only() {
    let entry = RegistryEntry {
        entry_id: String::from("minecraft:plains"),
        has_data: false,
        data: None,
    };
    let bytes = entry.as_bytes();
    assert_eq!(bytes[0] as usize, 16);
    assert_eq!(&bytes[1..17], "minecraft:plains".as_bytes());
    assert_eq!(bytes[17], 0x00);
    assert_eq!(bytes.len(), 18);
}

#[test]
fn default_registry_records_hold_expected_values() {
    let chat = ChatType::default();
    assert_eq!(chat.chat.translation_key, "chat.type.text");
    assert_eq!(chat.chat.parameters, vec!["sender", "content"]);
    assert!(chat.chat.style.is_none());
    assert_eq!(chat.narration.translation_key, "chat.type.text.narrate");

    let painting = PaintingVariant::default();
    assert_eq!(painting.asset_id, "minecraft:pigscene");
    assert_eq!(painting.height, 4);
    assert_eq!(painting.width, 4);

    assert_eq!(DimensionEffect::default(), DimensionEffect::Overworld);
}
