use voice_relay::packet::AudioPacket;
use voice_relay::packet::PacketError;
use voice_relay::packet::PacketHeader;
use voice_relay::packet::PacketType;
use voice_relay::packet::VoicePacket;

#[test]
fn test_packet_header_serialization() {
    let header = PacketHeader::new(PacketType::Audio, 12345, "user123", "chan1", 1234567890);

    let bytes = header.to_bytes();
    let deserialized = PacketHeader::from_bytes(&bytes).unwrap();

    assert_eq!(header.packet_type, deserialized.packet_type);
    assert_eq!(header.sequence, deserialized.sequence);
    assert_eq!(header.user_id_str(), deserialized.user_id_str());
    assert_eq!(header.channel_id_str(), deserialized.channel_id_str());
    assert_eq!(header.timestamp, deserialized.timestamp);
}

#[test]
fn test_audio_packet_serialization() {
    let packet = AudioPacket::audio(12345, "user123", "chan1", vec![1, 2, 3, 4, 5], 1_700_000_000);

    let bytes = packet.to_bytes().unwrap();
    let deserialized = AudioPacket::from_bytes(&bytes).unwrap();

    assert_eq!(packet.header.packet_type, deserialized.header.packet_type);
    assert_eq!(packet.header.sequence, deserialized.header.sequence);
    assert_eq!(packet.audio_data, deserialized.audio_data);
}

#[test]
fn test_handshake_packet_serialization() {
    let packet = AudioPacket::handshake("jwt.token.here".to_string(), "user123", "chan1", 1_700_000_000);

    let bytes = packet.to_bytes().unwrap();
    let deserialized = AudioPacket::from_bytes(&bytes).unwrap();

    assert_eq!(packet.header.packet_type, deserialized.header.packet_type);
    assert_eq!(packet.jwt_token, deserialized.jwt_token);
}

#[test]
fn test_set_mute_packet_serialization() {
    let packet = AudioPacket::set_mute("user123", "chan1", true, 1_700_000_000);

    let bytes = packet.to_bytes().unwrap();
    let deserialized = AudioPacket::from_bytes(&bytes).unwrap();

    assert_eq!(packet.header.packet_type, deserialized.header.packet_type);
    assert_eq!(packet.mute_state, deserialized.mute_state);
}

#[test]
fn test_error_packet_serialization() {
    let packet = AudioPacket::error("user123", "chan1", "Test error".to_string(), 1_700_000_000);

    let bytes = packet.to_bytes().unwrap();
    let deserialized = AudioPacket::from_bytes(&bytes).unwrap();

    assert_eq!(packet.header.packet_type, deserialized.header.packet_type);
    assert_eq!(packet.error_message, deserialized.error_message);
}

#[test]
fn test_packet_handling() {
    let packet = AudioPacket::handshake("test.token".to_string(), "user1", "channel1", 1_700_000_000);

    let data = packet.to_bytes().unwrap();
    let parsed = AudioPacket::from_bytes(&data).unwrap();

    assert_eq!(packet.header.packet_type, parsed.header.packet_type);
    assert_eq!(packet.jwt_token, parsed.jwt_token);
}

#[test]
fn test_json_handshake_packet() {
    let packet = AudioPacket::json_handshake(
        "test.jwt.token".to_string(),
        "test-channel".to_string(),
        1_700_000_000,
    );

    assert_eq!(packet.header.packet_type, PacketType::Handshake);
    assert!(packet.handshake_data.is_some());
    assert_eq!(packet.jwt_token, None);

    if let Some(handshake_data) = &packet.handshake_data {
        assert_eq!(handshake_data.token, "test.jwt.token");
        assert_eq!(handshake_data.channel_id, "test-channel");
    }
}

#[test]
fn header_is_twenty_one_bytes_in_field_order() {
    let header = PacketHeader::new(PacketType::Audio, 0x01020304, "ab", "wxyz!", 0x0A0B0C0D);
    let bytes = header.to_bytes();
    assert_eq!(
        bytes,
        vec![
            0x02, 0x01, 0x02, 0x03, 0x04, b'a', b'b', 0, 0, 0, 0, 0, 0, b'w', b'x', b'y', b'z',
            0x0A, 0x0B, 0x0C, 0x0D
        ]
    );
    assert_eq!(header.user_id_str(), "ab");
    assert_eq!(header.channel_id_str(), "wxyz");
}

#[test]
fn header_errors() {
    assert!(matches!(PacketHeader::from_bytes(&[0x02; 20]), Err(PacketError::InvalidSize)));
    assert!(matches!(PacketHeader::from_bytes(&[0x09; 21]), Err(PacketError::InvalidPacketType)));
    assert!(matches!(PacketHeader::from_bytes(&[0x00; 21]), Err(PacketError::InvalidPacketType)));
    assert!(PacketHeader::from_bytes(&[0x08; 21]).is_ok());
}

#[test]
fn packet_type_tags() {
    assert_eq!(PacketType::from_u8(0x01), Some(PacketType::Handshake));
    assert_eq!(PacketType::from_u8(0x08), Some(PacketType::Ack));
    assert_eq!(PacketType::from_u8(0x00), None);
    assert_eq!(PacketType::from_u8(0x09), None);
    for tag in 1u8..=8 {
        assert_eq!(PacketType::from_u8(tag).unwrap().to_u8(), tag);
    }
}

#[test]
fn json_handshake_round_trip() {
    let packet = AudioPacket::json_handshake("tok\"en\\1".to_string(), "room-7".to_string(), 5);
    let bytes = packet.to_bytes().unwrap();
    let body = &bytes[23..];
    assert_eq!(
        std::str::from_utf8(body).unwrap(),
        "{\"token\":\"tok\\\"en\\\\1\",\"channel_id\":\"room-7\"}"
    );
    assert_eq!(bytes[21], 0);
    assert_eq!(bytes[22] as usize, body.len());
    let parsed = AudioPacket::from_bytes(&bytes).unwrap();
    assert_eq!(parsed.jwt_token, None);
    let data = parsed.handshake_data.unwrap();
    assert_eq!(data.token, "tok\"en\\1");
    assert_eq!(data.channel_id, "room-7");
}

#[test]
fn handshake_body_with_one_member_is_raw() {
    let packet = AudioPacket::handshake("{\"token\":\"t\"}".to_string(), "u", "c", 5);
    let parsed = AudioPacket::from_bytes(&packet.to_bytes().unwrap()).unwrap();
    assert_eq!(parsed.jwt_token, Some("{\"token\":\"t\"}".to_string()));
    assert!(parsed.handshake_data.is_none());
}

#[test]
fn control_frame_errors() {
    let audio = AudioPacket::audio(1, "u", "c", vec![9; 4], 5);
    let bytes = audio.to_bytes().unwrap();
    assert_eq!(bytes.len(), 21 + 2 + 4);
    assert!(matches!(AudioPacket::from_bytes(&bytes[..26]), Err(PacketError::InvalidSize)));
    assert!(matches!(AudioPacket::from_bytes(&bytes[..22]), Err(PacketError::InvalidSize)));
    assert!(matches!(AudioPacket::from_bytes(&bytes[..20]), Err(PacketError::InvalidSize)));

    let mute = AudioPacket::set_mute("u", "c", false, 5).to_bytes().unwrap();
    assert_eq!(mute[21], 0);
    assert!(matches!(AudioPacket::from_bytes(&mute[..21]), Err(PacketError::InvalidSize)));

    let mut bad_text = AudioPacket::error("u", "c", "ab".to_string(), 5).to_bytes().unwrap();
    bad_text[23] = 0xFF;
    assert!(matches!(AudioPacket::from_bytes(&bad_text), Err(PacketError::InvalidUtf8)));

    let mut missing = AudioPacket::heartbeat("u", "c", 5);
    missing.header.packet_type = PacketType::Handshake;
    assert!(matches!(missing.to_bytes(), Err(PacketError::MissingToken)));
    missing.header.packet_type = PacketType::Audio;
    assert!(matches!(missing.to_bytes(), Err(PacketError::MissingAudioData)));
    missing.header.packet_type = PacketType::SetMute;
    assert!(matches!(missing.to_bytes(), Err(PacketError::MissingMuteState)));
    missing.header.packet_type = PacketType::Error;
    assert!(matches!(missing.to_bytes(), Err(PacketError::MissingErrorMessage)));

    let long = AudioPacket::audio(1, "u", "c", vec![0; 65536], 5);
    assert!(matches!(long.to_bytes(), Err(PacketError::InvalidSize)));
    let longest = AudioPacket::audio(1, "u", "c", vec![0; 65535], 5);
    assert_eq!(longest.to_bytes().unwrap().len(), 21 + 2 + 65535);
}

#[test]
fn bodiless_frames_round_trip() {
    for packet in [
        AudioPacket::join_channel("user123", "chan", 7),
        AudioPacket::leave_channel("user123", "chan", 7),
        AudioPacket::heartbeat("user123", "chan", 7),
        AudioPacket::ack("user123", "chan", 42, 7),
    ] {
        let bytes = packet.to_bytes().unwrap();
        assert_eq!(bytes.len(), 21);
        let parsed = AudioPacket::from_bytes(&bytes).unwrap();
        assert_eq!(parsed.header.packet_type, packet.header.packet_type);
        assert_eq!(parsed.header.sequence, packet.header.sequence);
        assert_eq!(parsed.header.user_id, packet.header.user_id);
        assert_eq!(parsed.header.channel_id, packet.header.channel_id);
        assert_eq!(parsed.header.timestamp, 7);
        assert!(parsed.jwt_token.is_none() && parsed.audio_data.is_none());
        assert!(parsed.mute_state.is_none() && parsed.error_message.is_none());
    }
}

#[test]
fn voice_frame_of_fifteen_bytes_has_no_payload() {
    let data = [0x01, 0, 0, 0, 7, 0, 0, 0, 0, 0, 0, 0x01, 0x02, 0, 0];
    let packet = VoicePacket::from_bytes(&data).unwrap();
    assert_eq!(packet.packet_type, 0x01);
    assert_eq!(packet.sequence_number, 7);
    assert_eq!(packet.timestamp, 0x0102);
    assert!(packet.payload.is_empty());
    assert_eq!(packet.to_bytes(), data.to_vec());
}

#[test]
fn voice_frame_round_trip_and_errors() {
    let packet = VoicePacket {
        packet_type: VoicePacket::VOICE_PACKET_TYPE,
        sequence_number: 0xDEADBEEF,
        timestamp: 0x0102030405060708,
        payload: vec![10, 20, 30],
    };
    let bytes = packet.to_bytes();
    assert_eq!(
        bytes,
        vec![0x01, 0xDE, 0xAD, 0xBE, 0xEF, 1, 2, 3, 4, 5, 6, 7, 8, 0, 3, 10, 20, 30]
    );
    assert_eq!(VoicePacket::from_bytes(&bytes).unwrap(), packet);

    match VoicePacket::from_bytes(&bytes[..14]) {
        Err(PacketError::InvalidVoicePacket(reason)) => assert_eq!(reason, "Packet too short"),
        _ => panic!("a short datagram must be refused"),
    }
    let mut wrong_tag = bytes.clone();
    wrong_tag[0] = 0x02;
    match VoicePacket::from_bytes(&wrong_tag) {
        Err(PacketError::InvalidVoicePacket(reason)) => assert_eq!(reason, "Invalid packet type"),
        _ => panic!("a foreign tag must be refused"),
    }
    let mut longer = bytes.clone();
    longer.push(0);
    match VoicePacket::from_bytes(&longer) {
        Err(PacketError::InvalidVoicePacket(reason)) => {
            assert_eq!(reason, "Payload length mismatch")
        }
        _ => panic!("a trailing byte must be refused"),
    }
    match VoicePacket::from_bytes(&bytes[..17]) {
        Err(PacketError::InvalidVoicePacket(reason)) => {
            assert_eq!(reason, "Payload length mismatch")
        }
        _ => panic!("a missing byte must be refused"),
    }
}

#[test]
fn packet_error_messages() {
    assert_eq!(PacketError::InvalidSize.message(), "Invalid packet size");
    assert_eq!(PacketError::InvalidPacketType.message(), "Invalid packet type");
    assert_eq!(PacketError::MissingToken.message(), "Missing JWT token");
    assert_eq!(PacketError::MissingAudioData.message(), "Missing audio data");
    assert_eq!(PacketError::MissingMuteState.message(), "Missing mute state");
    assert_eq!(PacketError::MissingErrorMessage.message(), "Missing error message");
    assert_eq!(PacketError::InvalidUtf8.message(), "Invalid UTF-8 encoding");
    assert_eq!(PacketError::InvalidJson.message(), "Invalid JSON format");
    assert_eq!(
        PacketError::InvalidVoicePacket("Packet too short".to_string()).message(),
        "Invalid voice packet: Packet too short"
    );
}

#[test]
fn header_fields_keep_only_what_fits() {
    let header = PacketHeader::new(PacketType::Heartbeat, 1, "123456789", "", 0);
    assert_eq!(header.user_id_str(), "12345678");
    assert_eq!(header.channel_id_str(), "");
    assert_eq!(header.channel_id, [0, 0, 0, 0]);
}

#[test]
fn only_the_zeros_at_the_end_of_a_field_are_taken_off() {
    let mut header = PacketHeader::new(PacketType::Heartbeat, 1, "ab", "cd", 0);
    header.user_id = [0, b'a', 0, b'b', 0, 0, 0, 0];
    header.channel_id = [0, 0, 0, 0];
    assert_eq!(header.user_id_str(), "\0a\0b");
    assert_eq!(header.channel_id_str(), "");
    header.channel_id = [0xFF, b'x', 0, 0];
    assert_eq!(header.channel_id_str(), "\u{FFFD}x");
}
