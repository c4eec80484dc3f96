use voice_relay::auth::AudioClaims;
use voice_relay::channels::AppState;
use voice_relay::channels::BannedUser;
use voice_relay::channels::Channel;
use voice_relay::channels::ChannelPrivacy;
use voice_relay::channels::Role;
use voice_relay::dispatch::DatagramKind;
use voice_relay::packet::AudioPacket;
use voice_relay::packet::PacketType;
use voice_relay::packet::VoicePacket;
use voice_relay::server::AudioServer;
use voice_relay::server::AudioServerConfig;
use voice_relay::server::AudioServerEvent;
use voice_relay::server::Reaction;
use voice_relay::state::SocketAddress;

const WALL: u32 = 1_700_000_000;

fn rosters() -> AppState {
    let mut state = AppState::new();
    state.channels.push(Channel {
        id: "X".to_string(),
        name: "Main".to_string(),
        privacy: ChannelPrivacy::Public,
        owner: "alice".to_string(),
        moderators: vec![],
        members: vec!["bob".to_string(), "carol".to_string(), "mallory".to_string()],
        banned_users: vec![BannedUser {
            user_id: "mallory".to_string(),
            username: "Mallory".to_string(),
            banned_by: "alice".to_string(),
            banned_at: 1,
            reason: None,
        }],
        invite_tokens: Vec::new(),
    });
    state.channels.push(Channel {
        id: "Y".to_string(),
        name: "Side".to_string(),
        privacy: ChannelPrivacy::Private,
        owner: "bob".to_string(),
        moderators: vec![],
        members: vec!["alice".to_string()],
        banned_users: vec![],
        invite_tokens: Vec::new(),
    });
    state
}

fn server() -> AudioServer {
    AudioServer::new(AudioServerConfig::default(), rosters())
}

fn addr(port: u16) -> SocketAddress {
    SocketAddress { ip: 0xFFFF_0A00_0001, port }
}

fn claims(sub: &str) -> AudioClaims {
    AudioClaims { sub: sub.to_string(), roles: vec!["user".to_string()], exp: 2_000_000_000, iat: 1 }
}

fn handshake_bytes(who: &str, channel: &str) -> Vec<u8> {
    AudioPacket::json_handshake(format!("token-of-{}", who), channel.to_string(), WALL)
        .to_bytes()
        .unwrap()
}

fn handshake(server: &mut AudioServer, who: &str, channel: &str, from: SocketAddress, now: u64) -> Reaction {
    server.apply(&handshake_bytes(who, channel), &from, now, WALL, Some(claims(who)))
}

fn voice(sequence_number: u32, timestamp: u64) -> Vec<u8> {
    VoicePacket {
        packet_type: VoicePacket::VOICE_PACKET_TYPE,
        sequence_number,
        timestamp,
        payload: vec![sequence_number as u8, 0xAB],
    }
    .to_bytes()
}

fn forwarded(reaction: &Reaction) -> Vec<(u16, u32)> {
    reaction
        .sends
        .iter()
        .map(|out| (out.addr.port, VoicePacket::from_bytes(&out.data).unwrap().sequence_number))
        .collect()
}

fn session_ids(server: &AudioServer) -> Vec<String> {
    server.state_manager.users.iter().map(|u| u.user_id.clone()).collect()
}

fn buffer_owners(server: &AudioServer) -> Vec<String> {
    server.jitter_buffers.iter().map(|b| b.user_id.clone()).collect()
}

fn error_text(reaction: &Reaction) -> String {
    assert_eq!(reaction.sends.len(), 1);
    let frame = AudioPacket::from_bytes(&reaction.sends[0].data).unwrap();
    assert_eq!(frame.header.packet_type, PacketType::Error);
    assert_eq!(frame.header.timestamp, WALL);
    frame.error_message.unwrap()
}

#[test]
fn defaults() {
    let config = AudioServerConfig::default();
    assert_eq!(config.bind_addr, "0.0.0.0:8080");
    assert_eq!(config.max_packet_size, 1024);
    assert_eq!(config.buffer_size, 8192);
    assert_eq!(config.cleanup_interval, 60_000);
    assert_eq!(config.user_timeout, 300_000);
    assert_eq!(config.heartbeat_interval, 30_000);
    assert_eq!(config.handshake_timeout, 5_000);
    assert_eq!(config.jitter_buffer_size, 20);
    assert_eq!(config.jitter_buffer_window_ms, 400);
    assert_eq!(config.frame_interval_ms, 20);
    let server = server();
    assert!(session_ids(&server).is_empty());
    assert_eq!(server.state_manager.user_timeout, 300_000);
    assert_eq!(server.auth.jwt_secret, "your-secret-key");
    let stats = server.get_stats();
    assert_eq!(stats.auth_sessions, 0);
    assert_eq!(stats.state_stats.total_users, 0);
}

#[test]
fn a_handshake_binds_acknowledges_and_reports() {
    let mut server = server();
    let a = addr(1);
    let reaction = handshake(&mut server, "alice", "X", a, 1000);

    assert_eq!(reaction.sends.len(), 1);
    assert_eq!(reaction.sends[0].addr, a);
    let ack = AudioPacket::from_bytes(&reaction.sends[0].data).unwrap();
    assert_eq!(ack.header.packet_type, PacketType::Ack);
    assert_eq!(ack.header.sequence, 0);
    assert_eq!(ack.header.user_id_str(), "alice");
    assert_eq!(ack.header.channel_id_str(), "X");
    assert_eq!(ack.header.timestamp, WALL);
    assert_eq!(reaction.sends[0].data.len(), 21);

    assert_eq!(reaction.events.len(), 1);
    match &reaction.events[0] {
        AudioServerEvent::UserJoined { user_id, channel_id, socket_addr } => {
            assert_eq!(user_id, "alice");
            assert_eq!(channel_id, "X");
            assert_eq!(*socket_addr, a);
        }
        other => panic!("unexpected event {:?}", other),
    }

    assert!(server.is_established(&a));
    let session = server.state_manager.get_user("alice").unwrap();
    assert_eq!(session.channel_id, "X");
    assert_eq!(session.role, Role::Owner);
    assert_eq!(session.username, "alice");
    assert_eq!(session.last_activity, 1000);
    assert_eq!(buffer_owners(&server), vec!["alice"]);
    assert!(server.jitter_buffers[0].buffer.is_empty());
    assert_eq!(server.jitter_buffers[0].buffer.max_size, 20);
    assert_eq!(server.jitter_buffers[0].buffer.window_ms, 400);
    assert_eq!(server.pending_handshakes.len(), 1);
    assert_eq!(server.pending_handshakes[0].started_at, 1000);
    assert_eq!(server.auth.session_count(), 1);
    let conn = server.connection(&a).unwrap();
    assert_eq!(conn.user_id, "alice");
    assert_eq!(conn.channel_id, "X");
    assert_eq!(conn.last_sequence, 0);
    assert_eq!(conn.last_active, 1000);
    assert!(server.connection(&addr(2)).is_none());
}

#[test]
fn a_raw_credential_takes_the_channel_of_the_header() {
    let mut server = server();
    let data = AudioPacket::handshake("raw.jwt.token".to_string(), "", "Y", WALL).to_bytes().unwrap();
    assert_eq!(server.credential_wanted(&data, &addr(1), 0), Some("raw.jwt.token".to_string()));
    let reaction = server.apply(&data, &addr(1), 0, WALL, Some(claims("alice")));
    assert_eq!(reaction.sends.len(), 1);
    assert_eq!(server.state_manager.get_user_channel("alice"), Some("Y".to_string()));
    assert_eq!(server.state_manager.get_user("alice").unwrap().role, Role::Member);
}

#[test]
fn two_user_echo() {
    let mut server = server();
    let (a, b) = (addr(1), addr(2));
    handshake(&mut server, "alice", "X", a, 0);
    handshake(&mut server, "bob", "X", b, 0);

    let mut received = Vec::new();
    for seq in 1u32..=5 {
        let now = 1000 + 20 * seq as u64;
        assert_eq!(server.classify(&voice(seq, now), &a), DatagramKind::Voice);
        let quiet = server.apply(&voice(seq, now), &a, now, WALL, None);
        assert!(quiet.sends.is_empty() && quiet.events.is_empty());
        let tick = server.process_jitter_buffers();
        for out in &tick.sends {
            assert_eq!(out.addr, b);
            let frame = VoicePacket::from_bytes(&out.data).unwrap();
            assert_eq!(frame.timestamp, now);
            assert_eq!(frame.payload, vec![seq as u8, 0xAB]);
            received.push(frame.sequence_number);
        }
        assert_eq!(tick.events.len(), 1);
        match &tick.events[0] {
            AudioServerEvent::AudioPacket { from_user_id, channel_id, sequence, data } => {
                assert_eq!(from_user_id, "alice");
                assert_eq!(channel_id, "X");
                assert_eq!(*sequence, seq);
                assert_eq!(data, &vec![seq as u8, 0xAB]);
            }
            other => panic!("unexpected event {:?}", other),
        }
    }
    assert_eq!(received, vec![1, 2, 3, 4, 5]);
    assert!(server.process_jitter_buffers().sends.is_empty());
    let conn = server.connection(&a).unwrap();
    assert_eq!(conn.last_sequence, 5);
    assert_eq!(conn.last_active, 1100);
}

#[test]
fn reorder_within_window() {
    let mut server = server();
    let (a, b) = (addr(1), addr(2));
    handshake(&mut server, "alice", "X", a, 0);
    handshake(&mut server, "bob", "X", b, 0);
    for (n, seq) in [1u32, 3, 2, 4].iter().enumerate() {
        server.apply(&voice(*seq, 20 * n as u64), &a, 20 * n as u64, WALL, None);
    }
    let mut order = Vec::new();
    for _ in 0..6 {
        order.extend(forwarded(&server.process_jitter_buffers()));
    }
    assert_eq!(order, vec![(2, 1), (2, 2), (2, 3), (2, 4)]);
}

#[test]
fn a_gap_holds_later_frames_back() {
    let mut server = server();
    let (a, b) = (addr(1), addr(2));
    handshake(&mut server, "alice", "X", a, 0);
    handshake(&mut server, "bob", "X", b, 0);
    server.apply(&voice(1, 0), &a, 0, WALL, None);
    server.apply(&voice(2, 20), &a, 20, WALL, None);
    server.apply(&voice(4, 60), &a, 60, WALL, None);
    assert_eq!(forwarded(&server.process_jitter_buffers()), vec![(2, 1)]);
    assert_eq!(forwarded(&server.process_jitter_buffers()), vec![(2, 2)]);
    assert!(forwarded(&server.process_jitter_buffers()).is_empty());

    server.apply(&voice(3, 40), &a, 70, WALL, None);
    assert_eq!(forwarded(&server.process_jitter_buffers()), vec![(2, 3)]);
    assert_eq!(forwarded(&server.process_jitter_buffers()), vec![(2, 4)]);
    server.apply(&voice(3, 40), &a, 80, WALL, None);
    assert!(forwarded(&server.process_jitter_buffers()).is_empty());
    assert!(server.jitter_buffers[0].buffer.is_empty());
}

#[test]
fn a_frame_behind_a_gap_ages_out() {
    let mut server = server();
    let (a, b) = (addr(1), addr(2));
    handshake(&mut server, "alice", "X", a, 0);
    handshake(&mut server, "bob", "X", b, 0);
    server.apply(&voice(1, 0), &a, 0, WALL, None);
    server.apply(&voice(3, 40), &a, 40, WALL, None);
    assert_eq!(forwarded(&server.process_jitter_buffers()), vec![(2, 1)]);
    assert!(forwarded(&server.process_jitter_buffers()).is_empty());
    server.housekeeping(540);
    assert_eq!(server.jitter_buffers[0].buffer.len(), 1);
    server.housekeeping(541);
    assert_eq!(server.jitter_buffers[0].buffer.len(), 0);
    assert_eq!(server.jitter_buffers[0].buffer.last_played_sequence, 1);
    assert!(forwarded(&server.process_jitter_buffers()).is_empty());
}

#[test]
fn a_handshake_that_is_never_verified_binds_nothing() {
    let mut server = server();
    let a = addr(1);
    let data = handshake_bytes("alice", "X");
    assert_eq!(server.classify(&data, &a), DatagramKind::Control);
    assert_eq!(server.credential_wanted(&data, &a, 0), Some("token-of-alice".to_string()));
    assert!(!server.is_established(&a));
    assert!(server.pending_handshakes.is_empty());
    assert_eq!(server.classify(&voice(1, 0), &a), DatagramKind::Control);

    let refused = server.apply(&data, &a, 10, WALL, None);
    assert_eq!(error_text(&refused), "Invalid JWT token");
    assert_eq!(refused.sends[0].addr, a);
    assert!(!server.is_established(&a));
    assert!(server.pending_handshakes.is_empty());
    assert!(server.jitter_buffers.is_empty());
    assert_eq!(server.auth.session_count(), 0);
    assert_eq!(server.classify(&voice(1, 0), &a), DatagramKind::Control);
}

#[test]
fn a_ban_during_a_session_waits_for_the_next_handshake() {
    let mut server = server();
    let a = addr(1);
    handshake(&mut server, "carol", "X", a, 0);
    server.auth.channel_state.channels[0].banned_users.push(BannedUser {
        user_id: "carol".to_string(),
        username: "Carol".to_string(),
        banned_by: "alice".to_string(),
        banned_at: 2,
        reason: None,
    });

    let heartbeat = AudioPacket::heartbeat("carol", "X", WALL).to_bytes().unwrap();
    let reaction = server.apply(&heartbeat, &a, 100, WALL, None);
    assert!(reaction.sends.is_empty() && reaction.events.is_empty());
    assert!(server.is_established(&a));
    assert_eq!(server.connection(&a).unwrap().last_active, 100);

    let again = handshake(&mut server, "carol", "X", addr(9), 200);
    assert_eq!(error_text(&again), "User is banned from channel");
    assert_eq!(again.sends[0].addr, addr(9));
    assert!(!server.is_established(&addr(9)));
    assert!(server.is_established(&a));
    assert_eq!(session_ids(&server), vec!["carol"]);
}

#[test]
fn mute_suppresses_fan_out() {
    let mut server = server();
    let (a, b, c) = (addr(1), addr(2), addr(3));
    handshake(&mut server, "alice", "X", a, 0);
    handshake(&mut server, "bob", "X", b, 0);
    handshake(&mut server, "carol", "X", c, 0);

    let mute = AudioPacket::set_mute("bob", "X", true, WALL).to_bytes().unwrap();
    let reaction = server.apply(&mute, &b, 10, WALL, None);
    assert!(reaction.sends.is_empty());
    match &reaction.events[..] {
        [AudioServerEvent::UserMuted { user_id, channel_id, muted }] => {
            assert_eq!(user_id, "bob");
            assert_eq!(channel_id, "X");
            assert!(*muted);
        }
        other => panic!("unexpected events {:?}", other),
    }

    server.apply(&voice(1, 0), &a, 20, WALL, None);
    assert_eq!(forwarded(&server.process_jitter_buffers()), vec![(3, 1)]);

    let unmute = AudioPacket::set_mute("bob", "X", false, WALL).to_bytes().unwrap();
    server.apply(&unmute, &b, 30, WALL, None);
    server.apply(&voice(2, 20), &a, 40, WALL, None);
    assert_eq!(forwarded(&server.process_jitter_buffers()), vec![(2, 2), (3, 2)]);

    server.apply(&voice(1, 0), &b, 50, WALL, None);
    assert_eq!(forwarded(&server.process_jitter_buffers()), vec![(1, 1), (3, 1)]);
}

#[test]
fn no_frame_goes_back_to_its_sender() {
    let mut server = server();
    let ports = [("alice", 1u16), ("bob", 2), ("carol", 3)];
    for (who, port) in ports {
        handshake(&mut server, who, "X", addr(port), 0);
    }
    for (_, port) in ports {
        server.apply(&voice(1, 0), &addr(port), 5, WALL, None);
    }
    let tick = server.process_jitter_buffers();
    assert_eq!(
        forwarded(&tick).iter().map(|f| f.0).collect::<Vec<u16>>(),
        vec![2, 3, 1, 3, 1, 2]
    );
    assert_eq!(tick.events.len(), 3);
    for (n, (_, port)) in ports.iter().enumerate() {
        for out in &tick.sends[2 * n..2 * n + 2] {
            assert_ne!(out.addr.port, *port);
        }
    }
}

#[test]
fn frames_stay_within_their_channel() {
    let mut server = server();
    handshake(&mut server, "alice", "Y", addr(1), 0);
    handshake(&mut server, "bob", "X", addr(2), 0);
    handshake(&mut server, "carol", "X", addr(3), 0);
    server.apply(&voice(1, 0), &addr(1), 5, WALL, None);
    server.apply(&voice(1, 0), &addr(2), 5, WALL, None);
    let tick = server.process_jitter_buffers();
    assert_eq!(forwarded(&tick), vec![(3, 1)]);
    assert_eq!(tick.events.len(), 2);
}

#[test]
fn retries_within_the_deadline_bind_once() {
    let mut server = server();
    let a = addr(1);
    handshake(&mut server, "alice", "X", a, 1000);
    let leave = AudioPacket::leave_channel("alice", "X", WALL).to_bytes().unwrap();
    server.apply(&leave, &a, 1100, WALL, None);
    assert!(!server.is_established(&a));
    assert_eq!(server.pending_handshakes.len(), 1);

    let data = handshake_bytes("alice", "X");
    assert_eq!(server.credential_wanted(&data, &a, 6000), None);
    let retry = server.apply(&data, &a, 6000, WALL, Some(claims("alice")));
    assert!(retry.sends.is_empty() && retry.events.is_empty());
    assert!(!server.is_established(&a));
    assert_eq!(server.pending_handshakes[0].started_at, 1000);

    assert_eq!(server.credential_wanted(&data, &a, 6001), Some("token-of-alice".to_string()));
    let fresh = server.apply(&data, &a, 6001, WALL, Some(claims("alice")));
    assert_eq!(fresh.sends.len(), 1);
    assert!(server.is_established(&a));
    assert_eq!(server.pending_handshakes.len(), 1);
    assert_eq!(server.pending_handshakes[0].started_at, 6001);
    assert_eq!(session_ids(&server), vec!["alice"]);
}

#[test]
fn an_overdue_pending_handshake_is_discarded_even_on_failure() {
    let mut server = server();
    let a = addr(1);
    handshake(&mut server, "alice", "X", a, 0);
    server.apply(&AudioPacket::leave_channel("", "", WALL).to_bytes().unwrap(), &a, 1, WALL, None);
    let refused = server.apply(&handshake_bytes("eve", "X"), &a, 5001, WALL, Some(claims("eve")));
    assert_eq!(error_text(&refused), "User not a member of channel");
    assert!(server.pending_handshakes.is_empty());
    let unknown = server.apply(&handshake_bytes("alice", "Z"), &a, 5002, WALL, Some(claims("alice")));
    assert_eq!(error_text(&unknown), "Channel not found");
    match &unknown.events[..] {
        [AudioServerEvent::Error { socket_addr, error }] => {
            assert_eq!(*socket_addr, a);
            assert_eq!(error, "Channel not found");
        }
        other => panic!("unexpected events {:?}", other),
    }
    assert!(session_ids(&server).is_empty());
}

#[test]
fn a_handshake_supersedes_earlier_bindings() {
    let mut server = server();
    handshake(&mut server, "alice", "X", addr(1), 0);
    handshake(&mut server, "bob", "X", addr(2), 0);
    server.apply(&voice(1, 0), &addr(1), 5, WALL, None);
    assert_eq!(server.jitter_buffers[0].buffer.len(), 1);

    handshake(&mut server, "alice", "Y", addr(3), 10);
    assert_eq!(session_ids(&server), vec!["bob", "alice"]);
    assert!(!server.is_established(&addr(1)));
    assert_eq!(server.state_manager.get_user_channel("alice"), Some("Y".to_string()));
    assert_eq!(buffer_owners(&server), vec!["alice", "bob"]);
    assert!(server.jitter_buffers[0].buffer.is_empty());
    assert_eq!(server.auth.session_count(), 2);
    assert!(server.process_jitter_buffers().sends.is_empty());
}

#[test]
fn a_handshake_packet_for_another_principal_evicts_the_session_at_the_address() {
    let mut server = server();
    let a = addr(1);
    handshake(&mut server, "alice", "X", a, 0);
    server.apply(&voice(1, 0), &a, 5, WALL, None);
    let packet = AudioPacket::from_bytes(&handshake_bytes("bob", "X")).unwrap();
    let reaction = server.complete_handshake(&packet, &a, 6000, WALL, Some(claims("bob")));
    assert_eq!(reaction.sends.len(), 1);
    assert_eq!(reaction.events.len(), 1);
    assert_eq!(session_ids(&server), vec!["bob"]);
    assert_eq!(buffer_owners(&server), vec!["bob"]);
    assert!(server.jitter_buffers[0].buffer.is_empty());

    let same = server.complete_handshake(&packet, &a, 12000, WALL, Some(claims("bob")));
    assert_eq!(same.sends.len(), 1);
    assert!(same.events.is_empty());
    assert_eq!(server.connection(&a).unwrap().last_active, 12000);
    assert_eq!(server.pending_handshakes.len(), 1);
}

#[test]
fn control_frames_need_a_session() {
    let mut server = server();
    let a = addr(1);
    for frame in [
        AudioPacket::heartbeat("alice", "X", WALL),
        AudioPacket::join_channel("alice", "X", WALL),
        AudioPacket::leave_channel("alice", "X", WALL),
        AudioPacket::set_mute("alice", "X", true, WALL),
        AudioPacket::audio(1, "alice", "X", vec![1], WALL),
        AudioPacket::ack("alice", "X", 0, WALL),
        AudioPacket::error("alice", "X", "boom".to_string(), WALL),
    ] {
        let reaction = server.apply(&frame.to_bytes().unwrap(), &a, 0, WALL, None);
        assert_eq!(error_text(&reaction), "Not authenticated");
        assert_eq!(reaction.sends[0].addr, a);
        assert_eq!(reaction.events.len(), 1);
    }
    assert!(session_ids(&server).is_empty());
    assert!(server.jitter_buffers.is_empty());
}

#[test]
fn malformed_datagrams_are_dropped_and_reported() {
    let mut server = server();
    let a = addr(1);
    for (data, message) in [
        (vec![], "Invalid packet size"),
        (vec![0x02; 20], "Invalid packet size"),
        (vec![0x09; 30], "Invalid packet type"),
        (vec![0x01; 21], "Invalid packet size"),
    ] {
        let reaction = server.apply(&data, &a, 0, WALL, None);
        assert!(reaction.sends.is_empty());
        match &reaction.events[..] {
            [AudioServerEvent::Error { socket_addr, error }] => {
                assert_eq!(*socket_addr, a);
                assert_eq!(error, message);
            }
            other => panic!("unexpected events {:?}", other),
        }
    }
    handshake(&mut server, "alice", "X", a, 0);
    let reaction = server.apply(&[0x01, 2, 3], &a, 1, WALL, None);
    assert!(reaction.sends.is_empty() && reaction.events.is_empty());
    assert!(server.jitter_buffers[0].buffer.is_empty());
    assert_eq!(server.connection(&a).unwrap().last_active, 0);
}

#[test]
fn join_and_leave() {
    let mut server = server();
    let a = addr(1);
    handshake(&mut server, "alice", "X", a, 0);
    server.apply(&voice(1, 0), &a, 1, WALL, None);

    let join = AudioPacket::join_channel("alice", "Y", WALL).to_bytes().unwrap();
    let reaction = server.apply(&join, &a, 10, WALL, None);
    assert!(reaction.sends.is_empty());
    match &reaction.events[..] {
        [AudioServerEvent::UserJoined { user_id, channel_id, socket_addr }] => {
            assert_eq!(user_id, "alice");
            assert_eq!(channel_id, "Y");
            assert_eq!(*socket_addr, a);
        }
        other => panic!("unexpected events {:?}", other),
    }
    let session = server.state_manager.get_user("alice").unwrap();
    assert_eq!(session.channel_id, "Y");
    assert_eq!(session.role, Role::Member);
    assert_eq!(session.last_activity, 10);
    assert_eq!(server.jitter_buffers[0].buffer.len(), 1);

    let nowhere = AudioPacket::join_channel("alice", "Q", WALL).to_bytes().unwrap();
    assert_eq!(error_text(&server.apply(&nowhere, &a, 11, WALL, None)), "Channel not found");
    assert_eq!(server.state_manager.get_user_channel("alice"), Some("Y".to_string()));

    let leave = AudioPacket::leave_channel("alice", "Y", WALL).to_bytes().unwrap();
    let reaction = server.apply(&leave, &a, 12, WALL, None);
    match &reaction.events[..] {
        [AudioServerEvent::UserLeft { user_id, channel_id, socket_addr }] => {
            assert_eq!(user_id, "alice");
            assert_eq!(channel_id, "Y");
            assert_eq!(*socket_addr, a);
        }
        other => panic!("unexpected events {:?}", other),
    }
    assert!(session_ids(&server).is_empty());
    assert!(server.jitter_buffers.is_empty());
    assert_eq!(server.get_stats().state_stats.total_channels, 0);
}

#[test]
fn an_audio_control_frame_is_queued_like_voice() {
    let mut server = server();
    let (a, b) = (addr(1), addr(2));
    handshake(&mut server, "alice", "X", a, 0);
    handshake(&mut server, "bob", "X", b, 0);
    let mut frame = AudioPacket::audio(1, "alice", "X", vec![7, 8, 9], 3);
    frame.header.timestamp = 3;
    let reaction = server.apply(&frame.to_bytes().unwrap(), &a, 50, WALL, None);
    assert!(reaction.sends.is_empty() && reaction.events.is_empty());
    let tick = server.process_jitter_buffers();
    assert_eq!(tick.sends.len(), 1);
    assert_eq!(tick.sends[0].addr, b);
    let out = VoicePacket::from_bytes(&tick.sends[0].data).unwrap();
    assert_eq!(out.sequence_number, 1);
    assert_eq!(out.timestamp, 3000);
    assert_eq!(out.payload, vec![7, 8, 9]);
    assert_eq!(server.connection(&a).unwrap().last_sequence, 1);
}

#[test]
fn housekeeping_forgets_what_is_idle() {
    let mut config = AudioServerConfig::default();
    config.user_timeout = 1000;
    let mut server = AudioServer::new(config, rosters());
    server.auth.set_session_timeout(2000);
    handshake(&mut server, "alice", "X", addr(1), 0);
    handshake(&mut server, "bob", "X", addr(2), 600);
    server.apply(&voice(1, 0), &addr(1), 10, WALL, None);
    server.apply(&voice(2, 0), &addr(2), 900, WALL, None);

    assert!(server.housekeeping(1010).is_empty());
    assert_eq!(server.pending_handshakes.len(), 2);
    assert_eq!(server.jitter_buffers[0].buffer.len(), 0);
    assert_eq!(server.jitter_buffers[1].buffer.len(), 1);

    assert_eq!(server.housekeeping(1011), vec!["alice"]);
    assert_eq!(session_ids(&server), vec!["bob"]);
    assert_eq!(buffer_owners(&server), vec!["bob"]);
    assert_eq!(server.auth.session_count(), 2);

    assert!(server.housekeeping(5600).is_empty() == false);
    assert!(session_ids(&server).is_empty());
    assert!(server.jitter_buffers.is_empty());
    assert_eq!(server.pending_handshakes.len(), 1);
    assert_eq!(server.auth.session_count(), 0);
    assert!(server.housekeeping(5601).is_empty());
    assert!(server.pending_handshakes.is_empty());
}

#[test]
fn a_datagram_with_a_real_token_goes_through_the_verifier() {
    let mut config = AudioServerConfig::default();
    config.jwt_secret = "test-secret".to_string();
    let mut server = AudioServer::new(config, rosters());
    let exp = std::time::SystemTime::now()
        .duration_since(std::time::UNIX_EPOCH)
        .unwrap()
        .as_secs()
        + 3600;
    let mut body = serde_json::Map::new();
    body.insert("sub".to_string(), serde_json::Value::from("bob"));
    body.insert("roles".to_string(), serde_json::Value::from(vec!["user".to_string()]));
    body.insert("exp".to_string(), serde_json::Value::from(exp));
    body.insert("iat".to_string(), serde_json::Value::from(exp - 3600));
    let token = jsonwebtoken::encode(
        &jsonwebtoken::Header::default(),
        &serde_json::Value::Object(body),
        &jsonwebtoken::EncodingKey::from_secret(b"test-secret"),
    )
    .unwrap();

    let good = AudioPacket::json_handshake(token.clone(), "X".to_string(), WALL).to_bytes().unwrap();
    let reaction = server.handle_datagram(&good, &addr(1), 0, WALL);
    assert_eq!(reaction.sends.len(), 1);
    assert_eq!(session_ids(&server), vec!["bob"]);

    let mut forged = token.clone();
    forged.push('x');
    let bad = AudioPacket::json_handshake(forged, "X".to_string(), WALL).to_bytes().unwrap();
    let reaction = server.handle_datagram(&bad, &addr(2), 0, WALL);
    assert_eq!(error_text(&reaction), "Invalid JWT token");
    assert_eq!(session_ids(&server), vec!["bob"]);

    let packet = AudioPacket::from_bytes(&good).unwrap();
    let reaction = server.handle_handshake(&packet, &addr(3), 0, WALL);
    assert_eq!(reaction.sends.len(), 1);
    assert!(server.is_established(&addr(3)));
    assert!(!server.is_established(&addr(1)));
}

#[test]
fn a_handshake_frame_without_a_credential_is_refused() {
    let mut server = server();
    let mut packet = AudioPacket::heartbeat("", "X", WALL);
    packet.header.packet_type = PacketType::Handshake;
    assert_eq!(server.pending_credential(&packet, &addr(1), 0), None);
    let reaction = server.complete_handshake(&packet, &addr(1), 0, WALL, None);
    assert_eq!(error_text(&reaction), "Missing handshake data");
    assert!(session_ids(&server).is_empty());
}

#[test]
fn a_control_frame_is_laid_out_for_a_channel() {
    let mut server = server();
    handshake(&mut server, "alice", "X", addr(1), 0);
    handshake(&mut server, "bob", "X", addr(2), 0);
    handshake(&mut server, "carol", "X", addr(3), 0);
    server.apply(&AudioPacket::set_mute("", "", true, WALL).to_bytes().unwrap(), &addr(3), 1, WALL, None);
    let frame = AudioPacket::error("alice", "X", "closing".to_string(), WALL);
    let bytes = frame.to_bytes().unwrap();

    let all = server.broadcast_to_channel(&frame, "alice", true).unwrap();
    assert_eq!(all.iter().map(|o| o.addr.port).collect::<Vec<u16>>(), vec![2, 3]);
    assert!(all.iter().all(|o| o.data == bytes));
    let unmuted = server.broadcast_to_channel(&frame, "alice", false).unwrap();
    assert_eq!(unmuted.iter().map(|o| o.addr.port).collect::<Vec<u16>>(), vec![2]);
    assert!(server.broadcast_to_channel(&frame, "nobody", true).unwrap().is_empty());

    let one = server.send_packet(&frame, addr(9)).unwrap();
    assert_eq!(one.addr, addr(9));
    assert_eq!(one.data, bytes);

    let mut broken = AudioPacket::heartbeat("alice", "X", WALL);
    broken.header.packet_type = PacketType::Audio;
    assert!(server.broadcast_to_channel(&broken, "alice", true).is_err());
    assert!(server.send_packet(&broken, addr(9)).is_err());
}
