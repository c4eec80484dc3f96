use voice_relay::channels::Role;
use voice_relay::state::AudioStateManager;
use voice_relay::state::AudioUserState;
use voice_relay::state::ChannelState;
use voice_relay::state::SocketAddress;
use voice_relay::state::StateError;

fn socket(text: &str) -> SocketAddress {
    let (host, port) = text.split_once(':').unwrap();
    let mut ip: u128 = 0xFFFF;
    for part in host.split('.') {
        ip = (ip << 8) | part.parse::<u128>().unwrap();
    }
    SocketAddress { ip, port: port.parse().unwrap() }
}

fn create_test_socket() -> SocketAddress {
    socket("127.0.0.1:12345")
}

fn user(id: &str, channel: &str, addr: SocketAddress, now: u64) -> AudioUserState {
    AudioUserState::new(
        id.to_string(),
        id.to_uppercase(),
        channel.to_string(),
        addr,
        Role::Member,
        now,
    )
}

fn ids(manager: &AudioStateManager) -> Vec<String> {
    manager.users.iter().map(|u| u.user_id.clone()).collect()
}

#[test]
fn test_channel_state() {
    let mut channel = ChannelState::new("test_channel".to_string(), 0);
    let socket = create_test_socket();

    let user = AudioUserState::new(
        "user1".to_string(),
        "User1".to_string(),
        "test_channel".to_string(),
        socket,
        Role::Member,
        0,
    );

    channel.add_user(user, 0);
    assert_eq!(channel.user_count(), 1);
    assert!(!channel.is_empty());

    let removed_user = channel.remove_user("user1", 0);
    assert!(removed_user.is_some());
    assert_eq!(channel.user_count(), 0);
    assert!(channel.is_empty());
}

#[test]
fn test_audio_state_manager() {
    let mut manager = AudioStateManager::new();
    let socket = create_test_socket();

    manager
        .add_user_to_channel(
            "user1".to_string(),
            "User1".to_string(),
            "channel1".to_string(),
            socket,
            Role::Member,
            0,
        )
        .unwrap();

    assert_eq!(manager.get_user_channel("user1"), Some("channel1".to_string()));

    manager.remove_user_from_channel("user1").unwrap();
    assert_eq!(manager.get_user_channel("user1"), None);
}

#[test]
fn test_broadcast_targets() {
    let mut manager = AudioStateManager::new();
    let socket1 = socket("127.0.0.1:12345");
    let socket2 = socket("127.0.0.1:12346");

    manager
        .add_user_to_channel(
            "user1".to_string(),
            "User1".to_string(),
            "channel1".to_string(),
            socket1,
            Role::Member,
            0,
        )
        .unwrap();

    manager
        .add_user_to_channel(
            "user2".to_string(),
            "User2".to_string(),
            "channel1".to_string(),
            socket2,
            Role::Member,
            0,
        )
        .unwrap();

    let targets = manager.get_broadcast_targets("user1", true);
    assert_eq!(targets.len(), 1);
    assert_eq!(targets[0].0, "user2");
}

#[test]
fn a_session_begins_unmuted_and_silent() {
    let u = user("u", "c", socket("10.0.0.1:1"), 42);
    assert!(!u.is_muted);
    assert!(!u.is_speaking);
    assert_eq!(u.last_activity, 42);
    assert_eq!(u.sequence_number, 0);
    assert_eq!(u.role, Role::Member);
    assert_eq!(u.socket_addr, SocketAddress { ip: 0xFFFF_0A00_0001, port: 1 });
}

#[test]
fn expiry_is_strict_and_one_sided() {
    let mut u = user("u", "c", socket("10.0.0.1:1"), 1000);
    assert!(!u.is_expired(300, 1300));
    assert!(u.is_expired(300, 1301));
    assert!(!u.is_expired(300, 10));
    u.update_activity(1301);
    assert!(!u.is_expired(300, 1301));
    assert!(!u.is_expired(0, 1301));
    assert!(u.is_expired(0, 1302));
}

#[test]
fn the_sequence_number_wraps() {
    let mut u = user("u", "c", socket("10.0.0.1:1"), 0);
    assert_eq!(u.next_sequence(), 1);
    assert_eq!(u.next_sequence(), 2);
    u.sequence_number = u32::MAX;
    assert_eq!(u.next_sequence(), 0);
    assert_eq!(u.sequence_number, 0);
}

#[test]
fn binding_supersedes_the_principal_and_the_address() {
    let mut manager = AudioStateManager::new();
    let a = socket("10.0.0.1:1");
    let b = socket("10.0.0.2:2");
    let c = socket("10.0.0.3:3");
    for (id, channel, addr) in [("u1", "x", a), ("u2", "x", b), ("u3", "y", c)] {
        manager
            .add_user_to_channel(id.to_string(), id.to_string(), channel.to_string(), addr, Role::Member, 0)
            .unwrap();
    }
    assert_eq!(ids(&manager), vec!["u1", "u2", "u3"]);

    manager
        .add_user_to_channel("u1".to_string(), "u1".to_string(), "y".to_string(), c, Role::Owner, 5)
        .unwrap();
    assert_eq!(ids(&manager), vec!["u2", "u1"]);
    assert_eq!(manager.get_user_channel("u1"), Some("y".to_string()));
    assert_eq!(manager.get_user_channel("u3"), None);
    let (channel, found) = manager.get_user_by_socket(&c).unwrap();
    assert_eq!(channel, "y");
    assert_eq!(found.user_id, "u1");
    assert_eq!(found.role, Role::Owner);
    assert_eq!(found.last_activity, 5);
    assert!(manager.get_user_by_socket(&a).is_none());
    assert_eq!(manager.get_user("u2").unwrap().socket_addr, b);
}

#[test]
fn both_indexes_find_the_same_session() {
    let mut manager = AudioStateManager::new();
    for n in 0u16..6 {
        manager
            .add_user_to_channel(
                format!("u{}", n % 4),
                format!("U{}", n),
                format!("c{}", n % 2),
                SocketAddress { ip: 9, port: n % 3 },
                Role::Member,
                n as u64,
            )
            .unwrap();
        for u in &manager.users {
            let (_, by_socket) = manager.get_user_by_socket(&u.socket_addr).unwrap();
            assert_eq!(by_socket.user_id, u.user_id);
            let by_id = manager.get_user(&u.user_id).unwrap();
            assert_eq!(by_id.socket_addr, u.socket_addr);
        }
    }
    assert_eq!(ids(&manager), vec!["u3", "u0", "u1"]);
}

#[test]
fn targets_leave_out_the_sender_other_channels_and_the_muted() {
    let mut manager = AudioStateManager::new();
    for (n, (id, channel)) in
        [("a", "x"), ("b", "x"), ("c", "y"), ("d", "x"), ("e", "x")].iter().enumerate()
    {
        manager
            .add_user_to_channel(
                id.to_string(),
                id.to_string(),
                channel.to_string(),
                SocketAddress { ip: 1, port: n as u16 },
                Role::Member,
                0,
            )
            .unwrap();
    }
    assert!(manager.set_user_mute("d", true, 1));
    assert!(!manager.set_user_mute("zz", true, 1));

    let all = manager.get_broadcast_targets("a", true);
    let names: Vec<&str> = all.iter().map(|t| t.0.as_str()).collect();
    assert_eq!(names, vec!["b", "d", "e"]);
    assert_eq!(all[1].1, SocketAddress { ip: 1, port: 3 });

    let unmuted = manager.get_broadcast_targets("a", false);
    let names: Vec<&str> = unmuted.iter().map(|t| t.0.as_str()).collect();
    assert_eq!(names, vec!["b", "e"]);

    assert!(manager.get_broadcast_targets("c", true).is_empty());
    assert!(manager.get_broadcast_targets("nobody", true).is_empty());

    assert!(manager.set_user_mute("d", false, 2));
    assert_eq!(manager.get_broadcast_targets("a", false).len(), 3);
    assert_eq!(manager.get_user("d").unwrap().last_activity, 2);
}

#[test]
fn flags_and_observations() {
    let mut manager = AudioStateManager::new();
    let addr = socket("10.0.0.1:1");
    manager
        .add_user_to_channel("u".to_string(), "U".to_string(), "c".to_string(), addr, Role::Member, 0)
        .unwrap();
    assert!(manager.set_user_speaking("u", true, 3));
    assert!(!manager.set_user_speaking("v", true, 3));
    let u = manager.get_user("u").unwrap();
    assert!(u.is_speaking && !u.is_muted);
    assert_eq!(u.last_activity, 3);

    assert!(manager.touch(&addr, 3));
    assert!(!manager.touch(&socket("10.0.0.9:1"), 3));
    assert_eq!(manager.get_user("u").unwrap().sequence_number, 0);
    assert!(manager.observe(&addr, 7, 4));
    assert!(manager.observe(&addr, 5, 6));
    assert!(!manager.observe(&socket("10.0.0.9:1"), 9, 6));
    let u = manager.get_user("u").unwrap();
    assert_eq!(u.sequence_number, 7);
    assert_eq!(u.last_activity, 6);
}

#[test]
fn cleanup_removes_the_idle_and_their_channels() {
    let mut manager = AudioStateManager::new();
    manager.set_user_timeout(100);
    manager.set_cleanup_interval(10);
    assert_eq!(manager.user_timeout, 100);
    assert_eq!(manager.cleanup_interval, 10);
    for (n, (id, channel, at)) in
        [("a", "x", 0u64), ("b", "y", 50), ("c", "x", 60), ("d", "z", 0)].iter().enumerate()
    {
        manager
            .add_user_to_channel(
                id.to_string(),
                id.to_string(),
                channel.to_string(),
                SocketAddress { ip: 1, port: n as u16 },
                Role::Member,
                *at,
            )
            .unwrap();
    }
    assert!(manager.cleanup(100).is_empty());
    let removed = manager.cleanup(101);
    assert_eq!(removed, vec!["a", "d"]);
    assert_eq!(ids(&manager), vec!["b", "c"]);
    assert!(manager.get_channel("z").is_none());
    let x = manager.get_channel("x").unwrap();
    assert_eq!(x.channel_id, "x");
    assert_eq!(x.get_user_ids(), vec!["c"]);
    assert_eq!(x.last_activity, 60);
}

#[test]
fn stats_count_channels_in_order_of_appearance() {
    let mut manager = AudioStateManager::new();
    let stats = manager.get_stats();
    assert_eq!(stats.total_channels, 0);
    assert_eq!(stats.total_users, 0);
    assert!(stats.channel_stats.is_empty());
    for (n, (id, channel, at)) in
        [("a", "x", 5u64), ("b", "y", 50), ("c", "x", 60), ("d", "x", 7)].iter().enumerate()
    {
        manager
            .add_user_to_channel(
                id.to_string(),
                id.to_string(),
                channel.to_string(),
                SocketAddress { ip: 1, port: n as u16 },
                Role::Member,
                *at,
            )
            .unwrap();
    }
    let stats = manager.get_stats();
    assert_eq!(stats.total_channels, 2);
    assert_eq!(stats.total_users, 4);
    assert_eq!(stats.channel_stats[0].channel_id, "x");
    assert_eq!(stats.channel_stats[0].user_count, 3);
    assert_eq!(stats.channel_stats[0].last_activity, 60);
    assert_eq!(stats.channel_stats[1].channel_id, "y");
    assert_eq!(stats.channel_stats[1].user_count, 1);
    assert_eq!(stats.channel_stats[1].last_activity, 50);
}

#[test]
fn a_channel_is_a_table_of_its_own() {
    let mut channel = ChannelState::new("c".to_string(), 1);
    let a = socket("10.0.0.1:1");
    let b = socket("10.0.0.2:2");
    channel.add_user(user("u1", "c", a, 2), 2);
    channel.add_user(user("u2", "c", b, 3), 3);
    channel.add_user(user("u3", "c", a, 4), 4);
    assert_eq!(channel.get_user_ids(), vec!["u2", "u3"]);
    assert_eq!(channel.last_activity, 4);
    assert!(channel.get_user("u1").is_none());
    assert_eq!(channel.get_user_by_socket(&a).unwrap().user_id, "u3");
    assert!(channel.get_user_by_socket(&socket("10.0.0.3:3")).is_none());

    assert!(channel.set_user_mute("u3", true, 5));
    assert!(channel.set_user_speaking("u2", true, 6));
    assert!(!channel.set_user_mute("u9", true, 5));
    assert_eq!(channel.get_users_except("u2").len(), 1);
    assert_eq!(channel.get_users_except("u9").len(), 2);
    assert!(channel.get_unmuted_users_except("u2").is_empty());
    assert_eq!(channel.get_unmuted_users_except("u3")[0].user_id, "u2");

    assert!(channel.remove_user("u9", 9).is_none());
    assert_eq!(channel.last_activity, 4);
    assert_eq!(channel.cleanup_expired_users(10, 16), vec!["u3"]);
    assert_eq!(channel.get_user_ids(), vec!["u2"]);
    assert_eq!(channel.remove_user("u2", 20).unwrap().user_id, "u2");
    assert_eq!(channel.last_activity, 20);
    assert!(channel.is_empty());
}

#[test]
fn state_error_messages() {
    assert_eq!(StateError::ChannelNotFound.message(), "Channel not found");
    assert_eq!(StateError::UserNotFound.message(), "User not found");
    assert_eq!(StateError::UserAlreadyInChannel.message(), "User already in channel");
    assert_eq!(StateError::ChannelFull.message(), "Channel is full");
    assert_eq!(StateError::PermissionDenied.message(), "Permission denied");
}
