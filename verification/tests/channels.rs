use voice_relay::channels::can_moderate_channel;
use voice_relay::channels::contains_name;
use voice_relay::channels::get_user_role_in_channel;
use voice_relay::channels::get_username_by_id;
use voice_relay::channels::is_user_banned;
use voice_relay::channels::AppState;
use voice_relay::channels::BannedUser;
use voice_relay::channels::Channel;
use voice_relay::channels::ChannelPrivacy;
use voice_relay::channels::Role;

fn channel() -> Channel {
    Channel {
        id: "room".to_string(),
        name: "Room".to_string(),
        privacy: ChannelPrivacy::Public,
        owner: "olga".to_string(),
        moderators: vec!["olga".to_string(), "mia".to_string()],
        members: vec!["olga".to_string(), "mia".to_string(), "max".to_string()],
        banned_users: vec![BannedUser {
            user_id: "bob".to_string(),
            username: "Bob".to_string(),
            banned_by: "olga".to_string(),
            banned_at: 7,
            reason: None,
        }],
        invite_tokens: Vec::new(),
    }
}

#[test]
fn role_names() {
    assert_eq!(Role::Owner.as_str(), "owner");
    assert_eq!(Role::Moderator.as_str(), "moderator");
    assert_eq!(Role::Member.as_str(), "member");
    assert_eq!(Role::from_str("owner"), Some(Role::Owner));
    assert_eq!(Role::from_str("moderator"), Some(Role::Moderator));
    assert_eq!(Role::from_str("member"), Some(Role::Member));
    assert_eq!(Role::from_str("Owner"), None);
    assert_eq!(Role::from_str(""), None);
    for role in [Role::Owner, Role::Moderator, Role::Member] {
        assert_eq!(Role::from_str(role.as_str()), Some(role));
    }
}

#[test]
fn who_manages_whom() {
    assert!(Role::Owner.can_manage(&Role::Owner));
    assert!(Role::Owner.can_manage(&Role::Moderator));
    assert!(Role::Owner.can_manage(&Role::Member));
    assert!(!Role::Moderator.can_manage(&Role::Owner));
    assert!(Role::Moderator.can_manage(&Role::Moderator));
    assert!(Role::Moderator.can_manage(&Role::Member));
    assert!(!Role::Member.can_manage(&Role::Owner));
    assert!(!Role::Member.can_manage(&Role::Moderator));
    assert!(!Role::Member.can_manage(&Role::Member));
}

#[test]
fn roster_roles() {
    let c = channel();
    assert_eq!(get_user_role_in_channel(&c, "olga"), Some(Role::Owner));
    assert_eq!(get_user_role_in_channel(&c, "mia"), Some(Role::Moderator));
    assert_eq!(get_user_role_in_channel(&c, "max"), Some(Role::Member));
    assert_eq!(get_user_role_in_channel(&c, "eve"), None);
    assert!(can_moderate_channel(&c, "olga"));
    assert!(can_moderate_channel(&c, "mia"));
    assert!(!can_moderate_channel(&c, "max"));
    assert!(!can_moderate_channel(&c, "eve"));
    assert!(is_user_banned(&c, "bob"));
    assert!(!is_user_banned(&c, "Bob"));
    assert!(!is_user_banned(&c, "max"));
    assert!(contains_name(&c.members, "max"));
    assert!(!contains_name(&c.members, "ma"));
    assert_eq!(get_username_by_id("u-1"), "u-1");
}

#[test]
fn rosters_are_found_by_id() {
    let mut state = AppState::new();
    assert!(state.channels.is_empty());
    assert_eq!(state.find_channel("room"), None);
    let mut other = channel();
    other.id = "hall".to_string();
    state.channels.push(other);
    state.channels.push(channel());
    state.channels.push(channel());
    assert_eq!(state.find_channel("hall"), Some(0));
    assert_eq!(state.find_channel("room"), Some(1));
    assert_eq!(state.find_channel("roo"), None);
}
