//! The local projection of the channel roster: who owns, moderates and
//! belongs to a channel, who is banned from it, and what each role may do.

use crate::text::text_eq;
use vstd::prelude::*;

verus! {

/// Who may enter a channel.
#[derive(Debug, Clone, Copy, PartialEq, Eq, Structural)]
pub enum ChannelPrivacy {
    /// Anyone.
    Public,
    /// Members only.
    Private,
    /// Holders of an invitation.
    InviteOnly,
}

/// A ban from a channel.
#[derive(Debug, Clone)]
pub struct BannedUser {
    /// Id of the banned user.
    pub user_id: String,
    /// Display name of the banned user.
    pub username: String,
    /// Id of the user who banned.
    pub banned_by: String,
    /// Instant of the ban, in seconds.
    pub banned_at: u64,
    /// Reason given, if any.
    pub reason: Option<String>,
}

/// An invitation to a channel.
#[derive(Debug, Clone)]
pub struct InviteToken {
    /// The token itself.
    pub token: String,
    /// Id of the user who issued it.
    pub created_by: String,
    /// Display name of the invited user, if one was named.
    pub created_for: Option<String>,
    /// Instant of expiry, in seconds.
    pub expires_at: u64,
    /// Whether it was used.
    pub used: bool,
    /// Id of the user who used it.
    pub used_by: Option<String>,
}

/// What a user is in a channel.
#[derive(Debug, Clone, Copy, PartialEq, Eq, Structural)]
pub enum Role {
    /// The owner.
    Owner,
    /// A moderator.
    Moderator,
    /// A plain member.
    Member,
}

/// A user with the role held in a channel.
#[derive(Debug, Clone)]
pub struct UserRole {
    /// Id of the user.
    pub user_id: String,
    /// Display name of the user.
    pub username: String,
    /// Role held.
    pub role: Role,
}

/// A channel's roster.
#[derive(Debug, Clone)]
pub struct Channel {
    /// Id of the channel.
    pub id: String,
    /// Display name.
    pub name: String,
    /// Who may enter.
    pub privacy: ChannelPrivacy,
    /// Id of the owner.
    pub owner: String,
    /// Ids of the moderators.
    pub moderators: Vec<String>,
    /// Ids of the members.
    pub members: Vec<String>,
    /// Bans in force.
    pub banned_users: Vec<BannedUser>,
    /// Invitations issued.
    pub invite_tokens: Vec<InviteToken>,
}

/// Whether a text occurs in a list of names.
pub open spec fn lists_name(names: Seq<String>, name: Seq<char>) -> bool {
    exists|i: int| 0 <= i < names.len() && names[i]@ == name
}

/// Whether a user is among the banned.
pub open spec fn lists_ban(bans: Seq<BannedUser>, user_id: Seq<char>) -> bool {
    exists|i: int| 0 <= i < bans.len() && bans[i].user_id@ == user_id
}

/// The role that a roster gives a user: owner before moderator before
/// member; none for a stranger.
pub open spec fn role_in_channel(channel: Channel, user_id: Seq<char>) -> Option<Role> {
    if channel.owner@ == user_id {
        Some(Role::Owner)
    } else if lists_name(channel.moderators@, user_id) {
        Some(Role::Moderator)
    } else if lists_name(channel.members@, user_id) {
        Some(Role::Member)
    } else {
        None
    }
}

/// The role that a text names.
pub open spec fn role_of_text(s: Seq<char>) -> Option<Role> {
    if s == "owner"@ {
        Some(Role::Owner)
    } else if s == "moderator"@ {
        Some(Role::Moderator)
    } else if s == "member"@ {
        Some(Role::Member)
    } else {
        None
    }
}

impl Role {
    /// The text that names this role.
    pub open spec fn text(self) -> Seq<char> {
        match self {
            Role::Owner => "owner"@,
            Role::Moderator => "moderator"@,
            Role::Member => "member"@,
        }
    }

    /// Whether a holder of this role may manage a holder of `target`: the
    /// owner anyone, a moderator other moderators and members, a member no
    /// one.
    pub open spec fn manages(self, target: Role) -> bool {
        match (self, target) {
            (Role::Owner, _) => true,
            (Role::Moderator, Role::Member) => true,
            (Role::Moderator, Role::Moderator) => true,
            _ => false,
        }
    }

    /// The role's name.
    pub fn as_str(&self) -> (r: &'static str)
        ensures
            r@ == self.text(),
    {
        match self {
            Role::Owner => "owner",
            Role::Moderator => "moderator",
            Role::Member => "member",
        }
    }

    /// The role that a name stands for, if it is one of the three names.
    pub fn from_str(s: &str) -> (r: Option<Self>)
        ensures
            r == role_of_text(s@),
    {
        if text_eq(s, "owner") {
            Some(Role::Owner)
        } else if text_eq(s, "moderator") {
            Some(Role::Moderator)
        } else if text_eq(s, "member") {
            Some(Role::Member)
        } else {
            None
        }
    }

    /// Whether a holder of this role may manage a holder of `target_role`.
    pub fn can_manage(&self, target_role: &Role) -> (r: bool)
        ensures
            r == self.manages(*target_role),
    {
        match (self, target_role) {
            (Role::Owner, _) => true,
            (Role::Moderator, Role::Member) => true,
            (Role::Moderator, Role::Moderator) => true,
            _ => false,
        }
    }
}

/// A role is read back from its own name.
pub proof fn lemma_role_text_round_trip(role: Role)
    ensures
        role_of_text(role.text()) == Some(role),
{
    reveal_strlit("owner");
    reveal_strlit("moderator");
    reveal_strlit("member");
    assert("owner"@.len() == 5);
    assert("moderator"@.len() == 9);
    assert("member"@.len() == 6);
}

/// Whether a name occurs in a list.
pub fn contains_name(names: &Vec<String>, name: &str) -> (r: bool)
    ensures
        r == lists_name(names@, name@),
{
    let mut i: usize = 0;
    while i < names.len()
        invariant
            i <= names@.len(),
            forall|j: int| 0 <= j < i ==> names@[j]@ != name@,
        decreases names@.len() - i,
    {
        if text_eq(names[i].as_str(), name) {
            return true;
        }
        i += 1;
    }
    false
}

/// The role that the roster gives a user, if any.
pub fn get_user_role_in_channel(channel: &Channel, user_id: &str) -> (r: Option<Role>)
    ensures
        r == role_in_channel(*channel, user_id@),
{
    if text_eq(channel.owner.as_str(), user_id) {
        Some(Role::Owner)
    } else if contains_name(&channel.moderators, user_id) {
        Some(Role::Moderator)
    } else if contains_name(&channel.members, user_id) {
        Some(Role::Member)
    } else {
        None
    }
}

/// Whether the user owns or moderates the channel.
pub fn can_moderate_channel(channel: &Channel, user_id: &str) -> (r: bool)
    ensures
        r == (role_in_channel(*channel, user_id@) == Some(Role::Owner) || role_in_channel(
            *channel,
            user_id@,
        ) == Some(Role::Moderator)),
{
    match get_user_role_in_channel(channel, user_id) {
        Some(Role::Owner) => true,
        Some(Role::Moderator) => true,
        _ => false,
    }
}

/// Whether the user is banned from the channel.
pub fn is_user_banned(channel: &Channel, user_id: &str) -> (r: bool)
    ensures
        r == lists_ban(channel.banned_users@, user_id@),
{
    let mut i: usize = 0;
    while i < channel.banned_users.len()
        invariant
            i <= channel.banned_users@.len(),
            forall|j: int| 0 <= j < i ==> channel.banned_users@[j].user_id@ != user_id@,
        decreases channel.banned_users@.len() - i,
    {
        if text_eq(channel.banned_users[i].user_id.as_str(), user_id) {
            return true;
        }
        i += 1;
    }
    false
}

/// The display name of a user: the id itself.
pub fn get_username_by_id(user_id: &str) -> (r: String)
    ensures
        r@ == user_id@,
{
    user_id.to_string()
}

/// The rosters that the relay knows, one per channel.
#[derive(Debug, Clone)]
pub struct AppState {
    /// The rosters; the relay reads the first with a given id.
    pub channels: Vec<Channel>,
}

/// The first roster with the given id, as a position.
pub open spec fn channel_position(channels: Seq<Channel>, channel_id: Seq<char>) -> Option<int>
    decreases channels.len(),
{
    if channels.len() == 0 {
        None
    } else if channels[0].id@ == channel_id {
        Some(0)
    } else {
        match channel_position(channels.drop_first(), channel_id) {
            Some(i) => Some(i + 1),
            None => None,
        }
    }
}

/// Where `channel_position` finds a roster, it is the first with that id;
/// where it finds none, no roster has the id.
pub proof fn lemma_channel_position(channels: Seq<Channel>, channel_id: Seq<char>)
    ensures
        match channel_position(channels, channel_id) {
            Some(i) => 0 <= i < channels.len() && channels[i].id@ == channel_id && forall|j: int|
                0 <= j < i ==> channels[j].id@ != channel_id,
            None => forall|j: int| 0 <= j < channels.len() ==> channels[j].id@ != channel_id,
        },
    decreases channels.len(),
{
    if channels.len() > 0 && channels[0].id@ != channel_id {
        let rest = channels.drop_first();
        lemma_channel_position(rest, channel_id);
        match channel_position(rest, channel_id) {
            Some(i) => {
                assert forall|j: int| 0 <= j < i + 1 implies channels[j].id@ != channel_id by {
                    if j > 0 {
                        assert(rest[j - 1] == channels[j]);
                    }
                }
            },
            None => {
                assert forall|j: int| 0 <= j < channels.len() implies channels[j].id@
                    != channel_id by {
                    if j > 0 {
                        assert(rest[j - 1] == channels[j]);
                    }
                }
            },
        }
    }
}

impl AppState {
    /// No rosters.
    pub fn new() -> (r: Self)
        ensures
            r.channels@ == Seq::<Channel>::empty(),
    {
        AppState { channels: Vec::new() }
    }

    /// The position of the first roster with the given id.
    pub fn find_channel(&self, channel_id: &str) -> (r: Option<usize>)
        ensures
            match r {
                Some(i) => channel_position(self.channels@, channel_id@) == Some(i as int),
                None => channel_position(self.channels@, channel_id@) is None,
            },
    {
        let mut i: usize = 0;
        while i < self.channels.len()
            invariant
                i <= self.channels@.len(),
                forall|j: int| 0 <= j < i ==> self.channels@[j].id@ != channel_id@,
            decreases self.channels@.len() - i,
        {
            if text_eq(self.channels[i].id.as_str(), channel_id) {
                proof {
                    lemma_channel_position(self.channels@, channel_id@);
                }
                return Some(i);
            }
            i += 1;
        }
        proof {
            lemma_channel_position(self.channels@, channel_id@);
        }
        None
    }
}

} // verus!
