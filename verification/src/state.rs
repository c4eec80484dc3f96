//! The session table: which principal is bound to which socket address and
//! channel, with the flags and instants that fan-out and housekeeping read.
//!
//! A table is a list of sessions in which no principal and no socket address
//! occurs twice. The index from socket to principal and the index from
//! principal to session are both read off that one list, so they cannot
//! disagree. Channels are the groups of sessions with the same channel id.
//!
//! Instants and durations are milliseconds on a clock that the caller reads.

use crate::channels::Role;
use crate::table::first_where;
use crate::table::lemma_filter_next;
use crate::table::lemma_filter_none;
use crate::table::lemma_first_where;
use crate::table::lemma_first_where_at;
use crate::table::lemma_first_where_none;
use crate::text::text_eq;
use vstd::prelude::*;

verus! {

/// The remote end of a datagram: an IP address and a port. An IPv4 address
/// is held in its IPv6-mapped form.
#[derive(Debug, Clone, Copy, PartialEq, Eq, Hash, Structural)]
pub struct SocketAddress {
    /// The address as a 128-bit number.
    pub ip: u128,
    /// The port.
    pub port: u16,
}

/// A session: a principal bound to a socket address and a channel.
#[derive(Debug)]
pub struct AudioUserState {
    /// The principal id.
    pub user_id: String,
    /// The display name.
    pub username: String,
    /// The channel the principal is in.
    pub channel_id: String,
    /// The last known remote address.
    pub socket_addr: SocketAddress,
    /// Whether the principal asked not to receive.
    pub is_muted: bool,
    /// Whether the principal is speaking.
    pub is_speaking: bool,
    /// Instant of the last activity.
    pub last_activity: u64,
    /// Highest sequence number observed from the sender.
    pub sequence_number: u32,
    /// Role held in the channel.
    pub role: Role,
}

/// A session as a mathematical value.
pub ghost struct AudioUserStateView {
    pub user_id: Seq<char>,
    pub username: Seq<char>,
    pub channel_id: Seq<char>,
    pub socket_addr: SocketAddress,
    pub is_muted: bool,
    pub is_speaking: bool,
    pub last_activity: u64,
    pub sequence_number: u32,
    pub role: Role,
}

impl View for AudioUserState {
    type V = AudioUserStateView;

    open spec fn view(&self) -> AudioUserStateView {
        AudioUserStateView {
            user_id: self.user_id@,
            username: self.username@,
            channel_id: self.channel_id@,
            socket_addr: self.socket_addr,
            is_muted: self.is_muted,
            is_speaking: self.is_speaking,
            last_activity: self.last_activity,
            sequence_number: self.sequence_number,
            role: self.role,
        }
    }
}

impl Clone for AudioUserState {
    fn clone(&self) -> (r: Self)
        ensures
            r@ == self@,
    {
        AudioUserState {
            user_id: self.user_id.clone(),
            username: self.username.clone(),
            channel_id: self.channel_id.clone(),
            socket_addr: self.socket_addr,
            is_muted: self.is_muted,
            is_speaking: self.is_speaking,
            last_activity: self.last_activity,
            sequence_number: self.sequence_number,
            role: self.role,
        }
    }
}

/// Whether a session has been idle for longer than `timeout` at the instant
/// `now`. A session touched later than `now` has not been idle at all.
pub open spec fn user_expired(u: AudioUserStateView, timeout: u64, now: u64) -> bool {
    now - u.last_activity > timeout
}

impl AudioUserState {
    /// A session that begins at the instant `now`: not muted, not speaking,
    /// no sequence number observed.
    pub fn new(
        user_id: String,
        username: String,
        channel_id: String,
        socket_addr: SocketAddress,
        role: Role,
        now: u64,
    ) -> (r: Self)
        ensures
            r.user_id == user_id,
            r.username == username,
            r.channel_id == channel_id,
            r.socket_addr == socket_addr,
            !r.is_muted,
            !r.is_speaking,
            r.last_activity == now,
            r.sequence_number == 0,
            r.role == role,
    {
        AudioUserState {
            user_id,
            username,
            channel_id,
            socket_addr,
            is_muted: false,
            is_speaking: false,
            last_activity: now,
            sequence_number: 0,
            role,
        }
    }

    /// Records activity at the instant `now`.
    pub fn update_activity(&mut self, now: u64)
        ensures
            *final(self) == (AudioUserState { last_activity: now, ..*old(self) }),
    {
        self.last_activity = now;
    }

    /// Whether the session has been idle for longer than `timeout` at the
    /// instant `now`.
    pub fn is_expired(&self, timeout: u64, now: u64) -> (r: bool)
        ensures
            r == user_expired(self@, timeout, now),
    {
        now > self.last_activity && now - self.last_activity > timeout
    }

    /// Steps the sequence number, wrapping behind the largest, and hands the
    /// new one out.
    pub fn next_sequence(&mut self) -> (r: u32)
        ensures
            r == if old(self).sequence_number == u32::MAX {
                0
            } else {
                old(self).sequence_number + 1
            },
            *final(self) == (AudioUserState { sequence_number: r, ..*old(self) }),
    {
        self.sequence_number = if self.sequence_number == u32::MAX {
            0
        } else {
            self.sequence_number + 1
        };
        self.sequence_number
    }
}

/// The views of the sessions of a table, row by row.
pub open spec fn user_views(users: Seq<AudioUserState>) -> Seq<AudioUserStateView> {
    Seq::new(users.len(), |i: int| users[i]@)
}

/// The predicate that picks the session of a principal.
pub open spec fn with_id(user_id: Seq<char>) -> spec_fn(AudioUserStateView) -> bool {
    |u: AudioUserStateView| u.user_id == user_id
}

/// The predicate that picks the session at a socket address.
pub open spec fn at_socket(addr: SocketAddress) -> spec_fn(AudioUserStateView) -> bool {
    |u: AudioUserStateView| u.socket_addr == addr
}

/// The predicate that picks the sessions of other principals.
pub open spec fn apart_from_id(user_id: Seq<char>) -> spec_fn(AudioUserStateView) -> bool {
    |u: AudioUserStateView| u.user_id != user_id
}

/// The predicate that picks the sessions that share neither the principal
/// nor the socket address.
pub open spec fn apart_from(user_id: Seq<char>, addr: SocketAddress) -> spec_fn(
    AudioUserStateView,
) -> bool {
    |u: AudioUserStateView| u.user_id != user_id && u.socket_addr != addr
}

/// The predicate that picks the sessions that are not expired.
pub open spec fn still_active(timeout: u64, now: u64) -> spec_fn(AudioUserStateView) -> bool {
    |u: AudioUserStateView| !user_expired(u, timeout, now)
}

/// The predicate that picks the sessions of a channel.
pub open spec fn in_channel(channel_id: Seq<char>) -> spec_fn(AudioUserStateView) -> bool {
    |u: AudioUserStateView| u.channel_id == channel_id
}

/// The predicate that picks those to whom a sender's frame goes: the other
/// sessions of the channel, without the muted ones unless they are asked
/// for.
pub open spec fn receives_from(sender: Seq<char>, channel_id: Seq<char>, include_muted: bool)
    -> spec_fn(AudioUserStateView) -> bool {
    |u: AudioUserStateView|
        u.channel_id == channel_id && u.user_id != sender && (include_muted || !u.is_muted)
}

/// The table's invariant: no principal and no socket address occurs twice.
pub open spec fn distinct_users(users: Seq<AudioUserStateView>) -> bool {
    forall|i: int, j: int|
        0 <= i < j < users.len() ==> users[i].user_id != users[j].user_id
            && users[i].socket_addr != users[j].socket_addr
}

/// The principal ids of sessions, row by row.
pub open spec fn ids_of(users: Seq<AudioUserStateView>) -> Seq<Seq<char>> {
    Seq::new(users.len(), |i: int| users[i].user_id)
}

/// The pairs of principal id and socket address of sessions, row by row.
pub open spec fn targets_of(users: Seq<AudioUserStateView>) -> Seq<(Seq<char>, SocketAddress)> {
    Seq::new(users.len(), |i: int| (users[i].user_id, users[i].socket_addr))
}

/// In a table, the session found under a socket address is the one found
/// under its principal, and the session found under a principal is the one
/// found under its socket address: the two indexes agree.
pub proof fn lemma_indexes_agree(users: Seq<AudioUserStateView>, i: int)
    requires
        distinct_users(users),
        0 <= i < users.len(),
    ensures
        first_where(users, with_id(users[i].user_id)) == Some(i),
        first_where(users, at_socket(users[i].socket_addr)) == Some(i),
{
    assert forall|j: int| 0 <= j < i implies !with_id(users[i].user_id)(#[trigger] users[j]) by {
        assert(users[j].user_id != users[i].user_id);
    }
    assert forall|j: int| 0 <= j < i implies !at_socket(users[i].socket_addr)(
        #[trigger] users[j],
    ) by {
        assert(users[j].socket_addr != users[i].socket_addr);
    }
    lemma_first_where_at(users, with_id(users[i].user_id), i);
    lemma_first_where_at(users, at_socket(users[i].socket_addr), i);
}

/// Rows kept from a table are rows of the table, in their order; so a table
/// stays a table.
#[verifier::rlimit(40)]
pub proof fn lemma_filter_keeps_distinct(
    users: Seq<AudioUserStateView>,
    keep: spec_fn(AudioUserStateView) -> bool,
)
    requires
        distinct_users(users),
    ensures
        distinct_users(users.filter(keep)),
        forall|k: int|
            0 <= k < users.filter(keep).len() ==> keep(#[trigger] users.filter(keep)[k])
                && users.contains(users.filter(keep)[k]),
    decreases users.len(),
{
    reveal(Seq::filter);
    if users.len() > 0 {
        let front = users.drop_last();
        lemma_filter_keeps_distinct(front, keep);
        let kept = front.filter(keep);
        assert forall|k: int| 0 <= k < kept.len() implies users.contains(#[trigger] kept[k]) by {
            let w = choose|w: int| 0 <= w < front.len() && front[w] == kept[k];
            assert(users[w] == kept[k]);
        }
        if keep(users.last()) {
            let all = kept.push(users.last());
            assert forall|a: int, b: int| 0 <= a < b < all.len() implies all[a].user_id
                != all[b].user_id && all[a].socket_addr != all[b].socket_addr by {
                if b == kept.len() {
                    let w = choose|w: int| 0 <= w < front.len() && front[w] == kept[a];
                    assert(users[w].user_id != users[users.len() - 1].user_id);
                }
            }
            assert forall|k: int| 0 <= k < all.len() implies keep(#[trigger] all[k])
                && users.contains(all[k]) by {
                if k == kept.len() {
                    assert(users[users.len() - 1] == all[k]);
                } else {
                    assert(all[k] == kept[k]);
                }
            }
        }
    }
}

/// Finds the session of a principal.
pub fn find_user(users: &Vec<AudioUserState>, user_id: &str) -> (r: Option<usize>)
    ensures
        match r {
            Some(i) => first_where(user_views(users@), with_id(user_id@)) == Some(i as int) && i
                < users@.len(),
            None => first_where(user_views(users@), with_id(user_id@)) is None,
        },
{
    let ghost views = user_views(users@);
    let mut i: usize = 0;
    while i < users.len()
        invariant
            i <= users@.len(),
            views == user_views(users@),
            forall|j: int| 0 <= j < i ==> !with_id(user_id@)(#[trigger] views[j]),
        decreases users@.len() - i,
    {
        proof {
            assert(views[i as int] == users@[i as int]@);
        }
        if text_eq(users[i].user_id.as_str(), user_id) {
            proof {
                lemma_first_where_at(views, with_id(user_id@), i as int);
            }
            return Some(i);
        }
        i += 1;
    }
    proof {
        lemma_first_where_none(views, with_id(user_id@));
    }
    None
}

/// Finds the session at a socket address.
pub fn find_socket(users: &Vec<AudioUserState>, addr: &SocketAddress) -> (r: Option<usize>)
    ensures
        match r {
            Some(i) => first_where(user_views(users@), at_socket(*addr)) == Some(i as int) && i
                < users@.len(),
            None => first_where(user_views(users@), at_socket(*addr)) is None,
        },
{
    let ghost views = user_views(users@);
    let mut i: usize = 0;
    while i < users.len()
        invariant
            i <= users@.len(),
            views == user_views(users@),
            forall|j: int| 0 <= j < i ==> !at_socket(*addr)(#[trigger] views[j]),
        decreases users@.len() - i,
    {
        proof {
            assert(views[i as int] == users@[i as int]@);
        }
        if users[i].socket_addr.ip == addr.ip && users[i].socket_addr.port == addr.port {
            proof {
                lemma_first_where_at(views, at_socket(*addr), i as int);
            }
            return Some(i);
        }
        i += 1;
    }
    proof {
        lemma_first_where_none(views, at_socket(*addr));
    }
    None
}

/// Removing a row from a table leaves a table.
pub proof fn lemma_remove_keeps_distinct(users: Seq<AudioUserStateView>, i: int)
    requires
        distinct_users(users),
        0 <= i < users.len(),
    ensures
        distinct_users(users.remove(i)),
        first_where(users.remove(i), with_id(users[i].user_id)) is None,
        first_where(users.remove(i), at_socket(users[i].socket_addr)) is None,
{
    let rest = users.remove(i);
    assert forall|a: int, b: int| 0 <= a < b < rest.len() implies rest[a].user_id
        != rest[b].user_id && rest[a].socket_addr != rest[b].socket_addr by {
        let a0 = if a < i {
            a
        } else {
            a + 1
        };
        let b0 = if b < i {
            b
        } else {
            b + 1
        };
        assert(users[a0].user_id != users[b0].user_id);
    }
    assert forall|a: int| 0 <= a < rest.len() implies !with_id(users[i].user_id)(
        #[trigger] rest[a],
    ) && !at_socket(users[i].socket_addr)(rest[a]) by {
        let a0 = if a < i {
            a
        } else {
            a + 1
        };
        if a0 < i {
            assert(users[a0].user_id != users[i].user_id);
        } else {
            assert(users[i].user_id != users[a0].user_id);
        }
    }
    lemma_first_where_none(rest, with_id(users[i].user_id));
    lemma_first_where_none(rest, at_socket(users[i].socket_addr));
}

/// A rule that picks sessions, in a form that can be both stated and run.
pub enum RowRule<'a> {
    /// Not idle for longer than `timeout` at the instant `now`.
    Active { timeout: u64, now: u64 },
    /// Neither of the principal nor at the address.
    ApartFrom { user_id: &'a str, addr: SocketAddress },
    /// Of another principal.
    OtherThan { user_id: &'a str },
    /// Of another principal and not muted.
    UnmutedOtherThan { user_id: &'a str },
    /// In the channel.
    InChannel { channel_id: &'a str },
    /// In the channel, of another principal, and unless the muted are asked
    /// for, not muted.
    Receivers { sender: &'a str, channel_id: &'a str, include_muted: bool },
}

/// The opposite of a predicate.
pub open spec fn negated(rule: spec_fn(AudioUserStateView) -> bool) -> spec_fn(
    AudioUserStateView,
) -> bool {
    |u: AudioUserStateView| !rule(u)
}

impl<'a> RowRule<'a> {
    /// The predicate that the rule stands for.
    pub open spec fn picks(self) -> spec_fn(AudioUserStateView) -> bool {
        match self {
            RowRule::Active { timeout, now } => still_active(timeout, now),
            RowRule::ApartFrom { user_id, addr } => apart_from(user_id@, addr),
            RowRule::OtherThan { user_id } => apart_from_id(user_id@),
            RowRule::UnmutedOtherThan { user_id } => |u: AudioUserStateView|
                u.user_id != user_id@ && !u.is_muted,
            RowRule::InChannel { channel_id } => in_channel(channel_id@),
            RowRule::Receivers { sender, channel_id, include_muted } => receives_from(
                sender@,
                channel_id@,
                include_muted,
            ),
        }
    }

    /// Whether the rule picks a session.
    pub fn holds(&self, u: &AudioUserState) -> (r: bool)
        ensures
            r == self.picks()(u@),
    {
        match self {
            RowRule::Active { timeout, now } => !u.is_expired(*timeout, *now),
            RowRule::ApartFrom { user_id, addr } => !text_eq(u.user_id.as_str(), user_id) && !(
            u.socket_addr.ip == addr.ip && u.socket_addr.port == addr.port),
            RowRule::OtherThan { user_id } => !text_eq(u.user_id.as_str(), user_id),
            RowRule::UnmutedOtherThan { user_id } => !text_eq(u.user_id.as_str(), user_id)
                && !u.is_muted,
            RowRule::InChannel { channel_id } => text_eq(u.channel_id.as_str(), channel_id),
            RowRule::Receivers { sender, channel_id, include_muted } => text_eq(
                u.channel_id.as_str(),
                channel_id,
            ) && !text_eq(u.user_id.as_str(), sender) && (*include_muted || !u.is_muted),
        }
    }
}

/// Keeps the sessions that a rule picks and hands the others out, both parts
/// in their order.
#[verifier::rlimit(40)]
pub fn keep_rows(users: &mut Vec<AudioUserState>, rule: &RowRule) -> (removed: Vec<
    AudioUserState,
>)
    requires
        distinct_users(user_views(old(users)@)),
    ensures
        distinct_users(user_views(final(users)@)),
        user_views(final(users)@) == user_views(old(users)@).filter(rule.picks()),
        user_views(removed@) == user_views(old(users)@).filter(negated(rule.picks())),
{
    let ghost before = user_views(users@);
    let ghost keep = rule.picks();
    let ghost drop = negated(rule.picks());
    let ghost mut seen: int = 0;
    let mut removed: Vec<AudioUserState> = Vec::new();
    let mut i: usize = 0;
    proof {
        lemma_filter_none(before, keep);
        lemma_filter_none(before, drop);
        assert(user_views(users@) =~= before.subrange(0, 0).filter(keep) + before.subrange(
            0,
            before.len() as int,
        ));
        assert(user_views(removed@) =~= before.subrange(0, 0).filter(drop));
    }
    while i < users.len()
        invariant
            0 <= seen <= before.len(),
            i == before.subrange(0, seen).filter(keep).len(),
            user_views(users@) == before.subrange(0, seen).filter(keep) + before.subrange(
                seen,
                before.len() as int,
            ),
            user_views(removed@) == before.subrange(0, seen).filter(drop),
            distinct_users(user_views(users@)),
            keep == rule.picks(),
            drop == negated(rule.picks()),
        decreases before.len() - seen,
    {
        let ghost current = user_views(users@);
        let ghost out = user_views(removed@);
        proof {
            assert(current[i as int] == users@[i as int]@);
            assert(current[i as int] == before[seen]);
            lemma_filter_next(before, keep, seen);
            lemma_filter_next(before, drop, seen);
        }
        if !rule.holds(&users[i]) {
            let row = users.remove(i);
            removed.push(row);
            proof {
                lemma_remove_keeps_distinct(current, i as int);
                assert(user_views(users@) =~= current.remove(i as int));
                assert(user_views(users@) =~= before.subrange(0, seen + 1).filter(keep)
                    + before.subrange(seen + 1, before.len() as int));
                assert(user_views(removed@) =~= out.push(before[seen]));
            }
        } else {
            proof {
                assert(user_views(users@) =~= before.subrange(0, seen + 1).filter(keep)
                    + before.subrange(seen + 1, before.len() as int));
            }
            i += 1;
        }
        proof {
            seen = seen + 1;
        }
    }
    proof {
        assert(before.subrange(0, seen) =~= before);
        assert(user_views(users@) =~= before.filter(keep));
    }
    removed
}

/// The views of borrowed sessions, row by row.
pub open spec fn borrowed_views(users: Seq<&AudioUserState>) -> Seq<AudioUserStateView> {
    Seq::new(users.len(), |i: int| users[i]@)
}

/// Hands out the sessions that a rule picks, in their order.
pub fn pick_rows<'a>(users: &'a Vec<AudioUserState>, rule: &RowRule) -> (picked: Vec<
    &'a AudioUserState,
>)
    ensures
        borrowed_views(picked@) == user_views(users@).filter(rule.picks()),
{
    let ghost all = user_views(users@);
    let ghost keep = rule.picks();
    let mut picked: Vec<&'a AudioUserState> = Vec::new();
    let mut i: usize = 0;
    proof {
        lemma_filter_none(all, keep);
        assert(borrowed_views(picked@) =~= all.subrange(0, 0).filter(keep));
    }
    while i < users.len()
        invariant
            i <= users@.len(),
            all == user_views(users@),
            keep == rule.picks(),
            borrowed_views(picked@) == all.subrange(0, i as int).filter(keep),
        decreases users@.len() - i,
    {
        let ghost out = borrowed_views(picked@);
        proof {
            assert(all[i as int] == users@[i as int]@);
            lemma_filter_next(all, keep, i as int);
        }
        if rule.holds(&users[i]) {
            picked.push(&users[i]);
            proof {
                assert(borrowed_views(picked@) =~= out.push(all[i as int]));
            }
        }
        i += 1;
    }
    proof {
        assert(all.subrange(0, i as int) =~= all);
    }
    picked
}

/// A table with one session bound: the sessions of the same principal and
/// at the same socket address leave, and the new session stands last.
pub open spec fn with_bound(users: Seq<AudioUserStateView>, u: AudioUserStateView) -> Seq<
    AudioUserStateView,
> {
    users.filter(apart_from(u.user_id, u.socket_addr)).push(u)
}

/// Binding a session to a table leaves a table in which both indexes find
/// the new session.
pub proof fn lemma_bound_is_table(users: Seq<AudioUserStateView>, u: AudioUserStateView)
    requires
        distinct_users(users),
    ensures
        distinct_users(with_bound(users, u)),
        first_where(with_bound(users, u), with_id(u.user_id)) == Some(
            with_bound(users, u).len() - 1,
        ),
        first_where(with_bound(users, u), at_socket(u.socket_addr)) == Some(
            with_bound(users, u).len() - 1,
        ),
{
    let keep = apart_from(u.user_id, u.socket_addr);
    let kept = users.filter(keep);
    let all = with_bound(users, u);
    lemma_filter_keeps_distinct(users, keep);
    assert forall|a: int, b: int| 0 <= a < b < all.len() implies all[a].user_id != all[b].user_id
        && all[a].socket_addr != all[b].socket_addr by {
        if b == kept.len() {
            assert(keep(kept[a]));
        } else {
            assert(kept[a].user_id != kept[b].user_id);
        }
    }
    lemma_indexes_agree(all, all.len() - 1);
}

/// Binds a session: evicts the sessions of the same principal and at the
/// same socket address, hands them out, and puts the new session last.
pub fn bind_row(users: &mut Vec<AudioUserState>, user: AudioUserState) -> (evicted: Vec<
    AudioUserState,
>)
    requires
        distinct_users(user_views(old(users)@)),
    ensures
        distinct_users(user_views(final(users)@)),
        user_views(final(users)@) == with_bound(user_views(old(users)@), user@),
        user_views(evicted@) == user_views(old(users)@).filter(
            negated(apart_from(user.user_id@, user.socket_addr)),
        ),
{
    let ghost before = user_views(users@);
    let evicted = keep_rows(
        users,
        &RowRule::ApartFrom { user_id: user.user_id.as_str(), addr: user.socket_addr },
    );
    let ghost kept = user_views(users@);
    users.push(user);
    proof {
        assert(user_views(users@) =~= kept.push(user@));
        lemma_bound_is_table(before, user@);
    }
    evicted
}

/// Takes the session of a principal out of the table, if there is one.
pub fn take_row(users: &mut Vec<AudioUserState>, user_id: &str) -> (taken: Option<
    AudioUserState,
>)
    requires
        distinct_users(user_views(old(users)@)),
    ensures
        distinct_users(user_views(final(users)@)),
        match first_where(user_views(old(users)@), with_id(user_id@)) {
            Some(i) => taken is Some && taken->0 == old(users)@[i] && user_views(final(users)@)
                == user_views(old(users)@).remove(i),
            None => taken is None && final(users)@ == old(users)@,
        },
        first_where(user_views(final(users)@), with_id(user_id@)) is None,
{
    let ghost before = user_views(users@);
    proof {
        lemma_first_where(before, with_id(user_id@));
    }
    match find_user(users, user_id) {
        Some(i) => {
            let row = users.remove(i);
            proof {
                lemma_remove_keeps_distinct(before, i as int);
                assert(user_views(users@) =~= before.remove(i as int));
            }
            Some(row)
        },
        None => None,
    }
}

/// Which flag of a session to set.
#[derive(Debug, Clone, Copy, PartialEq, Eq, Structural)]
pub enum Flag {
    /// The mute flag.
    Muted,
    /// The speaking flag.
    Speaking,
}

/// A session with a flag set and touched at the instant `now`.
pub open spec fn flagged(u: AudioUserStateView, flag: Flag, value: bool, now: u64)
    -> AudioUserStateView {
    match flag {
        Flag::Muted => AudioUserStateView { is_muted: value, last_activity: now, ..u },
        Flag::Speaking => AudioUserStateView { is_speaking: value, last_activity: now, ..u },
    }
}

/// Sets a flag of a principal's session and touches it; says whether there
/// was such a session.
pub fn set_flag(users: &mut Vec<AudioUserState>, user_id: &str, flag: Flag, value: bool, now: u64)
    -> (found: bool)
    requires
        distinct_users(user_views(old(users)@)),
    ensures
        distinct_users(user_views(final(users)@)),
        match first_where(user_views(old(users)@), with_id(user_id@)) {
            Some(i) => found && user_views(final(users)@) == user_views(old(users)@).update(
                i,
                flagged(user_views(old(users)@)[i], flag, value, now),
            ),
            None => !found && final(users)@ == old(users)@,
        },
{
    let ghost before = user_views(users@);
    match find_user(users, user_id) {
        Some(i) => {
            proof {
                assert(before[i as int] == users@[i as int]@);
            }
            match flag {
                Flag::Muted => {
                    users[i].is_muted = value;
                },
                Flag::Speaking => {
                    users[i].is_speaking = value;
                },
            }
            users[i].last_activity = now;
            proof {
                let after = user_views(users@);
                assert(after =~= before.update(
                    i as int,
                    flagged(before[i as int], flag, value, now),
                ));
                assert forall|a: int, b: int| 0 <= a < b < after.len() implies after[a].user_id
                    != after[b].user_id && after[a].socket_addr != after[b].socket_addr by {
                    assert(before[a].user_id != before[b].user_id);
                }
            }
            true
        },
        None => false,
    }
}

/// The principal ids of sessions, copied out row by row.
pub fn ids_of_rows(users: &Vec<AudioUserState>) -> (ids: Vec<String>)
    ensures
        ids.deep_view() == ids_of(user_views(users@)),
{
    let mut ids: Vec<String> = Vec::new();
    let mut i: usize = 0;
    while i < users.len()
        invariant
            i <= users@.len(),
            ids@.len() == i,
            forall|j: int| 0 <= j < i ==> ids@[j]@ == users@[j].user_id@,
        decreases users@.len() - i,
    {
        ids.push(users[i].user_id.clone());
        i += 1;
    }
    assert(ids.deep_view() =~= ids_of(user_views(users@)));
    ids
}

/// The latest activity among sessions; 0 where there are none.
pub open spec fn latest_activity(users: Seq<AudioUserStateView>) -> u64
    decreases users.len(),
{
    if users.len() == 0 {
        0
    } else if users.last().last_activity > latest_activity(users.drop_last()) {
        users.last().last_activity
    } else {
        latest_activity(users.drop_last())
    }
}

/// The latest activity among borrowed sessions.
pub fn latest_of(rows: &Vec<&AudioUserState>) -> (r: u64)
    ensures
        r == latest_activity(borrowed_views(rows@)),
{
    let ghost all = borrowed_views(rows@);
    let mut latest: u64 = 0;
    let mut i: usize = 0;
    while i < rows.len()
        invariant
            i <= rows@.len(),
            all == borrowed_views(rows@),
            latest == latest_activity(all.subrange(0, i as int)),
        decreases rows@.len() - i,
    {
        proof {
            let head = all.subrange(0, i + 1);
            assert(head.drop_last() =~= all.subrange(0, i as int));
            assert(head.last() == rows@[i as int]@);
        }
        if rows[i].last_activity > latest {
            latest = rows[i].last_activity;
        }
        i += 1;
    }
    proof {
        assert(all.subrange(0, i as int) =~= all);
    }
    latest
}

/// Copies of borrowed sessions, row by row.
pub fn clone_rows(rows: &Vec<&AudioUserState>) -> (r: Vec<AudioUserState>)
    ensures
        user_views(r@) == borrowed_views(rows@),
{
    let mut out: Vec<AudioUserState> = Vec::new();
    let mut i: usize = 0;
    while i < rows.len()
        invariant
            i <= rows@.len(),
            out@.len() == i,
            forall|j: int| 0 <= j < i ==> out@[j]@ == rows@[j]@,
        decreases rows@.len() - i,
    {
        out.push(rows[i].clone());
        i += 1;
    }
    assert(user_views(out@) =~= borrowed_views(rows@));
    out
}

/// The sessions of one channel.
#[derive(Debug)]
pub struct ChannelState {
    /// Id of the channel.
    pub channel_id: String,
    /// The sessions; no principal and no socket address occurs twice.
    pub users: Vec<AudioUserState>,
    /// Instant of the last change of membership.
    pub last_activity: u64,
}

impl ChannelState {
    /// The channel's invariant: its sessions make a table.
    pub open spec fn wf(&self) -> bool {
        distinct_users(self.views())
    }

    /// The sessions as mathematical values.
    pub open spec fn views(&self) -> Seq<AudioUserStateView> {
        user_views(self.users@)
    }

    /// A channel without sessions, made at the instant `now`.
    pub fn new(channel_id: String, now: u64) -> (r: Self)
        ensures
            r.wf(),
            r.channel_id == channel_id,
            r.users@ == Seq::<AudioUserState>::empty(),
            r.last_activity == now,
    {
        ChannelState { channel_id, users: Vec::new(), last_activity: now }
    }

    /// Binds a session at the instant `now`. An earlier session of the same
    /// principal or at the same socket address leaves.
    pub fn add_user(&mut self, user: AudioUserState, now: u64)
        requires
            old(self).wf(),
        ensures
            final(self).wf(),
            final(self).views() == with_bound(old(self).views(), user@),
            final(self).channel_id == old(self).channel_id,
            final(self).last_activity == now,
    {
        let _ = bind_row(&mut self.users, user);
        self.last_activity = now;
    }

    /// Removes the session of a principal at the instant `now` and hands it
    /// out; without such a session nothing changes.
    pub fn remove_user(&mut self, user_id: &str, now: u64) -> (r: Option<AudioUserState>)
        requires
            old(self).wf(),
        ensures
            final(self).wf(),
            final(self).channel_id == old(self).channel_id,
            match first_where(old(self).views(), with_id(user_id@)) {
                Some(i) => r is Some
                    && r->0 == old(self).users@[i]
                    && final(self).views() == old(self).views().remove(i)
                    && final(self).last_activity == now,
                None => r is None
                    && final(self).users@ == old(self).users@
                    && final(self).last_activity == old(self).last_activity,
            },
    {
        let taken = take_row(&mut self.users, user_id);
        if taken.is_some() {
            self.last_activity = now;
        }
        taken
    }

    /// The session of a principal.
    pub fn get_user(&self, user_id: &str) -> (r: Option<&AudioUserState>)
        ensures
            match first_where(self.views(), with_id(user_id@)) {
                Some(i) => r == Some(&self.users@[i]),
                None => r is None,
            },
    {
        match find_user(&self.users, user_id) {
            Some(i) => Some(&self.users[i]),
            None => None,
        }
    }

    /// The session at a socket address.
    pub fn get_user_by_socket(&self, socket_addr: &SocketAddress) -> (r: Option<&AudioUserState>)
        ensures
            match first_where(self.views(), at_socket(*socket_addr)) {
                Some(i) => r == Some(&self.users@[i]),
                None => r is None,
            },
    {
        match find_socket(&self.users, socket_addr) {
            Some(i) => Some(&self.users[i]),
            None => None,
        }
    }

    /// The sessions of all principals but one, in their order.
    pub fn get_users_except(&self, exclude_user_id: &str) -> (r: Vec<&AudioUserState>)
        ensures
            borrowed_views(r@) == self.views().filter(apart_from_id(exclude_user_id@)),
    {
        pick_rows(&self.users, &RowRule::OtherThan { user_id: exclude_user_id })
    }

    /// The sessions of all principals but one that are not muted, in their
    /// order.
    pub fn get_unmuted_users_except(&self, exclude_user_id: &str) -> (r: Vec<&AudioUserState>)
        ensures
            borrowed_views(r@) == self.views().filter(
                (RowRule::UnmutedOtherThan { user_id: exclude_user_id }).picks(),
            ),
    {
        pick_rows(&self.users, &RowRule::UnmutedOtherThan { user_id: exclude_user_id })
    }

    /// Sets the mute flag of a principal's session at the instant `now` and
    /// says whether there was such a session.
    pub fn set_user_mute(&mut self, user_id: &str, muted: bool, now: u64) -> (r: bool)
        requires
            old(self).wf(),
        ensures
            final(self).wf(),
            final(self).channel_id == old(self).channel_id,
            final(self).last_activity == old(self).last_activity,
            match first_where(old(self).views(), with_id(user_id@)) {
                Some(i) => r && final(self).views() == old(self).views().update(
                    i,
                    flagged(old(self).views()[i], Flag::Muted, muted, now),
                ),
                None => !r && final(self).users@ == old(self).users@,
            },
    {
        set_flag(&mut self.users, user_id, Flag::Muted, muted, now)
    }

    /// Sets the speaking flag of a principal's session at the instant `now`
    /// and says whether there was such a session.
    pub fn set_user_speaking(&mut self, user_id: &str, speaking: bool, now: u64) -> (r: bool)
        requires
            old(self).wf(),
        ensures
            final(self).wf(),
            final(self).channel_id == old(self).channel_id,
            final(self).last_activity == old(self).last_activity,
            match first_where(old(self).views(), with_id(user_id@)) {
                Some(i) => r && final(self).views() == old(self).views().update(
                    i,
                    flagged(old(self).views()[i], Flag::Speaking, speaking, now),
                ),
                None => !r && final(self).users@ == old(self).users@,
            },
    {
        set_flag(&mut self.users, user_id, Flag::Speaking, speaking, now)
    }

    /// Removes the sessions that have been idle for longer than `timeout` at
    /// the instant `now` and hands their principal ids out.
    pub fn cleanup_expired_users(&mut self, timeout: u64, now: u64) -> (r: Vec<String>)
        requires
            old(self).wf(),
        ensures
            final(self).wf(),
            final(self).channel_id == old(self).channel_id,
            final(self).last_activity == old(self).last_activity,
            final(self).views() == old(self).views().filter(still_active(timeout, now)),
            r.deep_view() == ids_of(
                old(self).views().filter(negated(still_active(timeout, now))),
            ),
    {
        let removed = keep_rows(&mut self.users, &RowRule::Active { timeout, now });
        ids_of_rows(&removed)
    }

    /// Number of sessions.
    pub fn user_count(&self) -> (r: usize)
        ensures
            r == self.users@.len(),
    {
        self.users.len()
    }

    /// Whether the channel has no session.
    pub fn is_empty(&self) -> (r: bool)
        ensures
            r == (self.users@.len() == 0),
    {
        self.users.len() == 0
    }

    /// The principal ids of the sessions, in their order.
    pub fn get_user_ids(&self) -> (r: Vec<String>)
        ensures
            r.deep_view() == ids_of(self.views()),
    {
        ids_of_rows(&self.users)
    }
}

/// Why a change of the session table was refused.
#[derive(Debug, Clone, Copy, PartialEq, Eq, Structural)]
pub enum StateError {
    /// No such channel.
    ChannelNotFound,
    /// No such user.
    UserNotFound,
    /// The user is in the channel already.
    UserAlreadyInChannel,
    /// The channel takes no more users.
    ChannelFull,
    /// The role does not allow it.
    PermissionDenied,
}

impl StateError {
    /// The text that describes the error.
    pub open spec fn text(self) -> Seq<char> {
        match self {
            StateError::ChannelNotFound => "Channel not found"@,
            StateError::UserNotFound => "User not found"@,
            StateError::UserAlreadyInChannel => "User already in channel"@,
            StateError::ChannelFull => "Channel is full"@,
            StateError::PermissionDenied => "Permission denied"@,
        }
    }

    /// The message that describes the error.
    pub fn message(&self) -> (r: String)
        ensures
            r@ == self.text(),
    {
        match self {
            StateError::ChannelNotFound => "Channel not found".to_string(),
            StateError::UserNotFound => "User not found".to_string(),
            StateError::UserAlreadyInChannel => "User already in channel".to_string(),
            StateError::ChannelFull => "Channel is full".to_string(),
            StateError::PermissionDenied => "Permission denied".to_string(),
        }
    }
}

/// The figures of one channel.
#[derive(Debug)]
pub struct ChannelStats {
    /// Id of the channel.
    pub channel_id: String,
    /// Number of sessions in the channel.
    pub user_count: usize,
    /// Latest activity among the channel's sessions.
    pub last_activity: u64,
}

/// The figures of one channel as a mathematical value.
pub ghost struct ChannelStatsView {
    pub channel_id: Seq<char>,
    pub user_count: nat,
    pub last_activity: u64,
}

impl View for ChannelStats {
    type V = ChannelStatsView;

    open spec fn view(&self) -> ChannelStatsView {
        ChannelStatsView {
            channel_id: self.channel_id@,
            user_count: self.user_count as nat,
            last_activity: self.last_activity,
        }
    }
}

/// The figures of the session table.
#[derive(Debug)]
pub struct AudioStats {
    /// Number of channels with at least one session.
    pub total_channels: usize,
    /// Number of sessions.
    pub total_users: usize,
    /// The figures of each channel, in the order in which the channels first
    /// occur in the table.
    pub channel_stats: Vec<ChannelStats>,
}

/// The channel ids that occur among sessions, each once, in the order of
/// their first occurrence.
pub open spec fn channel_ids(users: Seq<AudioUserStateView>) -> Seq<Seq<char>>
    decreases users.len(),
{
    if users.len() == 0 {
        Seq::empty()
    } else if channel_ids(users.drop_last()).contains(users.last().channel_id) {
        channel_ids(users.drop_last())
    } else {
        channel_ids(users.drop_last()).push(users.last().channel_id)
    }
}

/// The figures of one channel, read off the table.
pub open spec fn stats_of_channel(users: Seq<AudioUserStateView>, channel_id: Seq<char>)
    -> ChannelStatsView {
    ChannelStatsView {
        channel_id,
        user_count: users.filter(in_channel(channel_id)).len(),
        last_activity: latest_activity(users.filter(in_channel(channel_id))),
    }
}

/// The figures of every channel, read off the table.
pub open spec fn stats_of_channels(users: Seq<AudioUserStateView>) -> Seq<ChannelStatsView> {
    Seq::new(
        channel_ids(users).len(),
        |k: int| stats_of_channel(users, channel_ids(users)[k]),
    )
}

/// The views of channel figures, row by row.
pub open spec fn stats_views(stats: Seq<ChannelStats>) -> Seq<ChannelStatsView> {
    Seq::new(stats.len(), |k: int| stats[k]@)
}

/// The views of pairs of principal id and socket address, row by row.
pub open spec fn pairs_view(pairs: Seq<(String, SocketAddress)>) -> Seq<
    (Seq<char>, SocketAddress),
> {
    Seq::new(pairs.len(), |k: int| (pairs[k].0@, pairs[k].1))
}

/// The channel ids that occur in a table, copied out in the order of their
/// first occurrence.
fn channel_ids_of(users: &Vec<AudioUserState>) -> (ids: Vec<String>)
    ensures
        ids.deep_view() == channel_ids(user_views(users@)),
{
    let ghost all = user_views(users@);
    let mut ids: Vec<String> = Vec::new();
    let mut i: usize = 0;
    proof {
        assert(ids.deep_view() =~= channel_ids(all.subrange(0, 0)));
    }
    while i < users.len()
        invariant
            i <= users@.len(),
            all == user_views(users@),
            ids.deep_view() == channel_ids(all.subrange(0, i as int)),
        decreases users@.len() - i,
    {
        let ghost so_far = ids.deep_view();
        proof {
            let head = all.subrange(0, i + 1);
            assert(head.drop_last() =~= all.subrange(0, i as int));
            assert(head.last() == users@[i as int]@);
        }
        let known = crate::channels::contains_name(&ids, users[i].channel_id.as_str());
        proof {
            let name = users@[i as int].channel_id@;
            if known {
                let w = choose|w: int| 0 <= w < ids@.len() && ids@[w]@ == name;
                assert(so_far[w] == name);
            } else {
                assert forall|w: int| 0 <= w < so_far.len() implies so_far[w] != name by {
                    assert(ids@[w]@ == so_far[w]);
                }
            }
        }
        if !known {
            ids.push(users[i].channel_id.clone());
            proof {
                assert(ids.deep_view() =~= so_far.push(users@[i as int].channel_id@));
            }
        }
        i += 1;
    }
    proof {
        assert(all.subrange(0, i as int) =~= all);
    }
    ids
}

/// The session table of the relay.
#[derive(Debug)]
pub struct AudioStateManager {
    /// The sessions; no principal and no socket address occurs twice.
    pub users: Vec<AudioUserState>,
    /// Time between two runs of housekeeping.
    pub cleanup_interval: u64,
    /// Idle time after which a session expires.
    pub user_timeout: u64,
}

impl AudioStateManager {
    /// The table's invariant: no principal and no socket address occurs
    /// twice.
    pub open spec fn wf(&self) -> bool {
        distinct_users(self.views())
    }

    /// The sessions as mathematical values.
    pub open spec fn views(&self) -> Seq<AudioUserStateView> {
        user_views(self.users@)
    }

    /// Where the session of a principal stands, if there is one.
    pub open spec fn index_of_user(&self, user_id: Seq<char>) -> Option<int> {
        first_where(self.views(), with_id(user_id))
    }

    /// Where the session at a socket address stands, if there is one.
    pub open spec fn index_of_socket(&self, addr: SocketAddress) -> Option<int> {
        first_where(self.views(), at_socket(addr))
    }

    /// An empty table that is kept every minute and lets a session idle for
    /// five minutes.
    pub fn new() -> (r: Self)
        ensures
            r.wf(),
            r.users@ == Seq::<AudioUserState>::empty(),
            r.cleanup_interval == 60_000,
            r.user_timeout == 300_000,
    {
        AudioStateManager { users: Vec::new(), cleanup_interval: 60_000, user_timeout: 300_000 }
    }

    /// Binds a principal to a socket address and a channel at the instant
    /// `now`. An earlier session of the principal, in whatever channel, and
    /// a session of another principal at the same address leave; the new
    /// session is not muted, not speaking and stands last.
    pub fn add_user_to_channel(
        &mut self,
        user_id: String,
        username: String,
        channel_id: String,
        socket_addr: SocketAddress,
        role: Role,
        now: u64,
    ) -> (r: Result<(), StateError>)
        requires
            old(self).wf(),
        ensures
            final(self).wf(),
            r is Ok,
            final(self).views() == with_bound(
                old(self).views(),
                AudioUserStateView {
                    user_id: user_id@,
                    username: username@,
                    channel_id: channel_id@,
                    socket_addr,
                    is_muted: false,
                    is_speaking: false,
                    last_activity: now,
                    sequence_number: 0,
                    role,
                },
            ),
            final(self).cleanup_interval == old(self).cleanup_interval,
            final(self).user_timeout == old(self).user_timeout,
    {
        let user = AudioUserState::new(user_id, username, channel_id, socket_addr, role, now);
        let _ = bind_row(&mut self.users, user);
        Ok(())
    }

    /// Removes the session of a principal and hands it out; without such a
    /// session nothing changes. A channel whose last session leaves is gone
    /// with it.
    pub fn remove_user(&mut self, user_id: &str) -> (r: Option<AudioUserState>)
        requires
            old(self).wf(),
        ensures
            final(self).wf(),
            final(self).cleanup_interval == old(self).cleanup_interval,
            final(self).user_timeout == old(self).user_timeout,
            match old(self).index_of_user(user_id@) {
                Some(i) => r is Some
                    && r->0 == old(self).users@[i]
                    && final(self).views() == old(self).views().remove(i),
                None => r is None && final(self).users@ == old(self).users@,
            },
            final(self).index_of_user(user_id@) is None,
    {
        take_row(&mut self.users, user_id)
    }

    /// Removes the session of a principal, if there is one.
    pub fn remove_user_from_channel(&mut self, user_id: &str) -> (r: Result<(), StateError>)
        requires
            old(self).wf(),
        ensures
            final(self).wf(),
            r is Ok,
            final(self).cleanup_interval == old(self).cleanup_interval,
            final(self).user_timeout == old(self).user_timeout,
            match old(self).index_of_user(user_id@) {
                Some(i) => final(self).views() == old(self).views().remove(i),
                None => final(self).users@ == old(self).users@,
            },
            final(self).index_of_user(user_id@) is None,
    {
        let _ = self.remove_user(user_id);
        Ok(())
    }

    /// The channel that a principal is in.
    pub fn get_user_channel(&self, user_id: &str) -> (r: Option<String>)
        ensures
            match self.index_of_user(user_id@) {
                Some(i) => r is Some && r->0@ == self.views()[i].channel_id,
                None => r is None,
            },
    {
        match find_user(&self.users, user_id) {
            Some(i) => {
                proof {
                    assert(self.views()[i as int] == self.users@[i as int]@);
                }
                Some(self.users[i].channel_id.clone())
            },
            None => None,
        }
    }

    /// The session of a principal.
    pub fn get_user(&self, user_id: &str) -> (r: Option<AudioUserState>)
        ensures
            match self.index_of_user(user_id@) {
                Some(i) => r is Some && r->0@ == self.views()[i],
                None => r is None,
            },
    {
        match find_user(&self.users, user_id) {
            Some(i) => {
                proof {
                    assert(self.views()[i as int] == self.users@[i as int]@);
                }
                Some(self.users[i].clone())
            },
            None => None,
        }
    }

    /// The sessions of a channel, or nothing where the channel has none.
    pub fn get_channel(&self, channel_id: &str) -> (r: Option<ChannelState>)
        requires
            self.wf(),
        ensures
            match r {
                Some(c) => c.wf() && c.channel_id@ == channel_id@ && c.views()
                    == self.views().filter(in_channel(channel_id@)) && c.views().len() > 0
                    && c.last_activity == latest_activity(c.views()),
                None => self.views().filter(in_channel(channel_id@)).len() == 0,
            },
    {
        let rows = pick_rows(&self.users, &RowRule::InChannel { channel_id });
        if rows.len() == 0 {
            return None;
        }
        let users = clone_rows(&rows);
        let last_activity = latest_of(&rows);
        let channel = ChannelState { channel_id: channel_id.to_string(), users, last_activity };
        proof {
            lemma_filter_keeps_distinct(self.views(), in_channel(channel_id@));
        }
        Some(channel)
    }

    /// The session at a socket address, with the channel it is in.
    pub fn get_user_by_socket(&self, socket_addr: &SocketAddress) -> (r: Option<
        (String, AudioUserState),
    >)
        ensures
            match self.index_of_socket(*socket_addr) {
                Some(i) => r matches Some(found) && found.0@ == self.views()[i].channel_id
                    && found.1@ == self.views()[i],
                None => r is None,
            },
    {
        match find_socket(&self.users, socket_addr) {
            Some(i) => {
                proof {
                    assert(self.views()[i as int] == self.users@[i as int]@);
                }
                Some((self.users[i].channel_id.clone(), self.users[i].clone()))
            },
            None => None,
        }
    }

    /// Sets the mute flag of a principal's session at the instant `now` and
    /// says whether there was such a session.
    pub fn set_user_mute(&mut self, user_id: &str, muted: bool, now: u64) -> (r: bool)
        requires
            old(self).wf(),
        ensures
            final(self).wf(),
            final(self).cleanup_interval == old(self).cleanup_interval,
            final(self).user_timeout == old(self).user_timeout,
            match old(self).index_of_user(user_id@) {
                Some(i) => r && final(self).views() == old(self).views().update(
                    i,
                    flagged(old(self).views()[i], Flag::Muted, muted, now),
                ),
                None => !r && final(self).users@ == old(self).users@,
            },
    {
        set_flag(&mut self.users, user_id, Flag::Muted, muted, now)
    }

    /// Sets the speaking flag of a principal's session at the instant `now`
    /// and says whether there was such a session.
    pub fn set_user_speaking(&mut self, user_id: &str, speaking: bool, now: u64) -> (r: bool)
        requires
            old(self).wf(),
        ensures
            final(self).wf(),
            final(self).cleanup_interval == old(self).cleanup_interval,
            final(self).user_timeout == old(self).user_timeout,
            match old(self).index_of_user(user_id@) {
                Some(i) => r && final(self).views() == old(self).views().update(
                    i,
                    flagged(old(self).views()[i], Flag::Speaking, speaking, now),
                ),
                None => !r && final(self).users@ == old(self).users@,
            },
    {
        set_flag(&mut self.users, user_id, Flag::Speaking, speaking, now)
    }

    /// Records, for the session at a socket address, activity at the instant
    /// `now` and a sequence number seen from the sender: the session keeps
    /// the highest it has seen. Says whether there was such a session.
    pub fn observe(&mut self, socket_addr: &SocketAddress, sequence: u32, now: u64) -> (r: bool)
        requires
            old(self).wf(),
        ensures
            final(self).wf(),
            final(self).cleanup_interval == old(self).cleanup_interval,
            final(self).user_timeout == old(self).user_timeout,
            match old(self).index_of_socket(*socket_addr) {
                Some(i) => r && final(self).views() == old(self).views().update(
                    i,
                    observed(old(self).views()[i], sequence, now),
                ),
                None => !r && final(self).users@ == old(self).users@,
            },
    {
        let ghost before = self.views();
        match find_socket(&self.users, socket_addr) {
            Some(i) => {
                proof {
                    assert(before[i as int] == self.users@[i as int]@);
                }
                if sequence > self.users[i].sequence_number {
                    self.users[i].sequence_number = sequence;
                }
                self.users[i].last_activity = now;
                proof {
                    let after = self.views();
                    assert(after =~= before.update(
                        i as int,
                        observed(before[i as int], sequence, now),
                    ));
                    assert forall|a: int, b: int| 0 <= a < b < after.len() implies after[a].user_id
                        != after[b].user_id && after[a].socket_addr != after[b].socket_addr by {
                        assert(before[a].user_id != before[b].user_id);
                    }
                }
                true
            },
            None => false,
        }
    }

    /// Records, for the session at a socket address, activity at the instant
    /// `now`. Says whether there was such a session.
    pub fn touch(&mut self, socket_addr: &SocketAddress, now: u64) -> (r: bool)
        requires
            old(self).wf(),
        ensures
            final(self).wf(),
            final(self).cleanup_interval == old(self).cleanup_interval,
            final(self).user_timeout == old(self).user_timeout,
            match old(self).index_of_socket(*socket_addr) {
                Some(i) => r && final(self).views() == old(self).views().update(
                    i,
                    touched(old(self).views()[i], now),
                ),
                None => !r && final(self).users@ == old(self).users@,
            },
    {
        let ghost before = self.views();
        match find_socket(&self.users, socket_addr) {
            Some(i) => {
                proof {
                    assert(before[i as int] == self.users@[i as int]@);
                }
                self.users[i].last_activity = now;
                proof {
                    let after = self.views();
                    assert(after =~= before.update(i as int, touched(before[i as int], now)));
                    lemma_update_keeps_keys(
                        before,
                        i as int,
                        touched(before[i as int], now),
                        before[i as int].user_id,
                        *socket_addr,
                    );
                }
                true
            },
            None => false,
        }
    }

    /// Those to whom a frame of `sender_user_id` goes: every other session
    /// of the sender's channel, without the muted ones unless they are asked
    /// for, as pairs of principal id and socket address in the table's
    /// order. A sender without a session has no targets. Neither the sender
    /// nor the sender's socket address is ever among the targets.
    #[verifier::rlimit(40)]
    pub fn get_broadcast_targets(&self, sender_user_id: &str, include_muted: bool) -> (r: Vec<
        (String, SocketAddress),
    >)
        requires
            self.wf(),
        ensures
            pairs_view(r@) == self.targets(sender_user_id@, include_muted),
            forall|k: int|
                0 <= k < r@.len() ==> (#[trigger] r@[k]).0@ != sender_user_id@,
            self.index_of_user(sender_user_id@) is Some ==> forall|k: int|
                0 <= k < r@.len() ==> (#[trigger] r@[k]).1 != self.views()[self.index_of_user(
                    sender_user_id@,
                )->0].socket_addr,
    {
        let at = match find_user(&self.users, sender_user_id) {
            Some(at) => at,
            None => {
                let none: Vec<(String, SocketAddress)> = Vec::new();
                assert(pairs_view(none@) =~= self.targets(sender_user_id@, include_muted));
                return none;
            },
        };
        let ghost all = self.views();
        proof {
            assert(all[at as int] == self.users@[at as int]@);
            lemma_first_where(all, with_id(sender_user_id@));
        }
        let rule = RowRule::Receivers {
            sender: sender_user_id,
            channel_id: self.users[at].channel_id.as_str(),
            include_muted,
        };
        let rows = pick_rows(&self.users, &rule);
        let ghost picked = borrowed_views(rows@);
        proof {
            lemma_filter_keeps_distinct(all, rule.picks());
        }
        let mut targets: Vec<(String, SocketAddress)> = Vec::new();
        let mut i: usize = 0;
        while i < rows.len()
            invariant
                i <= rows@.len(),
                picked == borrowed_views(rows@),
                targets@.len() == i,
                forall|j: int|
                    0 <= j < i ==> (#[trigger] targets@[j]).0@ == picked[j].user_id
                        && targets@[j].1 == picked[j].socket_addr,
            decreases rows@.len() - i,
        {
            proof {
                assert(picked[i as int] == rows@[i as int]@);
            }
            targets.push((rows[i].user_id.clone(), rows[i].socket_addr));
            i += 1;
        }
        proof {
            assert(pairs_view(targets@) =~= targets_of(picked));
            assert forall|k: int| 0 <= k < targets@.len() implies (#[trigger] targets@[k]).0@
                != sender_user_id@ && targets@[k].1 != all[at as int].socket_addr by {
                assert(rule.picks()(picked[k]));
                assert(all.contains(picked[k]));
                let w = choose|w: int| 0 <= w < all.len() && all[w] == picked[k];
                if w < at {
                    assert(all[w].socket_addr != all[at as int].socket_addr);
                } else if w > at {
                    assert(all[at as int].socket_addr != all[w].socket_addr);
                }
            }
        }
        targets
    }

    /// The targets of a sender's frame, read off the table.
    pub open spec fn targets(&self, sender: Seq<char>, include_muted: bool) -> Seq<
        (Seq<char>, SocketAddress),
    > {
        match self.index_of_user(sender) {
            Some(i) => targets_of(
                self.views().filter(
                    receives_from(sender, self.views()[i].channel_id, include_muted),
                ),
            ),
            None => Seq::empty(),
        }
    }

    /// Removes the sessions that have been idle for longer than the table's
    /// timeout at the instant `now` and hands their principal ids out.
    /// Channels whose sessions all leave are gone with them.
    pub fn cleanup(&mut self, now: u64) -> (r: Vec<String>)
        requires
            old(self).wf(),
        ensures
            final(self).wf(),
            final(self).cleanup_interval == old(self).cleanup_interval,
            final(self).user_timeout == old(self).user_timeout,
            final(self).views() == old(self).views().filter(
                still_active(old(self).user_timeout, now),
            ),
            r.deep_view() == ids_of(
                old(self).views().filter(negated(still_active(old(self).user_timeout, now))),
            ),
    {
        let removed = keep_rows(
            &mut self.users,
            &RowRule::Active { timeout: self.user_timeout, now },
        );
        ids_of_rows(&removed)
    }

    /// The figures of the table: how many channels and sessions there are,
    /// and for each channel how many sessions it has and when one of them
    /// was last active.
    #[verifier::rlimit(40)]
    pub fn get_stats(&self) -> (r: AudioStats)
        ensures
            r.total_users == self.users@.len(),
            r.total_channels == channel_ids(self.views()).len(),
            stats_views(r.channel_stats@) == stats_of_channels(self.views()),
    {
        let ids = channel_ids_of(&self.users);
        let ghost all = self.views();
        let ghost names = channel_ids(all);
        let mut channel_stats: Vec<ChannelStats> = Vec::new();
        let mut k: usize = 0;
        while k < ids.len()
            invariant
                k <= ids@.len(),
                all == self.views(),
                names == channel_ids(all),
                ids.deep_view() == names,
                channel_stats@.len() == k,
                forall|j: int|
                    0 <= j < k ==> (#[trigger] channel_stats@[j])@ == stats_of_channel(
                        all,
                        names[j],
                    ),
            decreases ids@.len() - k,
        {
            proof {
                assert(ids.deep_view()[k as int] == ids@[k as int]@);
            }
            let rows = pick_rows(&self.users, &RowRule::InChannel { channel_id: ids[k].as_str() });
            proof {
                all.lemma_filter_len(in_channel(names[k as int]));
            }
            let last_activity = latest_of(&rows);
            channel_stats.push(
                ChannelStats { channel_id: ids[k].clone(), user_count: rows.len(), last_activity },
            );
            k += 1;
        }
        proof {
            assert(stats_views(channel_stats@) =~= stats_of_channels(all));
        }
        AudioStats { total_channels: ids.len(), total_users: self.users.len(), channel_stats }
    }

    /// Sets the time between two runs of housekeeping.
    pub fn set_cleanup_interval(&mut self, interval: u64)
        ensures
            *final(self) == (AudioStateManager { cleanup_interval: interval, ..*old(self) }),
    {
        self.cleanup_interval = interval;
    }

    /// Sets the idle time after which a session expires.
    pub fn set_user_timeout(&mut self, timeout: u64)
        ensures
            *final(self) == (AudioStateManager { user_timeout: timeout, ..*old(self) }),
    {
        self.user_timeout = timeout;
    }
}

/// A session after a frame with the given sequence number was seen from it
/// at the instant `now`.
pub open spec fn observed(u: AudioUserStateView, sequence: u32, now: u64) -> AudioUserStateView {
    AudioUserStateView {
        sequence_number: if sequence > u.sequence_number {
            sequence
        } else {
            u.sequence_number
        },
        last_activity: now,
        ..u
    }
}

/// A session that is only touched: the instant of its last activity is set.
pub open spec fn touched(u: AudioUserStateView, now: u64) -> AudioUserStateView {
    AudioUserStateView { last_activity: now, ..u }
}

/// Replacing a session by one of the same principal at the same socket
/// address leaves a table, and both indexes find what they found before.
pub proof fn lemma_update_keeps_keys(
    users: Seq<AudioUserStateView>,
    i: int,
    u: AudioUserStateView,
    user_id: Seq<char>,
    addr: SocketAddress,
)
    requires
        0 <= i < users.len(),
        u.user_id == users[i].user_id,
        u.socket_addr == users[i].socket_addr,
    ensures
        distinct_users(users) ==> distinct_users(users.update(i, u)),
        first_where(users.update(i, u), with_id(user_id)) == first_where(users, with_id(user_id)),
        first_where(users.update(i, u), at_socket(addr)) == first_where(users, at_socket(addr)),
{
    let after = users.update(i, u);
    crate::table::lemma_first_where_same(users, after, with_id(user_id));
    crate::table::lemma_first_where_same(users, after, at_socket(addr));
    if distinct_users(users) {
        assert forall|a: int, b: int| 0 <= a < b < after.len() implies after[a].user_id
            != after[b].user_id && after[a].socket_addr != after[b].socket_addr by {
            assert(users[a].user_id != users[b].user_id);
        }
    }
}

} // verus!
