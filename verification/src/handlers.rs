//! What the server does with the frames of an established session: voice,
//! heartbeat, mute, leave and join.
//!
//! Each handler is stated twice: as a function on the server's state as a
//! mathematical value, and as the executable method that is proved to
//! compute it.

use crate::auth::membership;
use crate::channels::Role;
use crate::jitter::EntryView;
use crate::jitter::JitterBuffer;
use crate::jitter::JitterBufferEntry;
use crate::jitter::JitterBufferView;
use crate::packet::bare_packet;
use crate::packet::packet_wire;
use crate::packet::AudioPacket;
use crate::packet::AudioPacketView;
use crate::packet::PacketHeader;
use crate::packet::PacketType;
use crate::server::all_owned;
use crate::server::buffer_views;
use crate::server::buffers_in_order;
use crate::server::drop_orphan_buffers;
use crate::server::find_buffer;
use crate::server::has_owner;
use crate::server::of_sender;
use crate::server::quiet;
use crate::server::AudioServer;
use crate::server::AudioServerEvent;
use crate::server::AudioServerEventView;
use crate::server::Reaction;
use crate::server::ReactionView;
use crate::server::SenderBuffer;
use crate::server::SenderBufferView;
use crate::server::ServerView;
use crate::server::Settings;
use crate::state::at_socket;
use crate::state::flagged;
use crate::state::lemma_indexes_agree;
use crate::state::lemma_update_keeps_keys;
use crate::state::observed;
use crate::state::touched;
use crate::state::AudioUserStateView;
use crate::state::Flag;
use crate::state::SocketAddress;
use crate::table::first_where;
use crate::table::lemma_first_where;
use vstd::prelude::*;

verus! {

/// The error frame that carries a message, stamped with `wall_seconds`. Its
/// header names no principal and no channel.
pub open spec fn error_frame(message: Seq<char>, wall_seconds: u32) -> AudioPacketView {
    AudioPacketView {
        error_message: Some(message),
        ..bare_packet(
            PacketHeader::new_view(
                PacketType::Error,
                0,
                Seq::<u8>::empty(),
                Seq::<u8>::empty(),
                wall_seconds,
            ),
        )
    }
}

/// One frame sent to one address; nothing where the frame cannot be
/// written.
pub open spec fn frame_to(addr: SocketAddress, frame: AudioPacketView) -> Seq<
    (SocketAddress, Seq<u8>),
> {
    match packet_wire(frame) {
        Ok(bytes) => seq![(addr, bytes)],
        Err(_) => Seq::empty(),
    }
}

/// The reaction to a datagram that is refused: one error frame to its
/// source, and the refusal reported.
pub open spec fn refusal(addr: SocketAddress, message: Seq<char>, wall_seconds: u32)
    -> ReactionView {
    ReactionView {
        sends: frame_to(addr, error_frame(message, wall_seconds)),
        events: seq![AudioServerEventView::Error { socket_addr: addr, error: message }],
    }
}

/// Refuses a datagram: one error frame to its source, and the refusal
/// reported.
pub fn refuse(addr: SocketAddress, message: String, wall_seconds: u32) -> (r: Reaction)
    ensures
        r@ == refusal(addr, message@, wall_seconds),
{
    let mut r = Reaction::none();
    let empty = String::new();
    proof {
        assert(vstd::utf8::encode_utf8(empty@) =~= Seq::<u8>::empty());
    }
    let frame = AudioPacket::error(empty.as_str(), empty.as_str(), message.clone(), wall_seconds);
    match frame.to_bytes() {
        Ok(bytes) => {
            r.send(addr, bytes);
        },
        Err(_) => {},
    }
    r.report(AudioServerEvent::Error { socket_addr: addr, error: message });
    proof {
        assert(r@.sends =~= frame_to(addr, error_frame(message@, wall_seconds)));
        assert(r@.events =~= seq![
            AudioServerEventView::Error { socket_addr: addr, error: message@ },
        ]);
    }
    r
}

/// A table of buffers with one buffer put in: in the place of the sender's
/// earlier buffer, or at the end.
pub open spec fn with_buffer(buffers: Seq<SenderBufferView>, row: SenderBufferView) -> Seq<
    SenderBufferView,
> {
    match first_where(buffers, of_sender(row.user_id)) {
        Some(i) => buffers.update(i, row),
        None => buffers.push(row),
    }
}

/// The buffer that a frame of a sender goes to: the sender's own, or a
/// fresh one with the configured bounds.
pub open spec fn buffer_for(buffers: Seq<SenderBufferView>, user_id: Seq<char>, settings: Settings)
    -> JitterBufferView {
    match first_where(buffers, of_sender(user_id)) {
        Some(i) => buffers[i].buffer,
        None => JitterBufferView::fresh(settings.jitter_size, settings.jitter_window),
    }
}

/// The state after a frame of the session at place `at` was offered to the
/// sender's jitter buffer at the instant `now`: the buffer takes the entry
/// or leaves it out, and the session records the activity and the sequence
/// number either way.
pub open spec fn offered(s: ServerView, at: int, entry: EntryView, now: u64) -> ServerView {
    let u = s.sessions[at];
    ServerView {
        sessions: s.sessions.update(at, observed(u, entry.sequence_number, now)),
        buffers: with_buffer(
            s.buffers,
            SenderBufferView {
                user_id: u.user_id,
                buffer: buffer_for(s.buffers, u.user_id, s.settings).inserted(entry),
            },
        ),
        ..s
    }
}

/// Putting a buffer that is in order into a table of buffers leaves a
/// table; and where its owner and all earlier owners have sessions, all
/// owners have.
#[verifier::rlimit(40)]
pub proof fn lemma_with_buffer(
    buffers: Seq<SenderBufferView>,
    row: SenderBufferView,
    sessions: Seq<AudioUserStateView>,
)
    requires
        buffers_in_order(buffers),
        row.buffer.wf(),
    ensures
        buffers_in_order(with_buffer(buffers, row)),
        all_owned(buffers, sessions) && has_owner(sessions)(row) ==> all_owned(
            with_buffer(buffers, row),
            sessions,
        ),
{
    let after = with_buffer(buffers, row);
    lemma_first_where(buffers, of_sender(row.user_id));
    match first_where(buffers, of_sender(row.user_id)) {
        Some(i) => {
            assert forall|a: int, b: int| 0 <= a < b < after.len() implies after[a].user_id
                != after[b].user_id by {
                assert(buffers[a].user_id != buffers[b].user_id);
            }
            assert forall|a: int| 0 <= a < after.len() implies (#[trigger] after[a]).buffer.wf() by {
                if a != i {
                    assert(buffers[a].buffer.wf());
                }
            }
            if all_owned(buffers, sessions) && has_owner(sessions)(row) {
                assert forall|a: int| 0 <= a < after.len() implies has_owner(sessions)(
                    #[trigger] after[a],
                ) by {
                    if a != i {
                        assert(has_owner(sessions)(buffers[a]));
                    }
                }
            }
        },
        None => {
            assert forall|a: int, b: int| 0 <= a < b < after.len() implies after[a].user_id
                != after[b].user_id by {
                if b == buffers.len() {
                    assert(!of_sender(row.user_id)(buffers[a]));
                } else {
                    assert(buffers[a].user_id != buffers[b].user_id);
                }
            }
            assert forall|a: int| 0 <= a < after.len() implies (#[trigger] after[a]).buffer.wf() by {
                if a < buffers.len() {
                    assert(buffers[a].buffer.wf());
                }
            }
            if all_owned(buffers, sessions) && has_owner(sessions)(row) {
                assert forall|a: int| 0 <= a < after.len() implies has_owner(sessions)(
                    #[trigger] after[a],
                ) by {
                    if a < buffers.len() {
                        assert(has_owner(sessions)(buffers[a]));
                    }
                }
            }
        },
    }
}

/// Replacing a session by one of the same principal at the same socket
/// address leaves every buffer with its owner.
pub proof fn lemma_owners_stay(
    buffers: Seq<SenderBufferView>,
    sessions: Seq<AudioUserStateView>,
    i: int,
    u: AudioUserStateView,
)
    requires
        0 <= i < sessions.len(),
        u.user_id == sessions[i].user_id,
        u.socket_addr == sessions[i].socket_addr,
        all_owned(buffers, sessions),
    ensures
        all_owned(buffers, sessions.update(i, u)),
{
    assert forall|a: int| 0 <= a < buffers.len() implies has_owner(sessions.update(i, u))(
        #[trigger] buffers[a],
    ) by {
        assert(has_owner(sessions)(buffers[a]));
        lemma_update_keeps_keys(sessions, i, u, buffers[a].user_id, u.socket_addr);
    }
}

impl AudioServer {
    /// Offers a frame of the session at place `at`, which is the session at
    /// `addr`, to the sender's jitter buffer at the instant `now`, and says
    /// whether the buffer took it. A sender without a buffer gets one with
    /// the configured bounds.
    #[verifier::rlimit(40)]
    pub fn offer(&mut self, at: usize, addr: &SocketAddress, entry: JitterBufferEntry, now: u64)
        -> (accepted: bool)
        requires
            old(self).wf(),
            first_where(old(self)@.sessions, at_socket(*addr)) == Some(at as int),
        ensures
            final(self).wf(),
            final(self)@ == offered(old(self)@, at as int, entry@, now),
            accepted == buffer_for(
                old(self)@.buffers,
                old(self)@.sessions[at as int].user_id,
                old(self)@.settings,
            ).accepts(entry@),
    {
        let ghost before = self@;
        let ghost u = before.sessions[at as int];
        let ghost e = entry@;
        proof {
            lemma_first_where(before.sessions, at_socket(*addr));
            assert(before.sessions[at as int] == self.state_manager.users@[at as int]@);
            lemma_indexes_agree(before.sessions, at as int);
            lemma_first_where(before.buffers, of_sender(u.user_id));
        }
        let sequence = entry.sequence_number;
        let accepted = match find_buffer(
            &self.jitter_buffers,
            self.state_manager.users[at].user_id.as_str(),
        ) {
            Some(b) => {
                proof {
                    assert(before.buffers[b as int] == self.jitter_buffers@[b as int]@);
                }
                let accepted = self.jitter_buffers[b].buffer.insert(entry);
                proof {
                    assert(buffer_views(self.jitter_buffers@) =~= before.buffers.update(
                        b as int,
                        SenderBufferView {
                            user_id: u.user_id,
                            buffer: before.buffers[b as int].buffer.inserted(e),
                        },
                    ));
                }
                accepted
            },
            None => {
                let mut buffer = JitterBuffer::new(
                    self.config.jitter_buffer_size,
                    self.config.jitter_buffer_window_ms,
                );
                let accepted = buffer.insert(entry);
                let user_id = self.state_manager.users[at].user_id.clone();
                self.jitter_buffers.push(SenderBuffer { user_id, buffer });
                proof {
                    assert(buffer_views(self.jitter_buffers@) =~= before.buffers.push(
                        SenderBufferView {
                            user_id: u.user_id,
                            buffer: JitterBufferView::fresh(
                                before.settings.jitter_size,
                                before.settings.jitter_window,
                            ).inserted(e),
                        },
                    ));
                }
                accepted
            },
        };
        let _ = self.state_manager.observe(addr, sequence, now);
        proof {
            let row = SenderBufferView {
                user_id: u.user_id,
                buffer: buffer_for(before.buffers, u.user_id, before.settings).inserted(e),
            };
            let seen = observed(u, e.sequence_number, now);
            lemma_with_buffer(before.buffers, row, before.sessions);
            lemma_owners_stay(with_buffer(before.buffers, row), before.sessions, at as int, seen);
            assert(self@.sessions == before.sessions.update(at as int, seen));
            assert(self@.buffers == with_buffer(before.buffers, row));
        }
        accepted
    }
}

/// The state after a datagram was taken as a voice frame at the instant
/// `now`: a well-formed frame from an address with a session is offered to
/// the sender's jitter buffer; anything else changes nothing.
pub open spec fn voice_step(s: ServerView, data: Seq<u8>, addr: SocketAddress, now: u64)
    -> ServerView {
    match (crate::packet::voice_parse(data), first_where(s.sessions, at_socket(addr))) {
        (Ok(v), Some(at)) => offered(
            s,
            at,
            EntryView {
                sequence_number: v.sequence_number,
                timestamp: v.timestamp,
                payload: v.payload,
                received_at: now,
            },
            now,
        ),
        _ => s,
    }
}

/// Whether a datagram taken as a voice frame is queued: it is a well-formed
/// voice frame, its source has a session, and the sender's jitter buffer
/// takes it.
pub open spec fn voice_queued(s: ServerView, data: Seq<u8>, addr: SocketAddress, now: u64) -> bool {
    match (crate::packet::voice_parse(data), first_where(s.sessions, at_socket(addr))) {
        (Ok(v), Some(at)) => buffer_for(s.buffers, s.sessions[at].user_id, s.settings).accepts(
            EntryView {
                sequence_number: v.sequence_number,
                timestamp: v.timestamp,
                payload: v.payload,
                received_at: now,
            },
        ),
        _ => false,
    }
}

/// Whether an audio control frame is queued: it carries audio, its source
/// has a session, and the sender's jitter buffer takes it.
pub open spec fn audio_queued(s: ServerView, p: AudioPacketView, addr: SocketAddress, now: u64)
    -> bool {
    match (p.audio_data, first_where(s.sessions, at_socket(addr))) {
        (Some(_), Some(at)) => buffer_for(s.buffers, s.sessions[at].user_id, s.settings).accepts(
            audio_entry(p, now),
        ),
        _ => false,
    }
}

/// The entry that an audio control frame makes: the header's sequence
/// number, the header's seconds as milliseconds, and the audio.
pub open spec fn audio_entry(p: AudioPacketView, now: u64) -> EntryView {
    EntryView {
        sequence_number: p.header.sequence,
        timestamp: (p.header.timestamp * 1000) as u64,
        payload: p.audio_data->0,
        received_at: now,
    }
}

/// The state after an audio control frame from `addr` at the instant `now`:
/// with audio and a session at the address the frame is offered to the
/// sender's jitter buffer like a voice frame.
pub open spec fn audio_step(s: ServerView, p: AudioPacketView, addr: SocketAddress, now: u64)
    -> ServerView {
    match (p.audio_data, first_where(s.sessions, at_socket(addr))) {
        (Some(_), Some(at)) => offered(s, at, audio_entry(p, now), now),
        _ => s,
    }
}

/// The state after a heartbeat from `addr` at the instant `now`: the
/// session at the address is touched.
pub open spec fn heartbeat_step(s: ServerView, addr: SocketAddress, now: u64) -> ServerView {
    match first_where(s.sessions, at_socket(addr)) {
        Some(at) => ServerView { sessions: s.sessions.update(at, touched(s.sessions[at], now)), ..s },
        None => s,
    }
}

/// The state after a mute frame from `addr` at the instant `now`: the
/// session at the address has its mute flag set and is touched.
pub open spec fn mute_step(s: ServerView, addr: SocketAddress, muted: bool, now: u64)
    -> ServerView {
    match first_where(s.sessions, at_socket(addr)) {
        Some(at) => ServerView {
            sessions: s.sessions.update(at, flagged(s.sessions[at], Flag::Muted, muted, now)),
            ..s
        },
        None => s,
    }
}

/// What a mute frame from `addr` makes the server report.
pub open spec fn mute_reaction(s: ServerView, addr: SocketAddress, muted: bool) -> ReactionView {
    match first_where(s.sessions, at_socket(addr)) {
        Some(at) => ReactionView {
            sends: Seq::empty(),
            events: seq![
                AudioServerEventView::UserMuted {
                    user_id: s.sessions[at].user_id,
                    channel_id: s.sessions[at].channel_id,
                    muted,
                },
            ],
        },
        None => quiet(),
    }
}

/// The state after a leave frame from `addr`: the session at the address is
/// removed, and with it the principal's jitter buffer.
pub open spec fn leave_step(s: ServerView, addr: SocketAddress) -> ServerView {
    match first_where(s.sessions, at_socket(addr)) {
        Some(at) => ServerView {
            sessions: s.sessions.remove(at),
            buffers: s.buffers.filter(has_owner(s.sessions.remove(at))),
            ..s
        },
        None => s,
    }
}

/// What a leave frame from `addr` makes the server report.
pub open spec fn leave_reaction(s: ServerView, addr: SocketAddress) -> ReactionView {
    match first_where(s.sessions, at_socket(addr)) {
        Some(at) => ReactionView {
            sends: Seq::empty(),
            events: seq![
                AudioServerEventView::UserLeft {
                    user_id: s.sessions[at].user_id,
                    channel_id: s.sessions[at].channel_id,
                    socket_addr: addr,
                },
            ],
        },
        None => quiet(),
    }
}

/// The session that a principal gets when it is bound to a channel at the
/// instant `now`.
pub open spec fn bound_session(
    user_id: Seq<char>,
    username: Seq<char>,
    channel_id: Seq<char>,
    addr: SocketAddress,
    role: Role,
    now: u64,
) -> AudioUserStateView {
    AudioUserStateView {
        user_id,
        username,
        channel_id,
        socket_addr: addr,
        is_muted: false,
        is_speaking: false,
        last_activity: now,
        sequence_number: 0,
        role,
    }
}

/// The state after a join frame from `addr` for a channel at the instant
/// `now`: where the roster lets the principal of the session at the address
/// enter, the principal is bound to the channel; otherwise nothing changes.
pub open spec fn join_step(s: ServerView, addr: SocketAddress, channel_id: Seq<char>, now: u64)
    -> ServerView {
    match first_where(s.sessions, at_socket(addr)) {
        Some(at) => match membership(s.settings.rosters, s.sessions[at].user_id, channel_id) {
            Ok(role) => {
                let sessions = crate::state::with_bound(
                    s.sessions,
                    bound_session(
                        s.sessions[at].user_id,
                        s.sessions[at].username,
                        channel_id,
                        addr,
                        role,
                        now,
                    ),
                );
                ServerView { sessions, buffers: s.buffers.filter(has_owner(sessions)), ..s }
            },
            Err(_) => s,
        },
        None => s,
    }
}

/// What a join frame from `addr` makes the server send and report: the
/// binding, or the roster's refusal in an error frame.
pub open spec fn join_reaction(
    s: ServerView,
    addr: SocketAddress,
    channel_id: Seq<char>,
    wall_seconds: u32,
) -> ReactionView {
    match first_where(s.sessions, at_socket(addr)) {
        Some(at) => match membership(s.settings.rosters, s.sessions[at].user_id, channel_id) {
            Ok(_) => ReactionView {
                sends: Seq::empty(),
                events: seq![
                    AudioServerEventView::UserJoined {
                        user_id: s.sessions[at].user_id,
                        channel_id,
                        socket_addr: addr,
                    },
                ],
            },
            Err(e) => refusal(addr, e.text(), wall_seconds),
        },
        None => quiet(),
    }
}

impl AudioServer {
    /// Takes a datagram as a voice frame at the instant `now`. A well-formed
    /// frame from an address with a session is offered to the sender's
    /// jitter buffer, and the session records the activity; a malformed
    /// frame, or one from an address without a session, is dropped. Says
    /// whether the frame was queued.
    pub fn handle_voice(&mut self, data: &[u8], addr: &SocketAddress, now: u64) -> (queued: bool)
        requires
            old(self).wf(),
        ensures
            final(self).wf(),
            final(self)@ == voice_step(old(self)@, data@, *addr, now),
            queued == voice_queued(old(self)@, data@, *addr, now),
    {
        let voice = match crate::packet::VoicePacket::from_bytes(data) {
            Ok(voice) => voice,
            Err(_) => {
                return false;
            },
        };
        let at = match crate::state::find_socket(&self.state_manager.users, addr) {
            Some(at) => at,
            None => {
                return false;
            },
        };
        let entry = JitterBufferEntry {
            sequence_number: voice.sequence_number,
            timestamp: voice.timestamp,
            payload: voice.payload,
            received_at: now,
        };
        self.offer(at, addr, entry, now)
    }

    /// Takes an audio control frame from `addr` at the instant `now`: the
    /// audio is offered to the sender's jitter buffer like a voice frame,
    /// with the header's sequence number and the header's seconds as media
    /// timestamp. Without audio, or without a session at the address,
    /// nothing changes. Says whether the frame was queued.
    pub fn handle_audio_packet(&mut self, packet: AudioPacket, addr: &SocketAddress, now: u64)
        -> (queued: bool)
        requires
            old(self).wf(),
        ensures
            final(self).wf(),
            final(self)@ == audio_step(old(self)@, packet@, *addr, now),
            queued == audio_queued(old(self)@, packet@, *addr, now),
    {
        let sequence = packet.header.sequence;
        let timestamp: u64 = packet.header.timestamp as u64 * 1000;
        let payload = match packet.audio_data {
            Some(payload) => payload,
            None => {
                return false;
            },
        };
        let at = match crate::state::find_socket(&self.state_manager.users, addr) {
            Some(at) => at,
            None => {
                return false;
            },
        };
        let entry = JitterBufferEntry { sequence_number: sequence, timestamp, payload, received_at: now };
        self.offer(at, addr, entry, now)
    }

    /// Takes a heartbeat from `addr` at the instant `now`: the session at
    /// the address is touched. Nothing is sent. Says whether there was such
    /// a session.
    pub fn handle_heartbeat(&mut self, addr: &SocketAddress, now: u64) -> (found: bool)
        requires
            old(self).wf(),
        ensures
            final(self).wf(),
            final(self)@ == heartbeat_step(old(self)@, *addr, now),
            found == old(self)@.established(*addr),
    {
        let ghost before = self@;
        let found = self.state_manager.touch(addr, now);
        proof {
            match first_where(before.sessions, at_socket(*addr)) {
                Some(at) => {
                    lemma_first_where(before.sessions, at_socket(*addr));
                    lemma_owners_stay(
                        before.buffers,
                        before.sessions,
                        at,
                        touched(before.sessions[at], now),
                    );
                },
                None => {
                    assert(self@.sessions =~= before.sessions);
                },
            }
        }
        found
    }

    /// Takes a mute frame from `addr` at the instant `now`: the session at
    /// the address has its mute flag set and is touched, and the change is
    /// reported. Without a session at the address nothing changes.
    pub fn handle_set_mute(&mut self, addr: &SocketAddress, muted: bool, now: u64) -> (r: Reaction)
        requires
            old(self).wf(),
        ensures
            final(self).wf(),
            final(self)@ == mute_step(old(self)@, *addr, muted, now),
            r@ == mute_reaction(old(self)@, *addr, muted),
    {
        let ghost before = self@;
        let at = match crate::state::find_socket(&self.state_manager.users, addr) {
            Some(at) => at,
            None => {
                return Reaction::none();
            },
        };
        proof {
            lemma_first_where(before.sessions, at_socket(*addr));
            assert(before.sessions[at as int] == self.state_manager.users@[at as int]@);
            lemma_indexes_agree(before.sessions, at as int);
        }
        let user_id = self.state_manager.users[at].user_id.clone();
        let channel_id = self.state_manager.users[at].channel_id.clone();
        let _ = self.state_manager.set_user_mute(user_id.as_str(), muted, now);
        proof {
            lemma_owners_stay(
                before.buffers,
                before.sessions,
                at as int,
                flagged(before.sessions[at as int], Flag::Muted, muted, now),
            );
        }
        let mut r = Reaction::none();
        r.report(AudioServerEvent::UserMuted { user_id, channel_id, muted });
        proof {
            assert(r@.events =~= mute_reaction(before, *addr, muted).events);
        }
        r
    }

    /// Takes a leave frame from `addr`: the session at the address is
    /// removed, and with it the principal's jitter buffer; the leave is
    /// reported. Without a session at the address nothing changes.
    pub fn handle_leave_channel(&mut self, addr: &SocketAddress) -> (r: Reaction)
        requires
            old(self).wf(),
        ensures
            final(self).wf(),
            final(self)@ == leave_step(old(self)@, *addr),
            r@ == leave_reaction(old(self)@, *addr),
    {
        let ghost before = self@;
        let at = match crate::state::find_socket(&self.state_manager.users, addr) {
            Some(at) => at,
            None => {
                return Reaction::none();
            },
        };
        proof {
            lemma_first_where(before.sessions, at_socket(*addr));
            assert(before.sessions[at as int] == self.state_manager.users@[at as int]@);
            lemma_indexes_agree(before.sessions, at as int);
        }
        let user_id = self.state_manager.users[at].user_id.clone();
        let channel_id = self.state_manager.users[at].channel_id.clone();
        let _ = self.state_manager.remove_user(user_id.as_str());
        drop_orphan_buffers(&mut self.jitter_buffers, &self.state_manager.users);
        let mut r = Reaction::none();
        r.report(AudioServerEvent::UserLeft { user_id, channel_id, socket_addr: *addr });
        proof {
            assert(r@.events =~= leave_reaction(before, *addr).events);
        }
        r
    }

    /// Takes a join frame from `addr` for a channel at the instant `now`.
    /// The roster is asked whether the principal of the session at the
    /// address may enter. If so the principal is bound to the channel, with
    /// the role that the roster gives, and the binding is reported; if not,
    /// the refusal goes back in an error frame and nothing changes. Without
    /// a session at the address nothing happens.
    #[verifier::rlimit(40)]
    pub fn handle_join_channel(
        &mut self,
        addr: &SocketAddress,
        channel_id: &str,
        now: u64,
        wall_seconds: u32,
    ) -> (r: Reaction)
        requires
            old(self).wf(),
        ensures
            final(self).wf(),
            final(self)@ == join_step(old(self)@, *addr, channel_id@, now),
            r@ == join_reaction(old(self)@, *addr, channel_id@, wall_seconds),
    {
        let ghost before = self@;
        let at = match crate::state::find_socket(&self.state_manager.users, addr) {
            Some(at) => at,
            None => {
                return Reaction::none();
            },
        };
        proof {
            lemma_first_where(before.sessions, at_socket(*addr));
            assert(before.sessions[at as int] == self.state_manager.users@[at as int]@);
        }
        let user_id = self.state_manager.users[at].user_id.clone();
        let username = self.state_manager.users[at].username.clone();
        let role = match self.auth.check_membership(user_id.as_str(), channel_id) {
            Ok(role) => role,
            Err(e) => {
                return refuse(*addr, e.message(), wall_seconds);
            },
        };
        let event = AudioServerEvent::UserJoined {
            user_id: user_id.clone(),
            channel_id: channel_id.to_string(),
            socket_addr: *addr,
        };
        let _ = self.state_manager.add_user_to_channel(
            user_id,
            username,
            channel_id.to_string(),
            *addr,
            role,
            now,
        );
        drop_orphan_buffers(&mut self.jitter_buffers, &self.state_manager.users);
        let mut r = Reaction::none();
        r.report(event);
        proof {
            assert(r@.events =~= join_reaction(before, *addr, channel_id@, wall_seconds).events);
        }
        r
    }
}

} // verus!
