//! The handshake engine: how a socket address becomes established.
//!
//! A handshake names a credential and a channel. A handshake from an address
//! that completed one within the deadline is a retry and is dropped without
//! a word. Otherwise the credential is verified, the roster is asked, and
//! only then the state changes, all at once: the session is bound, the
//! principal gets an empty jitter buffer, the handshake is noted as pending,
//! and an acknowledgement goes back.

use crate::auth::claims_view;
use crate::auth::membership;
use crate::auth::opened_session;
use crate::auth::with_session;
use crate::auth::AudioClaims;
use crate::auth::AudioClaimsView;
use crate::auth::AuthError;
use crate::channels::Role;
use crate::handlers::bound_session;
use crate::handlers::lemma_owners_stay;
use crate::handlers::lemma_with_buffer;
use crate::handlers::refusal;
use crate::handlers::refuse;
use crate::handlers::with_buffer;
use crate::jitter::JitterBuffer;
use crate::jitter::JitterBufferView;
use crate::packet::header_wire;
use crate::packet::AudioPacket;
use crate::packet::AudioPacketView;
use crate::packet::PacketHeader;
use crate::packet::PacketType;
use crate::server::buffer_views;
use crate::server::distinct_pending;
use crate::server::drop_orphan_buffers;
use crate::server::find_buffer;
use crate::server::find_pending;
use crate::server::from_addr;
use crate::server::has_owner;
use crate::server::of_sender;
use crate::server::overdue;
use crate::server::pending_views;
use crate::server::quiet;
use crate::server::AudioServer;
use crate::server::AudioServerEvent;
use crate::server::AudioServerEventView;
use crate::server::PendingHandshake;
use crate::server::PendingView;
use crate::server::Reaction;
use crate::server::ReactionView;
use crate::server::SenderBuffer;
use crate::server::SenderBufferView;
use crate::server::ServerView;
use crate::state::at_socket;
use crate::state::lemma_bound_is_table;
use crate::state::touched;
use crate::state::with_bound;
use crate::state::SocketAddress;
use crate::table::first_where;
use crate::table::lemma_first_where;
use crate::table::lemma_first_where_none;
use crate::text::text_eq;
use crate::text::strip_trailing_nul;
use crate::text::utf8_lossy_text;
use vstd::prelude::*;
use vstd::utf8::encode_utf8;

verus! {

/// The credential and the channel that a handshake frame names: those of
/// the JSON body, or the raw credential with the channel of the header.
pub open spec fn handshake_credentials(p: AudioPacketView) -> Option<(Seq<char>, Seq<char>)> {
    match (p.handshake_data, p.jwt_token) {
        (Some(h), _) => Some((h.token, h.channel_id)),
        (None, Some(token)) => Some((token, strip_trailing_nul(utf8_lossy_text(p.header.channel_id)))),
        (None, None) => None,
    }
}

/// Whether a handshake from `addr` at the instant `now` is a retry: the
/// address completed a handshake that is still within the deadline.
pub open spec fn is_retry(s: ServerView, addr: SocketAddress, now: u64) -> bool {
    match first_where(s.pending, from_addr(addr)) {
        Some(i) => !overdue(s.pending[i], s.settings.handshake_timeout, now),
        None => false,
    }
}

/// The pending handshakes without that of an address.
pub open spec fn without_pending(pending: Seq<PendingView>, addr: SocketAddress) -> Seq<
    PendingView,
> {
    match first_where(pending, from_addr(addr)) {
        Some(i) => pending.remove(i),
        None => pending,
    }
}

/// Whether a handshake only refreshes: the address already has the session
/// of this principal in this channel.
pub open spec fn refreshes(
    s: ServerView,
    user_id: Seq<char>,
    channel_id: Seq<char>,
    addr: SocketAddress,
) -> bool {
    match first_where(s.sessions, at_socket(addr)) {
        Some(at) => s.sessions[at].user_id == user_id && s.sessions[at].channel_id == channel_id,
        None => false,
    }
}

/// The state after a handshake succeeded at the instant `now`. The
/// credential's session is stored and the handshake noted as pending. Where
/// the address already has the session of the principal in the channel, the
/// session is only touched. Otherwise the principal is bound to the address
/// and the channel, which evicts the principal's earlier session and a
/// session of another principal at the address with their jitter buffers,
/// and the principal gets an empty jitter buffer.
pub open spec fn established_state(
    s: ServerView,
    claims: AudioClaimsView,
    channel_id: Seq<char>,
    addr: SocketAddress,
    role: Role,
    now: u64,
) -> ServerView {
    let credentials = with_session(s.credentials, opened_session(claims, now));
    let pending = s.pending.push(
        PendingView { socket_addr: addr, user_id: claims.sub, channel_id, started_at: now },
    );
    if refreshes(s, claims.sub, channel_id, addr) {
        let at = first_where(s.sessions, at_socket(addr))->0;
        ServerView {
            sessions: s.sessions.update(at, touched(s.sessions[at], now)),
            credentials,
            pending,
            ..s
        }
    } else {
        let sessions = with_bound(
            s.sessions,
            bound_session(claims.sub, claims.sub, channel_id, addr, role, now),
        );
        ServerView {
            sessions,
            buffers: with_buffer(
                s.buffers.filter(has_owner(sessions)),
                SenderBufferView {
                    user_id: claims.sub,
                    buffer: JitterBufferView::fresh(s.settings.jitter_size, s.settings.jitter_window),
                },
            ),
            credentials,
            pending,
            ..s
        }
    }
}

/// The state after a handshake frame from `addr` at the instant `now`,
/// given what the credential verifier said of the credential: its claims,
/// or nothing where it did not verify. A retry changes nothing. Otherwise a
/// pending handshake of the address that is past the deadline is discarded,
/// and the state changes further only where the frame names a credential,
/// the credential verified and the roster lets the principal enter.
pub open spec fn handshake_step(
    s: ServerView,
    p: AudioPacketView,
    addr: SocketAddress,
    now: u64,
    verdict: Option<AudioClaimsView>,
) -> ServerView {
    if is_retry(s, addr, now) {
        s
    } else {
        let cleared = ServerView { pending: without_pending(s.pending, addr), ..s };
        match (handshake_credentials(p), verdict) {
            (Some(asked), Some(claims)) => match membership(
                s.settings.rosters,
                claims.sub,
                asked.1,
            ) {
                Ok(role) => established_state(cleared, claims, asked.1, addr, role, now),
                Err(_) => cleared,
            },
            _ => cleared,
        }
    }
}

/// The acknowledgement of a handshake on the wire: a bodiless frame with
/// sequence number 0 that names the principal and the channel.
pub open spec fn ack_bytes(user_id: Seq<char>, channel_id: Seq<char>, wall_seconds: u32) -> Seq<
    u8,
> {
    header_wire(
        PacketHeader::new_view(
            PacketType::Ack,
            0,
            encode_utf8(user_id),
            encode_utf8(channel_id),
            wall_seconds,
        ),
    )
}

/// What a handshake frame makes the server send and report. A retry gets no
/// answer. A frame without a credential, a credential that did not verify
/// and a refusal by the roster each get an error frame with their own
/// message. Success gets the acknowledgement, and where a principal was
/// newly bound, the binding is reported after it.
pub open spec fn handshake_reaction(
    s: ServerView,
    p: AudioPacketView,
    addr: SocketAddress,
    now: u64,
    wall_seconds: u32,
    verdict: Option<AudioClaimsView>,
) -> ReactionView {
    if is_retry(s, addr, now) {
        quiet()
    } else {
        match handshake_credentials(p) {
            None => refusal(addr, "Missing handshake data"@, wall_seconds),
            Some(asked) => match verdict {
                None => refusal(addr, AuthError::InvalidToken.text(), wall_seconds),
                Some(claims) => match membership(s.settings.rosters, claims.sub, asked.1) {
                    Err(e) => refusal(addr, e.text(), wall_seconds),
                    Ok(_) => ReactionView {
                        sends: seq![(addr, ack_bytes(claims.sub, asked.1, wall_seconds))],
                        events: if refreshes(s, claims.sub, asked.1, addr) {
                            Seq::empty()
                        } else {
                            seq![
                                AudioServerEventView::UserJoined {
                                    user_id: claims.sub,
                                    channel_id: asked.1,
                                    socket_addr: addr,
                                },
                            ]
                        },
                    },
                },
            },
        }
    }
}

/// Taking the pending handshake of an address away leaves a table without
/// one for the address.
pub proof fn lemma_without_pending(pending: Seq<PendingView>, addr: SocketAddress, row: PendingView)
    requires
        distinct_pending(pending),
        row.socket_addr == addr,
    ensures
        distinct_pending(without_pending(pending, addr)),
        first_where(without_pending(pending, addr), from_addr(addr)) is None,
        distinct_pending(without_pending(pending, addr).push(row)),
{
    lemma_first_where(pending, from_addr(addr));
    let rest = without_pending(pending, addr);
    match first_where(pending, from_addr(addr)) {
        Some(i) => {
            assert forall|a: int, b: int| 0 <= a < b < rest.len() implies rest[a].socket_addr
                != rest[b].socket_addr by {
                let a0 = if a < i {
                    a
                } else {
                    a + 1
                };
                let b0 = if b < i {
                    b
                } else {
                    b + 1
                };
                assert(pending[a0].socket_addr != pending[b0].socket_addr);
            }
            assert forall|a: int| 0 <= a < rest.len() implies !from_addr(addr)(
                #[trigger] rest[a],
            ) by {
                let a0 = if a < i {
                    a
                } else {
                    a + 1
                };
                if a0 < i {
                    assert(pending[a0].socket_addr != pending[i].socket_addr);
                } else {
                    assert(pending[i].socket_addr != pending[a0].socket_addr);
                }
            }
        },
        None => {},
    }
    lemma_first_where_none(rest, from_addr(addr));
    let more = rest.push(row);
    assert forall|a: int, b: int| 0 <= a < b < more.len() implies more[a].socket_addr
        != more[b].socket_addr by {
        if b == rest.len() {
            assert(!from_addr(addr)(rest[a]));
        } else {
            assert(rest[a].socket_addr != rest[b].socket_addr);
        }
    }
}

/// The view of an optional pair of credential and channel.
pub open spec fn asked_view(asked: Option<(String, String)>) -> Option<(Seq<char>, Seq<char>)> {
    match asked {
        Some(pair) => Some((pair.0@, pair.1@)),
        None => None,
    }
}

/// The credential and the channel that a handshake frame names.
pub fn credentials_of(packet: &AudioPacket) -> (r: Option<(String, String)>)
    ensures
        asked_view(r) == handshake_credentials(packet@),
{
    if let Some(data) = &packet.handshake_data {
        Some((data.token.clone(), data.channel_id.clone()))
    } else if let Some(token) = &packet.jwt_token {
        Some((token.clone(), packet.header.channel_id_str()))
    } else {
        None
    }
}

impl AudioServer {
    /// The credential that must be verified before a handshake frame from
    /// `addr` can be completed at the instant `now`, with the channel asked
    /// for; nothing where the frame is a retry or names no credential.
    pub fn pending_credential(&self, packet: &AudioPacket, addr: &SocketAddress, now: u64) -> (r:
        Option<(String, String)>)
        ensures
            asked_view(r) == if is_retry(self@, *addr, now) {
                None
            } else {
                handshake_credentials(packet@)
            },
    {
        if let Some(i) = find_pending(&self.pending_handshakes, addr) {
            proof {
                assert(self@.pending[i as int] == self.pending_handshakes@[i as int]@);
            }
            let started = self.pending_handshakes[i].started_at;
            if !(now > started && now - started > self.config.handshake_timeout) {
                return None;
            }
        }
        credentials_of(packet)
    }

    /// Completes a handshake frame from `addr` at the instant `now`, given
    /// what the credential verifier said of the frame's credential: its
    /// claims, or nothing where it did not verify. Outgoing frames are
    /// stamped with `wall_seconds`.
    ///
    /// A retry is dropped and changes nothing. A frame without a
    /// credential, a credential that did not verify and a refusal by the
    /// roster are answered with an error frame and bind nothing. Success
    /// binds the session, gives the principal an empty jitter buffer, notes
    /// the handshake as pending and answers with an acknowledgement.
    #[verifier::rlimit(40)]
    pub fn complete_handshake(
        &mut self,
        packet: &AudioPacket,
        addr: &SocketAddress,
        now: u64,
        wall_seconds: u32,
        verdict: Option<AudioClaims>,
    ) -> (r: Reaction)
        requires
            old(self).wf(),
        ensures
            final(self).wf(),
            final(self)@ == handshake_step(old(self)@, packet@, *addr, now, claims_view(verdict)),
            r@ == handshake_reaction(
                old(self)@,
                packet@,
                *addr,
                now,
                wall_seconds,
                claims_view(verdict),
            ),
    {
        let ghost before = self@;
        if let Some(i) = find_pending(&self.pending_handshakes, addr) {
            proof {
                assert(before.pending[i as int] == self.pending_handshakes@[i as int]@);
            }
            let started = self.pending_handshakes[i].started_at;
            if !(now > started && now - started > self.config.handshake_timeout) {
                return Reaction::none();
            }
            self.pending_handshakes.remove(i);
            proof {
                assert(pending_views(self.pending_handshakes@) =~= before.pending.remove(
                    i as int,
                ));
            }
        }
        let ghost cleared = ServerView { pending: without_pending(before.pending, *addr), ..before };
        proof {
            lemma_without_pending(
                before.pending,
                *addr,
                PendingView {
                    socket_addr: *addr,
                    user_id: Seq::empty(),
                    channel_id: Seq::empty(),
                    started_at: 0,
                },
            );
            assert(self@ == cleared);
        }
        let asked = match credentials_of(packet) {
            Some(asked) => asked,
            None => {
                return refuse(*addr, "Missing handshake data".to_string(), wall_seconds);
            },
        };
        let channel_id = asked.1;
        let claims = match verdict {
            Some(claims) => claims,
            None => {
                return refuse(*addr, AuthError::InvalidToken.message(), wall_seconds);
            },
        };
        let role = match self.auth.check_membership(claims.sub.as_str(), channel_id.as_str()) {
            Ok(role) => role,
            Err(e) => {
                return refuse(*addr, e.message(), wall_seconds);
            },
        };
        let ghost c = claims@;
        let ghost row = PendingView {
            socket_addr: *addr,
            user_id: c.sub,
            channel_id: channel_id@,
            started_at: now,
        };
        let user_id = claims.sub.clone();
        let _ = self.auth.open_session(Some(claims), now);
        let refresh = match crate::state::find_socket(&self.state_manager.users, addr) {
            Some(at) => {
                proof {
                    assert(before.sessions[at as int] == self.state_manager.users@[at as int]@);
                }
                text_eq(self.state_manager.users[at].user_id.as_str(), user_id.as_str())
                    && text_eq(
                    self.state_manager.users[at].channel_id.as_str(),
                    channel_id.as_str(),
                )
            },
            None => false,
        };
        let mut r = Reaction::none();
        let ack = AudioPacket::ack(user_id.as_str(), channel_id.as_str(), 0, wall_seconds);
        match ack.to_bytes() {
            Ok(bytes) => {
                r.send(*addr, bytes);
            },
            Err(_) => {},
        }
        if refresh {
            let _ = self.state_manager.touch(addr, now);
            proof {
                let at = first_where(before.sessions, at_socket(*addr))->0;
                lemma_first_where(before.sessions, at_socket(*addr));
                lemma_owners_stay(
                    before.buffers,
                    before.sessions,
                    at,
                    touched(before.sessions[at], now),
                );
            }
        } else {
            let _ = self.state_manager.add_user_to_channel(
                user_id.clone(),
                user_id.clone(),
                channel_id.clone(),
                *addr,
                role,
                now,
            );
            drop_orphan_buffers(&mut self.jitter_buffers, &self.state_manager.users);
            let ghost kept = buffer_views(self.jitter_buffers@);
            let ghost fresh = SenderBufferView {
                user_id: c.sub,
                buffer: JitterBufferView::fresh(
                    before.settings.jitter_size,
                    before.settings.jitter_window,
                ),
            };
            let buffer = JitterBuffer::new(
                self.config.jitter_buffer_size,
                self.config.jitter_buffer_window_ms,
            );
            proof {
                lemma_first_where(kept, of_sender(c.sub));
            }
            match find_buffer(&self.jitter_buffers, user_id.as_str()) {
                Some(b) => {
                    proof {
                        assert(kept[b as int] == self.jitter_buffers@[b as int]@);
                    }
                    self.jitter_buffers[b].buffer = buffer;
                    proof {
                        assert(buffer_views(self.jitter_buffers@) =~= kept.update(b as int, fresh));
                    }
                },
                None => {
                    self.jitter_buffers.push(SenderBuffer { user_id: user_id.clone(), buffer });
                    proof {
                        assert(buffer_views(self.jitter_buffers@) =~= kept.push(fresh));
                    }
                },
            }
            proof {
                let bound = bound_session(c.sub, c.sub, channel_id@, *addr, role, now);
                lemma_bound_is_table(before.sessions, bound);
                lemma_with_buffer(kept, fresh, self@.sessions);
            }
            r.report(
                AudioServerEvent::UserJoined {
                    user_id: user_id.clone(),
                    channel_id: channel_id.clone(),
                    socket_addr: *addr,
                },
            );
        }
        self.pending_handshakes.push(
            PendingHandshake { socket_addr: *addr, user_id, channel_id, started_at: now },
        );
        proof {
            lemma_without_pending(before.pending, *addr, row);
            assert(pending_views(self.pending_handshakes@) =~= cleared.pending.push(row));
            assert(self@ == established_state(cleared, c, row.channel_id, *addr, role, now));
            let want = handshake_reaction(
                before,
                packet@,
                *addr,
                now,
                wall_seconds,
                Some(c),
            );
            assert(r@.sends =~= want.sends);
            assert(r@.events =~= want.events);
        }
        r
    }

    /// Takes a handshake frame from `addr` at the instant `now`: has the
    /// frame's credential verified, unless the frame is a retry or names
    /// none, and completes the handshake with what the verifier said.
    /// Whether a credential verifies is the verifier's word; whatever it
    /// is, the server ends in the state and with the reaction that
    /// `complete_handshake` gives for it.
    pub fn handle_handshake(
        &mut self,
        packet: &AudioPacket,
        addr: &SocketAddress,
        now: u64,
        wall_seconds: u32,
    ) -> (r: Reaction)
        requires
            old(self).wf(),
        ensures
            final(self).wf(),
            exists|verdict: Option<AudioClaimsView>|
                final(self)@ == handshake_step(old(self)@, packet@, *addr, now, verdict) && r@
                    == handshake_reaction(old(self)@, packet@, *addr, now, wall_seconds, verdict),
    {
        let verdict = match self.pending_credential(packet, addr, now) {
            Some(asked) => self.auth.verify_token(asked.0.as_str()),
            None => None,
        };
        let ghost said = claims_view(verdict);
        let r = self.complete_handshake(packet, addr, now, wall_seconds, verdict);
        proof {
            assert(self@ == handshake_step(old(self)@, packet@, *addr, now, said));
        }
        r
    }
}

/// The channel that a handshake frame asks for; the empty text where the
/// frame names no credential.
pub open spec fn channel_asked(p: AudioPacketView) -> Seq<char> {
    match handshake_credentials(p) {
        Some(asked) => asked.1,
        None => Seq::empty(),
    }
}

/// A handshake from an address that completed one within the deadline
/// changes nothing and gets no answer, whatever it carries and whatever the
/// verifier would say of it.
pub proof fn lemma_retry_changes_nothing(
    s: ServerView,
    p: AudioPacketView,
    addr: SocketAddress,
    now: u64,
    wall_seconds: u32,
    verdict: Option<AudioClaimsView>,
)
    requires
        is_retry(s, addr, now),
    ensures
        handshake_step(s, p, addr, now, verdict) == s,
        handshake_reaction(s, p, addr, now, wall_seconds, verdict) == quiet(),
{
}

/// After a handshake from an address succeeded, every handshake from that
/// address up to the deadline later is a retry. So handshakes from one
/// address within the deadline bind at most one session.
#[verifier::rlimit(40)]
pub proof fn lemma_handshake_then_retry(
    s: ServerView,
    p: AudioPacketView,
    addr: SocketAddress,
    now: u64,
    verdict: Option<AudioClaimsView>,
    later: u64,
    second: AudioPacketView,
    second_verdict: Option<AudioClaimsView>,
)
    requires
        distinct_pending(s.pending),
        !is_retry(s, addr, now),
        handshake_credentials(p) is Some,
        verdict is Some,
        membership(s.settings.rosters, verdict->0.sub, channel_asked(p)) is Ok,
        later - now <= s.settings.handshake_timeout,
    ensures
        is_retry(handshake_step(s, p, addr, now, verdict), addr, later),
        handshake_step(handshake_step(s, p, addr, now, verdict), second, addr, later, second_verdict)
            == handshake_step(s, p, addr, now, verdict),
{
    let claims = verdict->0;
    let asked = handshake_credentials(p)->0;
    let after = handshake_step(s, p, addr, now, verdict);
    let row = PendingView {
        socket_addr: addr,
        user_id: claims.sub,
        channel_id: asked.1,
        started_at: now,
    };
    let rest = without_pending(s.pending, addr);
    lemma_without_pending(s.pending, addr, row);
    assert(after.pending == rest.push(row));
    lemma_first_where(rest, from_addr(addr));
    assert forall|j: int| 0 <= j < rest.len() implies !from_addr(addr)(
        #[trigger] after.pending[j],
    ) by {
        assert(after.pending[j] == rest[j]);
    }
    crate::table::lemma_first_where_at(after.pending, from_addr(addr), rest.len() as int);
    assert(after.settings == s.settings);
}

} // verus!
