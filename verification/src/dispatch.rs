//! The dispatch of inbound datagrams: which family a datagram belongs to,
//! which handler takes it, and what the server is afterwards.
//!
//! The first byte and the source decide. A datagram that begins with the
//! voice tag and comes from an address with a session is a voice frame.
//! Every other datagram is a control frame: a handshake goes to the
//! handshake engine, and every other kind needs a session at its source.

use crate::auth::claims_view;
use crate::auth::AudioClaims;
use crate::auth::AudioClaimsView;
use crate::handlers::audio_step;
use crate::handlers::heartbeat_step;
use crate::handlers::join_reaction;
use crate::handlers::join_step;
use crate::handlers::leave_reaction;
use crate::handlers::leave_step;
use crate::handlers::mute_reaction;
use crate::handlers::mute_step;
use crate::handlers::refusal;
use crate::handlers::refuse;
use crate::handlers::voice_step;
use crate::handshake::handshake_credentials;
use crate::handshake::handshake_reaction;
use crate::handshake::handshake_step;
use crate::handshake::is_retry;
use crate::packet::packet_parse;
use crate::packet::AudioPacket;
use crate::packet::AudioPacketView;
use crate::packet::PacketType;
use crate::server::quiet;
use crate::server::AudioServer;
use crate::server::AudioServerEvent;
use crate::server::AudioServerEventView;
use crate::server::Reaction;
use crate::server::ReactionView;
use crate::server::ServerView;
use crate::state::at_socket;
use crate::state::SocketAddress;
use crate::table::first_where;
use crate::text::strip_trailing_nul;
use crate::text::utf8_lossy_text;
use vstd::prelude::*;

verus! {

/// The two families of frames that share the socket.
#[derive(Debug, Clone, Copy, PartialEq, Eq, Structural)]
pub enum DatagramKind {
    /// A voice frame.
    Voice,
    /// A control frame.
    Control,
}

/// The family of a datagram: voice where it begins with the voice tag and
/// its source has a session, control otherwise.
pub open spec fn kind_of(s: ServerView, data: Seq<u8>, addr: SocketAddress) -> DatagramKind {
    if data.len() > 0 && data[0] == 0x01 && s.established(addr) {
        DatagramKind::Voice
    } else {
        DatagramKind::Control
    }
}

/// The message of the error frame that answers a control frame from an
/// address without a session.
pub open spec fn not_authenticated() -> Seq<char> {
    "Not authenticated"@
}

/// The state after a control frame from `addr` at the instant `now`, given
/// what the credential verifier said where the frame is a handshake. A
/// handshake goes to the handshake engine. Every other kind needs a session
/// at its source and changes nothing without one; inbound error frames and
/// acknowledgements change nothing at all.
pub open spec fn control_step(
    s: ServerView,
    p: AudioPacketView,
    addr: SocketAddress,
    now: u64,
    verdict: Option<AudioClaimsView>,
) -> ServerView {
    match p.header.packet_type {
        PacketType::Handshake => handshake_step(s, p, addr, now, verdict),
        PacketType::Audio => audio_step(s, p, addr, now),
        PacketType::JoinChannel => join_step(
            s,
            addr,
            strip_trailing_nul(utf8_lossy_text(p.header.channel_id)),
            now,
        ),
        PacketType::LeaveChannel => leave_step(s, addr),
        PacketType::SetMute => match p.mute_state {
            Some(muted) => mute_step(s, addr, muted, now),
            None => s,
        },
        PacketType::Heartbeat => heartbeat_step(s, addr, now),
        PacketType::Error => s,
        PacketType::Ack => s,
    }
}

/// What a control frame from `addr` makes the server send and report. A
/// frame other than a handshake from an address without a session gets a
/// single error frame.
pub open spec fn control_reaction(
    s: ServerView,
    p: AudioPacketView,
    addr: SocketAddress,
    now: u64,
    wall_seconds: u32,
    verdict: Option<AudioClaimsView>,
) -> ReactionView {
    if p.header.packet_type == PacketType::Handshake {
        handshake_reaction(s, p, addr, now, wall_seconds, verdict)
    } else if !s.established(addr) {
        refusal(addr, not_authenticated(), wall_seconds)
    } else {
        match p.header.packet_type {
            PacketType::JoinChannel => join_reaction(
                s,
                addr,
                strip_trailing_nul(utf8_lossy_text(p.header.channel_id)),
                wall_seconds,
            ),
            PacketType::LeaveChannel => leave_reaction(s, addr),
            PacketType::SetMute => match p.mute_state {
                Some(muted) => mute_reaction(s, addr, muted),
                None => quiet(),
            },
            _ => quiet(),
        }
    }
}

/// The state after a datagram from `addr` at the instant `now`, given what
/// the credential verifier said where the datagram is a handshake. A
/// datagram that is no well-formed frame of its family changes nothing.
pub open spec fn step(
    s: ServerView,
    data: Seq<u8>,
    addr: SocketAddress,
    now: u64,
    verdict: Option<AudioClaimsView>,
) -> ServerView {
    match kind_of(s, data, addr) {
        DatagramKind::Voice => voice_step(s, data, addr, now),
        DatagramKind::Control => match packet_parse(data) {
            Ok(p) => control_step(s, p, addr, now, verdict),
            Err(_) => s,
        },
    }
}

/// What a datagram from `addr` makes the server send and report. Voice is
/// never answered. A datagram that is no well-formed control frame is
/// dropped and reported.
pub open spec fn reaction(
    s: ServerView,
    data: Seq<u8>,
    addr: SocketAddress,
    now: u64,
    wall_seconds: u32,
    verdict: Option<AudioClaimsView>,
) -> ReactionView {
    match kind_of(s, data, addr) {
        DatagramKind::Voice => quiet(),
        DatagramKind::Control => match packet_parse(data) {
            Ok(p) => control_reaction(s, p, addr, now, wall_seconds, verdict),
            Err(e) => ReactionView {
                sends: Seq::empty(),
                events: seq![AudioServerEventView::Error { socket_addr: addr, error: e.text() }],
            },
        },
    }
}

/// The credential that must be verified before a datagram from `addr` can
/// be taken at the instant `now`: that of a well-formed handshake frame
/// that is no retry; nothing for every other datagram.
pub open spec fn credential_of(s: ServerView, data: Seq<u8>, addr: SocketAddress, now: u64)
    -> Option<Seq<char>> {
    match (kind_of(s, data, addr), packet_parse(data)) {
        (DatagramKind::Control, Ok(p)) => if p.header.packet_type == PacketType::Handshake
            && !is_retry(s, addr, now) {
            match handshake_credentials(p) {
                Some(asked) => Some(asked.0),
                None => None,
            }
        } else {
            None
        },
        _ => None,
    }
}

impl AudioServer {
    /// Whether a session is bound to a socket address.
    pub fn is_established(&self, addr: &SocketAddress) -> (r: bool)
        ensures
            r == self@.established(*addr),
    {
        crate::state::find_socket(&self.state_manager.users, addr).is_some()
    }

    /// The family of a datagram from `addr`.
    pub fn classify(&self, data: &[u8], addr: &SocketAddress) -> (r: DatagramKind)
        ensures
            r == kind_of(self@, data@, *addr),
    {
        if data.len() > 0 && data[0] == 0x01 && self.is_established(addr) {
            DatagramKind::Voice
        } else {
            DatagramKind::Control
        }
    }

    /// Takes a control frame from `addr` at the instant `now`, given what
    /// the credential verifier said where the frame is a handshake, and
    /// routes it to its handler. Outgoing frames are stamped with
    /// `wall_seconds`.
    pub fn handle_packet(
        &mut self,
        packet: AudioPacket,
        addr: &SocketAddress,
        now: u64,
        wall_seconds: u32,
        verdict: Option<AudioClaims>,
    ) -> (r: Reaction)
        requires
            old(self).wf(),
        ensures
            final(self).wf(),
            final(self)@ == control_step(old(self)@, packet@, *addr, now, claims_view(verdict)),
            r@ == control_reaction(
                old(self)@,
                packet@,
                *addr,
                now,
                wall_seconds,
                claims_view(verdict),
            ),
    {
        match packet.header.packet_type {
            PacketType::Handshake => {
                return self.complete_handshake(&packet, addr, now, wall_seconds, verdict);
            },
            _ => {},
        }
        if !self.is_established(addr) {
            return refuse(*addr, "Not authenticated".to_string(), wall_seconds);
        }
        match packet.header.packet_type {
            PacketType::Audio => {
                let _ = self.handle_audio_packet(packet, addr, now);
                Reaction::none()
            },
            PacketType::JoinChannel => {
                let channel_id = packet.header.channel_id_str();
                self.handle_join_channel(addr, channel_id.as_str(), now, wall_seconds)
            },
            PacketType::LeaveChannel => self.handle_leave_channel(addr),
            PacketType::SetMute => match packet.mute_state {
                Some(muted) => self.handle_set_mute(addr, muted, now),
                None => Reaction::none(),
            },
            PacketType::Heartbeat => {
                let _ = self.handle_heartbeat(addr, now);
                Reaction::none()
            },
            _ => Reaction::none(),
        }
    }

    /// The credential that must be verified before a datagram from `addr`
    /// can be taken at the instant `now`, if there is one.
    pub fn credential_wanted(&self, data: &[u8], addr: &SocketAddress, now: u64) -> (r: Option<
        String,
    >)
        ensures
            crate::auth::opt_text(r) == credential_of(self@, data@, *addr, now),
    {
        match self.classify(data, addr) {
            DatagramKind::Voice => None,
            DatagramKind::Control => match AudioPacket::from_bytes(data) {
                Ok(packet) => match packet.header.packet_type {
                    PacketType::Handshake => match self.pending_credential(&packet, addr, now) {
                        Some(asked) => Some(asked.0),
                        None => None,
                    },
                    _ => None,
                },
                Err(_) => None,
            },
        }
    }

    /// Takes a datagram from `addr` at the instant `now`, given what the
    /// credential verifier said of the credential that `credential_wanted`
    /// names for it: its claims, or nothing where it did not verify or none
    /// was wanted. Outgoing frames are stamped with `wall_seconds`.
    pub fn apply(
        &mut self,
        data: &[u8],
        addr: &SocketAddress,
        now: u64,
        wall_seconds: u32,
        verdict: Option<AudioClaims>,
    ) -> (r: Reaction)
        requires
            old(self).wf(),
        ensures
            final(self).wf(),
            final(self)@ == step(old(self)@, data@, *addr, now, claims_view(verdict)),
            r@ == reaction(old(self)@, data@, *addr, now, wall_seconds, claims_view(verdict)),
    {
        match self.classify(data, addr) {
            DatagramKind::Voice => {
                let _ = self.handle_voice(data, addr, now);
                Reaction::none()
            },
            DatagramKind::Control => match AudioPacket::from_bytes(data) {
                Ok(packet) => self.handle_packet(packet, addr, now, wall_seconds, verdict),
                Err(e) => {
                    let mut r = Reaction::none();
                    r.report(AudioServerEvent::Error { socket_addr: *addr, error: e.message() });
                    proof {
                        assert(r@.sends =~= Seq::<(SocketAddress, Seq<u8>)>::empty());
                        assert(r@.events =~= seq![
                            AudioServerEventView::Error { socket_addr: *addr, error: e.text() },
                        ]);
                    }
                    r
                },
            },
        }
    }

    /// Takes a datagram from `addr` at the instant `now`: has the credential
    /// verified that the datagram needs verified, if any, and takes the
    /// datagram with what the verifier said. Whether a credential verifies
    /// is the verifier's word; whatever it is, the server ends in the state
    /// and with the reaction that `apply` gives for it.
    pub fn handle_datagram(&mut self, data: &[u8], addr: &SocketAddress, now: u64, wall_seconds: u32)
        -> (r: Reaction)
        requires
            old(self).wf(),
        ensures
            final(self).wf(),
            exists|verdict: Option<AudioClaimsView>|
                final(self)@ == step(old(self)@, data@, *addr, now, verdict) && r@ == reaction(
                    old(self)@,
                    data@,
                    *addr,
                    now,
                    wall_seconds,
                    verdict,
                ),
            credential_of(old(self)@, data@, *addr, now) is None ==> final(self)@ == step(
                old(self)@,
                data@,
                *addr,
                now,
                None,
            ) && r@ == reaction(old(self)@, data@, *addr, now, wall_seconds, None),
    {
        let verdict = match self.credential_wanted(data, addr, now) {
            Some(token) => self.auth.verify_token(token.as_str()),
            None => None,
        };
        let ghost said = claims_view(verdict);
        let r = self.apply(data, addr, now, wall_seconds, verdict);
        proof {
            assert(self@ == step(old(self)@, data@, *addr, now, said));
        }
        r
    }
}

/// In every state of the server the two indexes of the session table agree:
/// the session found at a socket address is the one found under its
/// principal, and the session found under a principal is the one found at
/// its socket address.
pub proof fn lemma_session_indexes_consistent(
    s: ServerView,
    addr: SocketAddress,
    user_id: Seq<char>,
)
    requires
        s.wf(),
    ensures
        first_where(s.sessions, at_socket(addr)) matches Some(i) ==> first_where(
            s.sessions,
            crate::state::with_id(s.sessions[i].user_id),
        ) == Some(i),
        first_where(s.sessions, crate::state::with_id(user_id)) matches Some(i) ==> first_where(
            s.sessions,
            at_socket(s.sessions[i].socket_addr),
        ) == Some(i),
{
    crate::table::lemma_first_where(s.sessions, at_socket(addr));
    crate::table::lemma_first_where(s.sessions, crate::state::with_id(user_id));
    if let Some(i) = first_where(s.sessions, at_socket(addr)) {
        crate::state::lemma_indexes_agree(s.sessions, i);
    }
    if let Some(i) = first_where(s.sessions, crate::state::with_id(user_id)) {
        crate::state::lemma_indexes_agree(s.sessions, i);
    }
}

} // verus!
