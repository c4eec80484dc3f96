//! The invariant of the server, as a theorem about its state machine:
//! whatever datagrams arrive, whatever the credential verifier says of them,
//! and whenever the timers tick, the tables stay tables, every jitter
//! buffer stays in order and keeps an owner with a session, and the two
//! indexes of the session table agree.

use crate::auth::lemma_kept_sessions_distinct;
use crate::auth::lemma_with_session_distinct;
use crate::auth::membership;
use crate::auth::not_expired;
use crate::auth::opened_session;
use crate::auth::AudioClaimsView;
use crate::dispatch::control_step;
use crate::dispatch::kind_of;
use crate::dispatch::step;
use crate::dispatch::DatagramKind;
use crate::fanout::tick_step;
use crate::handlers::audio_entry;
use crate::handlers::bound_session;
use crate::handlers::buffer_for;
use crate::handlers::join_step;
use crate::handlers::leave_step;
use crate::handlers::lemma_owners_stay;
use crate::handlers::lemma_with_buffer;
use crate::handlers::offered;
use crate::handlers::with_buffer;
use crate::handshake::established_state;
use crate::handshake::handshake_credentials;
use crate::handshake::handshake_step;
use crate::handshake::is_retry;
use crate::handshake::lemma_without_pending;
use crate::handshake::refreshes;
use crate::handshake::without_pending;
use crate::housekeeping::housekeeping_step;
use crate::housekeeping::swept;
use crate::housekeeping::STALE_ENTRY_MS;
use crate::jitter::lemma_cleaned_in_order;
use crate::jitter::lemma_inserted_in_order;
use crate::jitter::lemma_popped_in_order;
use crate::jitter::EntryView;
use crate::jitter::JitterBufferView;
use crate::packet::packet_parse;
use crate::packet::voice_parse;
use crate::packet::AudioPacketView;
use crate::packet::PacketType;
use crate::server::has_owner;
use crate::server::lemma_kept_buffers_in_order;
use crate::server::lemma_kept_pending_distinct;
use crate::server::of_sender;
use crate::server::within_deadline;
use crate::server::PendingView;
use crate::server::SenderBufferView;
use crate::server::ServerView;
use crate::state::at_socket;
use crate::state::flagged;
use crate::state::lemma_bound_is_table;
use crate::state::lemma_filter_keeps_distinct;
use crate::state::lemma_indexes_agree;
use crate::state::lemma_remove_keeps_distinct;
use crate::state::lemma_update_keeps_keys;
use crate::state::observed;
use crate::state::still_active;
use crate::state::touched;
use crate::state::with_bound;
use crate::state::AudioUserStateView;
use crate::state::Flag;
use crate::state::SocketAddress;
use crate::table::first_where;
use crate::table::lemma_first_where;
use vstd::prelude::*;

verus! {

/// What can happen to the server.
pub ghost enum Input {
    /// A datagram arrives from `addr` at the instant `now`; `verdict` is
    /// what the credential verifier says where the datagram is a handshake.
    Datagram { data: Seq<u8>, addr: SocketAddress, now: u64, verdict: Option<AudioClaimsView> },
    /// The fan-out timer ticks.
    Tick,
    /// The housekeeping timer ticks at the instant `now`.
    Housekeeping { now: u64 },
}

/// The state after one input.
pub open spec fn after(s: ServerView, input: Input) -> ServerView {
    match input {
        Input::Datagram { data, addr, now, verdict } => step(s, data, addr, now, verdict),
        Input::Tick => tick_step(s),
        Input::Housekeeping { now } => housekeeping_step(s, now),
    }
}

/// The state after a sequence of inputs, taken in their order.
pub open spec fn run(s: ServerView, inputs: Seq<Input>) -> ServerView
    decreases inputs.len(),
{
    if inputs.len() == 0 {
        s
    } else {
        after(run(s, inputs.drop_last()), inputs.last())
    }
}

/// Replacing a session by one of the same principal at the same socket
/// address keeps the invariant.
proof fn lemma_replaced(s: ServerView, at: int, u: AudioUserStateView)
    requires
        s.wf(),
        0 <= at < s.sessions.len(),
        u.user_id == s.sessions[at].user_id,
        u.socket_addr == s.sessions[at].socket_addr,
    ensures
        (ServerView { sessions: s.sessions.update(at, u), ..s }).wf(),
{
    lemma_update_keeps_keys(s.sessions, at, u, u.user_id, u.socket_addr);
    lemma_owners_stay(s.buffers, s.sessions, at, u);
}

/// Offering a frame to its sender's jitter buffer keeps the invariant.
proof fn lemma_offered(s: ServerView, at: int, entry: EntryView, now: u64)
    requires
        s.wf(),
        0 <= at < s.sessions.len(),
    ensures
        offered(s, at, entry, now).wf(),
{
    let u = s.sessions[at];
    let seen = observed(u, entry.sequence_number, now);
    let home = buffer_for(s.buffers, u.user_id, s.settings);
    let row = SenderBufferView { user_id: u.user_id, buffer: home.inserted(entry) };
    lemma_first_where(s.buffers, of_sender(u.user_id));
    assert(home.wf()) by {
        match first_where(s.buffers, of_sender(u.user_id)) {
            Some(i) => {
                assert(s.buffers[i].buffer.wf());
            },
            None => {},
        }
    }
    lemma_inserted_in_order(home, entry);
    lemma_indexes_agree(s.sessions, at);
    lemma_with_buffer(s.buffers, row, s.sessions);
    lemma_update_keeps_keys(s.sessions, at, seen, u.user_id, u.socket_addr);
    lemma_owners_stay(with_buffer(s.buffers, row), s.sessions, at, seen);
}

/// A leave keeps the invariant.
proof fn lemma_left(s: ServerView, addr: SocketAddress)
    requires
        s.wf(),
    ensures
        leave_step(s, addr).wf(),
{
    lemma_first_where(s.sessions, at_socket(addr));
    if let Some(at) = first_where(s.sessions, at_socket(addr)) {
        lemma_remove_keeps_distinct(s.sessions, at);
        lemma_kept_buffers_in_order(s.buffers, has_owner(s.sessions.remove(at)));
    }
}

/// A join keeps the invariant.
proof fn lemma_joined(s: ServerView, addr: SocketAddress, channel_id: Seq<char>, now: u64)
    requires
        s.wf(),
    ensures
        join_step(s, addr, channel_id, now).wf(),
{
    lemma_first_where(s.sessions, at_socket(addr));
    if let Some(at) = first_where(s.sessions, at_socket(addr)) {
        if let Ok(role) = membership(s.settings.rosters, s.sessions[at].user_id, channel_id) {
            let bound = bound_session(
                s.sessions[at].user_id,
                s.sessions[at].username,
                channel_id,
                addr,
                role,
                now,
            );
            lemma_bound_is_table(s.sessions, bound);
            lemma_kept_buffers_in_order(s.buffers, has_owner(with_bound(s.sessions, bound)));
        }
    }
}

/// A handshake keeps the invariant, whatever the verifier says.
proof fn lemma_shaken(
    s: ServerView,
    p: AudioPacketView,
    addr: SocketAddress,
    now: u64,
    verdict: Option<AudioClaimsView>,
)
    requires
        s.wf(),
    ensures
        handshake_step(s, p, addr, now, verdict).wf(),
{
    if !is_retry(s, addr, now) {
        let cleared = ServerView { pending: without_pending(s.pending, addr), ..s };
        let blank = PendingView {
            socket_addr: addr,
            user_id: Seq::empty(),
            channel_id: Seq::empty(),
            started_at: 0,
        };
        lemma_without_pending(s.pending, addr, blank);
        assert(cleared.wf());
        match (handshake_credentials(p), verdict) {
            (Some(asked), Some(claims)) => {
                if let Ok(role) = membership(s.settings.rosters, claims.sub, asked.1) {
                    let row = PendingView {
                        socket_addr: addr,
                        user_id: claims.sub,
                        channel_id: asked.1,
                        started_at: now,
                    };
                    lemma_without_pending(s.pending, addr, row);
                    lemma_with_session_distinct(cleared.credentials, opened_session(claims, now));
                    if refreshes(cleared, claims.sub, asked.1, addr) {
                        let at = first_where(cleared.sessions, at_socket(addr))->0;
                        lemma_first_where(cleared.sessions, at_socket(addr));
                        lemma_replaced(cleared, at, touched(cleared.sessions[at], now));
                    } else {
                        let bound = bound_session(claims.sub, claims.sub, asked.1, addr, role, now);
                        let sessions = with_bound(cleared.sessions, bound);
                        let kept = cleared.buffers.filter(has_owner(sessions));
                        let fresh = SenderBufferView {
                            user_id: claims.sub,
                            buffer: JitterBufferView::fresh(
                                cleared.settings.jitter_size,
                                cleared.settings.jitter_window,
                            ),
                        };
                        lemma_bound_is_table(cleared.sessions, bound);
                        lemma_kept_buffers_in_order(cleared.buffers, has_owner(sessions));
                        lemma_with_buffer(kept, fresh, sessions);
                    }
                    assert(established_state(cleared, claims, asked.1, addr, role, now).wf());
                }
            },
            _ => {},
        }
    }
}

/// A control frame keeps the invariant.
proof fn lemma_controlled(
    s: ServerView,
    p: AudioPacketView,
    addr: SocketAddress,
    now: u64,
    verdict: Option<AudioClaimsView>,
)
    requires
        s.wf(),
    ensures
        control_step(s, p, addr, now, verdict).wf(),
{
    lemma_first_where(s.sessions, at_socket(addr));
    match p.header.packet_type {
        PacketType::Handshake => {
            lemma_shaken(s, p, addr, now, verdict);
        },
        PacketType::Audio => {
            if let Some(at) = first_where(s.sessions, at_socket(addr)) {
                if p.audio_data is Some {
                    lemma_offered(s, at, audio_entry(p, now), now);
                }
            }
        },
        PacketType::JoinChannel => {
            lemma_joined(
                s,
                addr,
                crate::text::strip_trailing_nul(crate::text::utf8_lossy_text(p.header.channel_id)),
                now,
            );
        },
        PacketType::LeaveChannel => {
            lemma_left(s, addr);
        },
        PacketType::SetMute => {
            if let Some(at) = first_where(s.sessions, at_socket(addr)) {
                if let Some(muted) = p.mute_state {
                    lemma_replaced(s, at, flagged(s.sessions[at], Flag::Muted, muted, now));
                }
            }
        },
        PacketType::Heartbeat => {
            if let Some(at) = first_where(s.sessions, at_socket(addr)) {
                lemma_replaced(s, at, touched(s.sessions[at], now));
            }
        },
        _ => {},
    }
}

/// A tick of fan-out keeps the invariant.
proof fn lemma_ticked(s: ServerView)
    requires
        s.wf(),
    ensures
        tick_step(s).wf(),
{
    let after = tick_step(s).buffers;
    assert forall|a: int, b: int| 0 <= a < b < after.len() implies after[a].user_id
        != after[b].user_id by {
        assert(s.buffers[a].user_id != s.buffers[b].user_id);
    }
    assert forall|a: int| 0 <= a < after.len() implies (#[trigger] after[a]).buffer.wf()
        && has_owner(s.sessions)(after[a]) by {
        assert(s.buffers[a].buffer.wf());
        assert(has_owner(s.sessions)(s.buffers[a]));
        lemma_popped_in_order(s.buffers[a].buffer);
    }
}

/// Housekeeping keeps the invariant.
proof fn lemma_kept_house(s: ServerView, now: u64)
    requires
        s.wf(),
    ensures
        housekeeping_step(s, now).wf(),
{
    let sessions = s.sessions.filter(still_active(s.settings.user_timeout, now));
    let kept = s.buffers.filter(has_owner(sessions));
    let after = housekeeping_step(s, now).buffers;
    lemma_filter_keeps_distinct(s.sessions, still_active(s.settings.user_timeout, now));
    lemma_kept_pending_distinct(s.pending, within_deadline(s.settings.handshake_timeout, now));
    lemma_kept_sessions_distinct(s.credentials, not_expired(s.settings.session_timeout, now));
    lemma_kept_buffers_in_order(s.buffers, has_owner(sessions));
    assert forall|a: int, b: int| 0 <= a < b < after.len() implies after[a].user_id
        != after[b].user_id by {
        assert(kept[a].user_id != kept[b].user_id);
    }
    assert forall|a: int| 0 <= a < after.len() implies (#[trigger] after[a]).buffer.wf()
        && has_owner(sessions)(after[a]) by {
        assert(kept[a].buffer.wf());
        assert(has_owner(sessions)(kept[a]));
        assert(after[a] == swept(kept[a], now));
        lemma_cleaned_in_order(kept[a].buffer, STALE_ENTRY_MS, now);
    }
}

/// Every input keeps the invariant of the server.
pub proof fn lemma_after_keeps_invariant(s: ServerView, input: Input)
    requires
        s.wf(),
    ensures
        after(s, input).wf(),
{
    match input {
        Input::Datagram { data, addr, now, verdict } => {
            lemma_first_where(s.sessions, at_socket(addr));
            match kind_of(s, data, addr) {
                DatagramKind::Voice => {
                    if let Ok(v) = voice_parse(data) {
                        let at = first_where(s.sessions, at_socket(addr))->0;
                        lemma_offered(
                            s,
                            at,
                            EntryView {
                                sequence_number: v.sequence_number,
                                timestamp: v.timestamp,
                                payload: v.payload,
                                received_at: now,
                            },
                            now,
                        );
                    }
                },
                DatagramKind::Control => {
                    if let Ok(p) = packet_parse(data) {
                        lemma_controlled(s, p, addr, now, verdict);
                    }
                },
            }
        },
        Input::Tick => {
            lemma_ticked(s);
        },
        Input::Housekeeping { now } => {
            lemma_kept_house(s, now);
        },
    }
}

/// For every sequence of datagrams, verdicts and ticks, the server that
/// starts in order is in order after each of them: no principal and no
/// socket address has two sessions, no address has two pending handshakes,
/// every jitter buffer is in order and belongs to a principal with a
/// session.
pub proof fn lemma_run_keeps_invariant(s: ServerView, inputs: Seq<Input>)
    requires
        s.wf(),
    ensures
        run(s, inputs).wf(),
    decreases inputs.len(),
{
    if inputs.len() > 0 {
        lemma_run_keeps_invariant(s, inputs.drop_last());
        lemma_after_keeps_invariant(run(s, inputs.drop_last()), inputs.last());
    }
}

/// After every sequence of inputs the two indexes of the session table
/// agree: the session found at a socket address is the one found under its
/// principal, and the other way round.
pub proof fn lemma_indexes_agree_after_every_run(s: ServerView, inputs: Seq<Input>, at: int)
    requires
        s.wf(),
        0 <= at < run(s, inputs).sessions.len(),
    ensures
        first_where(
            run(s, inputs).sessions,
            crate::state::with_id(run(s, inputs).sessions[at].user_id),
        ) == Some(at),
        first_where(
            run(s, inputs).sessions,
            at_socket(run(s, inputs).sessions[at].socket_addr),
        ) == Some(at),
{
    lemma_run_keeps_invariant(s, inputs);
    lemma_indexes_agree(run(s, inputs).sessions, at);
}

} // verus!
