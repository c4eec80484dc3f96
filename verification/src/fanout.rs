//! The fan-out tick: each jitter buffer hands out its next frame, if it is
//! in order, and the frame goes to every other session of the sender's
//! channel that is not muted.

use crate::jitter::EntryView;
use crate::packet::packet_wire;
use crate::packet::voice_wire;
use crate::packet::AudioPacket;
use crate::packet::PacketError;
use crate::packet::VoicePacket;
use crate::packet::VoicePacketView;
use crate::server::buffer_views;
use crate::server::has_owner;
use crate::server::AudioServer;
use crate::server::AudioServerEvent;
use crate::server::AudioServerEventView;
use crate::server::Outbound;
use crate::server::Reaction;
use crate::server::ReactionView;
use crate::server::SenderBufferView;
use crate::server::ServerView;
use crate::state::distinct_users;
use crate::state::lemma_filter_keeps_distinct;
use crate::state::pairs_view;
use crate::state::receives_from;
use crate::state::targets_of;
use crate::state::with_id;
use crate::state::AudioUserStateView;
use crate::state::SocketAddress;
use crate::table::first_where;
use crate::table::lemma_first_where;
use vstd::prelude::*;

verus! {

/// The voice frame that forwards a buffered entry: the entry's sequence
/// number, media timestamp and payload under the voice tag.
pub open spec fn voice_frame_of(e: EntryView) -> VoicePacketView {
    VoicePacketView {
        packet_type: 0x01,
        sequence_number: e.sequence_number,
        timestamp: e.timestamp,
        payload: e.payload,
    }
}

/// Those to whom a frame of a sender goes: every other session of the
/// sender's channel that is not muted, in the table's order. A sender
/// without a session has no receivers.
pub open spec fn receivers(sessions: Seq<AudioUserStateView>, sender: Seq<char>) -> Seq<
    (Seq<char>, SocketAddress),
> {
    match first_where(sessions, with_id(sender)) {
        Some(i) => targets_of(sessions.filter(receives_from(sender, sessions[i].channel_id, false))),
        None => Seq::empty(),
    }
}

/// The datagrams that one buffer's tick makes: the next frame, once for
/// each receiver.
pub open spec fn row_sends(row: SenderBufferView, sessions: Seq<AudioUserStateView>) -> Seq<
    (SocketAddress, Seq<u8>),
> {
    match row.buffer.next_entry() {
        Some(e) => Seq::new(
            receivers(sessions, row.user_id).len(),
            |j: int| (receivers(sessions, row.user_id)[j].1, voice_wire(voice_frame_of(e))),
        ),
        None => Seq::empty(),
    }
}

/// The report that one buffer's tick makes: the frame that was forwarded.
pub open spec fn row_events(row: SenderBufferView, sessions: Seq<AudioUserStateView>) -> Seq<
    AudioServerEventView,
> {
    match (row.buffer.next_entry(), first_where(sessions, with_id(row.user_id))) {
        (Some(e), Some(i)) => seq![
            AudioServerEventView::AudioPacket {
                from_user_id: row.user_id,
                channel_id: sessions[i].channel_id,
                sequence: e.sequence_number,
                data: e.payload,
            },
        ],
        _ => Seq::empty(),
    }
}

/// The datagrams of a tick: those of each buffer, buffer by buffer.
pub open spec fn tick_sends(buffers: Seq<SenderBufferView>, sessions: Seq<AudioUserStateView>)
    -> Seq<(SocketAddress, Seq<u8>)>
    decreases buffers.len(),
{
    if buffers.len() == 0 {
        Seq::empty()
    } else {
        tick_sends(buffers.drop_last(), sessions) + row_sends(buffers.last(), sessions)
    }
}

/// The reports of a tick: those of each buffer, buffer by buffer.
pub open spec fn tick_events(buffers: Seq<SenderBufferView>, sessions: Seq<AudioUserStateView>)
    -> Seq<AudioServerEventView>
    decreases buffers.len(),
{
    if buffers.len() == 0 {
        Seq::empty()
    } else {
        tick_events(buffers.drop_last(), sessions) + row_events(buffers.last(), sessions)
    }
}

/// A buffer after its tick: the next frame, if it was in order, is played.
pub open spec fn ticked(row: SenderBufferView) -> SenderBufferView {
    SenderBufferView { user_id: row.user_id, buffer: row.buffer.popped() }
}

/// The state after a tick: every buffer has played its next frame, if it
/// was in order. Sessions are not touched.
pub open spec fn tick_step(s: ServerView) -> ServerView {
    ServerView { buffers: Seq::new(s.buffers.len(), |k: int| ticked(s.buffers[k])), ..s }
}

/// What a tick sends and reports.
pub open spec fn tick_reaction(s: ServerView) -> ReactionView {
    ReactionView {
        sends: tick_sends(s.buffers, s.sessions),
        events: tick_events(s.buffers, s.sessions),
    }
}

/// Every receiver of a sender's frame is a session of the table in the
/// sender's channel that is not muted; it is not the sender, and it is not
/// at the sender's socket address.
pub proof fn lemma_receivers(sessions: Seq<AudioUserStateView>, sender: Seq<char>, j: int)
    requires
        distinct_users(sessions),
        0 <= j < receivers(sessions, sender).len(),
    ensures
        first_where(sessions, with_id(sender)) is Some,
        receivers(sessions, sender)[j].0 != sender,
        receivers(sessions, sender)[j].1 != sessions[first_where(
            sessions,
            with_id(sender),
        )->0].socket_addr,
        exists|w: int|
            0 <= w < sessions.len() && sessions[w].user_id == receivers(sessions, sender)[j].0
                && sessions[w].socket_addr == receivers(sessions, sender)[j].1
                && !sessions[w].is_muted && sessions[w].channel_id == sessions[first_where(
                sessions,
                with_id(sender),
            )->0].channel_id,
{
    lemma_first_where(sessions, with_id(sender));
    let i = first_where(sessions, with_id(sender))->0;
    let rule = receives_from(sender, sessions[i].channel_id, false);
    let picked = sessions.filter(rule);
    lemma_filter_keeps_distinct(sessions, rule);
    assert(rule(picked[j]));
    assert(sessions.contains(picked[j]));
    let w = choose|w: int| 0 <= w < sessions.len() && sessions[w] == picked[j];
    if w < i {
        assert(sessions[w].socket_addr != sessions[i].socket_addr);
    } else if w > i {
        assert(sessions[i].socket_addr != sessions[w].socket_addr);
    }
}

/// No datagram of a buffer's tick goes to the sender's own socket address,
/// and none goes to a muted session.
pub proof fn lemma_tick_spares_sender(
    row: SenderBufferView,
    sessions: Seq<AudioUserStateView>,
    j: int,
)
    requires
        distinct_users(sessions),
        0 <= j < row_sends(row, sessions).len(),
    ensures
        first_where(sessions, with_id(row.user_id)) is Some,
        row_sends(row, sessions)[j].0 != sessions[first_where(
            sessions,
            with_id(row.user_id),
        )->0].socket_addr,
        exists|w: int|
            0 <= w < sessions.len() && sessions[w].socket_addr == row_sends(row, sessions)[j].0
                && !sessions[w].is_muted && sessions[w].user_id != row.user_id,
{
    lemma_receivers(sessions, row.user_id, j);
}

/// A copy of a run of bytes.
fn copy_bytes(bytes: &Vec<u8>) -> (r: Vec<u8>)
    ensures
        r@ == bytes@,
{
    let mut out: Vec<u8> = Vec::new();
    crate::wire::append_bytes(&mut out, bytes.as_slice());
    assert(out@ =~= bytes@);
    out
}

impl AudioServer {
    /// Runs one tick of fan-out. Each jitter buffer hands out its next frame
    /// if that is the successor of what it played last. The frame is
    /// rebuilt as a voice frame with its sequence number, media timestamp
    /// and payload, and is to be sent once to every other session of the
    /// sender's channel that is not muted; never to the sender. Each
    /// forwarded frame is reported.
    #[verifier::rlimit(40)]
    pub fn process_jitter_buffers(&mut self) -> (r: Reaction)
        requires
            old(self).wf(),
        ensures
            final(self).wf(),
            final(self)@ == tick_step(old(self)@),
            r@ == tick_reaction(old(self)@),
    {
        let ghost before = self@;
        let ghost sessions = before.sessions;
        let mut r = Reaction::none();
        let n: usize = self.jitter_buffers.len();
        let mut k: usize = 0;
        proof {
            assert(before.buffers.subrange(0, 0) =~= Seq::<SenderBufferView>::empty());
        }
        while k < n
            invariant
                k <= n,
                n == before.buffers.len(),
                n == self.jitter_buffers@.len(),
                self.state_manager == old(self).state_manager,
                self.auth == old(self).auth,
                self.config == old(self).config,
                self.pending_handshakes == old(self).pending_handshakes,
                before == old(self)@,
                before.wf(),
                sessions == before.sessions,
                forall|j: int|
                    0 <= j < n ==> #[trigger] buffer_views(self.jitter_buffers@)[j] == if j < k {
                        ticked(before.buffers[j])
                    } else {
                        before.buffers[j]
                    },
                r@.sends == tick_sends(before.buffers.subrange(0, k as int), sessions),
                r@.events == tick_events(before.buffers.subrange(0, k as int), sessions),
            decreases n - k,
        {
            let ghost row = before.buffers[k as int];
            let ghost done_sends = r@.sends;
            let ghost done_events = r@.events;
            proof {
                assert(buffer_views(self.jitter_buffers@)[k as int] == row);
                assert(row == self.jitter_buffers@[k as int]@);
                assert(row.buffer.wf());
                let head = before.buffers.subrange(0, k + 1);
                assert(head.drop_last() =~= before.buffers.subrange(0, k as int));
                assert(head.last() == row);
            }
            let ghost views_before = buffer_views(self.jitter_buffers@);
            let popped = self.jitter_buffers[k].buffer.pop_next();
            proof {
                let views_after = buffer_views(self.jitter_buffers@);
                assert forall|j: int| 0 <= j < n implies #[trigger] views_after[j] == if j < k + 1 {
                    ticked(before.buffers[j])
                } else {
                    before.buffers[j]
                } by {
                    if j != k {
                        assert(views_after[j] == views_before[j]);
                    }
                }
            }
            if let Some(entry) = popped {
                let ghost e = entry@;
                let frame = VoicePacket {
                    packet_type: VoicePacket::VOICE_PACKET_TYPE,
                    sequence_number: entry.sequence_number,
                    timestamp: entry.timestamp,
                    payload: entry.payload,
                };
                let bytes = frame.to_bytes();
                let targets = self.state_manager.get_broadcast_targets(
                    self.jitter_buffers[k].user_id.as_str(),
                    false,
                );
                let ghost to = receivers(sessions, row.user_id);
                proof {
                    assert(pairs_view(targets@) == to);
                    assert(bytes@ == voice_wire(voice_frame_of(e)));
                }
                let mut j: usize = 0;
                while j < targets.len()
                    invariant
                        j <= targets@.len(),
                        pairs_view(targets@) == to,
                        r@.events == done_events,
                        r@.sends == done_sends + Seq::new(j as nat, |x: int| (to[x].1, bytes@)),
                    decreases targets@.len() - j,
                {
                    proof {
                        assert(to[j as int] == (targets@[j as int].0@, targets@[j as int].1));
                    }
                    r.send(targets[j].1, copy_bytes(&bytes));
                    j += 1;
                    proof {
                        assert(r@.sends =~= done_sends + Seq::new(
                            j as nat,
                            |x: int| (to[x].1, bytes@),
                        ));
                    }
                }
                proof {
                    assert(Seq::new(targets@.len(), |x: int| (to[x].1, bytes@)) =~= row_sends(
                        row,
                        sessions,
                    ));
                }
                match self.state_manager.get_user_channel(self.jitter_buffers[k].user_id.as_str()) {
                    Some(channel_id) => {
                        r.report(
                            AudioServerEvent::AudioPacket {
                                from_user_id: self.jitter_buffers[k].user_id.clone(),
                                channel_id,
                                sequence: frame.sequence_number,
                                data: frame.payload,
                            },
                        );
                        proof {
                            assert(r@.events =~= done_events + row_events(row, sessions));
                        }
                    },
                    None => {
                        proof {
                            assert(r@.events =~= done_events + row_events(row, sessions));
                        }
                    },
                }
            } else {
                proof {
                    assert(r@.sends =~= done_sends + row_sends(row, sessions));
                    assert(r@.events =~= done_events + row_events(row, sessions));
                }
            }
            k += 1;
        }
        proof {
            assert(before.buffers.subrange(0, n as int) =~= before.buffers);
            let after = buffer_views(self.jitter_buffers@);
            assert(after =~= tick_step(before).buffers);
            assert forall|a: int, b: int| 0 <= a < b < after.len() implies after[a].user_id
                != after[b].user_id by {
                assert(before.buffers[a].user_id != before.buffers[b].user_id);
            }
            assert forall|a: int| 0 <= a < after.len() implies (#[trigger] after[a]).buffer.wf()
                && has_owner(sessions)(after[a]) by {
                assert(before.buffers[a].buffer.wf());
                assert(has_owner(sessions)(before.buffers[a]));
                crate::jitter::lemma_popped_in_order(before.buffers[a].buffer);
            }
        }
        r
    }
}

/// One frame, once for each target.
pub open spec fn frame_to_each(targets: Seq<(Seq<char>, SocketAddress)>, bytes: Seq<u8>) -> Seq<
    (SocketAddress, Seq<u8>),
> {
    Seq::new(targets.len(), |j: int| (targets[j].1, bytes))
}

impl AudioServer {
    /// The datagram that carries a control frame to an address, or why the
    /// frame cannot be written.
    pub fn send_packet(&self, packet: &AudioPacket, addr: SocketAddress) -> (r: Result<
        Outbound,
        PacketError,
    >)
        ensures
            match r {
                Ok(out) => out.addr == addr && packet_wire(packet@) == Ok::<Seq<u8>, PacketError>(
                    out.data@,
                ),
                Err(e) => packet_wire(packet@) == Err::<Seq<u8>, PacketError>(e),
            },
    {
        match packet.to_bytes() {
            Ok(data) => Ok(Outbound { addr, data }),
            Err(e) => Err(e),
        }
    }

    /// The datagrams that carry a control frame to every other session of a
    /// sender's channel, without the muted ones unless they are asked for;
    /// or why the frame cannot be written. Never one for the sender.
    #[verifier::rlimit(40)]
    pub fn broadcast_to_channel(
        &self,
        packet: &AudioPacket,
        sender_user_id: &str,
        include_muted: bool,
    ) -> (r: Result<Vec<Outbound>, PacketError>)
        requires
            self.wf(),
        ensures
            match r {
                Ok(sends) => packet_wire(packet@) is Ok && crate::server::send_views(sends@)
                    == frame_to_each(
                    self.state_manager.targets(sender_user_id@, include_muted),
                    packet_wire(packet@)->Ok_0,
                ),
                Err(e) => packet_wire(packet@) == Err::<Seq<u8>, PacketError>(e),
            },
    {
        let targets = self.state_manager.get_broadcast_targets(sender_user_id, include_muted);
        let bytes = match packet.to_bytes() {
            Ok(bytes) => bytes,
            Err(e) => {
                return Err(e);
            },
        };
        let ghost to = pairs_view(targets@);
        let mut sends: Vec<Outbound> = Vec::new();
        let mut j: usize = 0;
        while j < targets.len()
            invariant
                j <= targets@.len(),
                to == pairs_view(targets@),
                sends@.len() == j,
                forall|x: int|
                    0 <= x < j ==> (#[trigger] sends@[x]).addr == to[x].1 && sends@[x].data@
                        == bytes@,
            decreases targets@.len() - j,
        {
            proof {
                assert(to[j as int] == (targets@[j as int].0@, targets@[j as int].1));
            }
            sends.push(Outbound { addr: targets[j].1, data: copy_bytes(&bytes) });
            j += 1;
        }
        proof {
            assert(crate::server::send_views(sends@) =~= frame_to_each(to, bytes@));
        }
        Ok(sends)
    }
}

} // verus!
