//! The relay core: what the server decides when a datagram arrives, when the
//! fan-out timer ticks and when housekeeping runs.
//!
//! The core owns the session table, the pending handshakes and the jitter
//! buffers. It reads no clock and touches no socket: the caller hands in the
//! datagram, its source and the instant, and gets back what to send and what
//! to report.
//!
//! Instants and durations are milliseconds on a clock that the caller reads;
//! the stamp of an outgoing control frame is given in seconds.

use crate::auth::AudioAuth;
use crate::channels::AppState;
use crate::jitter::JitterBuffer;
use crate::jitter::JitterBufferView;
use crate::state::user_views;
use crate::state::with_id;
use crate::state::AudioStateManager;
use crate::state::AudioStats;
use crate::state::AudioUserState;
use crate::state::AudioUserStateView;
use crate::state::SocketAddress;
use crate::table::first_where;
use crate::table::lemma_filter_next;
use crate::table::lemma_filter_none;
use crate::table::lemma_filter_one;
use crate::table::lemma_filter_pairs;
use crate::table::lemma_first_where_at;
use crate::table::lemma_first_where_none;
use crate::text::text_eq;
use vstd::prelude::*;

verus! {

/// The tunables of the server, all given at startup.
#[derive(Debug)]
pub struct AudioServerConfig {
    /// Address to bind the socket to.
    pub bind_addr: String,
    /// Largest datagram taken.
    pub max_packet_size: usize,
    /// Size of the socket's receive and send buffers.
    pub buffer_size: usize,
    /// Time between two runs of housekeeping.
    pub cleanup_interval: u64,
    /// Idle time after which a session expires.
    pub user_timeout: u64,
    /// Time between two heartbeats of a client.
    pub heartbeat_interval: u64,
    /// Time within which a handshake must complete.
    pub handshake_timeout: u64,
    /// Number of entries from which a jitter buffer counts as full.
    pub jitter_buffer_size: usize,
    /// Width of a jitter buffer's time window.
    pub jitter_buffer_window_ms: u64,
    /// Time between two ticks of fan-out.
    pub frame_interval_ms: u64,
    /// Secret shared with the issuer of the credentials.
    pub jwt_secret: String,
}

impl Default for AudioServerConfig {
    fn default() -> (r: Self)
        ensures
            r.bind_addr@ == "0.0.0.0:8080"@,
            r.max_packet_size == 1024,
            r.buffer_size == 8192,
            r.cleanup_interval == 60_000,
            r.user_timeout == 300_000,
            r.heartbeat_interval == 30_000,
            r.handshake_timeout == 5_000,
            r.jitter_buffer_size == 20,
            r.jitter_buffer_window_ms == 400,
            r.frame_interval_ms == 20,
            r.jwt_secret@ == "your-secret-key"@,
    {
        AudioServerConfig {
            bind_addr: "0.0.0.0:8080".to_string(),
            max_packet_size: 1024,
            buffer_size: 8192,
            cleanup_interval: 60_000,
            user_timeout: 300_000,
            heartbeat_interval: 30_000,
            handshake_timeout: 5_000,
            jitter_buffer_size: 20,
            jitter_buffer_window_ms: 400,
            frame_interval_ms: 20,
            jwt_secret: "your-secret-key".to_string(),
        }
    }
}

/// A handshake that completed a short while ago: further handshakes from
/// its address are taken for retries until the deadline has passed.
#[derive(Debug)]
pub struct PendingHandshake {
    /// Where the handshake came from.
    pub socket_addr: SocketAddress,
    /// The principal of the credential.
    pub user_id: String,
    /// The channel asked for.
    pub channel_id: String,
    /// Instant at which the handshake began.
    pub started_at: u64,
}

/// A pending handshake as a mathematical value.
pub ghost struct PendingView {
    pub socket_addr: SocketAddress,
    pub user_id: Seq<char>,
    pub channel_id: Seq<char>,
    pub started_at: u64,
}

impl View for PendingHandshake {
    type V = PendingView;

    open spec fn view(&self) -> PendingView {
        PendingView {
            socket_addr: self.socket_addr,
            user_id: self.user_id@,
            channel_id: self.channel_id@,
            started_at: self.started_at,
        }
    }
}

/// The views of pending handshakes, row by row.
pub open spec fn pending_views(pending: Seq<PendingHandshake>) -> Seq<PendingView> {
    Seq::new(pending.len(), |i: int| pending[i]@)
}

/// The predicate that picks the pending handshake of an address.
pub open spec fn from_addr(addr: SocketAddress) -> spec_fn(PendingView) -> bool {
    |p: PendingView| p.socket_addr == addr
}

/// Whether a pending handshake is past the deadline at the instant `now`.
pub open spec fn overdue(p: PendingView, deadline: u64, now: u64) -> bool {
    now - p.started_at > deadline
}

/// The predicate that picks the pending handshakes within the deadline.
pub open spec fn within_deadline(deadline: u64, now: u64) -> spec_fn(PendingView) -> bool {
    |p: PendingView| !overdue(p, deadline, now)
}

/// Whether no address has two pending handshakes.
pub open spec fn distinct_pending(pending: Seq<PendingView>) -> bool {
    forall|i: int, j: int|
        0 <= i < j < pending.len() ==> pending[i].socket_addr != pending[j].socket_addr
}

/// Keeping some pending handshakes of a table leaves a table.
pub proof fn lemma_kept_pending_distinct(pending: Seq<PendingView>, keep: spec_fn(PendingView) -> bool)
    requires
        distinct_pending(pending),
    ensures
        distinct_pending(pending.filter(keep)),
{
    let kept = pending.filter(keep);
    assert forall|a: int, b: int| 0 <= a < b < kept.len() implies kept[a].socket_addr
        != kept[b].socket_addr by {
        lemma_filter_pairs(pending, keep, a, b);
        let (x, y) = choose|x: int, y: int|
            0 <= x < y < pending.len() && pending[x] == kept[a] && pending[y] == kept[b] && keep(
                pending[x],
            ) && keep(pending[y]);
        assert(pending[x].socket_addr != pending[y].socket_addr);
    }
}

/// Finds the pending handshake of an address.
pub fn find_pending(pending: &Vec<PendingHandshake>, addr: &SocketAddress) -> (r: Option<usize>)
    ensures
        match r {
            Some(i) => first_where(pending_views(pending@), from_addr(*addr)) == Some(i as int)
                && i < pending@.len(),
            None => first_where(pending_views(pending@), from_addr(*addr)) is None,
        },
{
    let ghost views = pending_views(pending@);
    let mut i: usize = 0;
    while i < pending.len()
        invariant
            i <= pending@.len(),
            views == pending_views(pending@),
            forall|j: int| 0 <= j < i ==> !from_addr(*addr)(#[trigger] views[j]),
        decreases pending@.len() - i,
    {
        proof {
            assert(views[i as int] == pending@[i as int]@);
        }
        if pending[i].socket_addr.ip == addr.ip && pending[i].socket_addr.port == addr.port {
            proof {
                lemma_first_where_at(views, from_addr(*addr), i as int);
            }
            return Some(i);
        }
        i += 1;
    }
    proof {
        lemma_first_where_none(views, from_addr(*addr));
    }
    None
}

/// Drops the pending handshakes that are past the deadline at the instant
/// `now`; the others stay, in their order.
#[verifier::rlimit(40)]
pub fn reap_pending(pending: &mut Vec<PendingHandshake>, deadline: u64, now: u64)
    requires
        distinct_pending(pending_views(old(pending)@)),
    ensures
        distinct_pending(pending_views(final(pending)@)),
        pending_views(final(pending)@) == pending_views(old(pending)@).filter(
            within_deadline(deadline, now),
        ),
{
    let ghost before = pending_views(pending@);
    let ghost keep = within_deadline(deadline, now);
    let ghost mut seen: int = 0;
    let mut i: usize = 0;
    proof {
        lemma_filter_none(before, keep);
        assert(pending_views(pending@) =~= before.subrange(0, 0).filter(keep) + before.subrange(
            0,
            before.len() as int,
        ));
    }
    while i < pending.len()
        invariant
            0 <= seen <= before.len(),
            i == before.subrange(0, seen).filter(keep).len(),
            pending_views(pending@) == before.subrange(0, seen).filter(keep) + before.subrange(
                seen,
                before.len() as int,
            ),
            keep == within_deadline(deadline, now),
        decreases before.len() - seen,
    {
        let ghost current = pending_views(pending@);
        proof {
            assert(current[i as int] == pending@[i as int]@);
            assert(current[i as int] == before[seen]);
            lemma_filter_next(before, keep, seen);
        }
        if now > pending[i].started_at && now - pending[i].started_at > deadline {
            pending.remove(i);
            proof {
                assert(pending_views(pending@) =~= current.remove(i as int));
                assert(pending_views(pending@) =~= before.subrange(0, seen + 1).filter(keep)
                    + before.subrange(seen + 1, before.len() as int));
            }
        } else {
            proof {
                assert(pending_views(pending@) =~= before.subrange(0, seen + 1).filter(keep)
                    + before.subrange(seen + 1, before.len() as int));
            }
            i += 1;
        }
        proof {
            seen = seen + 1;
        }
    }
    proof {
        assert(before.subrange(0, seen) =~= before);
        assert(pending_views(pending@) =~= before.filter(keep));
        lemma_kept_pending_distinct(before, keep);
    }
}

/// The jitter buffer of one sender, with the sender's principal id.
#[derive(Debug)]
pub struct SenderBuffer {
    /// The principal who owns the buffer.
    pub user_id: String,
    /// The buffer.
    pub buffer: JitterBuffer,
}

/// A sender's buffer as a mathematical value.
pub ghost struct SenderBufferView {
    pub user_id: Seq<char>,
    pub buffer: JitterBufferView,
}

impl View for SenderBuffer {
    type V = SenderBufferView;

    open spec fn view(&self) -> SenderBufferView {
        SenderBufferView { user_id: self.user_id@, buffer: self.buffer@ }
    }
}

/// The views of senders' buffers, row by row.
pub open spec fn buffer_views(buffers: Seq<SenderBuffer>) -> Seq<SenderBufferView> {
    Seq::new(buffers.len(), |i: int| buffers[i]@)
}

/// The predicate that picks the buffer of a sender.
pub open spec fn of_sender(user_id: Seq<char>) -> spec_fn(SenderBufferView) -> bool {
    |b: SenderBufferView| b.user_id == user_id
}

/// The predicate that picks the buffers whose owner has a session.
pub open spec fn has_owner(sessions: Seq<AudioUserStateView>) -> spec_fn(SenderBufferView)
    -> bool {
    |b: SenderBufferView| first_where(sessions, with_id(b.user_id)) is Some
}

/// The invariant of the buffer table: no sender has two buffers, and every
/// buffer is in order.
pub open spec fn buffers_in_order(buffers: Seq<SenderBufferView>) -> bool {
    &&& forall|i: int, j: int|
        0 <= i < j < buffers.len() ==> buffers[i].user_id != buffers[j].user_id
    &&& forall|i: int| 0 <= i < buffers.len() ==> (#[trigger] buffers[i]).buffer.wf()
}

/// Whether every buffer's owner has a session.
pub open spec fn all_owned(buffers: Seq<SenderBufferView>, sessions: Seq<AudioUserStateView>)
    -> bool {
    forall|i: int| 0 <= i < buffers.len() ==> has_owner(sessions)(#[trigger] buffers[i])
}

/// Keeping some buffers of a table leaves a table, and the kept buffers are
/// the picked ones.
pub proof fn lemma_kept_buffers_in_order(
    buffers: Seq<SenderBufferView>,
    keep: spec_fn(SenderBufferView) -> bool,
)
    requires
        buffers_in_order(buffers),
    ensures
        buffers_in_order(buffers.filter(keep)),
        forall|i: int| 0 <= i < buffers.filter(keep).len() ==> keep(#[trigger] buffers.filter(keep)[i]),
        forall|i: int|
            0 <= i < buffers.filter(keep).len() ==> buffers.contains(
                #[trigger] buffers.filter(keep)[i],
            ),
{
    let kept = buffers.filter(keep);
    assert forall|a: int, b: int| 0 <= a < b < kept.len() implies kept[a].user_id
        != kept[b].user_id by {
        lemma_filter_pairs(buffers, keep, a, b);
        let (x, y) = choose|x: int, y: int|
            0 <= x < y < buffers.len() && buffers[x] == kept[a] && buffers[y] == kept[b] && keep(
                buffers[x],
            ) && keep(buffers[y]);
        assert(buffers[x].user_id != buffers[y].user_id);
    }
    assert forall|a: int| 0 <= a < kept.len() implies (#[trigger] kept[a]).buffer.wf() && keep(
        kept[a],
    ) && buffers.contains(kept[a]) by {
        lemma_filter_one(buffers, keep, a);
        let x = choose|x: int| 0 <= x < buffers.len() && buffers[x] == kept[a] && keep(buffers[x]);
        assert(buffers[x].buffer.wf());
    }
}

/// Finds the buffer of a sender.
pub fn find_buffer(buffers: &Vec<SenderBuffer>, user_id: &str) -> (r: Option<usize>)
    ensures
        match r {
            Some(i) => first_where(buffer_views(buffers@), of_sender(user_id@)) == Some(i as int)
                && i < buffers@.len(),
            None => first_where(buffer_views(buffers@), of_sender(user_id@)) is None,
        },
{
    let ghost views = buffer_views(buffers@);
    let mut i: usize = 0;
    while i < buffers.len()
        invariant
            i <= buffers@.len(),
            views == buffer_views(buffers@),
            forall|j: int| 0 <= j < i ==> !of_sender(user_id@)(#[trigger] views[j]),
        decreases buffers@.len() - i,
    {
        proof {
            assert(views[i as int] == buffers@[i as int]@);
        }
        if text_eq(buffers[i].user_id.as_str(), user_id) {
            proof {
                lemma_first_where_at(views, of_sender(user_id@), i as int);
            }
            return Some(i);
        }
        i += 1;
    }
    proof {
        lemma_first_where_none(views, of_sender(user_id@));
    }
    None
}

/// Drops the buffers whose owner has no session in `users`; the others
/// stay, in their order.
#[verifier::rlimit(40)]
pub fn drop_orphan_buffers(buffers: &mut Vec<SenderBuffer>, users: &Vec<AudioUserState>)
    requires
        buffers_in_order(buffer_views(old(buffers)@)),
    ensures
        buffers_in_order(buffer_views(final(buffers)@)),
        all_owned(buffer_views(final(buffers)@), user_views(users@)),
        buffer_views(final(buffers)@) == buffer_views(old(buffers)@).filter(
            has_owner(user_views(users@)),
        ),
{
    let ghost before = buffer_views(buffers@);
    let ghost keep = has_owner(user_views(users@));
    let ghost mut seen: int = 0;
    let mut i: usize = 0;
    proof {
        lemma_filter_none(before, keep);
        assert(buffer_views(buffers@) =~= before.subrange(0, 0).filter(keep) + before.subrange(
            0,
            before.len() as int,
        ));
    }
    while i < buffers.len()
        invariant
            0 <= seen <= before.len(),
            i == before.subrange(0, seen).filter(keep).len(),
            buffer_views(buffers@) == before.subrange(0, seen).filter(keep) + before.subrange(
                seen,
                before.len() as int,
            ),
            keep == has_owner(user_views(users@)),
        decreases before.len() - seen,
    {
        let ghost current = buffer_views(buffers@);
        proof {
            assert(current[i as int] == buffers@[i as int]@);
            assert(current[i as int] == before[seen]);
            lemma_filter_next(before, keep, seen);
        }
        let owned = crate::state::find_user(users, buffers[i].user_id.as_str()).is_some();
        if !owned {
            buffers.remove(i);
            proof {
                assert(buffer_views(buffers@) =~= current.remove(i as int));
                assert(buffer_views(buffers@) =~= before.subrange(0, seen + 1).filter(keep)
                    + before.subrange(seen + 1, before.len() as int));
            }
        } else {
            proof {
                assert(buffer_views(buffers@) =~= before.subrange(0, seen + 1).filter(keep)
                    + before.subrange(seen + 1, before.len() as int));
            }
            i += 1;
        }
        proof {
            seen = seen + 1;
        }
    }
    proof {
        assert(before.subrange(0, seen) =~= before);
        assert(buffer_views(buffers@) =~= before.filter(keep));
        lemma_kept_buffers_in_order(before, keep);
    }
}

/// What the server reports to the signalling and observability layers.
#[derive(Debug)]
pub enum AudioServerEvent {
    /// A principal was bound to a channel.
    UserJoined { user_id: String, channel_id: String, socket_addr: SocketAddress },
    /// A principal left its channel.
    UserLeft { user_id: String, channel_id: String, socket_addr: SocketAddress },
    /// A principal set its mute flag.
    UserMuted { user_id: String, channel_id: String, muted: bool },
    /// A frame of a sender was forwarded.
    AudioPacket { from_user_id: String, channel_id: String, sequence: u32, data: Vec<u8> },
    /// A datagram or a handshake was refused.
    Error { socket_addr: SocketAddress, error: String },
}

/// An event as a mathematical value.
pub ghost enum AudioServerEventView {
    UserJoined { user_id: Seq<char>, channel_id: Seq<char>, socket_addr: SocketAddress },
    UserLeft { user_id: Seq<char>, channel_id: Seq<char>, socket_addr: SocketAddress },
    UserMuted { user_id: Seq<char>, channel_id: Seq<char>, muted: bool },
    AudioPacket { from_user_id: Seq<char>, channel_id: Seq<char>, sequence: u32, data: Seq<u8> },
    Error { socket_addr: SocketAddress, error: Seq<char> },
}

impl View for AudioServerEvent {
    type V = AudioServerEventView;

    open spec fn view(&self) -> AudioServerEventView {
        match self {
            AudioServerEvent::UserJoined { user_id, channel_id, socket_addr } => {
                AudioServerEventView::UserJoined {
                    user_id: user_id@,
                    channel_id: channel_id@,
                    socket_addr: *socket_addr,
                }
            },
            AudioServerEvent::UserLeft { user_id, channel_id, socket_addr } => {
                AudioServerEventView::UserLeft {
                    user_id: user_id@,
                    channel_id: channel_id@,
                    socket_addr: *socket_addr,
                }
            },
            AudioServerEvent::UserMuted { user_id, channel_id, muted } => {
                AudioServerEventView::UserMuted {
                    user_id: user_id@,
                    channel_id: channel_id@,
                    muted: *muted,
                }
            },
            AudioServerEvent::AudioPacket { from_user_id, channel_id, sequence, data } => {
                AudioServerEventView::AudioPacket {
                    from_user_id: from_user_id@,
                    channel_id: channel_id@,
                    sequence: *sequence,
                    data: data@,
                }
            },
            AudioServerEvent::Error { socket_addr, error } => {
                AudioServerEventView::Error { socket_addr: *socket_addr, error: error@ }
            },
        }
    }
}

/// The views of events, one by one.
pub open spec fn event_views(events: Seq<AudioServerEvent>) -> Seq<AudioServerEventView> {
    Seq::new(events.len(), |i: int| events[i]@)
}

/// One datagram to send.
#[derive(Debug)]
pub struct Outbound {
    /// Where to send it.
    pub addr: SocketAddress,
    /// The bytes.
    pub data: Vec<u8>,
}

/// The views of datagrams to send, one by one: the target and the bytes.
pub open spec fn send_views(sends: Seq<Outbound>) -> Seq<(SocketAddress, Seq<u8>)> {
    Seq::new(sends.len(), |i: int| (sends[i].addr, sends[i].data@))
}

/// What the caller is to do after the core has decided: send the datagrams,
/// in their order, and then report the events, in theirs.
#[derive(Debug)]
pub struct Reaction {
    /// Datagrams to send.
    pub sends: Vec<Outbound>,
    /// Events to report once the datagrams are sent.
    pub events: Vec<AudioServerEvent>,
}

/// A reaction as a mathematical value.
pub ghost struct ReactionView {
    pub sends: Seq<(SocketAddress, Seq<u8>)>,
    pub events: Seq<AudioServerEventView>,
}

impl View for Reaction {
    type V = ReactionView;

    open spec fn view(&self) -> ReactionView {
        ReactionView { sends: send_views(self.sends@), events: event_views(self.events@) }
    }
}

/// The reaction that sends and reports nothing.
pub open spec fn quiet() -> ReactionView {
    ReactionView { sends: Seq::empty(), events: Seq::empty() }
}

impl Reaction {
    /// Nothing to send, nothing to report.
    pub fn none() -> (r: Self)
        ensures
            r@ == quiet(),
    {
        let r = Reaction { sends: Vec::new(), events: Vec::new() };
        assert(r@.sends =~= Seq::<(SocketAddress, Seq<u8>)>::empty());
        assert(r@.events =~= Seq::<AudioServerEventView>::empty());
        r
    }

    /// Adds a datagram to send.
    pub fn send(&mut self, addr: SocketAddress, data: Vec<u8>)
        ensures
            final(self)@ == (ReactionView { sends: old(self)@.sends.push((addr, data@)), ..old(self)@ }),
    {
        self.sends.push(Outbound { addr, data });
        assert(self@.sends =~= old(self)@.sends.push((addr, data@)));
        assert(self@.events =~= old(self)@.events);
    }

    /// Adds an event to report.
    pub fn report(&mut self, event: AudioServerEvent)
        ensures
            final(self)@ == (ReactionView { events: old(self)@.events.push(event@), ..old(self)@ }),
    {
        self.events.push(event);
        assert(self@.events =~= old(self)@.events.push(event@));
        assert(self@.sends =~= old(self)@.sends);
    }
}

/// What the server knows of the connection at a socket address.
#[derive(Debug)]
pub struct VoiceConnectionState {
    /// Highest sequence number observed from the sender.
    pub last_sequence: u32,
    /// Instant of the last activity.
    pub last_active: u64,
    /// The channel the principal is in.
    pub channel_id: String,
    /// The principal id.
    pub user_id: String,
}

/// The figures of the server.
#[derive(Debug)]
pub struct AudioServerStats {
    /// Number of authenticated sessions.
    pub auth_sessions: usize,
    /// The figures of the session table.
    pub state_stats: AudioStats,
}

/// What the server was set up with, as far as its decisions depend on it.
pub ghost struct Settings {
    pub handshake_timeout: u64,
    pub jitter_size: usize,
    pub jitter_window: u64,
    pub user_timeout: u64,
    pub session_timeout: u64,
    pub rosters: Seq<crate::channels::Channel>,
}

/// The state of the server as a mathematical value.
pub ghost struct ServerView {
    pub sessions: Seq<AudioUserStateView>,
    pub pending: Seq<PendingView>,
    pub buffers: Seq<SenderBufferView>,
    pub credentials: Seq<crate::auth::AudioSessionView>,
    pub settings: Settings,
}

impl ServerView {
    /// The invariant of the server: each table is a table, every jitter
    /// buffer is in order, and every jitter buffer belongs to a principal
    /// with a session.
    pub open spec fn wf(self) -> bool {
        &&& crate::state::distinct_users(self.sessions)
        &&& distinct_pending(self.pending)
        &&& buffers_in_order(self.buffers)
        &&& all_owned(self.buffers, self.sessions)
        &&& crate::auth::distinct_sessions(self.credentials)
    }

    /// Whether a socket address has completed a handshake: a session is
    /// bound to it.
    pub open spec fn established(self, addr: SocketAddress) -> bool {
        first_where(self.sessions, crate::state::at_socket(addr)) is Some
    }
}

/// The relay core.
#[derive(Debug)]
pub struct AudioServer {
    /// The tunables.
    pub config: AudioServerConfig,
    /// Credentials and rosters.
    pub auth: AudioAuth,
    /// The session table.
    pub state_manager: AudioStateManager,
    /// Handshakes of the last few seconds, at most one per address.
    pub pending_handshakes: Vec<PendingHandshake>,
    /// The jitter buffers, at most one per sender.
    pub jitter_buffers: Vec<SenderBuffer>,
}

impl View for AudioServer {
    type V = ServerView;

    open spec fn view(&self) -> ServerView {
        ServerView {
            sessions: self.state_manager.views(),
            pending: pending_views(self.pending_handshakes@),
            buffers: buffer_views(self.jitter_buffers@),
            credentials: self.auth.views(),
            settings: Settings {
                handshake_timeout: self.config.handshake_timeout,
                jitter_size: self.config.jitter_buffer_size,
                jitter_window: self.config.jitter_buffer_window_ms,
                user_timeout: self.state_manager.user_timeout,
                session_timeout: self.auth.session_timeout,
                rosters: self.auth.channel_state.channels@,
            },
        }
    }
}

impl AudioServer {
    /// The invariant of the server.
    pub open spec fn wf(&self) -> bool {
        self@.wf()
    }

    /// A server without sessions, set up with the given tunables and
    /// rosters. The session table takes its timeouts from the tunables.
    pub fn new(config: AudioServerConfig, channel_state: AppState) -> (r: Self)
        ensures
            r.wf(),
            r@.sessions == Seq::<AudioUserStateView>::empty(),
            r@.pending == Seq::<PendingView>::empty(),
            r@.buffers == Seq::<SenderBufferView>::empty(),
            r@.credentials == Seq::<crate::auth::AudioSessionView>::empty(),
            r.config == config,
            r.auth.channel_state == channel_state,
            r.auth.jwt_secret@ == config.jwt_secret@,
            r.state_manager.user_timeout == config.user_timeout,
            r.state_manager.cleanup_interval == config.cleanup_interval,
    {
        let auth = AudioAuth::new(config.jwt_secret.clone(), channel_state);
        let mut state_manager = AudioStateManager::new();
        state_manager.set_user_timeout(config.user_timeout);
        state_manager.set_cleanup_interval(config.cleanup_interval);
        let r = AudioServer {
            config,
            auth,
            state_manager,
            pending_handshakes: Vec::new(),
            jitter_buffers: Vec::new(),
        };
        assert(r@.sessions =~= Seq::<AudioUserStateView>::empty());
        assert(r@.pending =~= Seq::<PendingView>::empty());
        assert(r@.buffers =~= Seq::<SenderBufferView>::empty());
        assert(r@.credentials =~= Seq::<crate::auth::AudioSessionView>::empty());
        r
    }

    /// The figures of the server.
    pub fn get_stats(&self) -> (r: AudioServerStats)
        ensures
            r.auth_sessions == self.auth.sessions@.len(),
            r.state_stats.total_users == self.state_manager.users@.len(),
            r.state_stats.total_channels == crate::state::channel_ids(self@.sessions).len(),
            crate::state::stats_views(r.state_stats.channel_stats@)
                == crate::state::stats_of_channels(self@.sessions),
    {
        AudioServerStats {
            auth_sessions: self.auth.session_count(),
            state_stats: self.state_manager.get_stats(),
        }
    }

    /// What the server knows of the connection at a socket address, if a
    /// session is bound to it.
    pub fn connection(&self, addr: &SocketAddress) -> (r: Option<VoiceConnectionState>)
        ensures
            match first_where(self@.sessions, crate::state::at_socket(*addr)) {
                Some(i) => r matches Some(c) && c.user_id@ == self@.sessions[i].user_id
                    && c.channel_id@ == self@.sessions[i].channel_id && c.last_sequence
                    == self@.sessions[i].sequence_number && c.last_active
                    == self@.sessions[i].last_activity,
                None => r is None,
            },
    {
        match self.state_manager.get_user_by_socket(addr) {
            Some(found) => Some(
                VoiceConnectionState {
                    last_sequence: found.1.sequence_number,
                    last_active: found.1.last_activity,
                    channel_id: found.1.channel_id,
                    user_id: found.1.user_id,
                },
            ),
            None => None,
        }
    }
}

} // verus!
