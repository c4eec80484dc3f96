//! Housekeeping: what the server forgets when the coarse timer ticks.

use crate::auth::not_expired;
use crate::server::all_owned;
use crate::server::buffer_views;
use crate::server::buffers_in_order;
use crate::server::drop_orphan_buffers;
use crate::server::has_owner;
use crate::server::reap_pending;
use crate::server::within_deadline;
use crate::server::AudioServer;
use crate::server::SenderBufferView;
use crate::server::ServerView;
use crate::state::ids_of;
use crate::state::negated;
use crate::state::still_active;
use vstd::prelude::*;

verus! {

/// Age in milliseconds from which a waiting entry of a jitter buffer is
/// dropped by housekeeping.
pub const STALE_ENTRY_MS: u64 = 500;

/// A buffer after housekeeping at the instant `now`: without the stale
/// entries at its front.
pub open spec fn swept(row: SenderBufferView, now: u64) -> SenderBufferView {
    SenderBufferView { user_id: row.user_id, buffer: row.buffer.cleaned(STALE_ENTRY_MS, now) }
}

/// The state after housekeeping at the instant `now`. Sessions that were
/// idle for longer than the session timeout are gone, and with them their
/// channels where they were the last; pending handshakes past the deadline
/// are gone; jitter buffers whose owner has no session are gone, and the
/// others have lost the stale entries at their front; credentials that were
/// idle for longer than their timeout are gone.
pub open spec fn housekeeping_step(s: ServerView, now: u64) -> ServerView {
    let sessions = s.sessions.filter(still_active(s.settings.user_timeout, now));
    let kept = s.buffers.filter(has_owner(sessions));
    ServerView {
        sessions,
        pending: s.pending.filter(within_deadline(s.settings.handshake_timeout, now)),
        buffers: Seq::new(kept.len(), |k: int| swept(kept[k], now)),
        credentials: s.credentials.filter(not_expired(s.settings.session_timeout, now)),
        ..s
    }
}

impl AudioServer {
    /// Runs housekeeping at the instant `now` and hands out the principal
    /// ids of the sessions that expired.
    #[verifier::rlimit(40)]
    pub fn housekeeping(&mut self, now: u64) -> (expired: Vec<String>)
        requires
            old(self).wf(),
        ensures
            final(self).wf(),
            final(self)@ == housekeeping_step(old(self)@, now),
            expired.deep_view() == ids_of(
                old(self)@.sessions.filter(
                    negated(still_active(old(self)@.settings.user_timeout, now)),
                ),
            ),
    {
        let ghost before = self@;
        self.auth.cleanup_expired_sessions(now);
        let expired = self.state_manager.cleanup(now);
        reap_pending(&mut self.pending_handshakes, self.config.handshake_timeout, now);
        drop_orphan_buffers(&mut self.jitter_buffers, &self.state_manager.users);
        let ghost sessions = self@.sessions;
        let ghost kept = buffer_views(self.jitter_buffers@);
        let n: usize = self.jitter_buffers.len();
        let mut k: usize = 0;
        while k < n
            invariant
                k <= n,
                n == kept.len(),
                n == self.jitter_buffers@.len(),
                self@.sessions == sessions,
                self@.pending == before.pending.filter(
                    within_deadline(before.settings.handshake_timeout, now),
                ),
                self@.credentials == before.credentials.filter(
                    not_expired(before.settings.session_timeout, now),
                ),
                self@.settings == before.settings,
                self.auth.wf(),
                self.state_manager.wf(),
                crate::server::distinct_pending(self@.pending),
                buffers_in_order(kept),
                all_owned(kept, sessions),
                forall|j: int|
                    0 <= j < n ==> #[trigger] buffer_views(self.jitter_buffers@)[j] == if j < k {
                        swept(kept[j], now)
                    } else {
                        kept[j]
                    },
            decreases n - k,
        {
            let ghost views_before = buffer_views(self.jitter_buffers@);
            proof {
                assert(views_before[k as int] == kept[k as int]);
                assert(views_before[k as int] == self.jitter_buffers@[k as int]@);
                assert(kept[k as int].buffer.wf());
            }
            self.jitter_buffers[k].buffer.cleanup(STALE_ENTRY_MS, now);
            proof {
                let views_after = buffer_views(self.jitter_buffers@);
                assert forall|j: int| 0 <= j < n implies #[trigger] views_after[j] == if j < k + 1 {
                    swept(kept[j], now)
                } else {
                    kept[j]
                } by {
                    if j != k {
                        assert(views_after[j] == views_before[j]);
                    }
                }
            }
            k += 1;
        }
        proof {
            let after = buffer_views(self.jitter_buffers@);
            assert(after =~= housekeeping_step(before, now).buffers);
            assert forall|a: int, b: int| 0 <= a < b < after.len() implies after[a].user_id
                != after[b].user_id by {
                assert(kept[a].user_id != kept[b].user_id);
            }
            assert forall|a: int| 0 <= a < after.len() implies (#[trigger] after[a]).buffer.wf()
                && has_owner(sessions)(after[a]) by {
                assert(kept[a].buffer.wf());
                assert(has_owner(sessions)(kept[a]));
                crate::jitter::lemma_cleaned_in_order(kept[a].buffer, STALE_ENTRY_MS, now);
            }
        }
        expired
    }
}

} // verus!
