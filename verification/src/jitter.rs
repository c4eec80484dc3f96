//! The per-sender jitter buffer: frames wait here, ordered by sequence
//! number, until they can be played strictly in order.
//!
//! Instants are milliseconds on a clock that the caller reads.

use std::collections::VecDeque;
use vstd::prelude::*;

verus! {

/// One buffered frame.
#[derive(Debug, Clone)]
pub struct JitterBufferEntry {
    /// Sequence number given by the sender.
    pub sequence_number: u32,
    /// Media timestamp in milliseconds.
    pub timestamp: u64,
    /// Compressed voice.
    pub payload: Vec<u8>,
    /// Instant of arrival, in milliseconds.
    pub received_at: u64,
}

/// A buffered frame as a mathematical value.
pub ghost struct EntryView {
    pub sequence_number: u32,
    pub timestamp: u64,
    pub payload: Seq<u8>,
    pub received_at: u64,
}

impl View for JitterBufferEntry {
    type V = EntryView;

    open spec fn view(&self) -> EntryView {
        EntryView {
            sequence_number: self.sequence_number,
            timestamp: self.timestamp,
            payload: self.payload@,
            received_at: self.received_at,
        }
    }
}

/// The views of entries, one by one.
pub open spec fn entry_views(entries: Seq<JitterBufferEntry>) -> Seq<EntryView> {
    Seq::new(entries.len(), |i: int| entries[i]@)
}

/// Whether the entries stand in strictly ascending order of sequence number.
pub open spec fn ascending(entries: Seq<EntryView>) -> bool {
    forall|i: int, j: int|
        0 <= i < j < entries.len() ==> entries[i].sequence_number < entries[j].sequence_number
}

/// Whether a sequence number occurs among the entries.
pub open spec fn holds_sequence(entries: Seq<EntryView>, sequence: u32) -> bool {
    exists|i: int| 0 <= i < entries.len() && entries[i].sequence_number == sequence
}

/// How many entries have a sequence number below `sequence`: the position at
/// which an entry with that number keeps ascending entries ascending.
pub open spec fn rank(entries: Seq<EntryView>, sequence: u32) -> int
    decreases entries.len(),
{
    if entries.len() == 0 {
        0
    } else {
        rank(entries.drop_last(), sequence) + if entries.last().sequence_number < sequence {
            1int
        } else {
            0int
        }
    }
}

/// Whether an entry has waited longer than `max_age_ms` at the instant `now`.
/// An entry stamped later than `now` has not waited at all.
pub open spec fn is_stale(entry: EntryView, max_age_ms: u64, now: u64) -> bool {
    now - entry.received_at > max_age_ms
}

/// How many entries at the front are stale, up to the first that is not.
pub open spec fn stale_prefix(entries: Seq<EntryView>, max_age_ms: u64, now: u64) -> nat
    decreases entries.len(),
{
    if entries.len() > 0 && is_stale(entries[0], max_age_ms, now) {
        1 + stale_prefix(entries.drop_first(), max_age_ms, now)
    } else {
        0
    }
}

/// In ascending entries, the position that splits the smaller sequence
/// numbers from the larger ones is the rank.
proof fn lemma_rank_of_split(entries: Seq<EntryView>, sequence: u32, k: int)
    requires
        0 <= k <= entries.len(),
        forall|i: int| 0 <= i < k ==> entries[i].sequence_number < sequence,
        forall|i: int| k <= i < entries.len() ==> entries[i].sequence_number > sequence,
    ensures
        rank(entries, sequence) == k,
    decreases entries.len(),
{
    if entries.len() > 0 {
        let front = entries.drop_last();
        if k == entries.len() {
            lemma_rank_of_split(front, sequence, k - 1);
        } else {
            lemma_rank_of_split(front, sequence, k);
        }
    }
}

/// The jitter buffer of one sender.
#[derive(Debug)]
pub struct JitterBuffer {
    /// Waiting entries, in ascending order of sequence number.
    pub entries: VecDeque<JitterBufferEntry>,
    /// Sequence number of the entry played last; 0 before the first.
    pub last_played_sequence: u32,
    /// Number of entries from which the buffer counts as full.
    pub max_size: usize,
    /// Width of the time window in milliseconds.
    pub window_ms: u64,
}

/// A jitter buffer as a mathematical value.
pub ghost struct JitterBufferView {
    pub entries: Seq<EntryView>,
    pub last_played_sequence: u32,
    pub max_size: usize,
    pub window_ms: u64,
}

impl View for JitterBuffer {
    type V = JitterBufferView;

    open spec fn view(&self) -> JitterBufferView {
        JitterBufferView {
            entries: entry_views(self.entries@),
            last_played_sequence: self.last_played_sequence,
            max_size: self.max_size,
            window_ms: self.window_ms,
        }
    }
}

impl JitterBufferView {
    /// The invariant of a buffer: the entries ascend strictly by sequence
    /// number and all lie behind what was played last.
    pub open spec fn wf(self) -> bool {
        &&& ascending(self.entries)
        &&& forall|i: int|
            0 <= i < self.entries.len() ==> self.entries[i].sequence_number
                > self.last_played_sequence
    }

    /// The empty buffer with the given bounds.
    pub open spec fn fresh(max_size: usize, window_ms: u64) -> JitterBufferView {
        JitterBufferView { entries: Seq::empty(), last_played_sequence: 0, max_size, window_ms }
    }

    /// The media timestamp that a newcomer is measured against when the
    /// buffer is full: that of the front entry, or 0 without one.
    pub open spec fn front_timestamp(self) -> u64 {
        if self.entries.len() > 0 {
            self.entries[0].timestamp
        } else {
            0
        }
    }

    /// Whether the buffer takes an entry: its sequence number lies behind
    /// what was played last and is not yet present, and the buffer is either
    /// not full or the entry is no older than the front's timestamp plus the
    /// window.
    pub open spec fn accepts(self, entry: EntryView) -> bool {
        &&& entry.sequence_number > self.last_played_sequence
        &&& !holds_sequence(self.entries, entry.sequence_number)
        &&& !(self.entries.len() >= self.max_size && entry.timestamp < self.front_timestamp()
            + self.window_ms)
    }

    /// The buffer after an entry was offered: taken at the place that its
    /// sequence number gives it, or left out.
    pub open spec fn inserted(self, entry: EntryView) -> JitterBufferView {
        if self.accepts(entry) {
            JitterBufferView {
                entries: self.entries.insert(rank(self.entries, entry.sequence_number), entry),
                ..self
            }
        } else {
            self
        }
    }

    /// Whether the front entry is the one to play next.
    pub open spec fn next_ready(self) -> bool {
        self.entries.len() > 0 && self.entries[0].sequence_number == self.last_played_sequence
            + 1
    }

    /// The entry that is played next, if the front entry is the successor of
    /// what was played last.
    pub open spec fn next_entry(self) -> Option<EntryView> {
        if self.next_ready() {
            Some(self.entries[0])
        } else {
            None
        }
    }

    /// The buffer after the next entry, if any, was played.
    pub open spec fn popped(self) -> JitterBufferView {
        if self.next_ready() {
            JitterBufferView {
                entries: self.entries.drop_first(),
                last_played_sequence: self.entries[0].sequence_number,
                ..self
            }
        } else {
            self
        }
    }

    /// The buffer without the stale entries at its front.
    pub open spec fn cleaned(self, max_age_ms: u64, now: u64) -> JitterBufferView {
        JitterBufferView {
            entries: self.entries.skip(stale_prefix(self.entries, max_age_ms, now) as int),
            ..self
        }
    }
}

/// The view of an optional entry.
pub open spec fn entry_view(entry: Option<JitterBufferEntry>) -> Option<EntryView> {
    match entry {
        Some(e) => Some(e@),
        None => None,
    }
}

impl JitterBuffer {
    /// The buffer's invariant: the entries ascend strictly by sequence number
    /// and all lie behind what was played last.
    pub open spec fn wf(&self) -> bool {
        self@.wf()
    }

    /// An empty buffer that counts as full from `max_size` entries and
    /// measures newcomers against a window of `window_ms` milliseconds.
    pub fn new(max_size: usize, window_ms: u64) -> (r: Self)
        ensures
            r.wf(),
            r@ == JitterBufferView::fresh(max_size, window_ms),
    {
        let r = JitterBuffer {
            entries: VecDeque::with_capacity(max_size),
            last_played_sequence: 0,
            max_size,
            window_ms,
        };
        assert(r@.entries =~= Seq::<EntryView>::empty());
        r
    }

    /// Takes an entry into the buffer at the place that its sequence number
    /// gives it, and says whether it was taken. A rejected entry leaves the
    /// buffer as it was. What was played last is not touched.
    #[verifier::rlimit(40)]
    pub fn insert(&mut self, entry: JitterBufferEntry) -> (accepted: bool)
        requires
            old(self).wf(),
        ensures
            final(self).wf(),
            accepted == old(self)@.accepts(entry@),
            final(self)@ == old(self)@.inserted(entry@),
    {
        let ghost before = self@;
        if entry.sequence_number <= self.last_played_sequence {
            return false;
        }
        let len: usize = self.entries.len();
        if len >= self.max_size {
            let oldest_timestamp: u64 = if len > 0 {
                self.entries[0].timestamp
            } else {
                0
            };
            proof {
                if len > 0 {
                    assert(before.entries[0] == self.entries@[0]@);
                }
            }
            if (entry.timestamp as u128) < oldest_timestamp as u128 + self.window_ms as u128 {
                return false;
            }
        }
        let mut lo: usize = 0;
        let mut hi: usize = len;
        while lo < hi
            invariant
                lo <= hi <= len,
                len == self.entries@.len(),
                *self == *old(self),
                before == self@,
                before.wf(),
                forall|i: int|
                    0 <= i < lo ==> (#[trigger] before.entries[i]).sequence_number
                        < entry.sequence_number,
                forall|i: int|
                    hi <= i < len ==> (#[trigger] before.entries[i]).sequence_number
                        > entry.sequence_number,
            decreases hi - lo,
        {
            let mid: usize = lo + (hi - lo) / 2;
            let at_mid: u32 = self.entries[mid].sequence_number;
            proof {
                assert(before.entries[mid as int] == self.entries@[mid as int]@);
            }
            if at_mid == entry.sequence_number {
                assert(holds_sequence(before.entries, entry.sequence_number));
                return false;
            } else if at_mid < entry.sequence_number {
                proof {
                    assert forall|i: int| 0 <= i < mid + 1 implies (
                    #[trigger] before.entries[i]).sequence_number < entry.sequence_number by {
                        if i < mid {
                            assert(before.entries[i].sequence_number
                                < before.entries[mid as int].sequence_number);
                        }
                    }
                }
                lo = mid + 1;
            } else {
                proof {
                    assert forall|i: int| mid <= i < len implies (
                    #[trigger] before.entries[i]).sequence_number > entry.sequence_number by {
                        if i > mid {
                            assert(before.entries[mid as int].sequence_number
                                < before.entries[i].sequence_number);
                        }
                    }
                }
                hi = mid;
            }
        }
        proof {
            lemma_rank_of_split(before.entries, entry.sequence_number, lo as int);
            assert(!holds_sequence(before.entries, entry.sequence_number));
        }
        self.entries.insert(lo, entry);
        proof {
            let after = before.entries.insert(lo as int, entry@);
            assert(self@.entries =~= after);
            assert forall|i: int, j: int| 0 <= i < j < after.len() implies after[i].sequence_number
                < after[j].sequence_number by {
                let i0 = if i < lo {
                    i
                } else {
                    i - 1
                };
                let j0 = if j < lo {
                    j
                } else {
                    j - 1
                };
                if i != lo && j != lo {
                    assert(before.entries[i0].sequence_number < before.entries[j0].sequence_number);
                } else if i == lo {
                    assert(before.entries[j0].sequence_number > entry.sequence_number);
                } else {
                    assert(before.entries[i0].sequence_number < entry.sequence_number);
                }
            }
            assert forall|i: int| 0 <= i < after.len() implies after[i].sequence_number
                > before.last_played_sequence by {
                if i != lo {
                    let i0 = if i < lo {
                        i
                    } else {
                        i - 1
                    };
                    assert(before.entries[i0].sequence_number > before.last_played_sequence);
                }
            }
        }
        true
    }

    /// Hands out the front entry if it is the successor of what was played
    /// last, and then counts it as played. Otherwise nothing changes. What
    /// was played last never decreases.
    #[verifier::rlimit(40)]
    pub fn pop_next(&mut self) -> (r: Option<JitterBufferEntry>)
        requires
            old(self).wf(),
        ensures
            final(self).wf(),
            entry_view(r) == old(self)@.next_entry(),
            final(self)@ == old(self)@.popped(),
            final(self)@.last_played_sequence >= old(self)@.last_played_sequence,
    {
        let ghost before = self@;
        if self.entries.len() == 0 {
            return None;
        }
        proof {
            assert(before.entries[0] == self.entries@[0]@);
        }
        if self.last_played_sequence == u32::MAX {
            return None;
        }
        if self.entries[0].sequence_number != self.last_played_sequence + 1 {
            return None;
        }
        let popped = self.entries.pop_front();
        match popped {
            Some(entry) => {
                self.last_played_sequence = entry.sequence_number;
                proof {
                    assert(self@.entries =~= before.entries.drop_first());
                    assert forall|i: int, j: int|
                        0 <= i < j < self@.entries.len() implies self@.entries[i].sequence_number
                        < self@.entries[j].sequence_number by {
                        assert(before.entries[i + 1].sequence_number < before.entries[j
                            + 1].sequence_number);
                    }
                    assert forall|i: int| 0 <= i < self@.entries.len() implies
                        self@.entries[i].sequence_number
                        > self@.last_played_sequence by {
                        assert(before.entries[0].sequence_number < before.entries[i
                            + 1].sequence_number);
                    }
                }
                Some(entry)
            },
            None => None,
        }
    }

    /// Drops, from the front, the entries that have waited longer than
    /// `max_age_ms` at the instant `now`, and stops at the first that has
    /// not. What was played last is not touched.
    #[verifier::rlimit(40)]
    pub fn cleanup(&mut self, max_age_ms: u64, now: u64)
        requires
            old(self).wf(),
        ensures
            final(self).wf(),
            final(self)@ == old(self)@.cleaned(max_age_ms, now),
    {
        let ghost start = self@;
        let ghost mut dropped: nat = 0;
        proof {
            assert(self@.entries =~= start.entries.skip(0));
        }
        while self.entries.len() > 0 && self.entries[0].received_at < now && now
            - self.entries[0].received_at > max_age_ms
            invariant
                self.wf(),
                dropped <= start.entries.len(),
                self@.entries == start.entries.skip(dropped as int),
                stale_prefix(start.entries, max_age_ms, now) == dropped + stale_prefix(
                    self@.entries,
                    max_age_ms,
                    now,
                ),
                self.last_played_sequence == start.last_played_sequence,
                self.max_size == start.max_size,
                self.window_ms == start.window_ms,
            decreases self@.entries.len(),
        {
            let ghost before = self@;
            proof {
                assert(before.entries[0] == self.entries@[0]@);
            }
            self.entries.pop_front();
            proof {
                assert(self@.entries =~= before.entries.drop_first());
                assert(self@.entries =~= start.entries.skip(dropped as int + 1));
                assert forall|i: int, j: int|
                    0 <= i < j < self@.entries.len() implies self@.entries[i].sequence_number
                    < self@.entries[j].sequence_number by {
                    assert(before.entries[i + 1].sequence_number < before.entries[j
                        + 1].sequence_number);
                }
                assert forall|i: int| 0 <= i < self@.entries.len() implies self@.entries[i].sequence_number
                    > self@.last_played_sequence by {
                    assert(before.entries[i + 1].sequence_number > before.last_played_sequence);
                }
                dropped = dropped + 1;
            }
        }
        proof {
            if self.entries@.len() > 0 {
                assert(self@.entries[0] == self.entries@[0]@);
            }
        }
    }

    /// Whether no entry waits.
    pub fn is_empty(&self) -> (r: bool)
        ensures
            r == (self@.entries.len() == 0),
    {
        self.entries.len() == 0
    }

    /// Number of waiting entries.
    pub fn len(&self) -> (r: usize)
        ensures
            r == self@.entries.len(),
    {
        self.entries.len()
    }
}

/// A buffer that holds as many entries as it is bounded to, or more, rejects
/// a newcomer whose media timestamp lies before the front's timestamp plus
/// the window.
pub proof fn lemma_full_rejects_old(buffer: JitterBufferView, entry: EntryView)
    requires
        buffer.entries.len() >= buffer.max_size,
        entry.timestamp < buffer.front_timestamp() + buffer.window_ms,
    ensures
        !buffer.accepts(entry),
        buffer.inserted(entry) == buffer,
{
}

/// Sequence number 0 is never taken: whatever the buffer holds, it lies
/// behind nothing that was played. In particular it is stale after
/// sequence number 4294967295 within one buffer.
pub proof fn lemma_zero_is_stale(buffer: JitterBufferView, entry: EntryView)
    requires
        entry.sequence_number == 0,
    ensures
        !buffer.accepts(entry),
        buffer.inserted(entry) == buffer,
{
}

/// Once the largest sequence number was played, no entry is taken any more
/// and nothing is handed out: within one buffer the order of sequence
/// numbers does not wrap.
pub proof fn lemma_no_wrap(buffer: JitterBufferView, entry: EntryView)
    requires
        buffer.wf(),
        buffer.last_played_sequence == u32::MAX,
    ensures
        !buffer.accepts(entry),
        !buffer.next_ready(),
{
}

/// Whatever is done to a buffer, what was played last does not decrease,
/// and an entry that is handed out has a sequence number above all that
/// were handed out before.
pub proof fn lemma_last_played_only_rises(
    buffer: JitterBufferView,
    entry: EntryView,
    max_age_ms: u64,
    now: u64,
)
    requires
        buffer.wf(),
    ensures
        buffer.inserted(entry).last_played_sequence == buffer.last_played_sequence,
        buffer.cleaned(max_age_ms, now).last_played_sequence == buffer.last_played_sequence,
        buffer.popped().last_played_sequence >= buffer.last_played_sequence,
        buffer.next_entry() is Some ==> buffer.next_entry()->0.sequence_number
            > buffer.last_played_sequence && buffer.popped().last_played_sequence
            == buffer.next_entry()->0.sequence_number,
{
}

/// A buffer that is in order stays in order when its next entry is played.
pub proof fn lemma_popped_in_order(buffer: JitterBufferView)
    requires
        buffer.wf(),
    ensures
        buffer.popped().wf(),
{
    let after = buffer.popped();
    if buffer.next_ready() {
        assert forall|i: int, j: int| 0 <= i < j < after.entries.len() implies
            after.entries[i].sequence_number
            < after.entries[j].sequence_number by {
            assert(buffer.entries[i + 1].sequence_number < buffer.entries[j + 1].sequence_number);
        }
        assert forall|i: int| 0 <= i < after.entries.len() implies after.entries[i].sequence_number
            > after.last_played_sequence by {
            assert(buffer.entries[0].sequence_number < buffer.entries[i + 1].sequence_number);
        }
    }
}

/// A buffer that is in order stays in order when the stale entries at its
/// front are dropped.
pub proof fn lemma_cleaned_in_order(buffer: JitterBufferView, max_age_ms: u64, now: u64)
    requires
        buffer.wf(),
    ensures
        buffer.cleaned(max_age_ms, now).wf(),
{
    let after = buffer.cleaned(max_age_ms, now);
    let d = stale_prefix(buffer.entries, max_age_ms, now) as int;
    lemma_stale_prefix_bound(buffer.entries, max_age_ms, now);
    assert forall|i: int, j: int| 0 <= i < j < after.entries.len() implies after.entries[i].sequence_number
        < after.entries[j].sequence_number by {
        assert(buffer.entries[i + d].sequence_number < buffer.entries[j + d].sequence_number);
    }
    assert forall|i: int| 0 <= i < after.entries.len() implies after.entries[i].sequence_number
        > after.last_played_sequence by {
        assert(buffer.entries[i + d].sequence_number > buffer.last_played_sequence);
    }
}

/// No more entries are stale at the front than there are entries.
pub proof fn lemma_stale_prefix_bound(entries: Seq<EntryView>, max_age_ms: u64, now: u64)
    ensures
        stale_prefix(entries, max_age_ms, now) <= entries.len(),
    decreases entries.len(),
{
    if entries.len() > 0 && is_stale(entries[0], max_age_ms, now) {
        lemma_stale_prefix_bound(entries.drop_first(), max_age_ms, now);
    }
}

/// In ascending entries, the entries before the rank of a sequence number
/// lie below it and the entries from the rank on do not.
pub proof fn lemma_rank_splits(entries: Seq<EntryView>, sequence: u32)
    requires
        ascending(entries),
    ensures
        0 <= rank(entries, sequence) <= entries.len(),
        forall|i: int|
            0 <= i < rank(entries, sequence) ==> (#[trigger] entries[i]).sequence_number
                < sequence,
        forall|i: int|
            rank(entries, sequence) <= i < entries.len() ==> (#[trigger] entries[i]).sequence_number
                >= sequence,
    decreases entries.len(),
{
    if entries.len() > 0 {
        let front = entries.drop_last();
        assert forall|i: int, j: int| 0 <= i < j < front.len() implies front[i].sequence_number
            < front[j].sequence_number by {
            assert(entries[i].sequence_number < entries[j].sequence_number);
        }
        lemma_rank_splits(front, sequence);
        let k = rank(front, sequence);
        if entries.last().sequence_number < sequence {
            assert forall|i: int| 0 <= i < front.len() implies (#[trigger] front[i]).sequence_number
                < sequence by {
                assert(entries[i].sequence_number < entries[entries.len() - 1].sequence_number);
            }
            if k < front.len() {
                assert(front[k].sequence_number >= sequence);
            }
            assert forall|i: int| 0 <= i < rank(entries, sequence) implies (
            #[trigger] entries[i]).sequence_number < sequence by {
                if i < front.len() {
                    assert(front[i] == entries[i]);
                }
            }
        } else {
            assert forall|i: int| 0 <= i < rank(entries, sequence) implies (
            #[trigger] entries[i]).sequence_number < sequence by {
                assert(front[i] == entries[i]);
            }
            assert forall|i: int| rank(entries, sequence) <= i < entries.len() implies (
            #[trigger] entries[i]).sequence_number >= sequence by {
                if i < front.len() {
                    assert(front[i] == entries[i]);
                }
            }
        }
    }
}

/// A buffer that is in order stays in order when an entry is offered to it.
pub proof fn lemma_inserted_in_order(buffer: JitterBufferView, entry: EntryView)
    requires
        buffer.wf(),
    ensures
        buffer.inserted(entry).wf(),
{
    if buffer.accepts(entry) {
        let k = rank(buffer.entries, entry.sequence_number);
        lemma_rank_splits(buffer.entries, entry.sequence_number);
        let after = buffer.entries.insert(k, entry);
        assert forall|i: int| k <= i < buffer.entries.len() implies (
        #[trigger] buffer.entries[i]).sequence_number > entry.sequence_number by {
            if buffer.entries[i].sequence_number == entry.sequence_number {
                assert(holds_sequence(buffer.entries, entry.sequence_number));
            }
        }
        assert forall|i: int, j: int| 0 <= i < j < after.len() implies after[i].sequence_number
            < after[j].sequence_number by {
            let i0 = if i < k {
                i
            } else {
                i - 1
            };
            let j0 = if j < k {
                j
            } else {
                j - 1
            };
            if i != k && j != k {
                assert(buffer.entries[i0].sequence_number < buffer.entries[j0].sequence_number);
            } else if i == k {
                assert(buffer.entries[j0].sequence_number > entry.sequence_number);
            } else {
                assert(buffer.entries[i0].sequence_number < entry.sequence_number);
            }
        }
        assert forall|i: int| 0 <= i < after.len() implies after[i].sequence_number
            > buffer.last_played_sequence by {
            if i != k {
                let i0 = if i < k {
                    i
                } else {
                    i - 1
                };
                assert(buffer.entries[i0].sequence_number > buffer.last_played_sequence);
            }
        }
    }
}

} // verus!
