//! Guards in front of the relay: request counting per key within a time
//! window, and the shape that identifiers and tokens must have.
//!
//! Instants and durations are milliseconds on a clock that the caller reads.

use crate::table::first_where;
use crate::table::lemma_first_where;
use crate::table::lemma_first_where_at;
use crate::table::lemma_first_where_none;
use crate::text::text_eq;
use vstd::prelude::*;
use vstd::string::StringSliceAdditionalSpecFns;

verus! {

/// The count of one key within its current window.
#[derive(Debug)]
pub struct Counter {
    /// What is counted: an address or a principal id.
    pub key: String,
    /// Requests seen in the window.
    pub count: u32,
    /// Instant at which the window began.
    pub window_start: u64,
}

/// A counter as a mathematical value.
pub ghost struct CounterView {
    pub key: Seq<char>,
    pub count: u32,
    pub window_start: u64,
}

impl View for Counter {
    type V = CounterView;

    open spec fn view(&self) -> CounterView {
        CounterView { key: self.key@, count: self.count, window_start: self.window_start }
    }
}

/// The views of the counters of a table, row by row.
pub open spec fn counter_views(counters: Seq<Counter>) -> Seq<CounterView> {
    Seq::new(counters.len(), |i: int| counters[i]@)
}

/// The predicate that picks the counter of a key.
pub open spec fn of_key(key: Seq<char>) -> spec_fn(CounterView) -> bool {
    |c: CounterView| c.key == key
}

/// Whether no key has two counters.
pub open spec fn distinct_keys(counters: Seq<CounterView>) -> bool {
    forall|i: int, j: int| 0 <= i < j < counters.len() ==> counters[i].key != counters[j].key
}

/// The counter that a request at the instant `now` meets: the key's own,
/// or a fresh one that begins at `now` with nothing counted.
pub open spec fn met(counters: Seq<CounterView>, key: Seq<char>, now: u64) -> CounterView {
    match first_where(counters, of_key(key)) {
        Some(i) => counters[i],
        None => CounterView { key, count: 0, window_start: now },
    }
}

/// A table with one counter put in: in the place of the key's earlier
/// counter, or at the end.
pub open spec fn with_counter(counters: Seq<CounterView>, c: CounterView) -> Seq<CounterView> {
    match first_where(counters, of_key(c.key)) {
        Some(i) => counters.update(i, c),
        None => counters.push(c),
    }
}

/// Whether a window that began at `start` is over at the instant `now`.
pub open spec fn window_over(start: u64, window: u64, now: u64) -> bool {
    now - start > window
}

/// Finds the counter of a key.
fn find_counter(counters: &Vec<Counter>, key: &str) -> (r: Option<usize>)
    ensures
        match r {
            Some(i) => first_where(counter_views(counters@), of_key(key@)) == Some(i as int) && i
                < counters@.len(),
            None => first_where(counter_views(counters@), of_key(key@)) is None,
        },
{
    let ghost views = counter_views(counters@);
    let mut i: usize = 0;
    while i < counters.len()
        invariant
            i <= counters@.len(),
            views == counter_views(counters@),
            forall|j: int| 0 <= j < i ==> !of_key(key@)(#[trigger] views[j]),
        decreases counters@.len() - i,
    {
        proof {
            assert(views[i as int] == counters@[i as int]@);
        }
        if text_eq(counters[i].key.as_str(), key) {
            proof {
                lemma_first_where_at(views, of_key(key@), i as int);
            }
            return Some(i);
        }
        i += 1;
    }
    proof {
        lemma_first_where_none(views, of_key(key@));
    }
    None
}

/// Stores a counter, in the place of the key's earlier one or at the end.
fn put_counter(counters: &mut Vec<Counter>, at: Option<usize>, counter: Counter)
    requires
        distinct_keys(counter_views(old(counters)@)),
        match at {
            Some(i) => first_where(counter_views(old(counters)@), of_key(counter.key@)) == Some(
                i as int,
            ) && i < old(counters)@.len(),
            None => first_where(counter_views(old(counters)@), of_key(counter.key@)) is None,
        },
    ensures
        distinct_keys(counter_views(final(counters)@)),
        counter_views(final(counters)@) == with_counter(counter_views(old(counters)@), counter@),
{
    let ghost before = counter_views(counters@);
    let ghost pick = of_key(counter.key@);
    proof {
        lemma_first_where(before, pick);
    }
    match at {
        Some(i) => {
            counters[i] = counter;
            proof {
                let after = counter_views(counters@);
                assert(after =~= before.update(i as int, counter@));
                assert forall|a: int, b: int| 0 <= a < b < after.len() implies after[a].key
                    != after[b].key by {
                    assert(before[a].key != before[b].key);
                }
            }
        },
        None => {
            counters.push(counter);
            proof {
                let after = counter_views(counters@);
                assert(after =~= before.push(counter@));
                assert forall|a: int, b: int| 0 <= a < b < after.len() implies after[a].key
                    != after[b].key by {
                    if b == before.len() {
                        assert(!pick(before[a]));
                    } else {
                        assert(before[a].key != before[b].key);
                    }
                }
            }
        },
    }
}

/// Lets each key make a bounded number of requests per window.
#[derive(Debug)]
pub struct RateLimiter {
    /// Requests allowed per window.
    pub max_requests: u32,
    /// Length of a window.
    pub window: u64,
    /// One counter per key seen.
    pub counts: Vec<Counter>,
}

impl RateLimiter {
    /// The limiter's invariant: at most one counter per key.
    pub open spec fn wf(&self) -> bool {
        distinct_keys(counter_views(self.counts@))
    }

    /// The counter of `key` after a request at the instant `now`: a window
    /// that is over begins anew with this request; within a window the
    /// request is counted while the allowance lasts.
    pub open spec fn counted(&self, key: Seq<char>, now: u64) -> CounterView {
        let c = met(counter_views(self.counts@), key, now);
        if window_over(c.window_start, self.window, now) {
            CounterView { key, count: 1, window_start: now }
        } else if c.count < self.max_requests {
            CounterView { key, count: (c.count + 1) as u32, window_start: c.window_start }
        } else {
            c
        }
    }

    /// Whether a request of `key` at the instant `now` is allowed.
    pub open spec fn allows(&self, key: Seq<char>, now: u64) -> bool {
        let c = met(counter_views(self.counts@), key, now);
        window_over(c.window_start, self.window, now) || c.count < self.max_requests
    }

    /// A limiter that has seen no key.
    pub fn new(max_requests: u32, window: u64) -> (r: Self)
        ensures
            r.wf(),
            r.max_requests == max_requests,
            r.window == window,
            r.counts@ == Seq::<Counter>::empty(),
    {
        RateLimiter { max_requests, window, counts: Vec::new() }
    }

    /// Counts a request of `key` at the instant `now` and says whether it is
    /// allowed.
    pub fn check(&mut self, key: &str, now: u64) -> (allowed: bool)
        requires
            old(self).wf(),
        ensures
            final(self).wf(),
            allowed == old(self).allows(key@, now),
            counter_views(final(self).counts@) == with_counter(
                counter_views(old(self).counts@),
                old(self).counted(key@, now),
            ),
            final(self).max_requests == old(self).max_requests,
            final(self).window == old(self).window,
    {
        let at = find_counter(&self.counts, key);
        proof {
            lemma_first_where(counter_views(self.counts@), of_key(key@));
        }
        let (count, window_start): (u32, u64) = match at {
            Some(i) => {
                proof {
                    assert(counter_views(self.counts@)[i as int] == self.counts@[i as int]@);
                }
                (self.counts[i].count, self.counts[i].window_start)
            },
            None => (0, now),
        };
        if now > window_start && now - window_start > self.window {
            put_counter(&mut self.counts, at, Counter { key: key.to_string(), count: 1, window_start: now });
            true
        } else if count < self.max_requests {
            put_counter(
                &mut self.counts,
                at,
                Counter { key: key.to_string(), count: count + 1, window_start },
            );
            true
        } else {
            put_counter(&mut self.counts, at, Counter { key: key.to_string(), count, window_start });
            false
        }
    }
}

/// Notices a key that makes more requests in a window than a threshold.
#[derive(Debug)]
pub struct DosDetector {
    /// Requests per window above which a key is reported.
    pub threshold: u32,
    /// Length of a window.
    pub window: u64,
    /// One counter per key seen.
    pub hits: Vec<Counter>,
}

impl DosDetector {
    /// The detector's invariant: at most one counter per key.
    pub open spec fn wf(&self) -> bool {
        distinct_keys(counter_views(self.hits@))
    }

    /// The counter of `ip` after a request at the instant `now`: a window
    /// that is over begins anew with this request; within a window the
    /// request is counted, and the count stays at its largest value once it
    /// is reached.
    pub open spec fn counted(&self, ip: Seq<char>, now: u64) -> CounterView {
        let c = met(counter_views(self.hits@), ip, now);
        if window_over(c.window_start, self.window, now) {
            CounterView { key: ip, count: 1, window_start: now }
        } else if c.count < u32::MAX {
            CounterView { key: ip, count: (c.count + 1) as u32, window_start: c.window_start }
        } else {
            c
        }
    }

    /// Whether a request of `ip` at the instant `now` takes the key over the
    /// threshold.
    pub open spec fn flags(&self, ip: Seq<char>, now: u64) -> bool {
        let c = met(counter_views(self.hits@), ip, now);
        !window_over(c.window_start, self.window, now) && self.counted(ip, now).count
            > self.threshold
    }

    /// A detector that has seen no key.
    pub fn new(threshold: u32, window: u64) -> (r: Self)
        ensures
            r.wf(),
            r.threshold == threshold,
            r.window == window,
            r.hits@ == Seq::<Counter>::empty(),
    {
        DosDetector { threshold, window, hits: Vec::new() }
    }

    /// Counts a request of `ip` at the instant `now` and says whether the key
    /// is now over the threshold. The request that begins a window is never
    /// reported.
    pub fn check(&mut self, ip: &str, now: u64) -> (flagged: bool)
        requires
            old(self).wf(),
        ensures
            final(self).wf(),
            flagged == old(self).flags(ip@, now),
            counter_views(final(self).hits@) == with_counter(
                counter_views(old(self).hits@),
                old(self).counted(ip@, now),
            ),
            final(self).threshold == old(self).threshold,
            final(self).window == old(self).window,
    {
        let at = find_counter(&self.hits, ip);
        proof {
            lemma_first_where(counter_views(self.hits@), of_key(ip@));
        }
        let (count, window_start): (u32, u64) = match at {
            Some(i) => {
                proof {
                    assert(counter_views(self.hits@)[i as int] == self.hits@[i as int]@);
                }
                (self.hits[i].count, self.hits[i].window_start)
            },
            None => (0, now),
        };
        if now > window_start && now - window_start > self.window {
            put_counter(&mut self.hits, at, Counter { key: ip.to_string(), count: 1, window_start: now });
            false
        } else {
            let raised: u32 = if count < u32::MAX {
                count + 1
            } else {
                count
            };
            put_counter(
                &mut self.hits,
                at,
                Counter { key: ip.to_string(), count: raised, window_start },
            );
            raised > self.threshold
        }
    }
}

/// Whether a byte is an ASCII letter or digit, a hyphen or an underscore.
pub open spec fn is_id_byte(b: u8) -> bool {
    (0x30 <= b <= 0x39) || (0x41 <= b <= 0x5A) || (0x61 <= b <= 0x7A) || b == 0x2D || b == 0x5F
}

/// Whether a byte is a visible ASCII character, the space not among them.
pub open spec fn is_graphic_byte(b: u8) -> bool {
    0x21 <= b <= 0x7E
}

/// Whether the UTF-8 bytes of a text make an identifier: 3 to 64 of them,
/// each an ASCII letter or digit, a hyphen or an underscore.
pub open spec fn id_shaped(bytes: Seq<u8>) -> bool {
    3 <= bytes.len() <= 64 && forall|i: int| 0 <= i < bytes.len() ==> is_id_byte(bytes[i])
}

/// Whether the UTF-8 bytes of a text make a token: 10 to 512 of them, each a
/// visible ASCII character.
pub open spec fn token_shaped(bytes: Seq<u8>) -> bool {
    10 <= bytes.len() <= 512 && forall|i: int|
        0 <= i < bytes.len() ==> is_graphic_byte(bytes[i])
}

/// Accepts a text that has the shape of an identifier.
pub fn validate_id(id: &str) -> (r: Result<(), &'static str>)
    ensures
        r is Ok <==> id_shaped(id.spec_bytes()),
        r is Err ==> r->Err_0@ == "Invalid ID format"@,
{
    let bytes = id.as_bytes();
    if bytes.len() < 3 || bytes.len() > 64 {
        return Err("Invalid ID format");
    }
    let mut i: usize = 0;
    while i < bytes.len()
        invariant
            i <= bytes@.len(),
            bytes@ == id.spec_bytes(),
            forall|j: int| 0 <= j < i ==> is_id_byte(bytes@[j]),
        decreases bytes@.len() - i,
    {
        let b: u8 = bytes[i];
        let fits = (0x30 <= b && b <= 0x39) || (0x41 <= b && b <= 0x5A) || (0x61 <= b && b
            <= 0x7A) || b == 0x2D || b == 0x5F;
        if !fits {
            assert(!is_id_byte(bytes@[i as int]));
            return Err("Invalid ID format");
        }
        i += 1;
    }
    Ok(())
}

/// Accepts a text that has the shape of a token.
pub fn validate_token(token: &str) -> (r: Result<(), &'static str>)
    ensures
        r is Ok <==> token_shaped(token.spec_bytes()),
        r is Err ==> r->Err_0@ == "Invalid token format"@,
{
    let bytes = token.as_bytes();
    if bytes.len() < 10 || bytes.len() > 512 {
        return Err("Invalid token format");
    }
    let mut i: usize = 0;
    while i < bytes.len()
        invariant
            i <= bytes@.len(),
            bytes@ == token.spec_bytes(),
            forall|j: int| 0 <= j < i ==> is_graphic_byte(bytes@[j]),
        decreases bytes@.len() - i,
    {
        let b: u8 = bytes[i];
        if b < 0x21 || b > 0x7E {
            assert(!is_graphic_byte(bytes@[i as int]));
            return Err("Invalid token format");
        }
        i += 1;
    }
    Ok(())
}

/// Whether an origin is among the allowed ones.
pub open spec fn origin_listed(allowed: Seq<&str>, origin: Seq<char>) -> bool {
    exists|i: int| 0 <= i < allowed.len() && allowed[i]@ == origin
}

/// Whether the origin of a signalling connection is one of the allowed
/// origins, letter for letter.
pub fn check_ws_origin(origin: &str, allowed_origins: &[&str]) -> (r: bool)
    ensures
        r == origin_listed(allowed_origins@, origin@),
{
    let mut i: usize = 0;
    while i < allowed_origins.len()
        invariant
            i <= allowed_origins@.len(),
            forall|j: int| 0 <= j < i ==> allowed_origins@[j]@ != origin@,
        decreases allowed_origins@.len() - i,
    {
        if text_eq(allowed_origins[i], origin) {
            return true;
        }
        i += 1;
    }
    false
}

} // verus!
