use vstd::prelude::*;
use crate::error::MessagingError;
use crate::principal::Principal;

verus! {

/// Calls allowed per window when sending messages.
pub const SEND_MAX_CALLS: u32 = 50;

/// Window length in milliseconds when sending messages.
pub const SEND_WINDOW_MS: u64 = 60000;

/// How far in the future a nonce's timestamp may lie, in milliseconds.
pub const FUTURE_SKEW_MS: u64 = 60000;

/// How long a nonce stays fresh, in milliseconds.
pub const NONCE_EXPIRY_MS: u64 = 300000;

/// One identity's call window.
pub struct RateLimit {
    pub principal: Principal,
    pub call_count: u32,
    pub window_start: u64,
    pub window_duration: u64,
}

/// A window's count, start and duration.
pub struct WindowView {
    pub call_count: u32,
    pub window_start: u64,
    pub window_duration: u64,
}

/// Records with pairwise distinct keys.
pub open spec fn distinct_principals(s: Seq<RateLimit>) -> bool {
    forall|i: int, j: int|
        0 <= i < s.len() && 0 <= j < s.len() && (#[trigger] s[i]).principal@ == (#[trigger] s[j]).principal@
            ==> i == j
}

/// The window recorded for `p`, if any.
pub open spec fn window_of(s: Seq<RateLimit>, p: Seq<u8>) -> Option<WindowView> {
    if exists|i: int| 0 <= i < s.len() && (#[trigger] s[i]).principal@ == p {
        let i = choose|i: int| 0 <= i < s.len() && (#[trigger] s[i]).principal@ == p;
        Some(
            WindowView {
                call_count: s[i].call_count,
                window_start: s[i].window_start,
                window_duration: s[i].window_duration,
            },
        )
    } else {
        None
    }
}

/// Whether a window that started at `start` is still open at `now`.
pub open spec fn window_active(start: u64, now: u64, window_ms: u64) -> bool {
    (now as int) - (start as int) < window_ms as int
}

/// Whether a call at `now` is refused given the caller's window `w`.
pub open spec fn rate_limited(w: Option<WindowView>, max_calls: u32, window_ms: u64, now: u64) -> bool {
    w matches Some(v) && window_active(v.window_start, now, window_ms) && v.call_count >= max_calls
}

/// The caller's window after an accepted call at `now`.
pub open spec fn window_after(w: Option<WindowView>, window_ms: u64, now: u64) -> WindowView {
    match w {
        Some(v) => if window_active(v.window_start, now, window_ms) {
            WindowView {
                call_count: (v.call_count + 1) as u32,
                window_start: v.window_start,
                window_duration: window_ms,
            }
        } else {
            WindowView { call_count: 1, window_start: now, window_duration: window_ms }
        },
        None => WindowView { call_count: 1, window_start: now, window_duration: window_ms },
    }
}

/// The per-identity call windows.
pub struct RateLimiter {
    records: Vec<RateLimit>,
}

proof fn lemma_window_at(s: Seq<RateLimit>, i: int)
    requires
        distinct_principals(s),
        0 <= i < s.len(),
    ensures
        window_of(s, s[i].principal@) == Some(
            WindowView {
                call_count: s[i].call_count,
                window_start: s[i].window_start,
                window_duration: s[i].window_duration,
            },
        ),
{
    let p = s[i].principal@;
    assert(exists|k: int| 0 <= k < s.len() && (#[trigger] s[k]).principal@ == p);
}

impl RateLimiter {
    /// Keys are distinct.
    pub closed spec fn wf(&self) -> bool {
        distinct_principals(self.records@)
    }

    /// The window recorded for `p`, if any.
    pub closed spec fn window(&self, p: Seq<u8>) -> Option<WindowView> {
        window_of(self.records@, p)
    }

    /// No windows.
    pub fn new() -> (r: RateLimiter)
        ensures
            r.wf(),
            forall|p: Seq<u8>| #[trigger] r.window(p) is None,
    {
        RateLimiter { records: Vec::new() }
    }

    fn find(&self, p: &Principal) -> (r: Option<usize>)
        ensures
            r matches Some(i) ==> i < self.records@.len() && self.records@[i as int].principal@ == p@,
            r is None ==> forall|i: int| 0 <= i < self.records@.len() ==> (#[trigger] self.records@[i]).principal@ != p@,
    {
        let mut i: usize = 0;
        while i < self.records.len()
            invariant
                i <= self.records@.len(),
                forall|k: int| 0 <= k < i ==> (#[trigger] self.records@[k]).principal@ != p@,
            decreases self.records.len() - i,
        {
            if self.records[i].principal.same_as(p) {
                return Some(i);
            }
            i = i + 1;
        }
        None
    }

    fn put(&mut self, i: usize, rec: RateLimit)
        requires
            old(self).wf(),
            i < old(self).records@.len(),
            rec.principal@ == old(self).records@[i as int].principal@,
        ensures
            final(self).wf(),
            final(self).window(rec.principal@) == Some(
                WindowView {
                    call_count: rec.call_count,
                    window_start: rec.window_start,
                    window_duration: rec.window_duration,
                },
            ),
            forall|q: Seq<u8>| q != rec.principal@ ==> #[trigger] final(self).window(q) == old(self).window(q),
    {
        let ghost before = self.records@;
        let ghost key = rec.principal@;
        self.records.set(i, rec);
        proof {
            let after = self.records@;
            assert(distinct_principals(after));
            lemma_window_at(after, i as int);
            assert forall|q: Seq<u8>| q != key implies #[trigger] window_of(after, q) == window_of(before, q) by {
                if exists|k: int| 0 <= k < before.len() && (#[trigger] before[k]).principal@ == q {
                    let k = choose|k: int| 0 <= k < before.len() && (#[trigger] before[k]).principal@ == q;
                    lemma_window_at(before, k);
                    lemma_window_at(after, k);
                }
            }
        }
    }

    fn add(&mut self, rec: RateLimit)
        requires
            old(self).wf(),
            old(self).window(rec.principal@) is None,
        ensures
            final(self).wf(),
            final(self).window(rec.principal@) == Some(
                WindowView {
                    call_count: rec.call_count,
                    window_start: rec.window_start,
                    window_duration: rec.window_duration,
                },
            ),
            forall|q: Seq<u8>| q != rec.principal@ ==> #[trigger] final(self).window(q) == old(self).window(q),
    {
        let ghost before = self.records@;
        let ghost key = rec.principal@;
        self.records.push(rec);
        proof {
            let after = self.records@;
            assert forall|k: int| 0 <= k < before.len() implies (#[trigger] before[k]).principal@ != key by {
                if before[k].principal@ == key {
                    assert(window_of(before, key) is Some);
                }
            }
            assert(distinct_principals(after));
            lemma_window_at(after, before.len() as int);
            assert forall|q: Seq<u8>| q != key implies #[trigger] window_of(after, q) == window_of(before, q) by {
                if exists|k: int| 0 <= k < before.len() && (#[trigger] before[k]).principal@ == q {
                    let k = choose|k: int| 0 <= k < before.len() && (#[trigger] before[k]).principal@ == q;
                    lemma_window_at(before, k);
                    lemma_window_at(after, k);
                } else {
                    assert forall|k: int| 0 <= k < after.len() implies (#[trigger] after[k]).principal@ != q by {
                        if k < before.len() {
                            assert(before[k] == after[k]);
                        }
                    }
                }
            }
        }
    }

    /// The windows, one record per identity.
    pub fn records(&self) -> (r: &[RateLimit])
        requires
            self.wf(),
        ensures
            forall|i: int| 0 <= i < r@.len() ==> self.window((#[trigger] r@[i]).principal@) == Some(
                WindowView {
                    call_count: r@[i].call_count,
                    window_start: r@[i].window_start,
                    window_duration: r@[i].window_duration,
                },
            ),
    {
        proof {
            assert forall|i: int| 0 <= i < self.records@.len() implies window_of(
                self.records@,
                (#[trigger] self.records@[i]).principal@,
            ) == Some(
                WindowView {
                    call_count: self.records@[i].call_count,
                    window_start: self.records@[i].window_start,
                    window_duration: self.records@[i].window_duration,
                },
            ) by {
                lemma_window_at(self.records@, i);
            }
        }
        self.records.as_slice()
    }

    /// A limiter holding `records`; `None` when an identity repeats.
    pub fn from_records(records: Vec<RateLimit>) -> (r: Option<RateLimiter>)
        ensures
            r matches Some(l) ==> l.wf() && forall|i: int|
                0 <= i < records@.len() ==> l.window((#[trigger] records@[i]).principal@) == Some(
                    WindowView {
                        call_count: records@[i].call_count,
                        window_start: records@[i].window_start,
                        window_duration: records@[i].window_duration,
                    },
                ),
            r is None ==> !distinct_principals(records@),
    {
        let ghost all = records@;
        let mut lim = RateLimiter::new();
        let mut pending = records;
        let total = pending.len();
        let mut i: usize = 0;
        assert(all.subrange(0, all.len() as int) =~= all);
        while pending.len() > 0
            invariant
                lim.wf(),
                all.len() == total,
                i + pending@.len() == all.len(),
                pending@ == all.subrange(i as int, all.len() as int),
                forall|k: int| 0 <= k < i ==> lim.window((#[trigger] all[k]).principal@) == Some(
                    WindowView {
                        call_count: all[k].call_count,
                        window_start: all[k].window_start,
                        window_duration: all[k].window_duration,
                    },
                ),
                all == records@,
                forall|p: Seq<u8>| #[trigger] lim.window(p) is Some ==> exists|k: int| 0 <= k < i && all[k].principal@ == p,
            decreases pending.len(),
        {
            let rec = pending.remove(0);
            assert(rec == all[i as int]);
            if lim.find(&rec.principal).is_some() {
                proof {
                    let p = rec.principal@;
                    assert(window_of(lim.records@, p) is Some);
                    assert(lim.window(p) is Some);
                    let k = choose|k: int| 0 <= k < i && all[k].principal@ == p;
                    assert(all[k].principal@ == all[i as int].principal@ && k != i);
                }
                return None;
            }
            proof {
                if window_of(lim.records@, rec.principal@) is Some {
                    let k = choose|k: int| 0 <= k < lim.records@.len() && (#[trigger] lim.records@[k]).principal@ == rec.principal@;
                }
            }
            lim.add(rec);
            proof {
                assert(pending@ =~= all.subrange(i + 1, all.len() as int));
            }
            i = i + 1;
        }
        Some(lim)
    }

    /// Counts a call by `principal` at `now` against `max_calls` per `window_ms`.
    /// A call in an open window that already holds `max_calls` calls fails and
    /// changes nothing; otherwise the window's count goes up by one, or a new
    /// window starts at `now` with one call.
    pub fn check_rate_limit(&mut self, principal: &Principal, max_calls: u32, window_ms: u64, now: u64) -> (r:
        Result<(), MessagingError>)
        requires
            old(self).wf(),
        ensures
            final(self).wf(),
            r is Err <==> rate_limited(old(self).window(principal@), max_calls, window_ms, now),
            r is Err ==> r == Err::<(), MessagingError>(MessagingError::RateLimit) && *final(self)
                == *old(self),
            r is Ok ==> final(self).window(principal@) == Some(
                window_after(old(self).window(principal@), window_ms, now),
            ),
            forall|q: Seq<u8>| q != principal@ ==> #[trigger] final(self).window(q) == old(self).window(q),
    {
        match self.find(principal) {
            Some(i) => {
                proof {
                    lemma_window_at(self.records@, i as int);
                }
                let start = self.records[i].window_start;
                let count = self.records[i].call_count;
                let active = now < start || now - start < window_ms;
                if active {
                    if count >= max_calls {
                        return Err(MessagingError::RateLimit);
                    }
                    let rec = RateLimit {
                        principal: principal.duplicate(),
                        call_count: count + 1,
                        window_start: start,
                        window_duration: window_ms,
                    };
                    self.put(i, rec);
                } else {
                    let rec = RateLimit {
                        principal: principal.duplicate(),
                        call_count: 1,
                        window_start: now,
                        window_duration: window_ms,
                    };
                    self.put(i, rec);
                }
            },
            None => {
                let rec = RateLimit {
                    principal: principal.duplicate(),
                    call_count: 1,
                    window_start: now,
                    window_duration: window_ms,
                };
                self.add(rec);
            },
        }
        Ok(())
    }
}

/// A nonce and the timestamp it was first accepted with.
pub struct NonceRecord {
    pub nonce: String,
    pub timestamp: u64,
}

/// The timestamp recorded for nonce `n` (the latest record for it), if any.
pub open spec fn nonce_seen(s: Seq<NonceRecord>, n: Seq<char>) -> Option<u64>
    decreases s.len(),
{
    if s.len() == 0 {
        None
    } else if s.last().nonce@ == n {
        Some(s.last().timestamp)
    } else {
        nonce_seen(s.drop_last(), n)
    }
}

/// Records with pairwise distinct nonces.
pub open spec fn distinct_nonces(s: Seq<NonceRecord>) -> bool
    decreases s.len(),
{
    s.len() == 0 || (distinct_nonces(s.drop_last()) && nonce_seen(s.drop_last(), s.last().nonce@) is None)
}

proof fn lemma_seen_at(s: Seq<NonceRecord>, i: int)
    requires
        distinct_nonces(s),
        0 <= i < s.len(),
    ensures
        nonce_seen(s, s[i].nonce@) == Some(s[i].timestamp),
    decreases s.len(),
{
    if i < s.len() - 1 {
        lemma_seen_at(s.drop_last(), i);
        assert(s.drop_last()[i] == s[i]);
        if s.last().nonce@ == s[i].nonce@ {
            assert(nonce_seen(s.drop_last(), s.last().nonce@) is Some);
        }
    }
}

/// Saved nonce records that can be restored: each nonce non-empty, none repeated.
pub open spec fn valid_nonce_records(s: Seq<NonceRecord>) -> bool {
    &&& forall|i: int| 0 <= i < s.len() ==> (#[trigger] s[i]).nonce@.len() > 0
    &&& forall|i: int, j: int|
        0 <= i < s.len() && 0 <= j < s.len() && (#[trigger] s[i]).nonce@ == (#[trigger] s[j]).nonce@ ==> i == j
}

/// A timestamp older than the freshness window at `now`.
pub open spec fn is_stale(t: u64, now: u64) -> bool {
    (now as int) - (t as int) > NONCE_EXPIRY_MS as int
}

/// Whether a timestamp is too far ahead of `now` or too far behind it.
pub open spec fn timestamp_out_of_tolerance(t: u64, now: u64) -> bool {
    (t as int) > (now as int) + (FUTURE_SKEW_MS as int) || is_stale(t, now)
}

/// The records that are still fresh at `now`, in order.
pub open spec fn retain_fresh(s: Seq<NonceRecord>, now: u64) -> Seq<NonceRecord>
    decreases s.len(),
{
    if s.len() == 0 {
        s
    } else if is_stale(s.last().timestamp, now) {
        retain_fresh(s.drop_last(), now)
    } else {
        retain_fresh(s.drop_last(), now).push(s.last())
    }
}

proof fn lemma_retain_fresh(s: Seq<NonceRecord>, now: u64)
    requires
        distinct_nonces(s),
    ensures
        distinct_nonces(retain_fresh(s, now)),
        forall|n: Seq<char>| #[trigger] nonce_seen(retain_fresh(s, now), n) == match nonce_seen(s, n) {
            Some(t) => if is_stale(t, now) {
                None
            } else {
                Some(t)
            },
            None => None,
        },
    decreases s.len(),
{
    if s.len() > 0 {
        let d = s.drop_last();
        let last = s.last();
        lemma_retain_fresh(d, now);
        let rd = retain_fresh(d, now);
        let rs = retain_fresh(s, now);
        if is_stale(last.timestamp, now) {
            assert(rs == rd);
        } else {
            assert(rs == rd.push(last));
            assert(rs.drop_last() =~= rd);
            assert(nonce_seen(rd, last.nonce@) is None);
        }
        assert forall|n: Seq<char>| #[trigger] nonce_seen(rs, n) == match nonce_seen(s, n) {
            Some(t) => if is_stale(t, now) {
                None
            } else {
                Some(t)
            },
            None => None,
        } by {
            assert(nonce_seen(rd, n) == match nonce_seen(d, n) {
                Some(t) => if is_stale(t, now) {
                    None
                } else {
                    Some(t)
                },
                None => None,
            });
        }
    }
}

/// Nonces accepted within the freshness window.
pub struct NonceRegistry {
    entries: Vec<NonceRecord>,
}

impl NonceRegistry {
    /// Nonces are distinct and non-empty.
    pub closed spec fn wf(&self) -> bool {
        &&& distinct_nonces(self.entries@)
        &&& forall|n: Seq<char>| #[trigger] nonce_seen(self.entries@, n) is Some ==> n.len() > 0
    }

    /// Only non-empty nonces are recorded.
    pub proof fn lemma_recorded_nonempty(&self, n: Seq<char>)
        requires
            self.wf(),
        ensures
            self.seen(n) is Some ==> n.len() > 0,
    {
    }

    /// The records, each with its nonce and timestamp.
    pub fn entries(&self) -> (r: &[NonceRecord])
        requires
            self.wf(),
        ensures
            forall|i: int| 0 <= i < r@.len() ==> self.seen((#[trigger] r@[i]).nonce@) == Some(r@[i].timestamp),
    {
        proof {
            assert forall|i: int| 0 <= i < self.entries@.len() implies nonce_seen(
                self.entries@,
                (#[trigger] self.entries@[i]).nonce@,
            ) == Some(self.entries@[i].timestamp) by {
                lemma_seen_at(self.entries@, i);
            }
        }
        self.entries.as_slice()
    }

    /// A registry holding `entries`; `None` when a nonce is empty or repeats.
    pub fn from_entries(entries: Vec<NonceRecord>) -> (r: Option<NonceRegistry>)
        ensures
            r is None ==> !valid_nonce_records(entries@),
            r matches Some(g) ==> g.wf() && forall|i: int|
                0 <= i < entries@.len() ==> g.seen((#[trigger] entries@[i]).nonce@) == Some(
                    entries@[i].timestamp,
                ),
    {
        let ghost all = entries@;
        let mut reg = NonceRegistry { entries: Vec::new() };
        assert(reg.entries@ =~= Seq::<NonceRecord>::empty());
        let mut pending = entries;
        let total = pending.len();
        let mut i: usize = 0;
        assert(all.subrange(0, all.len() as int) =~= all);
        while pending.len() > 0
            invariant
                reg.wf(),
                all.len() == total,
                i + pending@.len() == all.len(),
                pending@ == all.subrange(i as int, all.len() as int),
                forall|k: int| 0 <= k < i ==> reg.seen((#[trigger] all[k]).nonce@) == Some(all[k].timestamp),
                all == entries@,
                forall|n: Seq<char>| #[trigger] nonce_seen(reg.entries@, n) is Some ==> exists|k: int| 0 <= k < i && all[k].nonce@ == n,
            decreases pending.len(),
        {
            let rec = pending.remove(0);
            assert(rec == all[i as int]);
            if rec.nonce.as_str().is_empty() {
                return None;
            }
            if reg.lookup(rec.nonce.as_str()).is_some() {
                proof {
                    let k = choose|k: int| 0 <= k < i && all[k].nonce@ == rec.nonce@;
                    assert(all[k].nonce@ == all[i as int].nonce@ && k != i);
                }
                return None;
            }
            let ghost before = reg.entries@;
            reg.entries.push(rec);
            proof {
                let after = reg.entries@;
                assert(after.drop_last() =~= before);
                assert(pending@ =~= all.subrange(i + 1, all.len() as int));
                assert forall|n: Seq<char>| #[trigger] nonce_seen(after, n) is Some implies n.len() > 0 by {
                    if n != after.last().nonce@ {
                        assert(nonce_seen(after, n) == nonce_seen(before, n));
                    }
                }
                assert(distinct_nonces(after));
                assert forall|n: Seq<char>| #[trigger] nonce_seen(after, n) is Some implies exists|k: int| 0 <= k < i + 1 && all[k].nonce@ == n by {
                    if n != after.last().nonce@ {
                        assert(nonce_seen(after, n) == nonce_seen(before, n));
                    } else {
                        assert(all[i as int].nonce@ == n);
                    }
                }
            }
            i = i + 1;
        }
        Some(reg)
    }

    /// The timestamp recorded for nonce `n`, if any.
    pub closed spec fn seen(&self, n: Seq<char>) -> Option<u64> {
        nonce_seen(self.entries@, n)
    }

    /// No nonces.
    pub fn new() -> (r: NonceRegistry)
        ensures
            r.wf(),
            forall|n: Seq<char>| #[trigger] r.seen(n) is None,
    {
        NonceRegistry { entries: Vec::new() }
    }

    fn lookup(&self, n: &str) -> (r: Option<u64>)
        ensures
            r == nonce_seen(self.entries@, n@),
    {
        let key = n.to_string();
        let mut i = self.entries.len();
        assert(self.entries@.take(i as int) =~= self.entries@);
        while i > 0
            invariant
                i <= self.entries@.len(),
                key@ == n@,
                nonce_seen(self.entries@, n@) == nonce_seen(self.entries@.take(i as int), n@),
            decreases i,
        {
            assert(self.entries@.take(i as int).drop_last() =~= self.entries@.take(i - 1));
            if self.entries[i - 1].nonce == key {
                return Some(self.entries[i - 1].timestamp);
            }
            i = i - 1;
        }
        None
    }

    /// Accepts `nonce` with `timestamp` at time `now`: an empty nonce is a
    /// validation error; a timestamp more than a minute ahead or more than five
    /// minutes behind, or a nonce already recorded, is a replay. On success the
    /// nonce is recorded and every stale record is dropped.
    pub fn validate_nonce(&mut self, nonce: &str, timestamp: u64, now: u64) -> (r: Result<(), MessagingError>)
        requires
            old(self).wf(),
        ensures
            final(self).wf(),
            nonce@.len() == 0 ==> r == Err::<(), MessagingError>(MessagingError::Validation),
            nonce@.len() > 0 ==> (r is Err <==> (timestamp_out_of_tolerance(timestamp, now) || old(
            self).seen(nonce@) is Some)),
            nonce@.len() > 0 && r is Err ==> r == Err::<(), MessagingError>(MessagingError::Replay),
            r is Err ==> forall|n: Seq<char>| #[trigger] final(self).seen(n) == old(self).seen(n),
            r is Ok ==> nonce@.len() > 0,
            r is Ok ==> forall|n: Seq<char>| #[trigger] final(self).seen(n) == if n == nonce@ {
                Some(timestamp)
            } else {
                match old(self).seen(n) {
                    Some(t) => if is_stale(t, now) {
                        None
                    } else {
                        Some(t)
                    },
                    None => None,
                }
            },
    {
        if nonce.is_empty() {
            return Err(MessagingError::Validation);
        }
        if timestamp > now && timestamp - now > FUTURE_SKEW_MS {
            return Err(MessagingError::Replay);
        }
        if now > timestamp && now - timestamp > NONCE_EXPIRY_MS {
            return Err(MessagingError::Replay);
        }
        if self.lookup(nonce).is_some() {
            return Err(MessagingError::Replay);
        }
        let ghost before = self.entries@;
        self.entries.push(NonceRecord { nonce: nonce.to_string(), timestamp });
        let ghost with_new = self.entries@;
        proof {
            assert(with_new.drop_last() =~= before);
            lemma_retain_fresh(with_new, now);
        }
        let mut kept: Vec<NonceRecord> = Vec::new();
        let mut i: usize = 0;
        while i < self.entries.len()
            invariant
                i <= self.entries@.len(),
                self.entries@ == with_new,
                kept@ == retain_fresh(with_new.take(i as int), now),
            decreases self.entries.len() - i,
        {
            assert(with_new.take(i + 1).drop_last() =~= with_new.take(i as int));
            let t = self.entries[i].timestamp;
            if !(now > t && now - t > NONCE_EXPIRY_MS) {
                kept.push(NonceRecord { nonce: self.entries[i].nonce.clone(), timestamp: t });
            }
            i = i + 1;
        }
        assert(with_new.take(with_new.len() as int) =~= with_new);
        proof {
            assert forall|n: Seq<char>| #[trigger] nonce_seen(kept@, n) is Some implies n.len() > 0 by {
                if n != with_new.last().nonce@ {
                    assert(nonce_seen(with_new, n) == nonce_seen(before, n));
                }
            }
        }
        self.entries = kept;
        Ok(())
    }
}

} // verus!
