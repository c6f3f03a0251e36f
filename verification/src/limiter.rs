//! The rate limiter: bounds how many operations are admitted per rolling
//! time window, independently of how many are in flight. Acquiring a permit
//! never fails; at worst the caller is told a time to wait until, and a
//! retry at that time is admitted. The caller supplies the clock (a
//! monotone reading in milliseconds) and performs the wait.
use vstd::prelude::*;

verus! {

/// True when an operation admitted at time `e` still occupies the window
/// that ends at time `t` (the window is `(t - w, t]`).
pub open spec fn in_window(e: u64, t: u64, w: u64) -> bool {
    e <= t && e + w > t
}

/// How many recorded admissions occupy the window ending at `t`.
pub open spec fn admissions_in_window(s: Seq<u64>, t: u64, w: u64) -> nat {
    s.filter(|e: u64| in_window(e, t, w)).len()
}

/// What `try_acquire` answers: a permit, or the earliest time at which
/// asking again is guaranteed a permit.
pub enum Admission {
    Admit,
    WaitUntil(u64),
}

/// A sequence where earlier entries are no later than later ones.
pub open spec fn sorted(s: Seq<u64>) -> bool {
    forall|i: int, j: int| 0 <= i <= j < s.len() ==> s[i] <= s[j]
}

/// If every element that satisfies `p1` satisfies `p2`, `p1` keeps no more
/// elements than `p2`.
proof fn lemma_filter_implies_len(s: Seq<u64>, p1: spec_fn(u64) -> bool, p2: spec_fn(u64) -> bool)
    requires
        forall|i: int| 0 <= i < s.len() ==> (p1(s[i]) ==> p2(s[i])),
    ensures
        s.filter(p1).len() <= s.filter(p2).len(),
    decreases s.len(),
{
    reveal(Seq::filter);
    if s.len() > 0 {
        assert(forall|i: int|
            0 <= i < s.drop_last().len() ==> (p1(#[trigger] s.drop_last()[i]) ==> p2(
                s.drop_last()[i],
            )));
        lemma_filter_implies_len(s.drop_last(), p1, p2);
    }
}

/// A sequence every element of which satisfies the predicate counts whole.
proof fn lemma_filter_all(s: Seq<u64>, p: spec_fn(u64) -> bool)
    requires
        forall|i: int| 0 <= i < s.len() ==> p(s[i]),
    ensures
        s.filter(p) =~= s,
    decreases s.len(),
{
    reveal(Seq::filter);
    if s.len() > 0 {
        lemma_filter_all(s.drop_last(), p);
    }
}

/// Entries that satisfy the predicate nowhere are all filtered away.
proof fn lemma_filter_none(s: Seq<u64>, p: spec_fn(u64) -> bool)
    requires
        forall|i: int| 0 <= i < s.len() ==> !p(s[i]),
    ensures
        s.filter(p).len() == 0,
    decreases s.len(),
{
    reveal(Seq::filter);
    if s.len() > 0 {
        lemma_filter_none(s.drop_last(), p);
    }
}

/// Dropping a prefix of the admission log can only lower every window's
/// count, so the bound survives pruning.
proof fn lemma_prune_keeps_bound(dropped: Seq<u64>, kept: Seq<u64>, w: u64, limit: int)
    requires
        forall|t: u64| #[trigger] admissions_in_window(dropped + kept, t, w) <= limit,
    ensures
        forall|t: u64| #[trigger] admissions_in_window(kept, t, w) <= limit,
{
    assert forall|t: u64| #[trigger] admissions_in_window(kept, t, w) <= limit by {
        Seq::filter_distributes_over_add(dropped, kept, |e: u64| in_window(e, t, w));
        assert(admissions_in_window(dropped + kept, t, w) <= limit);
    }
}

/// Recording an admission at `now` keeps every window's count within the
/// bound, provided the window ending at `now` was strictly below it and
/// every recorded time is at most `now`.
proof fn lemma_push_keeps_bound(s: Seq<u64>, now: u64, w: u64, limit: int)
    requires
        forall|t: u64| #[trigger] admissions_in_window(s, t, w) <= limit,
        admissions_in_window(s, now, w) < limit,
        forall|i: int| 0 <= i < s.len() ==> s[i] <= now,
        w >= 1,
    ensures
        forall|t: u64| #[trigger] admissions_in_window(s.push(now), t, w) <= limit,
{
    assert forall|t: u64| #[trigger] admissions_in_window(s.push(now), t, w) <= limit by {
        let p = |e: u64| in_window(e, t, w);
        assert(s.push(now) =~= s + seq![now]);
        Seq::filter_distributes_over_add(s, seq![now], p);
        seq![now].lemma_filter_len(p);
        if in_window(now, t, w) {
            // every admission counted at `t` was already counted at `now`
            lemma_filter_implies_len(s, p, |e: u64| in_window(e, now, w));
            assert(admissions_in_window(s, now, w) < limit);
        } else {
            lemma_filter_none(seq![now], p);
            assert(admissions_in_window(s, t, w) <= limit);
        }
    }
}

/// Admits at most `limit` operations per rolling window of `window_ms`
/// milliseconds. The recorded admission times are its whole state; the
/// bound `admissions_in_window(..) <= limit` holds of every window, at all
/// times — rate limiting only delays, it never rejects.
pub struct RateLimiter {
    limit: usize,
    window_ms: u64,
    admitted: Vec<u64>,
}

impl RateLimiter {
    /// The admission times recorded, oldest first.
    pub closed spec fn spec_times(&self) -> Seq<u64> {
        self.admitted@
    }

    /// The admission bound per window.
    pub closed spec fn spec_limit(&self) -> int {
        self.limit as int
    }

    /// The window length in milliseconds.
    pub closed spec fn spec_window(&self) -> u64 {
        self.window_ms
    }

    /// Well-formed: positive bound and window, admission times in order,
    /// and no window anywhere holds more than `limit` admissions.
    pub open spec fn wf(&self) -> bool {
        &&& self.spec_limit() >= 1
        &&& self.spec_window() >= 1
        &&& sorted(self.spec_times())
        &&& forall|t: u64|
            #[trigger] admissions_in_window(self.spec_times(), t, self.spec_window())
                <= self.spec_limit()
    }

    /// A fresh limiter admitting at most `limit` operations per
    /// `window_ms` milliseconds.
    pub fn new(limit: usize, window_ms: u64) -> (l: RateLimiter)
        requires
            limit >= 1,
            window_ms >= 1,
        ensures
            l.wf(),
            l.spec_limit() == limit,
            l.spec_window() == window_ms,
            l.spec_times() =~= Seq::<u64>::empty(),
    {
        let l = RateLimiter { limit, window_ms, admitted: Vec::new() };
        proof {
            assert forall|t: u64|
                #[trigger] admissions_in_window(l.spec_times(), t, l.spec_window())
                    <= l.spec_limit() by {
                lemma_filter_none(l.spec_times(), |e: u64| in_window(e, t, l.spec_window()));
            }
        }
        l
    }

    /// Forgets admissions that have left the window ending at `now_ms`;
    /// they can never occupy a later window.
    fn prune(&mut self, now_ms: u64)
        requires
            old(self).wf(),
            old(self).spec_times().len() == 0 || old(self).spec_times().last() <= now_ms,
            now_ms <= u64::MAX - old(self).spec_window(),
        ensures
            final(self).wf(),
            final(self).spec_limit() == old(self).spec_limit(),
            final(self).spec_window() == old(self).spec_window(),
            forall|j: int|
                0 <= j < final(self).spec_times().len() ==> (final(self).spec_times()[j] <= now_ms
                    && #[trigger] in_window(
                    final(self).spec_times()[j],
                    now_ms,
                    final(self).spec_window(),
                )),
            admissions_in_window(old(self).spec_times(), now_ms, old(self).spec_window())
                == final(self).spec_times().len(),
            admissions_in_window(final(self).spec_times(), now_ms, final(self).spec_window())
                == final(self).spec_times().len(),
            final(self).spec_times().len() == 0 || final(self).spec_times().last() <= now_ms,
    {
        let w = self.window_ms;
        let n = self.admitted.len();
        let ghost s_old = self.admitted@;
        let ghost pred_now = |e: u64| in_window(e, now_ms, w);

        // Admissions that have left the window form a prefix (times are
        // sorted); find where the window begins.
        let mut idx: usize = 0;
        while idx < n && self.admitted[idx] + w <= now_ms
            invariant
                self.wf(),
                n == self.admitted@.len(),
                idx <= n,
                w == self.spec_window(),
                self.admitted@.len() == 0 || self.admitted@.last() <= now_ms,
                now_ms <= u64::MAX - w,
                forall|j: int| 0 <= j < idx ==> !in_window(self.admitted@[j], now_ms, w),
            decreases n - idx,
        {
            proof {
                assert(self.admitted@[idx as int] <= self.admitted@.last());
            }
            idx += 1;
        }
        proof {
            if idx < n {
                assert(self.admitted@[idx as int] <= self.admitted@.last());
            }
        }
        let ghost dropped = s_old.subrange(0, idx as int);
        let kept = self.admitted.split_off(idx);
        self.admitted = kept;
        proof {
            let s1 = self.admitted@;
            assert(s_old =~= dropped + s1);
            assert forall|j: int| 0 <= j < s1.len() implies s1[j] <= now_ms && #[trigger] in_window(
                s1[j],
                now_ms,
                w,
            ) by {
                assert(s1[j] == s_old[idx + j]);
                assert(s_old[idx + j] <= s_old[s_old.len() - 1]);
                assert(s_old[idx as int] <= s_old[idx + j]);
            }
            assert(forall|j: int| 0 <= j < dropped.len() ==> !pred_now(dropped[j]));
            lemma_prune_keeps_bound(dropped, s1, w, self.limit as int);
            lemma_filter_all(s1, pred_now);
            Seq::filter_distributes_over_add(dropped, s1, pred_now);
            lemma_filter_none(dropped, pred_now);
            assert(admissions_in_window(s_old, now_ms, w) == s1.len());
        }
    }

    /// Asks for a permit at time `now_ms`. Either the operation is admitted
    /// (and the admission recorded), or the limiter names a time no more
    /// than one window away at which a retry is admitted. The clock must
    /// not run backwards between calls.
    #[verifier::rlimit(100)]
    pub fn try_acquire(&mut self, now_ms: u64) -> (r: Admission)
        requires
            old(self).wf(),
            old(self).spec_times().len() == 0 || old(self).spec_times().last() <= now_ms,
            now_ms <= u64::MAX - old(self).spec_window(),
        ensures
            final(self).wf(),
            final(self).spec_limit() == old(self).spec_limit(),
            final(self).spec_window() == old(self).spec_window(),
            final(self).spec_times().len() == 0 || final(self).spec_times().last() <= now_ms,
            r is Admit <==> admissions_in_window(
                old(self).spec_times(),
                now_ms,
                old(self).spec_window(),
            ) < old(self).spec_limit(),
            match r {
                Admission::Admit => admissions_in_window(
                    final(self).spec_times(),
                    now_ms,
                    final(self).spec_window(),
                ) == admissions_in_window(old(self).spec_times(), now_ms, old(self).spec_window())
                    + 1,
                Admission::WaitUntil(t) => now_ms < t <= now_ms + old(self).spec_window()
                    && admissions_in_window(final(self).spec_times(), t, final(self).spec_window())
                    < final(self).spec_limit(),
            },
    {
        let w = self.window_ms;
        let ghost pred_now = |e: u64| in_window(e, now_ms, w);
        self.prune(now_ms);
        if self.admitted.len() < self.limit {
            let ghost pruned = self.admitted@;
            self.admitted.push(now_ms);
            proof {
                let s_new = self.admitted@;
                lemma_filter_all(seq![now_ms], pred_now);
                assert(pruned.push(now_ms) =~= pruned + seq![now_ms]);
                Seq::filter_distributes_over_add(pruned, seq![now_ms], pred_now);
                lemma_push_keeps_bound(pruned, now_ms, w, self.limit as int);
                assert(sorted(s_new)) by {
                    assert forall|i: int, j: int| 0 <= i <= j < s_new.len() implies s_new[i]
                        <= s_new[j] by {
                        if j < s_new.len() - 1 {
                            assert(pruned[i] <= pruned[j]);
                        } else if i < s_new.len() - 1 {
                            assert(pruned[i] <= now_ms);
                        }
                    }
                }
            }
            Admission::Admit
        } else {
            let oldest = self.admitted[0];
            proof {
                assert(self.admitted@.len() >= 1);
                assert(in_window(self.admitted@[0], now_ms, w));
            }
            let until = oldest + w;
            proof {
                let s1 = self.admitted@;
                let p = |e: u64| in_window(e, until, w);
                let head = s1.subrange(0, 1);
                let rest = s1.subrange(1, s1.len() as int);
                assert(s1 =~= head + rest);
                Seq::filter_distributes_over_add(head, rest, p);
                lemma_filter_none(head, p);
                rest.lemma_filter_len(p);
                assert(admissions_in_window(s1, until, w) <= s1.len() - 1);
            }
            Admission::WaitUntil(until)
        }
    }
}

} // verus!
