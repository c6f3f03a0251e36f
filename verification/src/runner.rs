//! The batch runner: orchestrates one run. At start it snapshots the
//! progress cache and partitions the target list into skipped and pending
//! targets; workers then take pending targets, run the action under the
//! retry policy, and settle each outcome back here, which records it in the
//! cache; at the end the runner aggregates the report. The workers' outside
//! work (the attempts, the sleeps, the waits for permits) happens on the
//! caller's side of the boundary; every decision and every state change
//! happens here.
use vstd::prelude::*;

use crate::cache::{spec_skip, ProgressCache};
use crate::outcome::{CacheEntry, CacheEntryV, Outcome, OutcomeV};

verus! {

/// One target's position in the run's state machine. `Pending` may move to
/// `Skipped` (decided at start) or to `Running`; `Running` settles as
/// `Succeeded` or `Failed`. The last three are terminal.
pub enum TargetState {
    Pending,
    Running,
    Skipped,
    Succeeded(String),
    Failed(String),
}

/// Mathematical model of a [`TargetState`].
pub enum TargetStateV {
    Pending,
    Running,
    Skipped,
    Succeeded(Seq<char>),
    Failed(Seq<char>),
}

impl View for TargetState {
    type V = TargetStateV;

    open spec fn view(&self) -> TargetStateV {
        match self {
            TargetState::Pending => TargetStateV::Pending,
            TargetState::Running => TargetStateV::Running,
            TargetState::Skipped => TargetStateV::Skipped,
            TargetState::Succeeded(r) => TargetStateV::Succeeded(r@),
            TargetState::Failed(e) => TargetStateV::Failed(e@),
        }
    }
}

/// True of the states a target can end in.
pub open spec fn is_terminal(s: TargetStateV) -> bool {
    s is Skipped || s is Succeeded || s is Failed
}

/// True when no two targets in `s` are the same identifier.
pub open spec fn unique_str(s: Seq<Seq<char>>) -> bool {
    forall|i: int, j: int| 0 <= i < j < s.len() ==> s[i] != s[j]
}

/// What a target's state promises about its cache record: a settled target
/// has the record its settlement wrote; a skipped one has a `Success`
/// record; an unsettled one promises nothing here.
pub open spec fn entry_matches(
    m: Map<Seq<char>, CacheEntryV>,
    k: Seq<char>,
    st: TargetStateV,
    nv: Option<Seq<char>>,
) -> bool {
    match st {
        TargetStateV::Succeeded(r) => m.contains_key(k) && m[k].target == k && m[k].outcome
            == OutcomeV::Success(r) && m[k].new_value == nv,
        TargetStateV::Failed(re) => m.contains_key(k) && m[k].target == k && m[k].outcome
            == OutcomeV::Failure(re) && m[k].new_value == nv,
        TargetStateV::Skipped => spec_skip(m, k),
        _ => true,
    }
}

/// Two mappings agree about one key: present in both with the same record,
/// or absent from both.
pub open spec fn key_agrees(
    m1: Map<Seq<char>, CacheEntryV>,
    m2: Map<Seq<char>, CacheEntryV>,
    k: Seq<char>,
) -> bool {
    (m1.contains_key(k) <==> m2.contains_key(k)) && (m1.contains_key(k) ==> m1[k] == m2[k])
}

/// How many states of `s` are `Succeeded`.
pub open spec fn count_succeeded(s: Seq<TargetStateV>) -> nat
    decreases s.len(),
{
    if s.len() == 0 {
        0
    } else {
        count_succeeded(s.drop_last()) + if s.last() is Succeeded {
            1nat
        } else {
            0nat
        }
    }
}

/// How many states of `s` are `Failed`.
pub open spec fn count_failed(s: Seq<TargetStateV>) -> nat
    decreases s.len(),
{
    if s.len() == 0 {
        0
    } else {
        count_failed(s.drop_last()) + if s.last() is Failed {
            1nat
        } else {
            0nat
        }
    }
}

/// How many states of `s` are `Skipped`.
pub open spec fn count_skipped(s: Seq<TargetStateV>) -> nat
    decreases s.len(),
{
    if s.len() == 0 {
        0
    } else {
        count_skipped(s.drop_last()) + if s.last() is Skipped {
            1nat
        } else {
            0nat
        }
    }
}

/// The failed targets with their reasons, in target-list order.
pub open spec fn failures_of(targets: Seq<Seq<char>>, states: Seq<TargetStateV>) -> Seq<
    (Seq<char>, Seq<char>),
>
    decreases states.len(),
{
    if states.len() == 0 {
        Seq::empty()
    } else {
        let prefix = failures_of(targets.drop_last(), states.drop_last());
        match states.last() {
            TargetStateV::Failed(re) => prefix.push((targets.last(), re)),
            _ => prefix,
        }
    }
}

/// Each count is bounded by the number of states, and together the three
/// terminal counts cannot exceed it.
pub proof fn lemma_count_bounds(s: Seq<TargetStateV>)
    ensures
        count_succeeded(s) + count_failed(s) + count_skipped(s) <= s.len(),
        count_succeeded(s) <= s.len(),
        count_failed(s) <= s.len(),
        count_skipped(s) <= s.len(),
    decreases s.len(),
{
    if s.len() > 0 {
        lemma_count_bounds(s.drop_last());
    }
}

/// Partition law: in a completed run every target is exactly one of
/// skipped, succeeded or failed, so the three counts cover the whole list.
pub proof fn lemma_counts_partition(s: Seq<TargetStateV>)
    requires
        forall|i: int| 0 <= i < s.len() ==> is_terminal(#[trigger] s[i]),
    ensures
        count_succeeded(s) + count_failed(s) + count_skipped(s) == s.len(),
    decreases s.len(),
{
    if s.len() > 0 {
        assert(forall|i: int|
            0 <= i < s.drop_last().len() ==> is_terminal(#[trigger] s.drop_last()[i]));
        lemma_counts_partition(s.drop_last());
        assert(is_terminal(s[s.len() - 1]));
    }
}

/// The end-of-run aggregate: how many targets were attempted (settled this
/// run), how many of those succeeded and failed, and each failed target
/// with its reason. Skipped targets are not attempted.
pub struct BatchReport {
    pub attempted: usize,
    pub succeeded: usize,
    pub failed: usize,
    pub failures: Vec<(String, String)>,
}

/// One batch run over a fixed, deduplicated target list. Owns the progress
/// cache's mutation path: all records flow through `settle`.
pub struct BatchRun {
    targets: Vec<String>,
    states: Vec<TargetState>,
    cache: ProgressCache,
    new_value: Option<String>,
    initial: Ghost<Map<Seq<char>, CacheEntryV>>,
}

impl BatchRun {
    /// The target identifiers, in input order.
    pub closed spec fn targets_seq(&self) -> Seq<Seq<char>> {
        self.targets@.map_values(|t: String| t@)
    }

    /// The per-target states, aligned with `targets_seq`.
    pub closed spec fn states_seq(&self) -> Seq<TargetStateV> {
        self.states@.map_values(|s: TargetState| s@)
    }

    /// The progress cache as it stands now.
    pub closed spec fn spec_cache(&self) -> ProgressCache {
        self.cache
    }

    /// The cache mapping as it stands now.
    pub open spec fn cache_map(&self) -> Map<Seq<char>, CacheEntryV> {
        self.spec_cache().as_map()
    }

    /// The cache mapping as it stood when the run started (the snapshot
    /// that decided which targets to skip).
    pub closed spec fn initial_map(&self) -> Map<Seq<char>, CacheEntryV> {
        self.initial@
    }

    /// The action-specific payload stamped on every record this run writes.
    pub closed spec fn spec_new_value(&self) -> Option<Seq<char>> {
        match self.new_value {
            Some(v) => Some(v@),
            None => None,
        }
    }

    /// The state of target `i`.
    pub open spec fn state_of(&self, i: int) -> TargetStateV {
        self.states_seq()[i]
    }

    /// The run's invariant. Beyond shape (aligned lists, unique targets, a
    /// well-formed cache): a settled target's record is in the cache exactly
    /// as settled, a skipped target has its prior `Success` record, and an
    /// unsettled target's cache record is still the snapshot's.
    pub open spec fn wf(&self) -> bool {
        &&& self.spec_cache().wf()
        &&& self.states_seq().len() == self.targets_seq().len()
        &&& unique_str(self.targets_seq())
        &&& forall|i: int|
            0 <= i < self.targets_seq().len() ==> entry_matches(
                self.cache_map(),
                self.targets_seq()[i],
                #[trigger] self.state_of(i),
                self.spec_new_value(),
            )
        &&& forall|i: int|
            0 <= i < self.targets_seq().len() && ((#[trigger] self.state_of(i)) is Pending
                || self.state_of(i) is Running) ==> key_agrees(
                self.cache_map(),
                self.initial_map(),
                self.targets_seq()[i],
            )
    }

    /// True once every target is in a terminal state.
    pub open spec fn spec_complete(&self) -> bool {
        forall|i: int| 0 <= i < self.states_seq().len() ==> is_terminal(#[trigger] self.state_of(i))
    }

    /// Starts a run: snapshots the cache and partitions the target list —
    /// a target whose last recorded outcome is `Success` is skipped, every
    /// other target is pending.
    pub fn start(targets: Vec<String>, cache: ProgressCache, new_value: Option<String>) -> (run:
        BatchRun)
        requires
            cache.wf(),
            unique_str(targets@.map_values(|t: String| t@)),
        ensures
            run.wf(),
            run.targets_seq() == targets@.map_values(|t: String| t@),
            run.cache_map() == cache.as_map(),
            run.initial_map() == cache.as_map(),
            run.states_seq().len() == run.targets_seq().len(),
            forall|i: int|
                0 <= i < run.targets_seq().len() ==> #[trigger] run.state_of(i) == (if spec_skip(
                    cache.as_map(),
                    run.targets_seq()[i],
                ) {
                    TargetStateV::Skipped
                } else {
                    TargetStateV::Pending
                }),
    {
        let n = targets.len();
        let mut states: Vec<TargetState> = Vec::new();
        let mut i: usize = 0;
        while i < n
            invariant
                cache.wf(),
                n == targets@.len(),
                i <= n,
                states@.len() == i,
                forall|j: int|
                    0 <= j < i ==> (#[trigger] states@[j])@ == (if spec_skip(
                        cache.as_map(),
                        targets@.map_values(|t: String| t@)[j],
                    ) {
                        TargetStateV::Skipped
                    } else {
                        TargetStateV::Pending
                    }),
            decreases n - i,
        {
            if cache.is_recorded_success(&targets[i]) {
                states.push(TargetState::Skipped);
            } else {
                states.push(TargetState::Pending);
            }
            i += 1;
        }
        let run = BatchRun {
            targets,
            states,
            cache,
            new_value,
            initial: Ghost(cache.as_map()),
        };
        run
    }

    /// How many targets the run has.
    pub fn target_count(&self) -> (n: usize)
        ensures
            n == self.targets_seq().len(),
    {
        self.targets.len()
    }

    /// The identifier of target `i`.
    pub fn target_at(&self, i: usize) -> (t: &String)
        requires
            i < self.targets_seq().len(),
        ensures
            t@ == self.targets_seq()[i as int],
    {
        &self.targets[i]
    }

    /// The progress cache, for persisting after each settlement.
    pub fn cache(&self) -> (c: &ProgressCache)
        ensures
            *c == self.spec_cache(),
    {
        &self.cache
    }

    /// Takes the next pending target for a worker, marking it running. Any
    /// number of targets may be running at once (the caller bounds it by
    /// its pool size); each is taken exactly once.
    pub fn next_pending(&mut self) -> (r: Option<usize>)
        requires
            old(self).wf(),
        ensures
            final(self).wf(),
            final(self).targets_seq() == old(self).targets_seq(),
            final(self).cache_map() == old(self).cache_map(),
            final(self).initial_map() == old(self).initial_map(),
            final(self).spec_new_value() == old(self).spec_new_value(),
            match r {
                Some(i) => 0 <= i < old(self).targets_seq().len() && old(self).state_of(i as int)
                    is Pending && final(self).state_of(i as int) is Running && forall|j: int|
                    0 <= j < old(self).targets_seq().len() && j != i ==> final(self).state_of(j)
                        == old(self).state_of(j),
                None => final(self).states_seq() == old(self).states_seq() && forall|i: int|
                    0 <= i < old(self).targets_seq().len() ==> !(old(self).state_of(i) is Pending),
            },
    {
        let n = self.states.len();
        let mut i: usize = 0;
        while i < n
            invariant
                *self == *old(self),
                self.wf(),
                n == self.states@.len(),
                i <= n,
                forall|j: int| 0 <= j < i ==> !(#[trigger] self.states@[j]@ is Pending),
            decreases n - i,
        {
            let is_pending = match &self.states[i] {
                TargetState::Pending => true,
                _ => false,
            };
            if is_pending {
                let ghost s0 = self.states@.map_values(|s: TargetState| s@);
                proof {
                    assert(s0[i as int] == self.states@[i as int]@);
                    assert(old(self).state_of(i as int) is Pending);
                }
                self.states[i] = TargetState::Running;
                proof {
                    assert(self.states@.map_values(|s: TargetState| s@) =~= s0.update(
                        i as int,
                        TargetStateV::Running,
                    ));
                    assert forall|j: int|
                        0 <= j < self.targets_seq().len() implies entry_matches(
                        self.cache_map(),
                        self.targets_seq()[j],
                        #[trigger] self.state_of(j),
                        self.spec_new_value(),
                    ) by {
                        if j != i as int {
                            assert(self.state_of(j) == old(self).state_of(j));
                            assert(entry_matches(
                                old(self).cache_map(),
                                old(self).targets_seq()[j],
                                old(self).state_of(j),
                                old(self).spec_new_value(),
                            ));
                        }
                    }
                    assert forall|j: int|
                        0 <= j < self.targets_seq().len() && ((#[trigger] self.state_of(j))
                            is Pending || self.state_of(j) is Running) implies key_agrees(
                        self.cache_map(),
                        self.initial_map(),
                        self.targets_seq()[j],
                    ) by {
                        if j == i as int {
                            assert(old(self).state_of(j) is Pending);
                        } else {
                            assert(self.state_of(j) == old(self).state_of(j));
                        }
                        assert(key_agrees(
                            old(self).cache_map(),
                            old(self).initial_map(),
                            old(self).targets_seq()[j],
                        ));
                    }
                }
                return Some(i);
            }
            i += 1;
        }
        proof {
            assert forall|j: int|
                0 <= j < old(self).targets_seq().len() implies !(old(self).state_of(j)
                is Pending) by {
                assert(!(self.states@[j]@ is Pending));
                assert(old(self).state_of(j) == self.states@[j]@);
            }
        }
        None
    }

    /// Settles one running target: records the outcome in the cache (the
    /// single-writer mutation path) and moves the target to its terminal
    /// state. No other target's state, and no other target's cache record,
    /// changes — a failure is isolated to its own target.
    pub fn settle(&mut self, i: usize, outcome: Outcome)
        requires
            old(self).wf(),
            i < old(self).targets_seq().len(),
            old(self).state_of(i as int) is Running,
        ensures
            final(self).wf(),
            final(self).targets_seq() == old(self).targets_seq(),
            final(self).initial_map() == old(self).initial_map(),
            final(self).spec_new_value() == old(self).spec_new_value(),
            final(self).state_of(i as int) == (match outcome@ {
                OutcomeV::Success(r) => TargetStateV::Succeeded(r),
                OutcomeV::Failure(re) => TargetStateV::Failed(re),
            }),
            forall|j: int|
                0 <= j < old(self).targets_seq().len() && j != i ==> final(self).state_of(j) == old(
                    self,
                ).state_of(j),
            final(self).cache_map() == old(self).cache_map().insert(
                old(self).targets_seq()[i as int],
                CacheEntryV {
                    target: old(self).targets_seq()[i as int],
                    outcome: outcome@,
                    new_value: old(self).spec_new_value(),
                },
            ),
    {
        let ghost s0 = self.states@.map_values(|s: TargetState| s@);
        let st = match &outcome {
            Outcome::Success(r) => TargetState::Succeeded(r.clone()),
            Outcome::Failure(e) => TargetState::Failed(e.clone()),
        };
        self.states[i] = st;
        proof {
            assert(self.states@.map_values(|s: TargetState| s@) =~= s0.update(
                i as int,
                match outcome@ {
                    OutcomeV::Success(r) => TargetStateV::Succeeded(r),
                    OutcomeV::Failure(re) => TargetStateV::Failed(re),
                },
            ));
        }
        let new_value = match &self.new_value {
            Some(v) => Some(v.clone()),
            None => None,
        };
        let entry = CacheEntry { target: self.targets[i].clone(), outcome, new_value };
        self.cache.record(entry);
        proof {
            let k = self.targets_seq()[i as int];
            assert forall|j: int|
                0 <= j < self.targets_seq().len() implies entry_matches(
                self.cache_map(),
                self.targets_seq()[j],
                #[trigger] self.state_of(j),
                self.spec_new_value(),
            ) by {
                if j != i {
                    assert(self.state_of(j) == old(self).state_of(j));
                    assert(self.targets_seq()[j] != k);
                    assert(entry_matches(
                        old(self).cache_map(),
                        old(self).targets_seq()[j],
                        old(self).state_of(j),
                        old(self).spec_new_value(),
                    ));
                }
            }
            assert forall|j: int|
                0 <= j < self.targets_seq().len() && ((#[trigger] self.state_of(j)) is Pending
                    || self.state_of(j) is Running) implies key_agrees(
                self.cache_map(),
                self.initial_map(),
                self.targets_seq()[j],
            ) by {
                assert(j != i);
                assert(self.state_of(j) == old(self).state_of(j));
                assert(self.targets_seq()[j] != k);
                assert(key_agrees(
                    old(self).cache_map(),
                    old(self).initial_map(),
                    old(self).targets_seq()[j],
                ));
            }
        }
    }

    /// True once no target is pending or running.
    pub fn is_complete(&self) -> (r: bool)
        ensures
            r == self.spec_complete(),
    {
        let n = self.states.len();
        let mut i: usize = 0;
        while i < n
            invariant
                n == self.states@.len(),
                i <= n,
                forall|j: int| 0 <= j < i ==> is_terminal(#[trigger] self.states@[j]@),
            decreases n - i,
        {
            let terminal = match &self.states[i] {
                TargetState::Pending => false,
                TargetState::Running => false,
                _ => true,
            };
            if !terminal {
                proof {
                    assert(self.states_seq()[i as int] == self.states@[i as int]@);
                    assert(!is_terminal(self.state_of(i as int)));
                }
                return false;
            }
            i += 1;
        }
        proof {
            assert forall|j: int|
                0 <= j < self.states_seq().len() implies is_terminal(
                #[trigger] self.state_of(j),
            ) by {
                assert(self.states_seq()[j] == self.states@[j]@);
                assert(is_terminal(self.states@[j]@));
            }
        }
        true
    }

    /// Aggregates the final report of a completed run: the attempted count
    /// (settled this run — skipped targets are not attempted), the
    /// succeeded and failed counts, and every failed target with its
    /// reason, in input order.
    pub fn report(&self) -> (rep: BatchReport)
        requires
            self.wf(),
            self.spec_complete(),
        ensures
            rep.succeeded == count_succeeded(self.states_seq()),
            rep.failed == count_failed(self.states_seq()),
            rep.attempted == rep.succeeded + rep.failed,
            rep.failures@.map_values(|p: (String, String)| (p.0@, p.1@)) == failures_of(
                self.targets_seq(),
                self.states_seq(),
            ),
    {
        let n = self.states.len();
        let mut succeeded: usize = 0;
        let mut failed: usize = 0;
        let mut failures: Vec<(String, String)> = Vec::new();
        let mut i: usize = 0;
        while i < n
            invariant
                self.wf(),
                n == self.states@.len(),
                n == self.targets@.len(),
                i <= n,
                succeeded == count_succeeded(self.states_seq().take(i as int)),
                failed == count_failed(self.states_seq().take(i as int)),
                failures@.map_values(|p: (String, String)| (p.0@, p.1@)) == failures_of(
                    self.targets_seq().take(i as int),
                    self.states_seq().take(i as int),
                ),
            decreases n - i,
        {
            proof {
                lemma_count_bounds(self.states_seq().take(i as int));
                assert(self.states_seq().take(i as int + 1).drop_last() =~= self.states_seq().take(
                    i as int,
                ));
                assert(self.targets_seq().take(i as int + 1).drop_last() =~= self.targets_seq().take(
                    i as int,
                ));
                assert(self.states_seq().take(i as int + 1).last() == self.states_seq()[i as int]);
                assert(self.targets_seq().take(i as int + 1).last() == self.targets_seq()[i as int]);
            }
            match &self.states[i] {
                TargetState::Succeeded(_) => {
                    succeeded += 1;
                },
                TargetState::Failed(re) => {
                    let ghost f0 = failures@.map_values(|p: (String, String)| (p.0@, p.1@));
                    failures.push((self.targets[i].clone(), re.clone()));
                    failed += 1;
                    proof {
                        assert(failures@.map_values(|p: (String, String)| (p.0@, p.1@)) =~= f0.push(
                            (self.targets_seq()[i as int], self.states_seq()[i as int]->Failed_0),
                        ));
                    }
                },
                _ => {},
            }
            i += 1;
        }
        proof {
            assert(self.states_seq().take(n as int) =~= self.states_seq());
            assert(self.targets_seq().take(n as int) =~= self.targets_seq());
            lemma_count_bounds(self.states_seq());
        }
        let attempted = succeeded + failed;
        BatchReport { attempted, succeeded, failed, failures }
    }
}

/// Idempotence law: a target that settled `Succeeded`, or was skipped, in a
/// run leaves a `Success` record in the cache — so a new run started from
/// this run's cache skips it and attempts nothing for it again.
pub proof fn lemma_idempotence(run: BatchRun, i: int)
    requires
        run.wf(),
        0 <= i < run.targets_seq().len(),
        run.state_of(i) is Succeeded || run.state_of(i) is Skipped,
    ensures
        spec_skip(run.cache_map(), run.targets_seq()[i]),
{
    assert(entry_matches(run.cache_map(), run.targets_seq()[i], run.state_of(i), run.spec_new_value()));
}

/// No-loss law: after a completed run the cache holds a record for every
/// target of the input list (and, the cache being a mapping over unique
/// targets, exactly one per target).
pub proof fn lemma_no_loss(run: BatchRun, i: int)
    requires
        run.wf(),
        run.spec_complete(),
        0 <= i < run.targets_seq().len(),
    ensures
        run.cache_map().contains_key(run.targets_seq()[i]),
{
    assert(is_terminal(run.state_of(i)));
    assert(entry_matches(run.cache_map(), run.targets_seq()[i], run.state_of(i), run.spec_new_value()));
}

/// Crash-resume law: however far a run got, a target it has not settled
/// still has exactly the cache record the run started from — so a fresh
/// run over the same cache file skips it or attempts it exactly as this
/// run would have: only unfinished targets and previously failed ones are
/// attempted again.
pub proof fn lemma_crash_resume(run: BatchRun, i: int)
    requires
        run.wf(),
        0 <= i < run.targets_seq().len(),
        run.state_of(i) is Pending || run.state_of(i) is Running,
    ensures
        spec_skip(run.cache_map(), run.targets_seq()[i]) == spec_skip(
            run.initial_map(),
            run.targets_seq()[i],
        ),
{
    assert(key_agrees(run.cache_map(), run.initial_map(), run.targets_seq()[i]));
}

} // verus!
