//! The progress cache: a durable mapping from target identifier to the last
//! outcome recorded for it. The engine loads it once at batch start, uses
//! that snapshot to decide which targets to skip, and records each settled
//! outcome into it as workers complete. Decoding the cache file into records
//! and writing them back atomically is the caller's side of the boundary;
//! this module owns the mapping itself.
use vstd::prelude::*;

use crate::outcome::{CacheEntry, CacheEntryV};

verus! {

/// True when no two records in `s` are for the same target.
pub open spec fn unique_targets(s: Seq<CacheEntryV>) -> bool {
    forall|i: int, j: int| 0 <= i < j < s.len() ==> s[i].target != s[j].target
}

/// True when some record in `s` is for target `k`.
pub open spec fn has_target(s: Seq<CacheEntryV>, k: Seq<char>) -> bool {
    exists|i: int| 0 <= i < s.len() && s[i].target == k
}

/// The index of a record for target `k` (unique when targets are unique).
pub open spec fn target_index(s: Seq<CacheEntryV>, k: Seq<char>) -> int {
    choose|i: int| 0 <= i < s.len() && s[i].target == k
}

/// The mapping that a sequence of records with unique targets represents.
pub open spec fn records_map(s: Seq<CacheEntryV>) -> Map<Seq<char>, CacheEntryV> {
    Map::new(|k: Seq<char>| has_target(s, k), |k: Seq<char>| s[target_index(s, k)])
}

/// The mapping left by replaying a sequence of records in order, a later
/// record for the same target replacing the earlier one.
pub open spec fn replayed(s: Seq<CacheEntryV>) -> Map<Seq<char>, CacheEntryV>
    decreases s.len(),
{
    if s.len() == 0 {
        Map::empty()
    } else {
        replayed(s.drop_last()).insert(s.last().target, s.last())
    }
}

/// The resumability rule: a target is skipped exactly when its last recorded
/// outcome is `Success`. A target with a `Failure` entry, or with no entry,
/// is attempted.
pub open spec fn spec_skip(m: Map<Seq<char>, CacheEntryV>, k: Seq<char>) -> bool {
    m.contains_key(k) && m[k].outcome is Success
}

/// With unique targets, the record at index `i` is the one `target_index`
/// finds for its target.
pub proof fn lemma_target_index(s: Seq<CacheEntryV>, i: int)
    requires
        unique_targets(s),
        0 <= i < s.len(),
    ensures
        target_index(s, s[i].target) == i,
{
    let k = s[i].target;
    assert(has_target(s, k));
    let j = target_index(s, k);
    assert(0 <= j < s.len() && s[j].target == k);
}

/// Replacing the record at a target's own index is `insert` on the mapping.
pub proof fn lemma_records_map_update(s: Seq<CacheEntryV>, i: int, e: CacheEntryV)
    requires
        unique_targets(s),
        0 <= i < s.len(),
        s[i].target == e.target,
    ensures
        unique_targets(s.update(i, e)),
        records_map(s.update(i, e)) =~= records_map(s).insert(e.target, e),
{
    let s1 = s.update(i, e);
    assert(has_target(s, e.target));
    assert forall|a: int, b: int| 0 <= a < b < s1.len() implies s1[a].target != s1[b].target by {
        assert(s1[a].target == s[a].target);
        assert(s1[b].target == s[b].target);
    }
    assert forall|k: Seq<char>| has_target(s1, k) == has_target(s, k) by {
        assert forall|j: int| 0 <= j < s.len() implies s1[j].target == s[j].target by {}
        if has_target(s1, k) {
            let j = choose|j: int| 0 <= j < s1.len() && s1[j].target == k;
            assert(s[j].target == k);
        }
        if has_target(s, k) {
            let j = choose|j: int| 0 <= j < s.len() && s[j].target == k;
            assert(s1[j].target == k);
        }
    }
    assert forall|k: Seq<char>| #[trigger] records_map(s1).contains_key(k) implies records_map(
        s1,
    )[k] == records_map(s).insert(e.target, e)[k] by {
        let j = target_index(s1, k);
        assert(0 <= j < s1.len() && s1[j].target == k);
        lemma_target_index(s1, j);
        if k == e.target {
            lemma_target_index(s1, i);
            assert(j == i);
        } else {
            assert(j != i);
            assert(s[j].target == k);
            lemma_target_index(s, j);
        }
    }
}

/// Appending a record for a fresh target is `insert` on the mapping.
pub proof fn lemma_records_map_push(s: Seq<CacheEntryV>, e: CacheEntryV)
    requires
        unique_targets(s),
        !has_target(s, e.target),
    ensures
        unique_targets(s.push(e)),
        records_map(s.push(e)) =~= records_map(s).insert(e.target, e),
{
    let s1 = s.push(e);
    assert forall|a: int, b: int| 0 <= a < b < s1.len() implies s1[a].target != s1[b].target by {
        if b < s.len() {
            assert(s1[a] == s[a] && s1[b] == s[b]);
        } else {
            assert(s1[b] == e);
            assert(s1[a] == s[a]);
            assert(s[a].target != e.target);
        }
    }
    assert forall|k: Seq<char>| #[trigger] records_map(s1).contains_key(k) implies records_map(
        s1,
    )[k] == records_map(s).insert(e.target, e)[k] by {
        let j = target_index(s1, k);
        assert(0 <= j < s1.len() && s1[j].target == k);
        if k == e.target {
            lemma_target_index(s1, s.len() as int);
            assert(j == s.len());
        } else {
            assert(j < s.len());
            assert(s[j].target == k);
            assert(has_target(s, k));
            lemma_target_index(s, j);
        }
    }
    assert forall|k: Seq<char>| #[trigger] records_map(s).insert(e.target, e).contains_key(k)
        implies records_map(s1).contains_key(k) by {
        if k == e.target {
            assert(s1[s.len() as int].target == k);
        } else {
            let j = choose|j: int| 0 <= j < s.len() && s[j].target == k;
            assert(s1[j].target == k);
        }
    }
}

/// The progress cache: all records of one batch run, at most one per target.
/// The in-memory mapping is the single mutable shared resource of a run; the
/// caller serializes `record` calls and persists the records after each one.
pub struct ProgressCache {
    records: Vec<CacheEntry>,
}

impl ProgressCache {
    /// The records as a sequence of models, in storage order.
    pub closed spec fn records_seq(&self) -> Seq<CacheEntryV> {
        self.records@.map_values(|e: CacheEntry| e@)
    }

    /// Well-formed: at most one record per target.
    pub open spec fn wf(&self) -> bool {
        unique_targets(self.records_seq())
    }

    /// The mapping this cache represents.
    pub open spec fn as_map(&self) -> Map<Seq<char>, CacheEntryV> {
        records_map(self.records_seq())
    }

    /// An empty cache: what loading an absent cache file yields.
    pub fn new() -> (c: ProgressCache)
        ensures
            c.wf(),
            c.as_map() =~= Map::<Seq<char>, CacheEntryV>::empty(),
            c.records_seq() =~= Seq::<CacheEntryV>::empty(),
    {
        let c = ProgressCache { records: Vec::new() };
        proof {
            assert forall|k: Seq<char>| !records_map(c.records_seq()).contains_key(k) by {
                assert(!has_target(c.records_seq(), k));
            }
        }
        c
    }

    /// Number of records held.
    pub fn len(&self) -> (n: usize)
        ensures
            n == self.records_seq().len(),
    {
        self.records.len()
    }

    /// Index of the record for `target`, if one exists.
    fn find(&self, target: &String) -> (r: Option<usize>)
        ensures
            match r {
                Some(i) => 0 <= i < self.records_seq().len() && self.records_seq()[i as int].target
                    == target@,
                None => !has_target(self.records_seq(), target@),
            },
    {
        let n = self.records.len();
        let mut i: usize = 0;
        while i < n
            invariant
                n == self.records_seq().len(),
                i <= n,
                forall|j: int| 0 <= j < i ==> self.records_seq()[j].target != target@,
            decreases n - i,
        {
            proof {
                assert(self.records_seq()[i as int] == self.records@[i as int]@);
            }
            let hit: bool = self.records[i].target.eq(target);
            if hit {
                return Some(i);
            }
            i += 1;
        }
        None
    }

    /// Pure lookup of the record for `target`; no side effect.
    pub fn get(&self, target: &String) -> (r: Option<&CacheEntry>)
        requires
            self.wf(),
        ensures
            match r {
                Some(e) => self.as_map().contains_key(target@) && e@ == self.as_map()[target@],
                None => !self.as_map().contains_key(target@),
            },
    {
        match self.find(target) {
            Some(i) => {
                proof {
                    lemma_target_index(self.records_seq(), i as int);
                }
                Some(&self.records[i])
            },
            None => None,
        }
    }

    /// The resumability test: true when `target`'s last recorded outcome is
    /// `Success`.
    pub fn is_recorded_success(&self, target: &String) -> (r: bool)
        requires
            self.wf(),
        ensures
            r == spec_skip(self.as_map(), target@),
    {
        match self.get(target) {
            Some(e) => e.outcome.is_success(),
            None => false,
        }
    }

    /// Rebuilds a cache from records a caller decoded from a cache file,
    /// replaying them in order: a later record for a target wins, as when
    /// the records were first written.
    pub fn from_records(list: Vec<CacheEntry>) -> (c: ProgressCache)
        ensures
            c.wf(),
            c.as_map() == replayed(list@.map_values(|e: CacheEntry| e@)),
    {
        let ghost models = list@.map_values(|e: CacheEntry| e@);
        let mut c = ProgressCache::new();
        let n = list.len();
        let mut i: usize = 0;
        while i < n
            invariant
                n == list@.len(),
                i <= n,
                models == list@.map_values(|e: CacheEntry| e@),
                c.wf(),
                c.as_map() == replayed(models.take(i as int)),
            decreases n - i,
        {
            c.record(list[i].clone());
            proof {
                assert(models.take(i as int + 1).drop_last() =~= models.take(i as int));
                assert(models.take(i as int + 1).last() == list@[i as int]@);
            }
            i += 1;
        }
        proof {
            assert(models.take(n as int) =~= models);
        }
        c
    }

    /// The records held, in storage order: what a caller persists to the
    /// cache file after each settlement.
    pub fn records(&self) -> (v: &Vec<CacheEntry>)
        ensures
            v@.map_values(|e: CacheEntry| e@) == self.records_seq(),
    {
        &self.records
    }

    /// The recorded target identifiers, in storage order: how a prior
    /// run's cache file doubles as a target list.
    pub fn targets(&self) -> (v: Vec<String>)
        ensures
            v@.map_values(|t: String| t@) == self.records_seq().map_values(
                |e: CacheEntryV| e.target,
            ),
    {
        let n = self.records.len();
        let mut v: Vec<String> = Vec::new();
        let mut i: usize = 0;
        while i < n
            invariant
                n == self.records@.len(),
                i <= n,
                v@.len() == i,
                forall|j: int| 0 <= j < i ==> #[trigger] v@[j]@ == self.records_seq()[j].target,
            decreases n - i,
        {
            v.push(self.records[i].target.clone());
            i += 1;
        }
        proof {
            assert(v@.map_values(|t: String| t@) =~= self.records_seq().map_values(
                |e: CacheEntryV| e.target,
            ));
        }
        v
    }

    /// Records one settled outcome: a later record for the same target
    /// replaces the earlier one, and no other target's record changes.
    pub fn record(&mut self, entry: CacheEntry)
        requires
            old(self).wf(),
        ensures
            final(self).wf(),
            final(self).as_map() == old(self).as_map().insert(entry@.target, entry@),
            final(self).records_seq().len() <= old(self).records_seq().len() + 1,
    {
        let ghost ev = entry@;
        let ghost s0 = self.records_seq();
        match self.find(&entry.target) {
            Some(i) => {
                self.records[i] = entry;
                proof {
                    assert(self.records_seq() =~= s0.update(i as int, ev));
                    lemma_records_map_update(s0, i as int, ev);
                }
            },
            None => {
                self.records.push(entry);
                proof {
                    assert(self.records_seq() =~= s0.push(ev));
                    lemma_records_map_push(s0, ev);
                }
            },
        }
    }
}

} // verus!
