//! The target list loader: resolves the set of target identifiers to
//! process, from an explicit target-list text (a JSON array of identifier
//! strings) or from the identifiers a prior run's cache recorded. The
//! result is a deduplicated, non-empty, ordered list; it never consults the
//! cache for skip decisions — that happens later, when the run starts.
use vstd::prelude::*;

use crate::cache::ProgressCache;
use crate::outcome::CacheEntryV;
use crate::runner::unique_str;
use crate::EngineError;

verus! {

/// What a target-list text parses to when it is a JSON array of strings:
/// named here so contracts can speak of the parse without restating JSON.
pub uninterp spec fn json_string_list(s: Seq<char>) -> Option<Seq<Seq<char>>>;

/// Relies on serde_json::from_str::<Vec<String>>: whether a text parses as
/// a JSON array of strings, and what it parses to, depend on the text
/// alone.
#[verifier::external_body]
fn parse_string_list(text: &str) -> (r: Option<Vec<String>>)
    ensures
        match r {
            Some(v) => json_string_list(text@) == Some(v@.map_values(|t: String| t@)),
            None => json_string_list(text@) is None,
        },
{
    serde_json::from_str::<Vec<String>>(text).ok()
}

/// `s` with every repeated identifier dropped: the first occurrence stays,
/// in its place.
pub open spec fn dedup_first(s: Seq<Seq<char>>) -> Seq<Seq<char>>
    decreases s.len(),
{
    if s.len() == 0 {
        Seq::empty()
    } else {
        let prefix = dedup_first(s.drop_last());
        if prefix.contains(s.last()) {
            prefix
        } else {
            prefix.push(s.last())
        }
    }
}

/// Deduplication leaves no two equal identifiers.
pub proof fn lemma_dedup_unique(s: Seq<Seq<char>>)
    ensures
        unique_str(dedup_first(s)),
    decreases s.len(),
{
    if s.len() > 0 {
        lemma_dedup_unique(s.drop_last());
        let prefix = dedup_first(s.drop_last());
        if !prefix.contains(s.last()) {
            assert forall|i: int, j: int|
                0 <= i < j < prefix.push(s.last()).len() implies prefix.push(s.last())[i]
                != prefix.push(s.last())[j] by {
                if j == prefix.len() as int {
                    assert(!prefix.contains(prefix.push(s.last())[j]));
                    assert(prefix.push(s.last())[i] == prefix[i]);
                }
            }
        }
    }
}

/// True exactly when `v` holds a string whose characters are `x`'s.
fn contains_string(v: &Vec<String>, x: &String) -> (r: bool)
    ensures
        r == v@.map_values(|t: String| t@).contains(x@),
{
    let n = v.len();
    let mut i: usize = 0;
    while i < n
        invariant
            n == v@.len(),
            i <= n,
            forall|j: int| 0 <= j < i ==> #[trigger] v@[j]@ != x@,
        decreases n - i,
    {
        let hit: bool = v[i].eq(x);
        if hit {
            proof {
                assert(v@.map_values(|t: String| t@)[i as int] == x@);
            }
            return true;
        }
        i += 1;
    }
    proof {
        assert(!v@.map_values(|t: String| t@).contains(x@));
    }
    false
}

/// `list` with every repeated identifier dropped, first occurrences kept
/// in order.
fn dedup(list: Vec<String>) -> (r: Vec<String>)
    ensures
        r@.map_values(|t: String| t@) == dedup_first(list@.map_values(|t: String| t@)),
{
    let ghost models = list@.map_values(|t: String| t@);
    let mut out: Vec<String> = Vec::new();
    let n = list.len();
    let mut i: usize = 0;
    while i < n
        invariant
            n == list@.len(),
            i <= n,
            models == list@.map_values(|t: String| t@),
            out@.map_values(|t: String| t@) == dedup_first(models.take(i as int)),
        decreases n - i,
    {
        proof {
            assert(models.take(i as int + 1).drop_last() =~= models.take(i as int));
            assert(models.take(i as int + 1).last() == list@[i as int]@);
        }
        if !contains_string(&out, &list[i]) {
            let ghost o0 = out@.map_values(|t: String| t@);
            out.push(list[i].clone());
            proof {
                assert(out@.map_values(|t: String| t@) =~= o0.push(list@[i as int]@));
            }
        }
        i += 1;
    }
    proof {
        assert(models.take(n as int) =~= models);
    }
    out
}

/// What the loader resolves, if anything: the parsed explicit list,
/// deduplicated, when a list text is supplied; else the cache's recorded
/// identifiers; empty results and unparsable texts resolve to nothing.
pub open spec fn resolved_targets(
    text: Option<Seq<char>>,
    cache_targets: Option<Seq<Seq<char>>>,
) -> Option<Seq<Seq<char>>> {
    match text {
        Some(t) => match json_string_list(t) {
            Some(l) => if dedup_first(l).len() > 0 {
                Some(dedup_first(l))
            } else {
                None
            },
            None => None,
        },
        None => match cache_targets {
            Some(ts) => if ts.len() > 0 {
                Some(ts)
            } else {
                None
            },
            None => None,
        },
    }
}

/// The identifiers a cache's records carry, in storage order.
pub open spec fn cache_targets_of(c: ProgressCache) -> Seq<Seq<char>> {
    c.records_seq().map_values(|e: CacheEntryV| e.target)
}

/// Resolves the targets of a run: from the explicit target-list text when
/// one is supplied, else from the identifiers recorded in a prior run's
/// cache. Fails with `InvalidInput` exactly when neither source is
/// supplied, the text does not parse as a list of identifiers, or the
/// resolved list is empty. The result is deduplicated, non-empty and in
/// source order.
pub fn resolve_targets(list_text: Option<&String>, cache: Option<&ProgressCache>) -> (r: Result<
    Vec<String>,
    EngineError,
>)
    requires
        match cache {
            Some(c) => c.wf(),
            None => true,
        },
    ensures
        match r {
            Ok(v) => {
                &&& resolved_targets(
                    match list_text {
                        Some(t) => Some(t@),
                        None => None,
                    },
                    match cache {
                        Some(c) => Some(cache_targets_of(*c)),
                        None => None,
                    },
                ) == Some(v@.map_values(|t: String| t@))
                &&& v@.len() > 0
                &&& unique_str(v@.map_values(|t: String| t@))
            },
            Err(e) => {
                &&& resolved_targets(
                    match list_text {
                        Some(t) => Some(t@),
                        None => None,
                    },
                    match cache {
                        Some(c) => Some(cache_targets_of(*c)),
                        None => None,
                    },
                ) is None
                &&& e is InvalidInput
            },
        },
{
    match list_text {
        Some(text) => {
            match parse_string_list(text.as_str()) {
                Some(list) => {
                    let deduped = dedup(list);
                    proof {
                        lemma_dedup_unique(list@.map_values(|t: String| t@));
                    }
                    if deduped.len() == 0 {
                        Err(
                            EngineError::InvalidInput(
                                "the target list parses to zero entries".to_owned(),
                            ),
                        )
                    } else {
                        Ok(deduped)
                    }
                },
                None => Err(
                    EngineError::InvalidInput(
                        "the target list cannot be read as a list of identifiers".to_owned(),
                    ),
                ),
            }
        },
        None => {
            match cache {
                Some(c) => {
                    let ts = c.targets();
                    proof {
                        assert forall|i: int, j: int|
                            0 <= i < j < ts@.len() implies (#[trigger] ts@[i])@ != (
                        #[trigger] ts@[j])@ by {
                            assert(c.records_seq()[i].target != c.records_seq()[j].target);
                            assert(ts@.map_values(|t: String| t@)[i] == c.records_seq().map_values(
                                |e: CacheEntryV| e.target,
                            )[i]);
                            assert(ts@.map_values(|t: String| t@)[j] == c.records_seq().map_values(
                                |e: CacheEntryV| e.target,
                            )[j]);
                            assert(ts@[i]@ == c.records_seq()[i].target);
                            assert(ts@[j]@ == c.records_seq()[j].target);
                        }
                    }
                    if ts.len() == 0 {
                        Err(
                            EngineError::InvalidInput(
                                "the cache holds no target identifiers".to_owned(),
                            ),
                        )
                    } else {
                        Ok(ts)
                    }
                },
                None => Err(
                    EngineError::InvalidInput(
                        "neither a target list nor a cache file is supplied".to_owned(),
                    ),
                ),
            }
        },
    }
}

} // verus!
