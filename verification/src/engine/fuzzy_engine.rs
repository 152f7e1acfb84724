//! Approximate matching of a query against candidate names (Skim's
//! algorithm, from the `fuzzy-matcher` crate), ranked by score.
use vstd::prelude::*;

use fuzzy_matcher::skim::SkimMatcherV2;
use fuzzy_matcher::FuzzyMatcher;

use crate::ranking::{descending, first_n, keep_first, lemma_sort_desc, sort_by_score_desc, sort_desc};

verus! {

#[verifier::external_type_specification]
#[verifier::external_body]
pub struct ExSkimMatcher(SkimMatcherV2);

/// What `SkimMatcherV2::default().fuzzy_match(choice, pattern)` returns: the
/// score of the best alignment of `pattern` in `choice`, or `None` when the
/// characters of `pattern` do not occur in order in `choice`.
pub uninterp spec fn skim_score(choice: Seq<char>, pattern: Seq<char>) -> Option<i64>;

/// Builds a matcher with `SkimMatcherV2::default()` (smart case, default
/// scores); nothing is stated of the value, which stays opaque.
#[verifier::external_body]
fn default_matcher() -> SkimMatcherV2 {
    SkimMatcherV2::default()
}

/// A fuzzy matcher with Skim's default configuration.
pub struct FuzzyEngine {
    matcher: SkimMatcherV2,
    /// Records that `matcher` was built by `SkimMatcherV2::default()`.
    default_config: Ghost<bool>,
}

/// The candidates that `query` matches, in their order, with their score.
pub open spec fn scored_candidates(cands: Seq<Seq<char>>, query: Seq<char>, n: int) -> Seq<(usize, i128)>
    decreases n,
{
    if n <= 0 || n > cands.len() {
        seq![]
    } else {
        let r = scored_candidates(cands, query, n - 1);
        match skim_score(cands[n - 1], query) {
            Some(sc) => r.push(((n - 1) as usize, sc as i128)),
            None => r,
        }
    }
}

/// The (at most `max`) best matches: candidate position and score, from the
/// highest score down, equal scores in candidate order.
pub open spec fn best_matches(cands: Seq<Seq<char>>, query: Seq<char>, max: nat) -> Seq<(usize, i128)> {
    first_n(sort_desc(scored_candidates(cands, query, cands.len() as int)), max)
}

/// The text of each string.
pub open spec fn texts(v: Seq<String>) -> Seq<Seq<char>> {
    v.map_values(|s: String| s@)
}

impl FuzzyEngine {
    /// The engine's matcher is `SkimMatcherV2::default()`, whose scores
    /// `skim_score` names.
    pub closed spec fn uses_default_matcher(self) -> bool {
        self.default_config@
    }

    /// Every engine holds a matcher built by `SkimMatcherV2::default()`.
    #[verifier::type_invariant]
    spec fn holds_default_matcher(self) -> bool {
        self.default_config@
    }

    /// A matcher with Skim's default configuration.
    pub fn new() -> (e: Self)
        ensures
            e.uses_default_matcher(),
    {
        FuzzyEngine { matcher: default_matcher(), default_config: Ghost(true) }
    }

    /// Calls `FuzzyMatcher::fuzzy_match` on the engine's matcher, which is
    /// `SkimMatcherV2::default()`; its result is named by `skim_score`.
    #[verifier::external_body]
    fn score(&self, choice: &str, pattern: &str) -> (r: Option<i64>)
        requires
            self.uses_default_matcher(),
        ensures
            r == skim_score(choice@, pattern@),
    {
        self.matcher.fuzzy_match(choice, pattern)
    }

    /// The candidates that `query` matches, with their score, best first
    /// (equal scores in candidate order), at most `max_results` of them.
    pub fn find_best_matches<'a>(&self, query: &str, candidates: &'a [String], max_results: usize) -> (r: Vec<(&'a String, i64)>)
        ensures
            r@.len() == best_matches(texts(candidates@), query@, max_results as nat).len(),
            forall|i: int|
                0 <= i < r@.len() ==> {
                    let b = #[trigger] best_matches(texts(candidates@), query@, max_results as nat)[i];
                    &&& b.0 < candidates@.len()
                    &&& *r@[i].0 == candidates@[b.0 as int]
                    &&& r@[i].1 as i128 == b.1
                },
            r@.len() <= max_results,
            forall|i: int, j: int| 0 <= i < j < r@.len() ==> r@[i].1 >= r@[j].1,
    {
        proof {
            use_type_invariant(self);
        }
        let ghost cs = texts(candidates@);
        let mut scored: Vec<(usize, i128)> = Vec::new();
        let mut i: usize = 0;
        while i < candidates.len()
            invariant
                self.uses_default_matcher(),
                cs == texts(candidates@),
                0 <= i <= candidates@.len(),
                scored@ == scored_candidates(cs, query@, i as int),
                forall|k: int| 0 <= k < scored@.len() ==> #[trigger] scored@[k].0 < i && i64::MIN <= scored@[k].1 <= i64::MAX,
            decreases candidates@.len() - i,
        {
            assert(cs[i as int] == candidates@[i as int]@);
            match self.score(candidates[i].as_str(), query) {
                Some(sc) => {
                    scored.push((i, sc as i128));
                },
                None => {},
            }
            i = i + 1;
        }
        let ghost all = scored@;
        let mut ranked = sort_by_score_desc(scored);
        proof {
            lemma_sort_desc(all);
            broadcast use vstd::seq_lib::group_to_multiset_ensures;
            assert forall|k: int| 0 <= k < ranked@.len() implies #[trigger] ranked@[k].0 < candidates@.len() && i64::MIN <= ranked@[k].1 <= i64::MAX by {
                assert(ranked@.contains(ranked@[k]));
                assert(ranked@.to_multiset().contains(ranked@[k]));
                assert(all.to_multiset().contains(ranked@[k]));
                assert(all.contains(ranked@[k]));
            }
        }
        keep_first(&mut ranked, max_results);
        let mut out: Vec<(&'a String, i64)> = Vec::new();
        let mut j: usize = 0;
        while j < ranked.len()
            invariant
                cs == texts(candidates@),
                ranked@ == best_matches(cs, query@, max_results as nat),
                descending(ranked@),
                ranked@.len() <= max_results,
                forall|k: int| 0 <= k < ranked@.len() ==> #[trigger] ranked@[k].0 < candidates@.len() && i64::MIN <= ranked@[k].1 <= i64::MAX,
                0 <= j <= ranked@.len(),
                out@.len() == j,
                forall|k: int|
                    0 <= k < j ==> *(#[trigger] out@[k]).0 == candidates@[ranked@[k].0 as int] && out@[k].1 as i128 == ranked@[k].1,
            decreases ranked@.len() - j,
        {
            let (idx, sc) = ranked[j];
            out.push((&candidates[idx], sc as i64));
            j = j + 1;
        }
        out
    }
}

} // verus!
