//! Fixed-point similarity scores and the entry-score rule.
//!
//! Similarities and scores are carried as signed integers in billionths:
//! a cosine similarity of `0.5` is `500_000_000`. Converting the model's
//! floating-point similarities into this form happens at the edge of the
//! library; everything that decides on scores works on these integers.
use vstd::prelude::*;

verus! {

/// One whole score point in fixed-point units.
pub const SCORE_UNIT: i64 = 1_000_000_000;

/// The value a cosine similarity takes when it could not be computed (-10).
pub const UNDEFINED_SIMILARITY: i64 = -10_000_000_000;

/// Entries whose score lies outside `[-ENTRY_SCORE_LIMIT, ENTRY_SCORE_LIMIT]` are corrupt (10).
pub const ENTRY_SCORE_LIMIT: i64 = 10_000_000_000;

/// Mean snippet score above which a summary is written (0.72).
pub const MIN_CONFIDENCE: i64 = 720_000_000;

/// A similarity is either undefined or a cosine in `[-1, 1]`.
pub open spec fn similarity_in_range(s: Option<i64>) -> bool {
    match s {
        Some(x) => -SCORE_UNIT <= x <= SCORE_UNIT,
        None => true,
    }
}

/// The value a similarity contributes to a score: undefined counts as -10.
pub open spec fn similarity_value(s: Option<i64>) -> int {
    match s {
        Some(x) => x as int,
        None => UNDEFINED_SIMILARITY as int,
    }
}

/// The largest contributed value among the body similarities.
pub open spec fn max_similarity(sims: Seq<Option<i64>>) -> int
    recommends
        sims.len() > 0,
    decreases sims.len(),
{
    if sims.len() <= 1 {
        similarity_value(sims[0])
    } else {
        let rest = max_similarity(sims.drop_last());
        let last = similarity_value(sims.last());
        if last > rest {
            last
        } else {
            rest
        }
    }
}

/// Three tenths of a title similarity, rounded down to a whole unit.
pub open spec fn title_share(t: int) -> int {
    (3 * t) / 10
}

/// Entry similarity: best body similarity plus 0.3 times the title similarity.
/// A page without body chunks has no score.
pub open spec fn entry_score(body: Seq<Option<i64>>, title: Option<i64>) -> Option<int> {
    if body.len() == 0 {
        None
    } else {
        Some(max_similarity(body) + title_share(similarity_value(title)))
    }
}

/// Whether a score is within the range of trustworthy entry scores.
pub open spec fn score_in_limit(score: int) -> bool {
    -ENTRY_SCORE_LIMIT <= score <= ENTRY_SCORE_LIMIT
}

proof fn lemma_max_similarity_bounds(sims: Seq<Option<i64>>)
    requires
        sims.len() > 0,
        forall|i: int| 0 <= i < sims.len() ==> similarity_in_range(#[trigger] sims[i]),
    ensures
        UNDEFINED_SIMILARITY <= max_similarity(sims) <= SCORE_UNIT,
    decreases sims.len(),
{
    if sims.len() > 1 {
        let rest = sims.drop_last();
        assert forall|i: int| 0 <= i < rest.len() implies similarity_in_range(#[trigger] rest[i]) by {
            assert(rest[i] == sims[i]);
        }
        lemma_max_similarity_bounds(rest);
    }
}

/// Combines the similarities of a page's body chunks and of its title into
/// the page's entry score: the best body similarity plus 0.3 times the title
/// similarity, an undefined similarity counting as -10. `None` when the page
/// has no body chunk.
pub fn calculate_entry_similarity(body_similarities: &Vec<Option<i64>>, title_similarity: Option<i64>) -> (r: Option<i64>)
    requires
        forall|i: int| 0 <= i < body_similarities.len() ==> similarity_in_range(#[trigger] body_similarities@[i]),
        similarity_in_range(title_similarity),
    ensures
        r is None <==> body_similarities.len() == 0,
        r is Some ==> entry_score(body_similarities@, title_similarity) == Some(r->0 as int),
{
    if body_similarities.len() == 0 {
        return None;
    }
    let mut best: i64 = match body_similarities[0] {
        Some(x) => x,
        None => UNDEFINED_SIMILARITY,
    };
    let mut i: usize = 1;
    while i < body_similarities.len()
        invariant
            1 <= i <= body_similarities.len(),
            forall|k: int| 0 <= k < body_similarities.len() ==> similarity_in_range(#[trigger] body_similarities@[k]),
            best == max_similarity(body_similarities@.take(i as int)),
        decreases body_similarities.len() - i,
    {
        let v: i64 = match body_similarities[i] {
            Some(x) => x,
            None => UNDEFINED_SIMILARITY,
        };
        proof {
            let next = body_similarities@.take(i + 1);
            assert(next.drop_last() == body_similarities@.take(i as int));
            assert(next.last() == body_similarities@[i as int]);
        }
        if v > best {
            best = v;
        }
        i = i + 1;
    }
    proof {
        assert(body_similarities@.take(i as int) == body_similarities@);
        lemma_max_similarity_bounds(body_similarities@);
    }
    let t: i64 = match title_similarity {
        Some(x) => x,
        None => UNDEFINED_SIMILARITY,
    };
    let shifted: i64 = 3 * t + 30_000_000_000;
    let share: i64 = shifted / 10 - 3_000_000_000;
    assert(share == title_share(t as int));
    Some(best + share)
}

/// Whether an entry with this score may be shown: `|score| <= 10`.
pub fn score_within_limit(score: i64) -> (r: bool)
    ensures
        r == score_in_limit(score as int),
{
    -ENTRY_SCORE_LIMIT <= score && score <= ENTRY_SCORE_LIMIT
}

} // verus!
