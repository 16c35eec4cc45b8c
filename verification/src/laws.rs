//! The library's general guarantees, stated and proved once.

use vstd::prelude::*;

verus! {

use crate::fuzzy_spec;
use crate::options::FuzzyOptions;
use crate::rank::best_for_item;
use crate::rank::entry_of;
use crate::rank::rank_spec;
use crate::scoring::best_window;
use crate::scoring::lemma_best_window_props;
use crate::scoring::lemma_wdist_zero;
use crate::scoring::score_of;
use crate::scoring::spec_frac;
use crate::scoring::Score;
use crate::search_spec;
use crate::tokens_spec;
use crate::trie::cands_spec;
use crate::trie::item_cands;
use crate::trie::spec_cand;

/// An empty term matches every key at the ceiling.
pub proof fn lemma_empty_term_ceiling(k: Seq<Seq<u32>>, dam: bool, sellers: bool)
    ensures
        score_of(Seq::<Seq<u32>>::empty(), k, dam, sellers).score == Score::spec_ceiling(),
{
}

/// A non-empty term scores zero against an empty key.
pub proof fn lemma_empty_key_zero(t: Seq<Seq<u32>>, dam: bool, sellers: bool)
    requires
        t.len() > 0,
    ensures
        score_of(t, Seq::<Seq<u32>>::empty(), dam, sellers).score == Score::spec_zero(),
{
}

/// Scoring one single-key candidate is scoring that key directly.
pub proof fn lemma_fuzzy_single(term: Seq<char>, c: Seq<char>, o: FuzzyOptions)
    ensures
        fuzzy_spec(term, seq![c], o) == score_of(
            tokens_spec(term, o),
            tokens_spec(c, o),
            o.use_damerau,
            o.use_sellers,
        ).score,
{
    let ks = seq![c];
    let cands = item_cands(ks, 0, 1, o);
    assert(cands == item_cands(ks, 0, 0, o).push(spec_cand(0, 0, ks[0], o)));
    assert(cands.len() == 1);
    assert(cands[0] == spec_cand(0, 0, c, o));
    let t = tokens_spec(term, o);
    assert(best_for_item(t, cands, 0, 0, o) is None);
    assert(cands[0].index == 0);
    assert(best_for_item(t, cands, 0, 1, o) == Some(entry_of(t, cands[0], 0, o)));
}

/// In windowed mode, a term whose normalized tokens equal the key's is an
/// exact match and earns the ceiling, whatever the other options say.
pub proof fn lemma_exact_match_ceiling(t: Seq<Seq<u32>>, k: Seq<Seq<u32>>, dam: bool)
    requires
        t == k,
        t.len() > 0,
    ensures
        score_of(t, k, dam, true).score == Score::spec_ceiling(),
{
    let n = t.len() as int;
    lemma_wdist_zero(t, k, 0, n, n, dam);
    assert(crate::scoring::wdist(t, k, 0, n, n, dam) == 0);
    lemma_best_window_props(t, k, dam);
    let w = best_window(t, k, dam);
    assert(w.d <= 0);
}

/// Every score is well formed, and every score but the ceiling is at most
/// one: value `num / den` with `num <= den`.
pub proof fn lemma_score_of_range(t: Seq<Seq<u32>>, k: Seq<Seq<u32>>, dam: bool, sellers: bool)
    requires
        t.len() <= usize::MAX,
        k.len() <= usize::MAX,
    ensures
        score_of(t, k, dam, sellers).score.wf(),
        score_of(t, k, dam, sellers).score == Score::spec_ceiling() || score_of(
            t,
            k,
            dam,
            sellers,
        ).score.num <= score_of(t, k, dam, sellers).score.den,
{
    if t.len() == 0 || k.len() == 0 {
    } else if sellers {
        lemma_best_window_props(t, k, dam);
    } else {
        crate::scoring::lemma_wdist_bounds(t, k, 0, t.len() as int, k.len() as int, dam);
    }
}

/// A term whose normalized tokens equal a candidate's is an exact match
/// and earns the ceiling in windowed mode, whatever its raw spelling.
pub proof fn lemma_normalized_equal_ceiling(term: Seq<char>, c: Seq<char>, o: FuzzyOptions)
    requires
        tokens_spec(term, o) == tokens_spec(c, o),
        tokens_spec(term, o).len() > 0,
        o.use_sellers,
    ensures
        fuzzy_spec(term, seq![c], o) == Score::spec_ceiling(),
{
    lemma_fuzzy_single(term, c, o);
    lemma_exact_match_ceiling(tokens_spec(term, o), tokens_spec(c, o), o.use_damerau);
}

/// In windowed mode an exact match strictly outranks every non-exact
/// match of the same term, whatever the compared lengths.
pub proof fn lemma_exact_outranks_inexact(
    t: Seq<Seq<u32>>,
    k1: Seq<Seq<u32>>,
    k2: Seq<Seq<u32>>,
    dam: bool,
)
    requires
        t == k1,
        t.len() > 0,
        t.len() <= usize::MAX,
        k2.len() <= usize::MAX,
        score_of(t, k2, dam, true).score != Score::spec_ceiling(),
    ensures
        score_of(t, k2, dam, true).score.spec_lt(score_of(t, k1, dam, true).score),
{
    lemma_exact_match_ceiling(t, k1, dam);
    lemma_score_of_range(t, k2, dam, true);
    lemma_ceiling_tops(score_of(t, k2, dam, true).score);
}

/// Every score at most one lies strictly below the ceiling: an exact match
/// outranks every non-exact match, whatever the compared lengths.
pub proof fn lemma_ceiling_tops(s: Score)
    requires
        s.wf(),
        s.num <= s.den,
    ensures
        s.spec_lt(Score::spec_ceiling()),
{
}

/// Similarity never increases as edit distance grows, at a fixed compared
/// length.
pub proof fn lemma_similarity_monotone(d1: int, d2: int, l: int)
    requires
        0 <= d1 <= d2,
        1 <= l <= usize::MAX,
    ensures
        spec_frac(d2, l).spec_le(spec_frac(d1, l)),
{
    let n1 = spec_frac(d1, l).num as int;
    let n2 = spec_frac(d2, l).num as int;
    assert(n2 <= n1);
    assert(n2 * l <= n1 * l) by (nonlinear_arith)
        requires
            0 <= n2 <= n1,
            1 <= l,
    ;
}

/// In windowed mode a candidate whose normalized tokens equal the term's
/// strictly outranks every candidate that scores below the ceiling: the
/// exact match wins whatever the other candidate's length or distance.
pub proof fn lemma_exact_candidate_outranks(
    term: Seq<char>,
    c1: Seq<char>,
    c2: Seq<char>,
    o: FuzzyOptions,
)
    requires
        tokens_spec(term, o) == tokens_spec(c1, o),
        tokens_spec(term, o).len() > 0,
        tokens_spec(term, o).len() <= usize::MAX,
        tokens_spec(c2, o).len() <= usize::MAX,
        o.use_sellers,
        fuzzy_spec(term, seq![c2], o) != Score::spec_ceiling(),
    ensures
        fuzzy_spec(term, seq![c1], o) == Score::spec_ceiling(),
        fuzzy_spec(term, seq![c2], o).spec_lt(fuzzy_spec(term, seq![c1], o)),
{
    lemma_normalized_equal_ceiling(term, c1, o);
    lemma_fuzzy_single(term, c2, o);
    lemma_exact_outranks_inexact(
        tokens_spec(term, o),
        tokens_spec(term, o),
        tokens_spec(c2, o),
        o.use_damerau,
    );
    lemma_fuzzy_single(term, c1, o);
    lemma_exact_match_ceiling(tokens_spec(term, o), tokens_spec(c1, o), o.use_damerau);
}

/// In windowed mode, of two non-exact candidates compared at the same
/// length, the one whose best window lies at the smaller edit distance
/// scores at least as high.
pub proof fn lemma_distance_orders_scores(
    t: Seq<Seq<u32>>,
    k1: Seq<Seq<u32>>,
    k2: Seq<Seq<u32>>,
    dam: bool,
)
    requires
        t.len() > 0,
        k1.len() > 0,
        k2.len() > 0,
        t.len() <= usize::MAX,
        k1.len() <= usize::MAX,
        k2.len() <= usize::MAX,
        best_window(t, k1, dam).d >= 1,
        best_window(t, k2, dam).d >= 1,
        crate::scoring::max2(t.len() as int, best_window(t, k1, dam).len) == crate::scoring::max2(
            t.len() as int,
            best_window(t, k2, dam).len,
        ),
        best_window(t, k1, dam).d <= best_window(t, k2, dam).d,
    ensures
        score_of(t, k2, dam, true).score.spec_le(score_of(t, k1, dam, true).score),
{
    lemma_best_window_props(t, k1, dam);
    lemma_best_window_props(t, k2, dam);
    let l = crate::scoring::max2(t.len() as int, best_window(t, k1, dam).len);
    lemma_similarity_monotone(best_window(t, k1, dam).d, best_window(t, k2, dam).d, l);
}

/// Raising the threshold never adds results: with every other option
/// unchanged, the ranked result list at a higher threshold is no longer
/// than at a lower one, whichever ordering policy is in force.
pub proof fn lemma_threshold_monotone(
    t: Seq<Seq<u32>>,
    cands: Seq<crate::trie::CandView>,
    n_items: int,
    o1: FuzzyOptions,
    o2: FuzzyOptions,
)
    requires
        o2 == (FuzzyOptions { threshold: o2.threshold, ..o1 }),
        o1.threshold.wf(),
        o2.threshold.wf(),
        o1.threshold.spec_le(o2.threshold),
        t.len() <= usize::MAX,
        forall|q: int| 0 <= q < cands.len() ==> (#[trigger] cands[q]).tokens.len() <= usize::MAX,
    ensures
        rank_spec(t, cands, n_items, o2).len() <= rank_spec(t, cands, n_items, o1).len(),
{
    lemma_collect_monotone(t, cands, n_items, o1, o2);
    crate::rank::lemma_sort_len(crate::rank::collect_entries(t, cands, n_items, o1));
    crate::rank::lemma_sort_len(crate::rank::collect_entries(t, cands, n_items, o2));
}

/// Every item that reaches a higher threshold also reaches a lower one.
pub proof fn lemma_collect_monotone(
    t: Seq<Seq<u32>>,
    cands: Seq<crate::trie::CandView>,
    n_items: int,
    o1: FuzzyOptions,
    o2: FuzzyOptions,
)
    requires
        o2 == (FuzzyOptions { threshold: o2.threshold, ..o1 }),
        o1.threshold.wf(),
        o2.threshold.wf(),
        o1.threshold.spec_le(o2.threshold),
        t.len() <= usize::MAX,
        forall|q: int| 0 <= q < cands.len() ==> (#[trigger] cands[q]).tokens.len() <= usize::MAX,
    ensures
        crate::rank::collect_entries(t, cands, n_items, o2).len()
            <= crate::rank::collect_entries(t, cands, n_items, o1).len(),
    decreases n_items,
{
    if n_items > 0 {
        lemma_collect_monotone(t, cands, n_items - 1, o1, o2);
        crate::rank::lemma_best_indep(t, cands, n_items - 1, cands.len() as int, o1, o2);
        crate::rank::lemma_best_score_wf(t, cands, n_items - 1, cands.len() as int, o1);
        match crate::rank::best_for_item(t, cands, n_items - 1, cands.len() as int, o1) {
            Some(e) => {
                if o2.threshold.spec_le(e.score) {
                    crate::rank::lemma_score_le_trans(o1.threshold, o2.threshold, e.score);
                }
            },
            None => {},
        }
    }
}

/// Querying a prebuilt index and a one-shot search over the same keys and
/// the same term produce identical ranked entries: both reduce to the
/// same ranking of the same normalized candidate table, so the index is a
/// reuse structure only, never a source of different results.
pub proof fn lemma_index_reuse(term: Seq<char>, keys: Seq<Seq<Seq<char>>>, o: FuzzyOptions)
    ensures
        search_spec(term, keys, o) == rank_spec(
            tokens_spec(term, o),
            cands_spec(keys, keys.len() as int, o),
            keys.len() as int,
            o,
        ),
{
}

} // verus!
