//! The candidate index: every key of every item, normalized once and kept
//! for any number of queries. Candidates hold the position of their item
//! in the caller's input, never the item itself.

use vstd::prelude::*;

verus! {

use crate::options::FuzzyOptions;
use crate::util::normalize;
use crate::util::normalize_spec;
use crate::util::Normalized;

/// One searchable key: the position of its item in the input, which of
/// that item's keys it is, and the key's normalized form.
pub struct Candidate {
    pub index: usize,
    pub key_index: usize,
    pub normalized: Normalized,
}

/// The ghost view of a candidate.
pub struct CandView {
    pub index: int,
    pub key_index: int,
    pub original: Seq<char>,
    pub tokens: Seq<Seq<u32>>,
    pub map: Seq<int>,
}

impl Candidate {
    pub open spec fn view_spec(self) -> CandView {
        CandView {
            index: self.index as int,
            key_index: self.key_index as int,
            original: self.normalized.original@,
            tokens: self.normalized.tokens_view(),
            map: self.normalized.map_view(),
        }
    }
}

/// The candidate built from key `k` of item `i`.
pub open spec fn spec_cand(i: int, k: int, s: Seq<char>, o: FuzzyOptions) -> CandView {
    let nv = normalize_spec(
        s,
        o.ignore_case,
        o.ignore_symbols,
        o.normalize_whitespace,
        o.use_separated_unicode,
    );
    CandView { index: i, key_index: k, original: s, tokens: nv.tokens, map: nv.map }
}

/// The candidates of item `i`, one per key, from its first `m` keys.
pub open spec fn item_cands(ks: Seq<Seq<char>>, i: int, m: int, o: FuzzyOptions) -> Seq<CandView>
    decreases m,
{
    if m <= 0 {
        seq![]
    } else {
        item_cands(ks, i, m - 1, o).push(spec_cand(i, m - 1, ks[m - 1], o))
    }
}

/// The candidates of the first `n` items, in input order.
pub open spec fn cands_spec(keys: Seq<Seq<Seq<char>>>, n: int, o: FuzzyOptions) -> Seq<CandView>
    decreases n,
{
    if n <= 0 {
        seq![]
    } else {
        cands_spec(keys, n - 1, o) + item_cands(keys[n - 1], n - 1, keys[n - 1].len() as int, o)
    }
}

/// The candidate index over a fixed candidate set: the keys of every item,
/// each normalized once. Immutable after construction; querying it gives
/// the same results as normalizing and scoring every key afresh.
pub struct Trie {
    pub candidates: Vec<Candidate>,
    pub item_count: usize,
}

impl Trie {
    /// The views of the stored candidates, in storage order.
    pub open spec fn cands_view(self) -> Seq<CandView> {
        self.candidates@.map_values(|c: Candidate| c.view_spec())
    }

    /// This index holds exactly the normalized keys of `keys`.
    pub open spec fn is_index_of(self, keys: Seq<Seq<Seq<char>>>, o: FuzzyOptions) -> bool {
        &&& self.cands_view() == cands_spec(keys, keys.len() as int, o)
        &&& self.item_count as int == keys.len()
    }

    /// Structural invariant: normalized forms are well formed and item
    /// positions lie below the item count.
    pub open spec fn wf(self) -> bool {
        forall|q: int|
            0 <= q < self.candidates@.len() ==> (#[trigger] self.candidates@[q]).normalized.wf()
                && self.candidates@[q].index < self.item_count
    }

    /// Build the index: normalize every key of every item once, in input
    /// order, and record each key's item position and key position.
    #[verifier::loop_isolation(false)]
    pub fn new(keys: &Vec<Vec<String>>, options: &FuzzyOptions) -> (r: Trie)
        ensures
            r.is_index_of(keys.deep_view(), *options),
            r.wf(),
    {
        let ghost kd = keys.deep_view();
        proof {
            assert forall|i: int| 0 <= i < keys@.len() implies #[trigger] kd[i]
                == keys@[i].deep_view() by {
                assert(kd[i] == keys@[i].deep_view());
            }
        }
        let mut candidates: Vec<Candidate> = Vec::new();
        let n = keys.len();
        let mut i: usize = 0;
        while i < n
            invariant
                i <= n,
                candidates@.map_values(|c: Candidate| c.view_spec()) == cands_spec(
                    kd,
                    i as int,
                    *options,
                ),
                forall|q: int|
                    0 <= q < candidates@.len() ==> (#[trigger] candidates@[q]).normalized.wf()
                        && candidates@[q].index < i,
            decreases n - i,
        {
            let ks = &keys[i];
            let ghost kv = kd[i as int];
            proof {
                assert forall|k: int| 0 <= k < ks@.len() implies #[trigger] kv[k]
                    == ks@[k]@ by {
                    assert(keys@[i as int].deep_view()[k] == ks@[k].deep_view());
                }
            }
            let m = ks.len();
            let mut k: usize = 0;
            while k < m
                invariant
                    k <= m,
                    candidates@.map_values(|c: Candidate| c.view_spec()) == cands_spec(
                        kd,
                        i as int,
                        *options,
                    ) + item_cands(kv, i as int, k as int, *options),
                    forall|q: int|
                        0 <= q < candidates@.len() ==> (#[trigger] candidates@[q]).normalized.wf()
                            && candidates@[q].index <= i,
                decreases m - k,
            {
                let nz = normalize(ks[k].clone(), options);
                let cand = Candidate { index: i, key_index: k, normalized: nz };
                let ghost pre = candidates@.map_values(|c: Candidate| c.view_spec());
                candidates.push(cand);
                proof {
                    assert(candidates@.map_values(|c: Candidate| c.view_spec()) =~= pre.push(
                        spec_cand(i as int, k as int, kv[k as int], *options),
                    ));
                }
                k += 1;
            }
            i += 1;
        }
        Trie { candidates, item_count: n }
    }
}

} // verus!
