//! A reusable searcher: the candidate set is extracted, normalized and
//! indexed once, and any number of terms can then be searched against it.
//! Querying the index gives exactly the results of a one-shot search over
//! the same keys: the index is a reuse structure, never a source of
//! different results.

use vstd::prelude::*;

verus! {

use crate::options::FuzzyOptions;
use crate::rank::rank;
use crate::rank::RankEntry;
use crate::search_spec;
use crate::spec_keys_of;
use crate::extract_keys;
use crate::trie::Trie;
use crate::util::normalize;
use crate::Keyed;
use crate::MatchData;
use crate::SearchResult;

/// A candidate set indexed for repeated queries.
pub struct Searcher<T> {
    pub items: Vec<T>,
    pub trie: Trie,
    pub options: FuzzyOptions,
    pub keys: Ghost<Seq<Seq<Seq<char>>>>,
}

impl<T: Keyed> Searcher<T> {
    /// The stored index is the index of the stored keys, one key list per
    /// stored item.
    pub open spec fn wf(self) -> bool {
        &&& self.trie.is_index_of(self.keys@, self.options)
        &&& self.trie.wf()
        &&& self.keys@.len() == self.items@.len()
        &&& self.trie.item_count as int == self.items@.len()
    }

    /// Build the index once: extract every item's keys and normalize them.
    pub fn new(candidates: Vec<T>, options: FuzzyOptions) -> (r: Searcher<T>)
        ensures
            r.wf(),
            r.items == candidates,
            r.options == options,
            r.keys@ == spec_keys_of(candidates@),
    {
        let key_lists = extract_keys(&candidates);
        let trie = Trie::new(&key_lists, &options);
        let ghost ks = key_lists.deep_view();
        Searcher { items: candidates, trie, options, keys: Ghost(ks) }
    }

    /// The ranked entries of one term against the stored index.
    fn ranked(&self, term: &str) -> (r: Vec<RankEntry>)
        requires
            self.wf(),
        ensures
            r@.map_values(|e: RankEntry| e.view_spec()) == search_spec(term@, self.keys@, self.options),
            forall|q: int|
                0 <= q < r@.len() ==> (#[trigger] r@[q]).item < self.items@.len()
                    && (r@[q].pos as int) < self.trie.candidates@.len()
                    && self.trie.candidates@[r@[q].pos as int].index == r@[q].item
                    && self.trie.candidates@[r@[q].pos as int].key_index == r@[q].key_index
                    && self.options.threshold.spec_le(r@[q].score) && r@[q].score.wf(),
            forall|q1: int, q2: int| 0 <= q1 < q2 < r@.len() ==> r@[q1].item != r@[q2].item,
    {
        let tn = normalize(term.to_owned(), &self.options);
        proof {
            assert(crate::rank::views_of(self.trie.candidates@) == self.trie.cands_view());
        }
        rank(&tn, &self.trie.candidates, self.trie.item_count, &self.options)
    }
}

impl<T: Keyed + Clone> Searcher<T> {
    /// Search the indexed candidates for a term: the surviving items,
    /// ordered by the configured policy. The result is exactly what a
    /// one-shot search over the stored keys returns.
    pub fn search(&self, term: &str) -> (r: Result<Vec<T>, SearchResult>)
        requires
            self.wf(),
        ensures
            r is Err <==> self.items@.len() == 0,
            r is Err ==> r == Result::<Vec<T>, SearchResult>::Err(SearchResult::EmptyCandidates),
            r is Ok ==> ({
                let es = search_spec(term@, self.keys@, self.options);
                let out = r.unwrap()@;
                &&& out.len() == es.len()
                &&& forall|q: int|
                    0 <= q < es.len() ==> 0 <= (#[trigger] es[q]).item < self.items@.len()
                        && vstd::pervasive::cloned::<T>(self.items@[es[q].item], out[q])
            }),
    {
        if self.items.len() == 0 {
            return Err(SearchResult::EmptyCandidates);
        }
        let ranked = self.ranked(term);
        let ghost es = search_spec(term@, self.keys@, self.options);
        let mut out: Vec<T> = Vec::new();
        let mut q: usize = 0;
        while q < ranked.len()
            invariant
                q <= ranked@.len(),
                out@.len() == q,
                self.wf(),
                ranked@.map_values(|e: RankEntry| e.view_spec()) == es,
                forall|p: int|
                    0 <= p < q ==> 0 <= (#[trigger] ranked@[p]).item < self.items@.len()
                        && vstd::pervasive::cloned::<T>(self.items@[ranked@[p].item as int], out@[p]),
                forall|p: int|
                    0 <= p < ranked@.len() ==> (#[trigger] ranked@[p]).item < self.items@.len(),
            decreases ranked@.len() - q,
        {
            let it = ranked[q].item;
            out.push(self.items[it].clone());
            q += 1;
        }
        Ok(out)
    }

    /// Search the indexed candidates and report each surviving item with
    /// its match data, as the one-shot search-with-data does.
    pub fn search_data(&self, term: &str) -> (r: Result<Vec<MatchData<T>>, SearchResult>)
        requires
            self.wf(),
        ensures
            r is Err <==> self.items@.len() == 0,
            r is Err ==> r == Result::<Vec<MatchData<T>>, SearchResult>::Err(
                SearchResult::EmptyCandidates,
            ),
            r is Ok ==> ({
                let es = search_spec(term@, self.keys@, self.options);
                let out = r.unwrap()@;
                &&& out.len() == es.len()
                &&& forall|q: int|
                    0 <= q < es.len() ==> {
                        let e = #[trigger] es[q];
                        &&& 0 <= e.item < self.items@.len()
                        &&& vstd::pervasive::cloned::<T>(self.items@[e.item], out[q].item)
                        &&& out[q].score == e.score
                        &&& out[q].match_index as int == e.match_index
                        &&& out[q].match_length as int == e.match_length
                        &&& 0 <= e.item < self.keys@.len() && 0 <= e.key_index < self.keys@[
                            e.item
                        ].len() && out[q].original@ == self.keys@[e.item][e.key_index]
                        &&& out[q].key@ == crate::util::display_of(
                            crate::trie::spec_cand(
                                e.item,
                                e.key_index,
                                self.keys@[e.item][e.key_index],
                                self.options,
                            ).tokens,
                        )
                    }
            }),
    {
        if self.items.len() == 0 {
            return Err(SearchResult::EmptyCandidates);
        }
        let ranked = self.ranked(term);
        let ghost es = search_spec(term@, self.keys@, self.options);
        let mut out: Vec<MatchData<T>> = Vec::new();
        let mut q: usize = 0;
        while q < ranked.len()
            invariant
                q <= ranked@.len(),
                out@.len() == q,
                self.wf(),
                ranked@.map_values(|e: RankEntry| e.view_spec()) == es,
                forall|p: int|
                    0 <= p < q ==> {
                        let e = #[trigger] ranked@[p];
                        &&& 0 <= e.item < self.items@.len()
                        &&& vstd::pervasive::cloned::<T>(self.items@[e.item as int], out@[p].item)
                        &&& out@[p].score == e.score
                        &&& out@[p].match_index == e.match_index
                        &&& out@[p].match_length == e.match_length
                        &&& out@[p].original@ == self.trie.cands_view()[e.pos as int].original
                        &&& out@[p].key@ == crate::util::display_of(
                            self.trie.cands_view()[e.pos as int].tokens,
                        )
                    },
                forall|p: int|
                    0 <= p < ranked@.len() ==> (#[trigger] ranked@[p]).item < self.items@.len()
                        && (ranked@[p].pos as int) < self.trie.candidates@.len(),
            decreases ranked@.len() - q,
        {
            let e = &ranked[q];
            let item = self.items[e.item].clone();
            let c = &self.trie.candidates[e.pos];
            let original = c.normalized.original.clone();
            let key = c.normalized.key_string();
            out.push(
                MatchData {
                    item,
                    original,
                    key,
                    score: e.score,
                    match_index: e.match_index,
                    match_length: e.match_length,
                },
            );
            q += 1;
        }
        proof {
            crate::lemma_entry_strings(self.keys@, self.trie.cands_view(), ranked@, self.options);
            let es = search_spec(term@, self.keys@, self.options);
            assert forall|p: int| 0 <= p < es.len() implies {
                let e = #[trigger] es[p];
                &&& 0 <= e.item < self.keys@.len()
                &&& 0 <= e.key_index < self.keys@[e.item].len()
                &&& out@[p].original@ == self.keys@[e.item][e.key_index]
                &&& out@[p].key@ == crate::util::display_of(
                    crate::trie::spec_cand(
                        e.item,
                        e.key_index,
                        self.keys@[e.item][e.key_index],
                        self.options,
                    ).tokens,
                )
            } by {
                assert(es[p] == ranked@[p].view_spec());
                let c = self.trie.cands_view()[ranked@[p].pos as int];
                assert(c == self.trie.candidates@[ranked@[p].pos as int].view_spec());
            }
        }
        Ok(out)
    }
}

} // verus!
