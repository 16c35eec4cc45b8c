//! A fuzzy text-matching and search library.
//!
//! Given a query term and a set of candidate items (each yielding one or
//! more text keys), the library scores how well the term matches each key
//! with an edit-distance metric over normalized Unicode tokens, maps
//! matches back to byte positions in the original (pre-normalized) text,
//! and returns candidates ranked and filtered by match quality.
//!
//! Scores are exact rationals: non-exact matches lie in `[0, 1]`, and a
//! normalized-exact substring match earns a fixed ceiling strictly above
//! every non-exact score.

pub mod laws;
pub mod options;
pub mod rank;
pub mod scoring;
pub mod searcher;
pub mod trie;
pub mod util;

use vstd::prelude::*;

pub use options::{FuzzyOptions, SortKind};
pub use scoring::Score;
pub use searcher::Searcher;
pub use trie::{Candidate, Trie};
pub use util::{normalize, Normalized};

verus! {

use crate::rank::best_for_item;
use crate::rank::rank;
use crate::rank::rank_spec;
use crate::rank::EntryV;
use crate::rank::RankEntry;
use crate::scoring::score_of;
use crate::scoring::score_key;
use crate::trie::cands_spec;
use crate::trie::item_cands;
use crate::util::display_of;
use crate::util::normalize_spec;

/// The keys under which an item can be found: the one behavioural slot of
/// the configuration surface. String-like items yield themselves; an item
/// may yield any number of keys, in a declared order. `spec_keys` names
/// those keys, and `keys` must return exactly them, so every search
/// contract can speak of the candidates' own keys.
pub trait Keyed {
    /// The keys this item yields, as character sequences, in order. An
    /// implementation outside the verifier's view inherits this default
    /// and is not held to the contract of `keys`; the guarantees of the
    /// search family then bind only for checked implementations.
    open spec fn spec_keys(&self) -> Seq<Seq<char>> {
        Seq::empty()
    }

    /// The keys this item yields, exactly as `spec_keys` names them.
    fn keys(&self) -> (r: Vec<String>)
        ensures
            r.deep_view() == self.spec_keys(),
    ;
}

impl Keyed for String {
    open spec fn spec_keys(&self) -> Seq<Seq<char>> {
        seq![self@]
    }

    fn keys(&self) -> (r: Vec<String>) {
        let mut v: Vec<String> = Vec::new();
        v.push(self.clone());
        proof {
            assert(v.deep_view() =~= seq![self@]);
        }
        v
    }
}

impl<'a> Keyed for &'a str {
    open spec fn spec_keys(&self) -> Seq<Seq<char>> {
        seq![(*self)@]
    }

    fn keys(&self) -> (r: Vec<String>) {
        let mut v: Vec<String> = Vec::new();
        v.push((*self).to_owned());
        proof {
            assert(v.deep_view() =~= seq![(*self)@]);
        }
        v
    }
}

impl Keyed for Vec<String> {
    open spec fn spec_keys(&self) -> Seq<Seq<char>> {
        self.deep_view()
    }

    fn keys(&self) -> (r: Vec<String>) {
        let mut v: Vec<String> = Vec::new();
        let mut i: usize = 0;
        while i < self.len()
            invariant
                i <= self@.len(),
                v@.len() == i,
                forall|q: int| 0 <= q < i ==> v@[q] == self@[q],
            decreases self@.len() - i,
        {
            v.push(self[i].clone());
            i += 1;
        }
        proof {
            assert(v.deep_view() =~= self.deep_view());
        }
        v
    }
}

impl<'a> Keyed for Vec<&'a str> {
    open spec fn spec_keys(&self) -> Seq<Seq<char>> {
        self.deep_view()
    }

    fn keys(&self) -> (r: Vec<String>) {
        let mut v: Vec<String> = Vec::new();
        let mut i: usize = 0;
        while i < self.len()
            invariant
                i <= self@.len(),
                v@.len() == i,
                forall|q: int| 0 <= q < i ==> v@[q]@ == self@[q]@,
            decreases self@.len() - i,
        {
            v.push(self[i].to_owned());
            i += 1;
        }
        proof {
            assert(v.deep_view() =~= self.deep_view());
        }
        v
    }
}

/// The key lists of a candidate sequence, item by item.
pub open spec fn spec_keys_of<T: Keyed>(items: Seq<T>) -> Seq<Seq<Seq<char>>> {
    items.map_values(|c: T| c.spec_keys())
}

/// A match with its mapping back into the original text: the matched span
/// is given in bytes of the original (pre-normalized) key.
#[derive(Debug, PartialEq)]
pub struct MatchData<T> {
    pub item: T,
    pub original: String,
    pub key: String,
    pub score: Score,
    pub match_index: usize,
    pub match_length: usize,
}

/// The one caller-facing failure: the search family refuses an empty
/// candidate list, since an empty success would be ambiguous with "no
/// matches found".
#[derive(Debug, PartialEq, Eq)]
pub enum SearchResult {
    EmptyCandidates,
}

/// The normalized token sequence of a text under the given options.
pub open spec fn tokens_spec(s: Seq<char>, o: FuzzyOptions) -> Seq<Seq<u32>> {
    normalize_spec(
        s,
        o.ignore_case,
        o.ignore_symbols,
        o.normalize_whitespace,
        o.use_separated_unicode,
    ).tokens
}

/// The similarity of the best key of a one-item key list against a term.
pub open spec fn fuzzy_spec(term: Seq<char>, keys: Seq<Seq<char>>, o: FuzzyOptions) -> Score {
    let t = tokens_spec(term, o);
    let cands = item_cands(keys, 0, keys.len() as int, o);
    match best_for_item(t, cands, 0, cands.len() as int, o) {
        None => Score::spec_zero(),
        Some(e) => e.score,
    }
}

/// The ranked entries of one query over a full key matrix.
pub open spec fn search_spec(term: Seq<char>, keys: Seq<Seq<Seq<char>>>, o: FuzzyOptions) -> Seq<
    EntryV,
> {
    rank_spec(tokens_spec(term, o), cands_spec(keys, keys.len() as int, o), keys.len() as int, o)
}

/// Score a term against the keys of one item: the best key wins, earlier
/// and closer keys breaking ties.
#[verifier::loop_isolation(false)]
pub fn fuzzy_keys(term: &str, keys: &Vec<String>, options: &FuzzyOptions) -> (r: Score)
    ensures
        r == fuzzy_spec(term@, keys.deep_view(), *options),
        r.wf(),
{
    let mut matrix: Vec<Vec<String>> = Vec::new();
    let mut ks: Vec<String> = Vec::new();
    let mut i: usize = 0;
    while i < keys.len()
        invariant
            i <= keys@.len(),
            ks@.len() == i,
            forall|q: int| 0 <= q < i ==> ks@[q] == keys@[q],
        decreases keys@.len() - i,
    {
        ks.push(keys[i].clone());
        i += 1;
    }
    proof {
        assert(ks.deep_view() =~= keys.deep_view());
    }
    matrix.push(ks);
    let trie = Trie::new(&matrix, options);
    let tn = normalize(term.to_owned(), options);
    proof {
        assert(matrix.deep_view() =~= seq![keys.deep_view()]);
        assert(trie.cands_view() =~= item_cands(keys.deep_view(), 0, keys.deep_view().len() as int, *options)) by {
            assert(cands_spec(matrix.deep_view(), 1, *options) =~= cands_spec(
                matrix.deep_view(),
                0,
                *options,
            ) + item_cands(keys.deep_view(), 0, keys.deep_view().len() as int, *options));
        }
        assert(crate::rank::views_of(trie.candidates@) == trie.cands_view());
    }
    match crate::rank::best_entry(&tn, &trie.candidates, 0, options) {
        Some(e) => e.score,
        None => Score::zero(),
    }
}

/// Score a term against one candidate: the similarity of the candidate's
/// best key under the configured key extraction.
pub fn fuzzy<T: Keyed>(term: &str, candidate: T, options: &FuzzyOptions) -> (r: Score)
    ensures
        r == fuzzy_spec(term@, candidate.spec_keys(), *options),
        r.wf(),
{
    let keys = candidate.keys();
    fuzzy_keys(term, &keys, options)
}

/// Score a term against one text candidate and report the match: the
/// similarity, the normalized key, and the matched span as a byte offset
/// and byte length in the original candidate text.
pub fn fuzzy_data(term: &str, candidate: &str, options: &FuzzyOptions) -> (r: MatchData<String>)
    ensures
        ({
            let tn = tokens_spec(term@, *options);
            let nv = normalize_spec(
                candidate@,
                options.ignore_case,
                options.ignore_symbols,
                options.normalize_whitespace,
                options.use_separated_unicode,
            );
            let m = score_of(tn, nv.tokens, options.use_damerau, options.use_sellers);
            &&& r.item@ == candidate@
            &&& r.original@ == candidate@
            &&& r.key@ == display_of(nv.tokens)
            &&& r.score == m.score
            &&& r.match_index as int == nv.map[m.start]
            &&& r.match_length as int == nv.map[m.start + m.len] - nv.map[m.start]
            &&& r.score.wf()
        }),
{
    let tn = normalize(term.to_owned(), options);
    let kn = normalize(candidate.to_owned(), options);
    let (sc, ws, wl) = score_key(&tn.normal, &kn.normal, options.use_damerau, options.use_sellers);
    let midx = kn.map[ws];
    let mend = kn.map[ws + wl];
    let key = kn.key_string();
    MatchData {
        item: candidate.to_owned(),
        original: candidate.to_owned(),
        key,
        score: sc,
        match_index: midx,
        match_length: mend - midx,
    }
}

/// Rank a term against a full key matrix: one entry per surviving item,
/// filtered by the threshold and ordered by the configured policy.
pub fn search_ranked(term: &str, keys: &Vec<Vec<String>>, options: &FuzzyOptions) -> (r: Vec<
    RankEntry,
>)
    ensures
        r@.map_values(|e: RankEntry| e.view_spec()) == search_spec(term@, keys.deep_view(), *options),
        forall|q: int|
            0 <= q < r@.len() ==> (#[trigger] r@[q]).item < keys@.len()
                && options.threshold.spec_le(r@[q].score) && r@[q].score.wf(),
        forall|q1: int, q2: int| 0 <= q1 < q2 < r@.len() ==> r@[q1].item != r@[q2].item,
        options.sort_by == SortKind::BestMatch ==> crate::rank::sorted_scores(
            r@.map_values(|e: RankEntry| e.view_spec()),
        ),
{
    let trie = Trie::new(keys, options);
    let tn = normalize(term.to_owned(), options);
    proof {
        assert(crate::rank::views_of(trie.candidates@) == trie.cands_view());
    }
    rank(&tn, &trie.candidates, trie.item_count, options)
}

/// Search a candidate list for a term: the surviving items, best first
/// under best-match ordering, in input order otherwise. An empty
/// candidate list is refused; an empty result is a successful search in
/// which nothing reached the threshold.
#[verifier::loop_isolation(false)]
pub fn search<T: Keyed>(term: &str, candidates: Vec<T>, options: &FuzzyOptions) -> (r: Result<
    Vec<T>,
    SearchResult,
>)
    ensures
        r is Err <==> candidates@.len() == 0,
        r is Err ==> r == Result::<Vec<T>, SearchResult>::Err(SearchResult::EmptyCandidates),
        r is Ok ==> ({
            let es = search_spec(term@, spec_keys_of(candidates@), *options);
            &&& r.unwrap()@.len() == es.len()
            &&& forall|q: int|
                0 <= q < es.len() ==> 0 <= (#[trigger] es[q]).item < candidates@.len()
                    && r.unwrap()@[q] == candidates@[es[q].item]
        }),
{
    let mut candidates = candidates;
    if candidates.len() == 0 {
        return Err(SearchResult::EmptyCandidates);
    }
    let n = candidates.len();
    let keys = extract_keys(&candidates);
    let ranked = search_ranked(term, &keys, options);
    let ghost orig = candidates@;
    let ghost ks = keys.deep_view();
    // move the selected items out, in rank order
    let mut slots: Vec<Option<T>> = Vec::new();
    while candidates.len() > 0
        invariant
            slots@.len() + candidates@.len() == n,
            forall|q: int| 0 <= q < slots@.len() ==> slots@[q] == Some(orig[q]),
            forall|q: int| 0 <= q < candidates@.len() ==> orig[slots@.len() + q] == candidates@[q],
        decreases candidates@.len(),
    {
        let x = candidates.remove(0);
        slots.push(Some(x));
    }
    let mut out: Vec<T> = Vec::new();
    let mut q: usize = 0;
    while q < ranked.len()
        invariant
            q <= ranked@.len(),
            out@.len() == q,
            slots@.len() == n,
            forall|p: int| 0 <= p < q ==> out@[p] == orig[ranked@[p].item as int],
            forall|j: int|
                0 <= j < n ==> #[trigger] slots@[j] == (if (exists|p: int|
                    0 <= p < q && (#[trigger] ranked@[p]).item as int == j) {
                    None::<T>
                } else {
                    Some(orig[j])
                }),
        decreases ranked@.len() - q,
    {
        let it = ranked[q].item;
        let v = slots.remove(it);
        slots.insert(it, None);
        proof {
            assert(slots@ =~= old_slots_with(ranked@, orig, n as int, q + 1));
        }
        if let Some(x) = v {
            out.push(x);
        } else {
            proof {
                assert(false);
            }
        }
        q += 1;
    }
    proof {
        let es = search_spec(term@, ks, *options);
        assert(ranked@.map_values(|e: RankEntry| e.view_spec()) == es);
        assert(out@.len() == es.len());
        assert forall|p: int| 0 <= p < es.len() implies 0 <= (#[trigger] es[p]).item < orig.len()
            && out@[p] == orig[es[p].item] by {
            assert(es[p] == ranked@[p].view_spec());
        }
    }
    Ok(out)
}

/// The slot state after the first `q` ranked items have been taken.
pub open spec fn old_slots_with<T>(ranked: Seq<RankEntry>, orig: Seq<T>, n: int, q: int) -> Seq<
    Option<T>,
> {
    Seq::new(
        n as nat,
        |j: int|
            if exists|p: int| 0 <= p < q && (#[trigger] ranked[p]).item as int == j {
                None::<T>
            } else {
                Some(orig[j])
            },
    )
}

/// Extract every item's keys, in input order.
#[verifier::loop_isolation(false)]
pub fn extract_keys<T: Keyed>(candidates: &Vec<T>) -> (r: Vec<Vec<String>>)
    ensures
        r@.len() == candidates@.len(),
        r.deep_view() == spec_keys_of(candidates@),
{
    let mut keys: Vec<Vec<String>> = Vec::new();
    let mut i: usize = 0;
    while i < candidates.len()
        invariant
            i <= candidates@.len(),
            keys@.len() == i,
            forall|q: int|
                0 <= q < i ==> (#[trigger] keys@[q]).deep_view() == candidates@[q].spec_keys(),
        decreases candidates@.len() - i,
    {
        let k = candidates[i].keys();
        keys.push(k);
        i += 1;
    }
    proof {
        assert forall|q: int| 0 <= q < keys.deep_view().len() implies #[trigger] keys.deep_view()[q]
            == spec_keys_of(candidates@)[q] by {
            assert(keys.deep_view()[q] == keys@[q].deep_view());
        }
        assert(keys.deep_view() =~= spec_keys_of(candidates@));
    }
    keys
}

/// Search a candidate list for a term and report each surviving item with
/// its match data: the winning key, its original text, the similarity,
/// and the matched span in bytes of that original text.
#[verifier::loop_isolation(false)]
pub fn search_data<T: Keyed>(term: &str, candidates: Vec<T>, options: &FuzzyOptions) -> (r: Result<
    Vec<MatchData<T>>,
    SearchResult,
>)
    ensures
        r is Err <==> candidates@.len() == 0,
        r is Err ==> r == Result::<Vec<MatchData<T>>, SearchResult>::Err(
            SearchResult::EmptyCandidates,
        ),
        r is Ok ==> ({
            let ks = spec_keys_of(candidates@);
            let es = search_spec(term@, ks, *options);
            let out = r.unwrap()@;
            {
                &&& out.len() == es.len()
                &&& forall|q: int|
                    0 <= q < es.len() ==> {
                        let e = #[trigger] es[q];
                        &&& 0 <= e.item < candidates@.len()
                        &&& out[q].item == candidates@[e.item]
                        &&& out[q].score == e.score
                        &&& out[q].match_index as int == e.match_index
                        &&& out[q].match_length as int == e.match_length
                        &&& 0 <= e.item < ks.len() && 0 <= e.key_index < ks[e.item].len()
                            && out[q].original@ == ks[e.item][e.key_index]
                        &&& out[q].key@ == display_of(
                            crate::trie::spec_cand(
                                e.item,
                                e.key_index,
                                ks[e.item][e.key_index],
                                *options,
                            ).tokens,
                        )
                    }
            }
        }),
{
    let mut candidates = candidates;
    if candidates.len() == 0 {
        return Err(SearchResult::EmptyCandidates);
    }
    let n = candidates.len();
    let keys = extract_keys(&candidates);
    let trie = Trie::new(&keys, options);
    let tn = normalize(term.to_owned(), options);
    proof {
        assert(crate::rank::views_of(trie.candidates@) == trie.cands_view());
    }
    let ranked = rank(&tn, &trie.candidates, trie.item_count, options);
    let ghost orig = candidates@;
    let ghost ks = keys.deep_view();
    let mut slots: Vec<Option<T>> = Vec::new();
    while candidates.len() > 0
        invariant
            slots@.len() + candidates@.len() == n,
            forall|q: int| 0 <= q < slots@.len() ==> slots@[q] == Some(orig[q]),
            forall|q: int| 0 <= q < candidates@.len() ==> orig[slots@.len() + q] == candidates@[q],
        decreases candidates@.len(),
    {
        let x = candidates.remove(0);
        slots.push(Some(x));
    }
    let mut out: Vec<MatchData<T>> = Vec::new();
    let mut q: usize = 0;
    while q < ranked.len()
        invariant
            q <= ranked@.len(),
            out@.len() == q,
            slots@.len() == n,
            forall|p: int|
                0 <= p < q ==> {
                    let e = #[trigger] ranked@[p];
                    &&& out@[p].item == orig[e.item as int]
                    &&& out@[p].score == e.score
                    &&& out@[p].match_index == e.match_index
                    &&& out@[p].match_length == e.match_length
                    &&& out@[p].original@ == trie.cands_view()[e.pos as int].original
                    &&& out@[p].key@ == display_of(trie.cands_view()[e.pos as int].tokens)
                },
            forall|j: int|
                0 <= j < n ==> #[trigger] slots@[j] == (if (exists|p: int|
                    0 <= p < q && (#[trigger] ranked@[p]).item as int == j) {
                    None::<T>
                } else {
                    Some(orig[j])
                }),
        decreases ranked@.len() - q,
    {
        let it = ranked[q].item;
        let v = slots.remove(it);
        slots.insert(it, None);
        proof {
            assert(slots@ =~= old_slots_with(ranked@, orig, n as int, q + 1));
        }
        if let Some(x) = v {
            let e = &ranked[q];
            let c = &trie.candidates[e.pos];
            let original = c.normalized.original.clone();
            let key = c.normalized.key_string();
            out.push(
                MatchData {
                    item: x,
                    original,
                    key,
                    score: e.score,
                    match_index: e.match_index,
                    match_length: e.match_length,
                },
            );
        } else {
            proof {
                assert(false);
            }
        }
        q += 1;
    }
    proof {
        lemma_entry_strings(ks, trie.cands_view(), ranked@, *options);
        let es = search_spec(term@, ks, *options);
        assert(ranked@.map_values(|e: RankEntry| e.view_spec()) == es);
        assert(out@.len() == es.len());
        assert forall|p: int| 0 <= p < es.len() implies {
            let e = #[trigger] es[p];
            &&& 0 <= e.item < orig.len()
            &&& out@[p].item == orig[e.item]
            &&& out@[p].score == e.score
            &&& out@[p].match_index as int == e.match_index
            &&& out@[p].match_length as int == e.match_length
            &&& 0 <= e.item < ks.len() && 0 <= e.key_index < ks[e.item].len() && out@[p].original@
                == ks[e.item][e.key_index]
            &&& out@[p].key@ == display_of(
                crate::trie::spec_cand(e.item, e.key_index, ks[e.item][e.key_index], *options).tokens,
            )
        } by {
            assert(es[p] == ranked@[p].view_spec());
            let c = trie.cands_view()[ranked@[p].pos as int];
            assert(c == trie.candidates@[ranked@[p].pos as int].view_spec());
            assert(c.index == ranked@[p].item as int);
            assert(c.key_index == ranked@[p].key_index as int);
            assert(out@[p].original@ == c.original);
        }
    }
    Ok(out)
}

/// Candidates in the built index carry the raw key text they were made
/// from: entry `pos` of the table points at key `key_index` of item
/// `item`.
pub proof fn lemma_entry_strings(
    ks: Seq<Seq<Seq<char>>>,
    cv: Seq<crate::trie::CandView>,
    ranked: Seq<RankEntry>,
    o: FuzzyOptions,
)
    requires
        cv == cands_spec(ks, ks.len() as int, o),
        forall|q: int|
            0 <= q < ranked.len() ==> 0 <= (#[trigger] ranked[q]).pos < cv.len() && cv[
                ranked[q].pos as int
            ].index == ranked[q].item as int,
    ensures
        forall|q: int|
            0 <= q < ranked.len() ==> {
                let c = cv[(#[trigger] ranked[q]).pos as int];
                &&& 0 <= c.index < ks.len()
                &&& 0 <= c.key_index < ks[c.index].len()
                &&& c.original == ks[c.index][c.key_index]
                &&& c == crate::trie::spec_cand(c.index, c.key_index, ks[c.index][c.key_index], o)
            },
{
    assert forall|q: int| 0 <= q < ranked.len() implies {
        let c = cv[(#[trigger] ranked[q]).pos as int];
        &&& 0 <= c.index < ks.len()
        &&& 0 <= c.key_index < ks[c.index].len()
        &&& c.original == ks[c.index][c.key_index]
        &&& c == crate::trie::spec_cand(c.index, c.key_index, ks[c.index][c.key_index], o)
    } by {
        lemma_cands_spec_entry(ks, ks.len() as int, o, ranked[q].pos as int);
    }
}

/// Every table position of the built index holds the candidate of some
/// key, with the raw text of that key.
pub proof fn lemma_cands_spec_entry(ks: Seq<Seq<Seq<char>>>, n: int, o: FuzzyOptions, pos: int)
    requires
        0 <= n <= ks.len(),
        0 <= pos < cands_spec(ks, n, o).len(),
    ensures
        ({
            let c = cands_spec(ks, n, o)[pos];
            &&& 0 <= c.index < n
            &&& 0 <= c.key_index < ks[c.index].len()
            &&& c.original == ks[c.index][c.key_index]
            &&& c == crate::trie::spec_cand(c.index, c.key_index, ks[c.index][c.key_index], o)
        }),
    decreases n,
{
    if n > 0 {
        let pre = cands_spec(ks, n - 1, o);
        if pos < pre.len() {
            lemma_cands_spec_entry(ks, n - 1, o, pos);
        } else {
            lemma_item_cands_entry(ks[n - 1], n - 1, ks[n - 1].len() as int, o, pos - pre.len());
        }
    }
}

/// Every candidate of one item holds the raw text of its key.
pub proof fn lemma_item_cands_entry(kk: Seq<Seq<char>>, i: int, m: int, o: FuzzyOptions, p: int)
    requires
        0 <= m <= kk.len(),
        0 <= p < item_cands(kk, i, m, o).len(),
    ensures
        ({
            let c = item_cands(kk, i, m, o)[p];
            &&& c.index == i
            &&& 0 <= c.key_index < kk.len()
            &&& c.original == kk[c.key_index]
            &&& c == crate::trie::spec_cand(i, c.key_index, kk[c.key_index], o)
            &&& item_cands(kk, i, m, o).len() == m
        }),
    decreases m,
{
    if m > 0 {
        if p < item_cands(kk, i, m - 1, o).len() {
            lemma_item_cands_entry(kk, i, m - 1, o, p);
        } else {
            lemma_item_cands_len(kk, i, m - 1, o);
        }
    }
}

/// One item's candidate list has one entry per key.
pub proof fn lemma_item_cands_len(kk: Seq<Seq<char>>, i: int, m: int, o: FuzzyOptions)
    requires
        0 <= m,
    ensures
        item_cands(kk, i, m, o).len() == m,
    decreases m,
{
    if m > 0 {
        lemma_item_cands_len(kk, i, m - 1, o);
    }
}

} // verus!
