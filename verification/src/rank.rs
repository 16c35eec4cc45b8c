//! The ranking and filtering layer.
//!
//! One query scores every candidate key against the normalized term,
//! resolves each item to its best key, filters by the threshold, and
//! orders the survivors: best-match ordering sorts by descending score
//! with ties broken toward the earliest match, the smallest length
//! difference, the lowest key position, and finally the original input
//! order; insertion ordering keeps the input order and only filters.

use vstd::prelude::*;

verus! {

use crate::options::FuzzyOptions;
use crate::options::SortKind;
use crate::scoring::score_of;
use crate::scoring::score_key;
use crate::scoring::Score;
use crate::trie::Candidate;
use crate::trie::CandView;
use crate::util::Normalized;

/// One ranked result: the item's input position, the winning key's
/// position in the candidate table and among the item's keys, the score,
/// and the matched span in the original key text, in bytes.
#[derive(Clone, Copy, Debug)]
pub struct RankEntry {
    pub item: usize,
    pub pos: usize,
    pub key_index: usize,
    pub score: Score,
    pub match_index: usize,
    pub match_length: usize,
    pub len_diff: usize,
}

/// The ghost view of a ranked result.
pub struct EntryV {
    pub item: int,
    pub pos: int,
    pub key_index: int,
    pub score: Score,
    pub match_index: int,
    pub match_length: int,
    pub len_diff: int,
}

impl RankEntry {
    pub open spec fn view_spec(self) -> EntryV {
        EntryV {
            item: self.item as int,
            pos: self.pos as int,
            key_index: self.key_index as int,
            score: self.score,
            match_index: self.match_index as int,
            match_length: self.match_length as int,
            len_diff: self.len_diff as int,
        }
    }
}

pub open spec fn abs_diff(a: int, b: int) -> int {
    if a >= b {
        a - b
    } else {
        b - a
    }
}

/// The scored entry of the candidate at table position `pos` against the
/// term tokens `t`: its similarity, the matched span mapped back to byte
/// offsets in the original key text, and the tie-break data.
pub open spec fn entry_of(t: Seq<Seq<u32>>, c: CandView, pos: int, o: FuzzyOptions) -> EntryV {
    let m = score_of(t, c.tokens, o.use_damerau, o.use_sellers);
    EntryV {
        item: c.index,
        pos: pos,
        key_index: c.key_index,
        score: m.score,
        match_index: c.map[m.start],
        match_length: c.map[m.start + m.len] - c.map[m.start],
        len_diff: abs_diff(c.tokens.len() as int, t.len() as int),
    }
}

/// `a` ranks strictly better than `b`: higher score, else earlier match,
/// else closer length, else lower key position.
pub open spec fn better(a: EntryV, b: EntryV) -> bool {
    if b.score.spec_lt(a.score) {
        true
    } else if a.score.spec_lt(b.score) {
        false
    } else {
        a.match_index < b.match_index || (a.match_index == b.match_index && (a.len_diff
            < b.len_diff || (a.len_diff == b.len_diff && a.key_index < b.key_index)))
    }
}

/// The best entry of item `i` among the first `n` candidates: the
/// earliest of its keys that no other of its keys strictly beats.
pub open spec fn best_for_item(
    t: Seq<Seq<u32>>,
    cands: Seq<CandView>,
    i: int,
    n: int,
    o: FuzzyOptions,
) -> Option<EntryV>
    decreases n,
{
    if n <= 0 {
        None
    } else {
        let prev = best_for_item(t, cands, i, n - 1, o);
        if cands[n - 1].index != i {
            prev
        } else {
            let e = entry_of(t, cands[n - 1], n - 1, o);
            match prev {
                None => Some(e),
                Some(p) => if better(e, p) {
                    Some(e)
                } else {
                    Some(p)
                },
            }
        }
    }
}

/// The entries of the first `n_items` items that reach the threshold, in
/// input order.
pub open spec fn collect_entries(
    t: Seq<Seq<u32>>,
    cands: Seq<CandView>,
    n_items: int,
    o: FuzzyOptions,
) -> Seq<EntryV>
    decreases n_items,
{
    if n_items <= 0 {
        seq![]
    } else {
        let pre = collect_entries(t, cands, n_items - 1, o);
        match best_for_item(t, cands, n_items - 1, cands.len() as int, o) {
            None => pre,
            Some(e) => if o.threshold.spec_le(e.score) {
                pre.push(e)
            } else {
                pre
            },
        }
    }
}

/// Stable insertion of `x` into a ranked sequence: `x` moves left past
/// exactly the entries it strictly beats.
pub open spec fn insert_entry(s: Seq<EntryV>, x: EntryV) -> Seq<EntryV>
    decreases s.len(),
{
    if s.len() == 0 {
        seq![x]
    } else if better(x, s.last()) {
        insert_entry(s.drop_last(), x).push(s.last())
    } else {
        s.push(x)
    }
}

/// Stable insertion sort by rank order.
pub open spec fn sort_entries(s: Seq<EntryV>) -> Seq<EntryV>
    decreases s.len(),
{
    if s.len() == 0 {
        seq![]
    } else {
        insert_entry(sort_entries(s.drop_last()), s.last())
    }
}

/// The ranked, filtered results of one query.
pub open spec fn rank_spec(
    t: Seq<Seq<u32>>,
    cands: Seq<CandView>,
    n_items: int,
    o: FuzzyOptions,
) -> Seq<EntryV> {
    let es = collect_entries(t, cands, n_items, o);
    if o.sort_by == SortKind::BestMatch {
        sort_entries(es)
    } else {
        es
    }
}

/// Exact rank comparison between two entries.
pub fn better_exec(a: &RankEntry, b: &RankEntry) -> (r: bool)
    ensures
        r == better(a.view_spec(), b.view_spec()),
{
    if b.score.lt(&a.score) {
        true
    } else if a.score.lt(&b.score) {
        false
    } else {
        a.match_index < b.match_index || (a.match_index == b.match_index && (a.len_diff
            < b.len_diff || (a.len_diff == b.len_diff && a.key_index < b.key_index)))
    }
}

/// The structural facts that the ranker needs of a candidate table.
pub open spec fn cands_wf(cands: Seq<Candidate>, n_items: int) -> bool {
    forall|q: int|
        0 <= q < cands.len() ==> (#[trigger] cands[q]).normalized.wf() && cands[q].index < n_items
}

/// The views of a candidate table.
pub open spec fn views_of(cands: Seq<Candidate>) -> Seq<CandView> {
    cands.map_values(|c: Candidate| c.view_spec())
}

/// The best entry of item `i` over the whole candidate table.
#[verifier::loop_isolation(false)]
pub fn best_entry(
    term: &Normalized,
    cands: &Vec<Candidate>,
    i: usize,
    options: &FuzzyOptions,
) -> (r: Option<RankEntry>)
    requires
        forall|q: int| 0 <= q < cands@.len() ==> (#[trigger] cands@[q]).normalized.wf(),
    ensures
        ({
            let b = best_for_item(
                term.tokens_view(),
                views_of(cands@),
                i as int,
                cands@.len() as int,
                *options,
            );
            match r {
                None => b is None,
                Some(e) => b == Some(e.view_spec()) && e.item == i && e.pos < cands@.len()
                    && cands@[e.pos as int].index == i && cands@[e.pos as int].key_index
                    == e.key_index && e.score.wf(),
            }
        }),
{
    let ghost t = term.tokens_view();
    let ghost cv = views_of(cands@);
    let n = cands.len();
    let mut best: Option<RankEntry> = None;
    let mut p: usize = 0;
    while p < n
        invariant
            p <= n,
            ({
                let b = best_for_item(t, cv, i as int, p as int, *options);
                match best {
                    None => b is None,
                    Some(e) => b == Some(e.view_spec()) && e.item == i && e.pos < n
                        && cands@[e.pos as int].index == i && cands@[e.pos as int].key_index
                        == e.key_index && e.score.wf(),
                }
            }),
        decreases n - p,
    {
        if cands[p].index == i {
            let c = &cands[p];
            let (sc, ws, wl) = score_key(
                &term.normal,
                &c.normalized.normal,
                options.use_damerau,
                options.use_sellers,
            );
            let midx = c.normalized.map[ws];
            let mend = c.normalized.map[ws + wl];
            let tn = term.normal.len();
            let kn = c.normalized.normal.len();
            let ld = if kn >= tn {
                kn - tn
            } else {
                tn - kn
            };
            let e = RankEntry {
                item: c.index,
                pos: p,
                key_index: c.key_index,
                score: sc,
                match_index: midx,
                match_length: mend - midx,
                len_diff: ld,
            };
            proof {
                assert(cv[p as int] == cands@[p as int].view_spec());
                assert(e.view_spec() == entry_of(t, cv[p as int], p as int, *options));
            }
            best = match best {
                None => Some(e),
                Some(b) => if better_exec(&e, &b) {
                    Some(e)
                } else {
                    Some(b)
                },
            };
        } else {
            proof {
                assert(cv[p as int] == cands@[p as int].view_spec());
            }
        }
        p += 1;
    }
    best
}

/// The best entry of an item reads only the distance and alignment
/// toggles of the options, never the threshold or the ordering policy.
pub proof fn lemma_best_indep(
    t: Seq<Seq<u32>>,
    cands: Seq<CandView>,
    i: int,
    n: int,
    o1: FuzzyOptions,
    o2: FuzzyOptions,
)
    requires
        o1.use_damerau == o2.use_damerau,
        o1.use_sellers == o2.use_sellers,
    ensures
        best_for_item(t, cands, i, n, o1) == best_for_item(t, cands, i, n, o2),
    decreases n,
{
    if n > 0 {
        lemma_best_indep(t, cands, i, n - 1, o1, o2);
        assert(entry_of(t, cands[n - 1], n - 1, o1) == entry_of(t, cands[n - 1], n - 1, o2));
    }
}

/// Every best entry carries a well-formed score.
pub proof fn lemma_best_score_wf(
    t: Seq<Seq<u32>>,
    cands: Seq<CandView>,
    i: int,
    n: int,
    o: FuzzyOptions,
)
    requires
        t.len() <= usize::MAX,
        n <= cands.len(),
        forall|q: int| 0 <= q < cands.len() ==> (#[trigger] cands[q]).tokens.len() <= usize::MAX,
    ensures
        match best_for_item(t, cands, i, n, o) {
            Some(e) => e.score.wf(),
            None => true,
        },
    decreases n,
{
    if n > 0 {
        lemma_best_score_wf(t, cands, i, n - 1, o);
        if cands[n - 1].index == i {
            crate::laws::lemma_score_of_range(t, cands[n - 1].tokens, o.use_damerau, o.use_sellers);
        }
    }
}

/// Stable insertion adds exactly one entry.
pub proof fn lemma_insert_len(s: Seq<EntryV>, x: EntryV)
    ensures
        insert_entry(s, x).len() == s.len() + 1,
    decreases s.len(),
{
    if s.len() > 0 && better(x, s.last()) {
        lemma_insert_len(s.drop_last(), x);
    }
}

/// Sorting keeps every entry.
pub proof fn lemma_sort_len(s: Seq<EntryV>)
    ensures
        sort_entries(s).len() == s.len(),
    decreases s.len(),
{
    if s.len() > 0 {
        lemma_sort_len(s.drop_last());
        lemma_insert_len(sort_entries(s.drop_last()), s.last());
    }
}

/// Rational order on scores is transitive.
pub proof fn lemma_score_le_trans(a: Score, b: Score, c: Score)
    requires
        a.wf(),
        b.wf(),
        c.wf(),
        a.spec_le(b),
        b.spec_le(c),
    ensures
        a.spec_le(c),
{
    let an = a.num as int;
    let ad = a.den as int;
    let bn = b.num as int;
    let bd = b.den as int;
    let cn = c.num as int;
    let cd = c.den as int;
    assert(an * cd <= cn * ad) by (nonlinear_arith)
        requires
            an * bd <= bn * ad,
            bn * cd <= cn * bd,
            ad >= 1,
            bd >= 1,
            cd >= 1,
            an >= 0,
            bn >= 0,
            cn >= 0,
    ;
}

/// Scores never increase along the sequence.
pub open spec fn sorted_scores(s: Seq<EntryV>) -> bool {
    forall|q1: int, q2: int|
        0 <= q1 <= q2 < s.len() ==> (#[trigger] s[q2]).score.spec_le((#[trigger] s[q1]).score)
}

/// Inserting at the scanned position realizes the stable-insertion spec.
pub proof fn lemma_insert_split(s: Seq<EntryV>, x: EntryV, pos: int)
    requires
        0 <= pos <= s.len(),
        forall|q: int| pos <= q < s.len() ==> better(x, #[trigger] s[q]),
        pos > 0 ==> !better(x, s[pos - 1]),
    ensures
        insert_entry(s, x) == s.subrange(0, pos).push(x) + s.subrange(pos, s.len() as int),
    decreases s.len(),
{
    if pos == s.len() {
        if s.len() == 0 {
            assert(insert_entry(s, x) =~= s.subrange(0, pos).push(x) + s.subrange(
                pos,
                s.len() as int,
            ));
        } else {
            assert(s.subrange(0, pos) =~= s);
            assert(insert_entry(s, x) =~= s.subrange(0, pos).push(x) + s.subrange(
                pos,
                s.len() as int,
            ));
        }
    } else {
        lemma_insert_split(s.drop_last(), x, pos);
        assert(s.drop_last().subrange(0, pos) =~= s.subrange(0, pos));
        assert(s.drop_last().subrange(pos, s.len() - 1) =~= s.subrange(pos, s.len() - 1));
        assert(insert_entry(s, x) =~= s.subrange(0, pos).push(x) + s.subrange(pos, s.len() as int));
    }
}

/// One query: score every key, keep each item's best key, filter by the
/// threshold, and order the survivors by the configured policy.
///
/// The results are a subset of the items, one entry per item at most, each
/// with similarity at least the threshold; with best-match ordering the
/// scores never increase along the result.
#[verifier::loop_isolation(false)]
pub fn rank(
    term: &Normalized,
    cands: &Vec<Candidate>,
    n_items: usize,
    options: &FuzzyOptions,
) -> (r: Vec<RankEntry>)
    requires
        cands_wf(cands@, n_items as int),
    ensures
        r@.map_values(|e: RankEntry| e.view_spec()) == rank_spec(
            term.tokens_view(),
            views_of(cands@),
            n_items as int,
            *options,
        ),
        forall|q: int|
            0 <= q < r@.len() ==> (#[trigger] r@[q]).item < n_items && (r@[q].pos as int)
                < cands@.len() && cands@[r@[q].pos as int].index == r@[q].item
                && cands@[r@[q].pos as int].key_index == r@[q].key_index
                && options.threshold.spec_le(r@[q].score) && r@[q].score.wf(),
        forall|q1: int, q2: int| 0 <= q1 < q2 < r@.len() ==> r@[q1].item != r@[q2].item,
        options.sort_by == SortKind::BestMatch ==> sorted_scores(
            r@.map_values(|e: RankEntry| e.view_spec()),
        ),
{
    let ghost t = term.tokens_view();
    let ghost cv = views_of(cands@);
    let mut collected: Vec<RankEntry> = Vec::new();
    let mut i: usize = 0;
    while i < n_items
        invariant
            i <= n_items,
            collected@.map_values(|e: RankEntry| e.view_spec()) == collect_entries(
                t,
                cv,
                i as int,
                *options,
            ),
            forall|q: int|
                0 <= q < collected@.len() ==> (#[trigger] collected@[q]).item < i && (
                collected@[q].pos as int) < cands@.len()
                    && cands@[collected@[q].pos as int].index == collected@[q].item
                    && cands@[collected@[q].pos as int].key_index == collected@[q].key_index
                    && options.threshold.spec_le(collected@[q].score) && collected@[q].score.wf(),
            forall|q1: int, q2: int|
                0 <= q1 < q2 < collected@.len() ==> (#[trigger] collected@[q1]).item < (
                #[trigger] collected@[q2]).item,
        decreases n_items - i,
    {
        match best_entry(term, cands, i, options) {
            Some(e) => {
                if options.threshold.le(&e.score) {
                    let ghost pre = collected@.map_values(|en: RankEntry| en.view_spec());
                    collected.push(e);
                    proof {
                        assert(collected@.map_values(|en: RankEntry| en.view_spec()) =~= pre.push(
                            e.view_spec(),
                        ));
                    }
                }
            },
            None => {},
        }
        i += 1;
    }
    match options.sort_by {
        SortKind::InsertOrder => collected,
        SortKind::BestMatch => {
            let ghost col = collected@.map_values(|e: RankEntry| e.view_spec());
            let cn = collected.len();
            let mut out: Vec<RankEntry> = Vec::new();
            let mut idx: usize = 0;
            while idx < cn
                invariant
                    idx <= cn,
                    out@.len() == idx,
                    out@.map_values(|e: RankEntry| e.view_spec()) == sort_entries(
                        col.take(idx as int),
                    ),
                    sorted_scores(out@.map_values(|e: RankEntry| e.view_spec())),
                    forall|q: int|
                        0 <= q < out@.len() ==> (#[trigger] out@[q]).item < n_items && (
                        out@[q].pos as int) < cands@.len()
                            && cands@[out@[q].pos as int].index == out@[q].item
                            && cands@[out@[q].pos as int].key_index == out@[q].key_index
                            && options.threshold.spec_le(out@[q].score) && out@[q].score.wf(),
                    forall|q: int|
                        0 <= q < out@.len() ==> exists|qq: int|
                            0 <= qq < idx && #[trigger] out@[q].item == collected@[qq].item,
                    forall|q1: int, q2: int|
                        0 <= q1 < q2 < out@.len() ==> (#[trigger] out@[q1]).item != (
                        #[trigger] out@[q2]).item,
                decreases cn - idx,
            {
                let x = collected[idx];
                let ghost ov = out@.map_values(|e: RankEntry| e.view_spec());
                let mut pos: usize = out.len();
                while pos > 0 && better_exec(&x, &out[pos - 1])
                    invariant
                        pos <= out@.len(),
                        forall|q: int| pos <= q < out@.len() ==> better(x.view_spec(), ov[q]),
                    decreases pos,
                {
                    pos -= 1;
                }
                proof {
                    lemma_insert_split(ov, x.view_spec(), pos as int);
                    assert(col.take(idx as int + 1).drop_last() =~= col.take(idx as int));
                    assert(col.take(idx as int + 1).last() == col[idx as int]);
                    // scores on the left stay at least x's score
                    if pos > 0 {
                        assert forall|q: int| 0 <= q < pos implies x.view_spec().score.spec_le(
                            ov[q].score,
                        ) by {
                            lemma_score_le_trans(x.score, ov[pos - 1].score, ov[q].score);
                        }
                    }
                }
                out.insert(pos, x);
                proof {
                    assert(out@.map_values(|e: RankEntry| e.view_spec()) =~= ov.subrange(
                        0,
                        pos as int,
                    ).push(x.view_spec()) + ov.subrange(pos as int, ov.len() as int));
                    assert(out@.map_values(|e: RankEntry| e.view_spec()) == sort_entries(
                        col.take(idx as int + 1),
                    ));
                    let nv = out@.map_values(|e: RankEntry| e.view_spec());
                    assert forall|q1: int, q2: int| 0 <= q1 <= q2 < nv.len() implies nv[q2].score.spec_le(
                        nv[q1].score,
                    ) by {
                        if q1 < pos && q2 > pos {
                            lemma_score_le_trans(nv[q2].score, x.view_spec().score, nv[q1].score);
                        }
                    }
                }
                idx += 1;
            }
            proof {
                assert(col.take(cn as int) =~= col);
            }
            out
        },
    }
}

} // verus!
