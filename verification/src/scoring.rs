//! Similarity scores and the token edit-distance engine.
//!
//! A similarity is an exact non-negative rational `num / den`. Non-exact
//! matches score in `[0, 1]`; a normalized-exact substring match in
//! windowed mode is assigned the fixed ceiling value, strictly greater
//! than every non-exact score.

use vstd::prelude::*;

verus! {

/// Numerator of the fixed similarity assigned to normalized-exact matches.
pub const CEILING_NUM: usize = 10;

/// A similarity value, kept as an exact rational number `num / den`.
#[derive(Clone, Copy, Debug, PartialEq, Eq, Structural)]
pub struct Score {
    pub num: usize,
    pub den: usize,
}

impl Score {
    /// A score is well formed when its denominator is positive and its
    /// value does not exceed the exact-match ceiling.
    pub open spec fn wf(self) -> bool {
        1 <= self.den && self.num <= CEILING_NUM * self.den
    }

    /// `self < o` as rational numbers, by cross-multiplication.
    pub open spec fn spec_lt(self, o: Score) -> bool {
        self.num * o.den < o.num * self.den
    }

    /// `self <= o` as rational numbers.
    pub open spec fn spec_le(self, o: Score) -> bool {
        self.num * o.den <= o.num * self.den
    }

    pub fn new(num: usize, den: usize) -> (r: Score)
        requires
            1 <= den,
            num <= CEILING_NUM * den,
        ensures
            r == (Score { num, den }),
            r.wf(),
    {
        Score { num, den }
    }

    /// The fixed ceiling score assigned to normalized-exact matches.
    pub fn ceiling() -> (r: Score)
        ensures
            r == Score::spec_ceiling(),
            r.wf(),
    {
        Score { num: CEILING_NUM, den: 1 }
    }

    /// The minimum score, assigned to a non-match.
    pub fn zero() -> (r: Score)
        ensures
            r == Score::spec_zero(),
            r.wf(),
    {
        Score { num: 0, den: 1 }
    }

    pub open spec fn spec_ceiling() -> Score {
        Score { num: CEILING_NUM, den: 1 }
    }

    pub open spec fn spec_zero() -> Score {
        Score { num: 0, den: 1 }
    }

    pub fn num(&self) -> (r: usize)
        ensures
            r == self.num,
    {
        self.num
    }

    pub fn den(&self) -> (r: usize)
        ensures
            r == self.den,
    {
        self.den
    }

    /// Exact rational comparison `self < o`, by cross-multiplication.
    pub fn lt(&self, o: &Score) -> (r: bool)
        ensures
            r == self.spec_lt(*o),
    {
        proof {
            lemma_cross_mul_fits(self.num as int, o.den as int);
            lemma_cross_mul_fits(o.num as int, self.den as int);
        }
        let a = (self.num as u128) * (o.den as u128);
        let b = (o.num as u128) * (self.den as u128);
        a < b
    }

    /// Exact rational comparison `self <= o`, by cross-multiplication.
    pub fn le(&self, o: &Score) -> (r: bool)
        ensures
            r == self.spec_le(*o),
    {
        proof {
            lemma_cross_mul_fits(self.num as int, o.den as int);
            lemma_cross_mul_fits(o.num as int, self.den as int);
        }
        let a = (self.num as u128) * (o.den as u128);
        let b = (o.num as u128) * (self.den as u128);
        a <= b
    }
}

pub open spec fn min2(a: int, b: int) -> int {
    if a <= b {
        a
    } else {
        b
    }
}

pub open spec fn max2(a: int, b: int) -> int {
    if a >= b {
        a
    } else {
        b
    }
}

/// Edit distance between the term prefix `term[0..k]` and the key window
/// `key[st..j]`: the least number of single-token insertions, deletions and
/// substitutions (and, with `dam`, adjacent transpositions) that turn one
/// into the other.
pub open spec fn wdist(
    term: Seq<Seq<u32>>,
    key: Seq<Seq<u32>>,
    st: int,
    k: int,
    j: int,
    dam: bool,
) -> int
    recommends
        0 <= st <= j <= key.len(),
        0 <= k <= term.len(),
    decreases k + j,
{
    if st < 0 || k < 0 || j < st {
        0
    } else if k == 0 {
        j - st
    } else if j == st {
        k
    } else {
        let del = wdist(term, key, st, k - 1, j, dam) + 1;
        let ins = wdist(term, key, st, k, j - 1, dam) + 1;
        let sub = wdist(term, key, st, k - 1, j - 1, dam) + if term[k - 1] == key[j - 1] {
            0int
        } else {
            1int
        };
        let base = min2(min2(del, ins), sub);
        if dam && k >= 2 && j >= st + 2 && term[k - 1] == key[j - 2] && term[k - 2] == key[j - 1] {
            min2(base, wdist(term, key, st, k - 2, j - 2, dam) + 1)
        } else {
            base
        }
    }
}

/// The edit distance is non-negative and at most the sum of the two lengths.
pub proof fn lemma_wdist_bounds(
    term: Seq<Seq<u32>>,
    key: Seq<Seq<u32>>,
    st: int,
    k: int,
    j: int,
    dam: bool,
)
    requires
        0 <= st,
        0 <= k,
        st <= j,
    ensures
        0 <= wdist(term, key, st, k, j, dam) <= k + (j - st),
    decreases k + j,
{
    if k == 0 || j == st {
    } else {
        lemma_wdist_bounds(term, key, st, k - 1, j, dam);
        lemma_wdist_bounds(term, key, st, k, j - 1, dam);
        lemma_wdist_bounds(term, key, st, k - 1, j - 1, dam);
        if k >= 2 && j >= st + 2 {
            lemma_wdist_bounds(term, key, st, k - 2, j - 2, dam);
        }
    }
}

/// A candidate window of the key, with its edit distance to the whole term.
pub struct Win {
    pub d: int,
    pub start: int,
    pub len: int,
}

/// Keep the incumbent unless the new window is strictly better: less
/// distance, ties toward the shorter window and then the earlier one.
/// The shorter window wins a tie so that the reported span stays as
/// tight as the distance allows and the compared length stays small; the
/// earlier window decides only among windows of one length.
pub open spec fn win_upd(acc: Win, d: int, start: int, len: int) -> Win {
    if d < acc.d || (d == acc.d && (len < acc.len || (len == acc.len && start < acc.start))) {
        Win { d, start, len }
    } else {
        acc
    }
}

/// Fold the windows `key[st..e]` for `e` in `(st, j]`, in ascending `e`.
pub open spec fn fold_row(
    acc: Win,
    term: Seq<Seq<u32>>,
    key: Seq<Seq<u32>>,
    st: int,
    j: int,
    dam: bool,
) -> Win
    decreases j - st,
{
    if st < 0 || j <= st {
        acc
    } else {
        win_upd(
            fold_row(acc, term, key, st, j - 1, dam),
            wdist(term, key, st, term.len() as int, j, dam),
            st,
            j - st,
        )
    }
}

/// Fold all windows with start below `s` (each start's windows in ascending
/// length), seeded with the empty window at position 0.
pub open spec fn fold_starts(term: Seq<Seq<u32>>, key: Seq<Seq<u32>>, s: int, dam: bool) -> Win
    decreases s,
{
    if s <= 0 {
        Win { d: term.len() as int, start: 0, len: 0 }
    } else {
        fold_row(fold_starts(term, key, s - 1, dam), term, key, s - 1, key.len() as int, dam)
    }
}

/// The best-aligned window of `key` against `term`: least edit distance,
/// ties broken toward the shortest window and then the earliest one.
pub open spec fn best_window(term: Seq<Seq<u32>>, key: Seq<Seq<u32>>, dam: bool) -> Win {
    fold_starts(term, key, key.len() as int, dam)
}

/// Token equality: two tokens match exactly when their scalar sequences do.
pub fn tok_eq(a: &Vec<u32>, b: &Vec<u32>) -> (r: bool)
    ensures
        r == (a@ == b@),
{
    if a.len() != b.len() {
        return false;
    }
    let mut i: usize = 0;
    while i < a.len()
        invariant
            i <= a.len(),
            a@.len() == b@.len(),
            forall|q: int| 0 <= q < i ==> a@[q] == b@[q],
        decreases a.len() - i,
    {
        if a[i] != b[i] {
            return false;
        }
        i += 1;
    }
    proof {
        assert(a@ =~= b@);
    }
    true
}

/// The column invariant of the dynamic program: `col[k]` holds the edit
/// distance between `term[0..k]` and the window `key[st..j]`.
pub open spec fn col_ok(
    col: Seq<u128>,
    term: Seq<Seq<u32>>,
    key: Seq<Seq<u32>>,
    st: int,
    j: int,
    dam: bool,
) -> bool {
    &&& col.len() == term.len() + 1
    &&& forall|k: int|
        0 <= k <= term.len() ==> #[trigger] col[k] as int == wdist(term, key, st, k, j, dam)
}

/// Compute the best-aligned window of `key` against `term` by dynamic
/// programming, one column per window end, restarted at each window start.
pub fn dp_best_window(term: &Vec<Vec<u32>>, key: &Vec<Vec<u32>>, dam: bool) -> (r: (
    usize,
    usize,
    usize,
))
    ensures
        ({
            let w = best_window(term.deep_view(), key.deep_view(), dam);
            r.0 as int == w.d && r.1 as int == w.start && r.2 as int == w.len
        }),
        r.0 <= term.len(),
        r.1 + r.2 <= key.len(),
{
    let ghost tv = term.deep_view();
    let ghost kv = key.deep_view();
    let tlen = term.len();
    let klen = key.len();
    let mut best_d: usize = tlen;
    let mut best_start: usize = 0;
    let mut best_len: usize = 0;
    let mut st: usize = 0;
    proof {
        lemma_fold_starts_shape(tv, kv, 0, dam);
    }
    while st < klen
        invariant
            tv == term.deep_view(),
            kv == key.deep_view(),
            tlen == term.len(),
            klen == key.len(),
            st <= klen,
            ({
                let w = fold_starts(tv, kv, st as int, dam);
                best_d as int == w.d && best_start as int == w.start && best_len as int == w.len
            }),
            best_d <= tlen,
            best_start + best_len <= klen,
        decreases klen - st,
    {
        proof {
            lemma_deep_view_toks(term);
            lemma_deep_view_toks(key);
        }
        // column for the empty window key[st..st]
        let mut prev: Vec<u128> = Vec::new();
        prev.push(0);
        let mut k0: usize = 0;
        while k0 < tlen
            invariant
                k0 <= tlen,
                prev@.len() == k0 + 1,
                forall|q: int| 0 <= q <= k0 ==> #[trigger] prev@[q] as int == q,
            decreases tlen - k0,
        {
            prev.push((k0 as u128) + 1);
            k0 += 1;
        }
        let mut prevprev: Vec<u128> = Vec::new();
        let mut j = st;
        while j < klen
            invariant
                tv == term.deep_view(),
                kv == key.deep_view(),
                tlen == term.len(),
                klen == key.len(),
                st <= j <= klen,
                st < klen,
                col_ok(prev@, tv, kv, st as int, j as int, dam),
                j > st ==> col_ok(prevprev@, tv, kv, st as int, j - 1, dam),
                ({
                    let w = fold_row(fold_starts(tv, kv, st as int, dam), tv, kv, st as int, j as int, dam);
                    best_d as int == w.d && best_start as int == w.start && best_len as int == w.len
                }),
                best_d <= tlen,
                best_start + best_len <= klen,
            decreases klen - j,
        {
            let jn = j + 1;
            let mut cur: Vec<u128> = Vec::new();
            cur.push((jn - st) as u128);
            let mut kk: usize = 0;
            while kk < tlen
                invariant
                    tv == term.deep_view(),
                    kv == key.deep_view(),
                    tlen == term.len(),
                    klen == key.len(),
                    st <= j < klen,
                    jn == j + 1,
                    kk <= tlen,
                    col_ok(prev@, tv, kv, st as int, j as int, dam),
                    j > st ==> col_ok(prevprev@, tv, kv, st as int, j - 1, dam),
                    cur@.len() == kk + 1,
                    forall|q: int|
                        0 <= q <= kk ==> #[trigger] cur@[q] as int == wdist(
                            tv,
                            kv,
                            st as int,
                            q,
                            jn as int,
                            dam,
                        ),
                    forall|i: int| 0 <= i < tv.len() ==> tv[i] == #[trigger] term@[i]@,
                    forall|i: int| 0 <= i < kv.len() ==> kv[i] == #[trigger] key@[i]@,
                decreases tlen - kk,
            {
                let k = kk + 1;
                proof {
                    lemma_wdist_bounds(tv, kv, st as int, k as int, j as int, dam);
                    lemma_wdist_bounds(tv, kv, st as int, k - 1, j as int, dam);
                    lemma_wdist_bounds(tv, kv, st as int, k - 1, jn as int, dam);
                    if k >= 2 && j > st {
                        lemma_wdist_bounds(tv, kv, st as int, k - 2, j - 1, dam);
                    }
                }
                let del = prev[k] + 1;
                let ins = cur[k - 1] + 1;
                let subc: u128 = if tok_eq(&term[k - 1], &key[jn - 1]) {
                    0
                } else {
                    1
                };
                let sub = prev[k - 1] + subc;
                let mut m = if del <= ins {
                    del
                } else {
                    ins
                };
                if sub < m {
                    m = sub;
                }
                if dam && k >= 2 && jn - st >= 2 {
                    if tok_eq(&term[k - 1], &key[jn - 2]) && tok_eq(&term[k - 2], &key[jn - 1]) {
                        let tr = prevprev[k - 2] + 1;
                        if tr < m {
                            m = tr;
                        }
                    }
                }
                cur.push(m);
                kk = k;
            }
            // cur is the column for the window key[st..jn]
            let d_val = cur[tlen];
            let wlen = jn - st;
            if d_val < best_d as u128 || (d_val == best_d as u128 && (wlen < best_len || (wlen
                == best_len && st < best_start))) {
                proof {
                    lemma_wdist_bounds(tv, kv, st as int, tlen as int, jn as int, dam);
                }
                best_d = d_val as usize;
                best_start = st;
                best_len = wlen;
            }
            prevprev = prev;
            prev = cur;
            j = jn;
        }
        st += 1;
    }
    (best_d, best_start, best_len)
}

/// Bridge between the deep view of a token vector and its element views.
pub proof fn lemma_deep_view_toks(v: &Vec<Vec<u32>>)
    ensures
        v.deep_view().len() == v@.len(),
        forall|i: int| 0 <= i < v@.len() ==> v.deep_view()[i] == #[trigger] v@[i]@,
{
    assert forall|i: int| 0 <= i < v@.len() implies v.deep_view()[i] == #[trigger] v@[i]@ by {
        assert(v.deep_view()[i] =~= v@[i]@);
    }
}

/// The seed of the window fold is the empty window at position 0.
pub proof fn lemma_fold_starts_shape(term: Seq<Seq<u32>>, key: Seq<Seq<u32>>, s: int, dam: bool)
    requires
        s <= 0,
    ensures
        fold_starts(term, key, s, dam) == (Win { d: term.len() as int, start: 0, len: 0 }),
{
}


/// Folding a row never worsens the incumbent, and the result is the
/// incumbent or one of the row's windows.
pub proof fn lemma_fold_row_props(
    acc: Win,
    term: Seq<Seq<u32>>,
    key: Seq<Seq<u32>>,
    st: int,
    j: int,
    dam: bool,
)
    requires
        0 <= st,
    ensures
        fold_row(acc, term, key, st, j, dam).d <= acc.d,
        forall|e: int|
            st < e <= j ==> fold_row(acc, term, key, st, j, dam).d <= #[trigger] wdist(
                term,
                key,
                st,
                term.len() as int,
                e,
                dam,
            ),
        fold_row(acc, term, key, st, j, dam) == acc || exists|e: int|
            st < e <= j && fold_row(acc, term, key, st, j, dam) == (Win {
                d: wdist(term, key, st, term.len() as int, e, dam),
                start: st,
                len: e - st,
            }),
    decreases j - st,
{
    if j <= st {
    } else {
        lemma_fold_row_props(acc, term, key, st, j - 1, dam);
    }
}

/// The folded best window is sound (it is a real window with its true
/// distance) and minimal over every window with start below `s`.
pub proof fn lemma_fold_starts_props(
    term: Seq<Seq<u32>>,
    key: Seq<Seq<u32>>,
    s: int,
    dam: bool,
)
    requires
        0 <= s <= key.len(),
    ensures
        ({
            let w = fold_starts(term, key, s, dam);
            &&& w.d <= term.len() as int
            &&& 0 <= w.start
            &&& 0 <= w.len
            &&& w.start + w.len <= key.len()
            &&& w.d == wdist(term, key, w.start, term.len() as int, w.start + w.len, dam)
            &&& forall|t: int, e: int|
                0 <= t < s && t < e <= key.len() ==> w.d <= #[trigger] wdist(
                    term,
                    key,
                    t,
                    term.len() as int,
                    e,
                    dam,
                )
        }),
    decreases s,
{
    let w = fold_starts(term, key, s, dam);
    if s <= 0 {
        assert(wdist(term, key, 0, term.len() as int, 0, dam) == term.len() as int);
    } else {
        lemma_fold_starts_props(term, key, s - 1, dam);
        lemma_fold_row_props(fold_starts(term, key, s - 1, dam), term, key, s - 1, key.len() as int, dam);
    }
}

/// The best window over the whole key: sound and minimal over all windows,
/// the empty windows included.
pub proof fn lemma_best_window_props(term: Seq<Seq<u32>>, key: Seq<Seq<u32>>, dam: bool)
    ensures
        ({
            let w = best_window(term, key, dam);
            &&& 0 <= w.d <= term.len() as int
            &&& 0 <= w.start
            &&& 0 <= w.len
            &&& w.start + w.len <= key.len()
            &&& w.d == wdist(term, key, w.start, term.len() as int, w.start + w.len, dam)
            &&& forall|t: int, e: int|
                0 <= t <= e <= key.len() ==> w.d <= #[trigger] wdist(
                    term,
                    key,
                    t,
                    term.len() as int,
                    e,
                    dam,
                )
        }),
{
    let w = best_window(term, key, dam);
    lemma_fold_starts_props(term, key, key.len() as int, dam);
    lemma_wdist_bounds(term, key, w.start, term.len() as int, w.start + w.len, dam);
    assert forall|t: int, e: int| 0 <= t <= e <= key.len() implies w.d <= #[trigger] wdist(
        term,
        key,
        t,
        term.len() as int,
        e,
        dam,
    ) by {
        if e == t {
            assert(wdist(term, key, t, term.len() as int, e, dam) == if term.len() == 0 {
                0int
            } else {
                term.len() as int
            });
        }
    }
}

/// The edit distance is zero exactly when the term equals the window.
pub proof fn lemma_wdist_zero(
    term: Seq<Seq<u32>>,
    key: Seq<Seq<u32>>,
    st: int,
    k: int,
    j: int,
    dam: bool,
)
    requires
        0 <= st <= j <= key.len(),
        0 <= k <= term.len(),
    ensures
        (wdist(term, key, st, k, j, dam) == 0) <==> (j - st == k && forall|i: int|
            0 <= i < k ==> term[i] == #[trigger] key[st + i]),
    decreases k + j,
{
    if k == 0 || j == st {
    } else {
        lemma_wdist_bounds(term, key, st, k - 1, j, dam);
        lemma_wdist_bounds(term, key, st, k, j - 1, dam);
        lemma_wdist_bounds(term, key, st, k - 1, j - 1, dam);
        if k >= 2 && j >= st + 2 {
            lemma_wdist_bounds(term, key, st, k - 2, j - 2, dam);
        }
        lemma_wdist_zero(term, key, st, k - 1, j - 1, dam);
        if wdist(term, key, st, k, j, dam) == 0 {
            assert(wdist(term, key, st, k - 1, j - 1, dam) == 0 && term[k - 1] == key[j - 1]);
        }
        if j - st == k && (forall|i: int| 0 <= i < k ==> term[i] == #[trigger] key[st + i]) {
            assert(term[k - 1] == key[st + (k - 1)]);
            assert(wdist(term, key, st, k - 1, j - 1, dam) == 0);
        }
    }
}

/// The edit distance never exceeds the longer of the two lengths.
pub proof fn lemma_wdist_max(
    term: Seq<Seq<u32>>,
    key: Seq<Seq<u32>>,
    st: int,
    k: int,
    j: int,
    dam: bool,
)
    requires
        0 <= st,
        0 <= k,
        st <= j,
    ensures
        wdist(term, key, st, k, j, dam) <= max2(k, j - st),
    decreases k + j,
{
    if k == 0 || j == st {
    } else {
        lemma_wdist_max(term, key, st, k - 1, j - 1, dam);
        lemma_wdist_bounds(term, key, st, k - 1, j, dam);
        lemma_wdist_bounds(term, key, st, k, j - 1, dam);
        if k >= 2 && j >= st + 2 {
            lemma_wdist_bounds(term, key, st, k - 2, j - 2, dam);
        }
    }
}

/// The similarity that an edit distance `d` earns over a compared length
/// `l`: `(l - d) / l`, clamped at zero.
pub open spec fn spec_frac(d: int, l: int) -> Score {
    Score { num: (if d <= l { l - d } else { 0 }) as usize, den: l as usize }
}

/// A scored alignment: the similarity, and the matched window of the key
/// as a token index and a token count.
pub struct SpecMatch {
    pub score: Score,
    pub start: int,
    pub len: int,
}

/// The score of one normalized key against a normalized term.
///
/// An empty term matches everything at the ceiling; an empty key scores
/// zero. In windowed (substring) mode the best-aligned window is used and
/// a distance of zero, meaning the term equals that window, earns the
/// ceiling; otherwise the distance maps to `1 - d / l` over the longer of
/// term length and window length. In whole-string mode the sequences are
/// compared in full and an exact match earns plain `1`.
pub open spec fn score_of(
    term: Seq<Seq<u32>>,
    key: Seq<Seq<u32>>,
    dam: bool,
    sellers: bool,
) -> SpecMatch {
    if term.len() == 0 {
        SpecMatch { score: Score::spec_ceiling(), start: 0, len: 0 }
    } else if key.len() == 0 {
        SpecMatch { score: Score::spec_zero(), start: 0, len: 0 }
    } else if sellers {
        let w = best_window(term, key, dam);
        if w.d == 0 {
            SpecMatch { score: Score::spec_ceiling(), start: w.start, len: w.len }
        } else {
            SpecMatch {
                score: spec_frac(w.d, max2(term.len() as int, w.len)),
                start: w.start,
                len: w.len,
            }
        }
    } else {
        SpecMatch {
            score: spec_frac(
                wdist(term, key, 0, term.len() as int, key.len() as int, dam),
                max2(term.len() as int, key.len() as int),
            ),
            start: 0,
            len: key.len() as int,
        }
    }
}

/// Whole-string edit distance between term and key.
pub fn dp_distance(term: &Vec<Vec<u32>>, key: &Vec<Vec<u32>>, dam: bool) -> (r: usize)
    ensures
        r as int == wdist(term.deep_view(), key.deep_view(), 0, term.len() as int, key.len() as int, dam),
        r <= max2(term.len() as int, key.len() as int),
{
    let ghost tv = term.deep_view();
    let ghost kv = key.deep_view();
    proof {
        lemma_deep_view_toks(term);
        lemma_deep_view_toks(key);
        lemma_wdist_max(tv, kv, 0, term.len() as int, key.len() as int, dam);
        lemma_wdist_bounds(tv, kv, 0, term.len() as int, key.len() as int, dam);
    }
    let tlen = term.len();
    let klen = key.len();
    let mut prev: Vec<u128> = Vec::new();
    prev.push(0);
    let mut k0: usize = 0;
    while k0 < tlen
        invariant
            k0 <= tlen,
            prev@.len() == k0 + 1,
            forall|q: int| 0 <= q <= k0 ==> #[trigger] prev@[q] as int == q,
        decreases tlen - k0,
    {
        prev.push((k0 as u128) + 1);
        k0 += 1;
    }
    let mut prevprev: Vec<u128> = Vec::new();
    let mut j: usize = 0;
    while j < klen
        invariant
            tv == term.deep_view(),
            kv == key.deep_view(),
            tlen == term.len(),
            klen == key.len(),
            j <= klen,
            col_ok(prev@, tv, kv, 0, j as int, dam),
            j > 0 ==> col_ok(prevprev@, tv, kv, 0, j - 1, dam),
            forall|i: int| 0 <= i < tv.len() ==> tv[i] == #[trigger] term@[i]@,
            forall|i: int| 0 <= i < kv.len() ==> kv[i] == #[trigger] key@[i]@,
        decreases klen - j,
    {
        let jn = j + 1;
        let mut cur: Vec<u128> = Vec::new();
        cur.push(jn as u128);
        let mut kk: usize = 0;
        while kk < tlen
            invariant
                tv == term.deep_view(),
                kv == key.deep_view(),
                tlen == term.len(),
                klen == key.len(),
                j < klen,
                jn == j + 1,
                kk <= tlen,
                col_ok(prev@, tv, kv, 0, j as int, dam),
                j > 0 ==> col_ok(prevprev@, tv, kv, 0, j - 1, dam),
                cur@.len() == kk + 1,
                forall|q: int|
                    0 <= q <= kk ==> #[trigger] cur@[q] as int == wdist(tv, kv, 0, q, jn as int, dam),
                forall|i: int| 0 <= i < tv.len() ==> tv[i] == #[trigger] term@[i]@,
                forall|i: int| 0 <= i < kv.len() ==> kv[i] == #[trigger] key@[i]@,
            decreases tlen - kk,
        {
            let k = kk + 1;
            proof {
                lemma_wdist_bounds(tv, kv, 0, k as int, j as int, dam);
                lemma_wdist_bounds(tv, kv, 0, k - 1, j as int, dam);
                lemma_wdist_bounds(tv, kv, 0, k - 1, jn as int, dam);
                if k >= 2 && j > 0 {
                    lemma_wdist_bounds(tv, kv, 0, k - 2, j - 1, dam);
                }
            }
            let del = prev[k] + 1;
            let ins = cur[k - 1] + 1;
            let subc: u128 = if tok_eq(&term[k - 1], &key[jn - 1]) {
                0
            } else {
                1
            };
            let sub = prev[k - 1] + subc;
            let mut m = if del <= ins {
                del
            } else {
                ins
            };
            if sub < m {
                m = sub;
            }
            if dam && k >= 2 && jn >= 2 {
                if tok_eq(&term[k - 1], &key[jn - 2]) && tok_eq(&term[k - 2], &key[jn - 1]) {
                    let tr = prevprev[k - 2] + 1;
                    if tr < m {
                        m = tr;
                    }
                }
            }
            cur.push(m);
            kk = k;
        }
        prevprev = prev;
        prev = cur;
        j = jn;
    }
    proof {
        lemma_wdist_max(tv, kv, 0, tlen as int, klen as int, dam);
    }
    let d_val = prev[tlen];
    d_val as usize
}

/// Score one normalized key against a normalized term, returning the
/// similarity together with the matched window of the key in token space.
pub fn score_key(term: &Vec<Vec<u32>>, key: &Vec<Vec<u32>>, dam: bool, sellers: bool) -> (r: (
    Score,
    usize,
    usize,
))
    ensures
        ({
            let m = score_of(term.deep_view(), key.deep_view(), dam, sellers);
            r.0 == m.score && r.1 as int == m.start && r.2 as int == m.len
        }),
        r.0.wf(),
        r.1 + r.2 <= key.len(),
{
    let tlen = term.len();
    let klen = key.len();
    if tlen == 0 {
        return (Score::ceiling(), 0, 0);
    }
    if klen == 0 {
        return (Score::zero(), 0, 0);
    }
    if sellers {
        let (d, start, len) = dp_best_window(term, key, dam);
        if d == 0 {
            (Score::ceiling(), start, len)
        } else {
            let l = if tlen >= len {
                tlen
            } else {
                len
            };
            (Score::new(l - d, l), start, len)
        }
    } else {
        let d = dp_distance(term, key, dam);
        let l = if tlen >= klen {
            tlen
        } else {
            klen
        };
        (Score::new(l - d, l), 0, klen)
    }
}

/// The product of two machine-word values fits in a double-width word.
proof fn lemma_cross_mul_fits(x: int, y: int)
    requires
        0 <= x <= u64::MAX,
        0 <= y <= u64::MAX,
    ensures
        0 <= x * y <= u128::MAX,
{
    assert(0 <= x * y <= u64::MAX * u64::MAX) by (nonlinear_arith)
        requires
            0 <= x <= u64::MAX,
            0 <= y <= u64::MAX,
    ;
}

} // verus!
