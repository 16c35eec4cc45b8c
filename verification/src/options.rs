//! Configuration for matching and searching.

use vstd::prelude::*;
use crate::scoring::Score;

verus! {

/// How surviving candidates are ordered in search results.
#[derive(Copy, Clone, Debug, PartialEq, Eq, Structural)]
pub enum SortKind {
    /// Keep the original insertion order; the threshold only filters.
    InsertOrder,
    /// Sort by descending score, earliest match first among equals.
    BestMatch,
}

/// Options read by every matching and searching operation.
///
/// The threshold is an exact rational: a candidate is kept when its best
/// similarity is at least `threshold`.
#[derive(Clone, Debug)]
pub struct FuzzyOptions {
    pub ignore_case: bool,
    pub ignore_symbols: bool,
    pub normalize_whitespace: bool,
    pub use_damerau: bool,
    pub use_sellers: bool,
    pub use_separated_unicode: bool,
    pub sort_by: SortKind,
    pub threshold: Score,
}

/// The default configuration: case-, symbol- and whitespace-insensitive,
/// transposition-aware, windowed substring alignment, grapheme-cluster
/// segmentation, best matches first, threshold three fifths.
pub open spec fn default_options() -> FuzzyOptions {
    FuzzyOptions {
        ignore_case: true,
        ignore_symbols: true,
        normalize_whitespace: true,
        use_damerau: true,
        use_sellers: true,
        use_separated_unicode: false,
        sort_by: SortKind::BestMatch,
        threshold: Score { num: 3, den: 5 },
    }
}

impl FuzzyOptions {
    pub open spec fn wf(self) -> bool {
        self.threshold.wf()
    }

    /// Fold case before comparison.
    pub fn ignore_case(self, ignore_case: bool) -> (r: Self)
        ensures
            r == (Self { ignore_case, ..self }),
    {
        Self { ignore_case, ..self }
    }

    /// Drop pure-punctuation tokens during normalization.
    pub fn ignore_symbols(self, ignore_symbols: bool) -> (r: Self)
        ensures
            r == (Self { ignore_symbols, ..self }),
    {
        Self { ignore_symbols, ..self }
    }

    /// Collapse whitespace runs to single-space tokens.
    pub fn normalize_whitespace(self, normalize_whitespace: bool) -> (r: Self)
        ensures
            r == (Self { normalize_whitespace, ..self }),
    {
        Self { normalize_whitespace, ..self }
    }

    /// Count adjacent transpositions as single edits.
    pub fn use_damerau(self, use_damerau: bool) -> (r: Self)
        ensures
            r == (Self { use_damerau, ..self }),
    {
        Self { use_damerau, ..self }
    }

    /// Score the best-aligned substring window instead of the whole string.
    pub fn use_sellers(self, use_sellers: bool) -> (r: Self)
        ensures
            r == (Self { use_sellers, ..self }),
    {
        Self { use_sellers, ..self }
    }

    /// Segment into decomposed code units instead of grapheme clusters.
    pub fn use_separated_unicode(self, use_separated_unicode: bool) -> (r: Self)
        ensures
            r == (Self { use_separated_unicode, ..self }),
    {
        Self { use_separated_unicode, ..self }
    }

    /// Choose the ordering policy for search results.
    pub fn sort_by(self, sort_by: SortKind) -> (r: Self)
        ensures
            r == (Self { sort_by, ..self }),
    {
        Self { sort_by, ..self }
    }

    /// Set the minimum similarity, as the exact rational `num / den`; a
    /// value above the exact-match ceiling simply filters everything out.
    pub fn threshold(self, num: usize, den: usize) -> (r: Self)
        requires
            1 <= den,
        ensures
            r == (Self { threshold: Score { num, den }, ..self }),
    {
        Self { threshold: Score { num, den }, ..self }
    }
}

impl Default for FuzzyOptions {
    /// The default configuration; see [`default_options`].
    fn default() -> (r: Self)
        ensures
            r == default_options(),
            r.wf(),
    {
        FuzzyOptions {
            ignore_case: true,
            ignore_symbols: true,
            normalize_whitespace: true,
            use_damerau: true,
            use_sellers: true,
            use_separated_unicode: false,
            sort_by: SortKind::BestMatch,
            threshold: Score::new(3, 5),
        }
    }
}

} // verus!
