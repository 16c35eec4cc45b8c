use fuzzy_search::{
    fuzzy, search, search_data, FuzzyOptions, Score, SearchResult, Searcher, SortKind,
};

fn val(s: Score) -> f64 {
    s.num() as f64 / s.den() as f64
}

#[test]
fn exact_matches_outrank_every_close_match() {
    let o = FuzzyOptions::default();
    // a normalized-equal pair: different case and symbols, equal tokens
    assert_eq!(val(fuzzy("Hello, World", "hello world!", &o)), 10.0);
    // no near miss can reach the ceiling
    assert!(val(fuzzy("help", "hello", &o)) < 10.0);
    assert!(val(fuzzy("hello", "hello world hello world", &o)) == 10.0);
}

#[test]
fn similarity_decreases_with_edit_distance() {
    let o = FuzzyOptions::default();
    let close = val(fuzzy("abcd", "abcx", &o));
    let farther = val(fuzzy("abcd", "abxy", &o));
    let farthest = val(fuzzy("abcd", "axyz", &o));
    assert_eq!(close, 0.75);
    assert_eq!(farther, 0.5);
    assert_eq!(farthest, 0.25);
    assert!(close > farther && farther > farthest);
}

#[test]
fn results_reach_threshold_and_scores_never_increase() {
    let o = FuzzyOptions::default();
    let results = search_data(
        "item",
        vec!["items", "iterator", "itemize", "item", "temperature", "zzz"],
        &o,
    )
    .unwrap();
    assert!(!results.is_empty());
    let mut last = f64::INFINITY;
    for r in &results {
        let v = val(r.score);
        assert!(v >= 0.6);
        assert!(v <= last);
        last = v;
    }
}

#[test]
fn empty_candidate_list_gives_the_typed_error() {
    assert_eq!(
        search("x", Vec::<&str>::new(), &FuzzyOptions::default()),
        Err(SearchResult::EmptyCandidates)
    );
    assert_eq!(
        search_data("x", Vec::<&str>::new(), &FuzzyOptions::default()),
        Err(SearchResult::EmptyCandidates)
    );
}

#[test]
fn index_and_one_shot_search_agree() {
    let items = vec!["items", "iterator", "itemize", "item", "temperature"];
    let o = FuzzyOptions::default();
    let searcher = Searcher::new(items.clone(), FuzzyOptions::default());
    for term in ["item", "temp", "iter", "zzz"] {
        assert_eq!(search(term, items.clone(), &o), searcher.search(term));
    }
}

#[test]
fn searcher_match_data_agrees_with_one_shot() {
    let items = vec!["hello", "help", "goodbye"];
    let o = FuzzyOptions::default();
    let searcher = Searcher::new(items.clone(), FuzzyOptions::default());
    let a = search_data("help", items, &o).unwrap();
    let b = searcher.search_data("help").unwrap();
    assert_eq!(a, b);
}

#[test]
fn insertion_order_keeps_input_order() {
    let o = FuzzyOptions::default().sort_by(SortKind::InsertOrder);
    assert_eq!(
        search("item", vec!["itemize", "zzz", "item", "items"], &o),
        Ok(vec!["itemize", "item", "items"])
    );
}

#[test]
fn empty_term_beats_empty_candidate() {
    // an empty term matches anything perfectly, even an empty candidate
    let o = FuzzyOptions::default();
    assert_eq!(val(fuzzy("", "", &o)), 10.0);
}

#[test]
fn trailing_whitespace_does_not_matter() {
    let o = FuzzyOptions::default();
    assert_eq!(val(fuzzy("hello", "hello   ", &o)), 10.0);
    assert_eq!(val(fuzzy("hello", "hello ", &FuzzyOptions::default().normalize_whitespace(false))), 10.0);
}

#[test]
fn byte_spans_point_into_the_original_text() {
    let o = FuzzyOptions::default();
    let results = search_data("item", vec!["the line-item list"], &o).unwrap();
    assert_eq!(results.len(), 1);
    let r = &results[0];
    // the span selects the matched text of the original candidate
    let matched = &r.original[r.match_index..r.match_index + r.match_length];
    assert_eq!(matched, "item");
}
