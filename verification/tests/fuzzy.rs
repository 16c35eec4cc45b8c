use fuzzy_search::{fuzzy, fuzzy_data, FuzzyOptions, Score};

fn val(s: Score) -> f64 {
    s.num() as f64 / s.den() as f64
}

#[test]
fn should_score_exact_matches_perfectly() {
    assert_eq!(val(fuzzy("hello", "hello", &FuzzyOptions::default())), 10.0);
    assert_eq!(val(fuzzy("goodbye", "goodbye", &FuzzyOptions::default())), 10.0);
}

#[test]
fn should_score_exact_substring_matches_perfectly() {
    assert_eq!(val(fuzzy("hello", "hello there", &FuzzyOptions::default())), 10.0);
    assert_eq!(
        val(fuzzy("goodbye", "well, goodbye then", &FuzzyOptions::default())),
        10.0
    );
}

#[test]
fn should_score_close_matches_highly() {
    assert!(val(fuzzy("help", "hello", &FuzzyOptions::default())) >= 0.5);
    assert!(val(fuzzy("goodie", "goodbye", &FuzzyOptions::default())) >= 0.5);
}

#[test]
fn should_score_poor_matches_poorly() {
    assert!(val(fuzzy("hello", "goodbye", &FuzzyOptions::default())) < 0.5);
    assert!(val(fuzzy("goodbye", "hello", &FuzzyOptions::default())) < 0.5);
}

#[test]
fn should_score_non_matches_minimally() {
    assert_eq!(val(fuzzy("hello", "pigs and stuff", &FuzzyOptions::default())), 0.0);
    assert_eq!(val(fuzzy("goodbye", "cars plus trucks", &FuzzyOptions::default())), 0.0);
}

#[test]
fn should_return_perfect_scores_for_empty_search_terms() {
    assert_eq!(val(fuzzy("", "anything", &FuzzyOptions::default())), 10.0);
}

#[test]
fn should_return_minimum_scores_for_empty_candidates() {
    assert_eq!(val(fuzzy("nothing", "", &FuzzyOptions::default())), 0.0);
}

#[test]
fn fuzzy_should_handle_unicode_well() {
    // unicode characters are normalized
    assert_eq!(
        val(fuzzy("\u{212B}", "\u{0041}\u{030A}", &FuzzyOptions::default())),
        10.0
    );
    // handles high and low surrogates as single characters
    assert_eq!(val(fuzzy("high", "h💩gh", &FuzzyOptions::default())), 0.75);
    // handles combining marks as single characters
    assert_eq!(
        val(fuzzy(
            "hi zalgo hello hello",
            "hi Z͑ͫ̓ͪ̂ͫ̽͏̴̙̤̞͉͚̯̞̠͍A̴̵̜̰͔ͫ͗͢L̠ͨͧͩ͘G̴̻͈͍͔̹̑͗̎̅͛́Ǫ̵̹̻̝̳͂̌̌͘ hello hello",
            &FuzzyOptions::default()
        )),
        0.75
    );
    // handles graphemes such as hangul jamo and joined emoji as single characters
    assert_eq!(val(fuzzy("high", "h깍👨‍👩‍👧‍👦h", &FuzzyOptions::default())), 0.5);
}

#[test]
fn fuzzy_should_handle_unicode_well_with_use_separated_unicode() {
    let options = FuzzyOptions::default().use_separated_unicode(true);

    // unicode characters are normalized
    assert_eq!(val(fuzzy("\u{212B}", "\u{0041}\u{030A}", &options)), 10.0);
    // handles high and low surrogates as multiple characters
    assert_eq!(val(fuzzy("high", "h💩gh", &options)), 0.5);
    // handles combining marks as multiple characters
    assert_eq!(
        val(fuzzy("hi zalgo hello hello", "hi Z͑ͫ̓ͪ̂ͫ̽͏̴̙̤̞͉͚̯̞̠͍A̴̵̜̰͔ͫ͗͢L̠ͨͧͩ͘G̴̻͈͍͔̹̑͗̎̅͛́Ǫ̵̹̻̝̳͂̌̌͘ hello hello", &options)),
        0.6
    );
    // handles graphemes such as hangul jamo and joined emoji as multiple characters
    assert_eq!(val(fuzzy("high", "h깍👨‍👩‍👧‍👦h", &options)), 0.25);
    // handles hangul jamo as multiple characters
    assert_eq!(val(fuzzy("ㅅㄹ", "사랑", &options)), 0.5);
}

#[test]
fn should_have_different_results_when_ignore_case_is_set() {
    assert!(
        val(fuzzy("hello", "HELLO", &FuzzyOptions::default().ignore_case(true)))
            > val(fuzzy("hello", "HELLO", &FuzzyOptions::default().ignore_case(false)))
    );
}

#[test]
fn should_have_different_results_when_ignore_symbols_is_set() {
    assert!(
        val(fuzzy(
            "hello",
            "h..e..l..l..o",
            &FuzzyOptions::default().ignore_symbols(true)
        )) > val(fuzzy(
            "hello",
            "h..e..l..l..o",
            &FuzzyOptions::default().ignore_symbols(false)
        ))
    );
}

#[test]
fn should_have_different_results_when_normalize_whitespace_is_set() {
    assert!(
        val(fuzzy(
            "a b c d",
            "a  b  c  d",
            &FuzzyOptions::default().normalize_whitespace(true)
        )) > val(fuzzy(
            "a b c d",
            "a  b  c  d",
            &FuzzyOptions::default().normalize_whitespace(false)
        ))
    );
}

#[test]
fn should_have_different_results_when_use_damerau_is_set() {
    assert_eq!(
        val(fuzzy("abcd", "acbd", &FuzzyOptions::default().use_damerau(false))),
        0.5
    );
    assert_eq!(
        val(fuzzy("abcd", "acbd", &FuzzyOptions::default().use_damerau(true))),
        0.75
    );
}

#[test]
fn fuzzy_should_return_match_data_when_return_match_data_is_set() {
    let data = fuzzy_data("abcd", "acbd", &FuzzyOptions::default());
    assert_eq!(data.item, "acbd".to_string());
    assert_eq!(data.original, "acbd".to_string());
    assert_eq!(data.key, "acbd".to_string());
    assert_eq!(val(data.score), 0.75);
    assert_eq!(data.match_index, 0);
    assert_eq!(data.match_length, 4);
}

#[test]
fn should_map_matches_to_their_original_positions() {
    let data = fuzzy_data("hello", "  h..e..l..l  ..o", &FuzzyOptions::default());
    assert_eq!(data.item, "  h..e..l..l  ..o".to_string());
    assert_eq!(data.original, "  h..e..l..l  ..o".to_string());
    assert_eq!(data.key, "hell o".to_string());
    assert_eq!(val(data.score), 0.8);
    assert_eq!(data.match_index, 2);
    assert_eq!(data.match_length, 10);
}

#[test]
fn fuzzy_should_allow_normal_levenshtein() {
    let options = FuzzyOptions::default().use_sellers(false);
    assert_eq!(val(fuzzy("hello", "hello", &options)), 1.0);
    assert_eq!(val(fuzzy("hello", "he", &options)), 0.4);
    assert_eq!(val(fuzzy("he", "hello", &options)), 0.4);
}
