use fuzzy_search::{search, search_data, FuzzyOptions, Keyed, Score, SortKind};

fn val(s: Score) -> f64 {
    s.num() as f64 / s.den() as f64
}

fn t_search(a: &str, b: &str, options: &FuzzyOptions) -> f64 {
    val(search_data(a, vec![b], options).unwrap()[0].score)
}

#[test]
fn should_filter_out_low_matches() {
    assert_eq!(
        search("hello", vec!["goodbye"], &FuzzyOptions::default()),
        Ok(vec![])
    );
}

#[test]
fn should_have_good_relative_ordering() {
    // test order by closeness of match
    assert_eq!(
        search(
            "item",
            vec!["items", "iterator", "itemize", "item", "temperature"],
            &FuzzyOptions::default()
        ),
        Ok(vec!["item", "items", "itemize", "iterator", "temperature"]),
    );

    // test order by earliness of match
    assert_eq!(
        search(
            "item",
            vec!["lineitem", "excitement", "itemize", "item"],
            &FuzzyOptions::default()
        ),
        Ok(vec!["item", "itemize", "excitement", "lineitem"]),
    );
}

#[test]
fn should_handle_empty_candidates() {
    // an empty candidate list is the caller error; a list holding an empty
    // string is a valid search that simply finds nothing
    assert!(search("x", Vec::<&str>::new(), &FuzzyOptions::default()).is_err());
    assert_eq!(search("x", vec![""], &FuzzyOptions::default()), Ok(vec![]));
}

#[test]
fn search_should_handle_unicode_well() {
    let options = FuzzyOptions::default();
    // unicode characters are normalized
    assert_eq!(t_search("\u{212B}", "\u{0041}\u{030A}", &options), 10.0);
    // handles high and low surrogates as single characters
    assert_eq!(t_search("high", "h💩gh", &options), 0.75);
    // handles combining marks as single characters
    assert_eq!(
        t_search("hi zalgo hello hello", "hi Z͑ͫ̓ͪ̂ͫ̽͏̴̙̤̞͉͚̯̞̠͍A̴̵̜̰͔ͫ͗͢L̠ͨͧͩ͘G̴̻͈͍͔̹̑͗̎̅͛́Ǫ̵̹̻̝̳͂̌̌͘ hello hello", &options),
        0.75
    );
    // handles graphemes such as hangul jamo and joined emoji as single characters
    assert_eq!(t_search("abcde", "abc깍👨‍👩‍👧‍👦", &options), 0.6);
}

#[test]
fn search_should_handle_unicode_well_with_use_separated_unicode() {
    let options = FuzzyOptions::default()
        .use_separated_unicode(true)
        .threshold(1, 2);
    // unicode characters are normalized
    assert_eq!(t_search("\u{212B}", "\u{0041}\u{030A}", &options), 10.0);
    // handles high and low surrogates as multiple characters
    assert_eq!(t_search("high", "h💩gh", &options), 0.5);
    // handles combining marks as multiple characters
    assert_eq!(
        t_search("hi zalgo hello hello", "hi Z͑ͫ̓ͪ̂ͫ̽͏̴̙̤̞͉͚̯̞̠͍A̴̵̜̰͔ͫ͗͢L̠ͨͧͩ͘G̴̻͈͍͔̹̑͗̎̅͛́Ǫ̵̹̻̝̳͂̌̌͘ hello hello", &options),
        0.6
    );
    // handles graphemes such as hangul jamo and joined emoji as multiple characters
    assert_eq!(t_search("abcde", "abc깍👨‍👩‍👧‍👦", &options), 0.6);
    // handles hangul jamo as multiple characters
    assert_eq!(t_search("ㅅㄹ", "사랑", &options), 0.5);
}

#[test]
fn should_have_good_ordering_when_using_multiple_keys_per_object() {
    assert_eq!(
        search(
            "grin",
            vec![vec!["grinning", "grin"], vec!["grin", "grinning"]],
            &FuzzyOptions::default()
        ),
        Ok(vec![vec!["grin", "grinning"], vec!["grinning", "grin"]]),
    );

    assert_eq!(
        search(
            "laugh",
            vec![vec!["smile", "laughing"], vec!["laughing"], vec!["laugh"]],
            &FuzzyOptions::default()
        ),
        Ok(vec![
            vec!["laugh"],
            vec!["laughing"],
            vec!["smile", "laughing"]
        ]),
    );
}

#[derive(PartialEq, Debug)]
struct Kv<'a> {
    name: &'a str,
    value: &'a str,
}

impl<'a> Keyed for Kv<'a> {
    fn keys(&self) -> Vec<String> {
        vec![self.name.to_string(), self.value.to_string()]
    }
}

#[test]
fn should_handle_searching_multiple_keys_per_object() {
    assert!(search(
        "hello",
        vec![Kv {
            name: "hello",
            value: "world"
        }],
        &FuzzyOptions::default(),
    )
    .is_ok());

    assert_eq!(
        search(
            "hello",
            vec![
                Kv {
                    name: "hello",
                    value: "jell"
                },
                Kv {
                    name: "world",
                    value: "hello"
                },
            ],
            &FuzzyOptions::default()
        ),
        Ok(vec![
            Kv {
                name: "hello",
                value: "jell"
            },
            Kv {
                name: "world",
                value: "hello"
            }
        ]),
    );
}

#[test]
fn should_have_more_results_when_threshold_is_lower() {
    assert!(
        search(
            "aaa",
            vec!["aaa", "aab", "abb", "bbb"],
            &FuzzyOptions::default().threshold(3, 10)
        )
        .unwrap()
        .len()
            > search(
                "aaa",
                vec!["aaa", "aab", "abb", "bbb"],
                &FuzzyOptions::default().threshold(7, 10)
            )
            .unwrap()
            .len()
    );
}

#[test]
fn search_should_return_match_data_when_return_match_data_is_set() {
    let results = search_data("hello", vec!["hello"], &FuzzyOptions::default()).unwrap();
    assert_eq!(results[0].item, "hello");
    assert_eq!(results[0].original, "hello".to_string());
    assert_eq!(results[0].key, "hello".to_string());
    assert_eq!(val(results[0].score), 10.0);
    assert_eq!(results[0].match_index, 0);
    assert_eq!(results[0].match_length, 5);
}

#[test]
fn search_should_allow_normal_levenshtein() {
    let candidates = vec![
        "items",
        "iterator",
        "itemize",
        "item",
        "temperature",
        "myitem",
    ];
    let options = FuzzyOptions::default().use_sellers(false);
    assert_eq!(
        search("item", candidates, &options),
        Ok(vec!["item", "items", "myitem"]),
    );

    assert_eq!(search("345", vec!["12345"], &options), Ok(vec!["12345"]));

    assert_eq!(search("12345", vec!["345"], &options), Ok(vec!["345"]));
}

#[test]
fn should_allow_changing_sort_by() {
    let candidates = vec!["hi there", "hello there"];

    assert_eq!(
        search(
            "hello there",
            candidates.clone(),
            &FuzzyOptions::default().sort_by(SortKind::BestMatch)
        ),
        Ok(vec!["hello there", "hi there"])
    );

    assert_eq!(
        search(
            "hello there",
            candidates,
            &FuzzyOptions::default().sort_by(SortKind::InsertOrder),
        ),
        Ok(vec!["hi there", "hello there"])
    );
}
