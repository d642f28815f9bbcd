use jotoba::dialect::Dialect;
use jotoba::error::Error;
use jotoba::matcher::SearchMode;
use jotoba::search::{
    get_kanji_words, get_reading_type, kanji_info_limit, page, query_kanji, select_kanji_info,
    Lookup, ReadingType, SearchEvent, SearchState, WordReading,
};

fn strings(v: &[&str]) -> Vec<String> {
    v.iter().map(|s| s.to_string()).collect()
}

fn kanji_event(reading: &str) -> SearchEvent {
    SearchEvent::Kanji {
        kunyomi: strings(&["く.う", "-べる", "た.べる"]),
        onyomi: strings(&["ショク", "ジキ"]),
        reading: reading.to_string(),
    }
}

#[test]
fn narrow_then_wide_then_alternative() {
    let s = SearchState::Start.next(&SearchEvent::Query { has_reading: true });
    assert_eq!(s, SearchState::PrimaryLookup);
    let s = s.next(&kanji_event("-べる"));
    assert_eq!(
        s,
        SearchState::NarrowSearch { reading_type: ReadingType::Kunyomi, mode: SearchMode::LeftVariable }
    );
    assert_eq!(
        s.lookup(),
        Some(Lookup {
            reading_type: ReadingType::Kunyomi,
            mode: SearchMode::LeftVariable,
            first_pass_only: true
        })
    );
    let s = s.next(&SearchEvent::Found { count: 1 });
    assert_eq!(s, SearchState::WideSearch { reading_type: ReadingType::Kunyomi });
    assert_eq!(
        s.lookup(),
        Some(Lookup {
            reading_type: ReadingType::Kunyomi,
            mode: SearchMode::Variable,
            first_pass_only: false
        })
    );
    let s = s.next(&SearchEvent::Found { count: 0 });
    assert_eq!(s, SearchState::AlternativeSearch);
    assert_eq!(s.lookup(), None);
    assert_eq!(s.next(&SearchEvent::Finished), SearchState::Done);
}

#[test]
fn unknown_reading_goes_to_alternative_search() {
    let s = SearchState::PrimaryLookup.next(&kanji_event("のむ"));
    assert_eq!(s, SearchState::AlternativeSearch);
    assert_eq!(
        SearchState::PrimaryLookup.next(&SearchEvent::NotFound),
        SearchState::AlternativeSearch
    );
}

#[test]
fn narrow_search_with_enough_entries_loads_words() {
    let s = SearchState::PrimaryLookup.next(&kanji_event("ショク"));
    assert_eq!(
        s,
        SearchState::NarrowSearch { reading_type: ReadingType::Onyomi, mode: SearchMode::RightVariable }
    );
    let s = s.next(&SearchEvent::Found { count: 3 });
    assert_eq!(s, SearchState::LoadAndRank);
    assert_eq!(s.next(&SearchEvent::Finished), SearchState::Done);
    let w = SearchState::WideSearch { reading_type: ReadingType::Onyomi };
    assert_eq!(w.next(&SearchEvent::Found { count: 2 }), SearchState::LoadAndRank);
}

#[test]
fn query_without_reading_is_undefined() {
    let s = SearchState::Start.next(&SearchEvent::Query { has_reading: false });
    assert_eq!(s, SearchState::Undefined);
    assert_eq!(s.next(&SearchEvent::Finished), SearchState::Undefined);
    assert_eq!(SearchState::Done.next(&SearchEvent::NotFound), SearchState::Done);
    assert_eq!(
        SearchState::Start.next(&SearchEvent::Found { count: 4 }),
        SearchState::Start
    );
}

#[test]
fn reading_types() {
    let kun = strings(&["く.う", "た.べる"]);
    let on = strings(&["ショク"]);
    assert_eq!(get_reading_type(&kun, &on, "た.べる"), Some(ReadingType::Kunyomi));
    assert_eq!(get_reading_type(&kun, &on, "ショク"), Some(ReadingType::Onyomi));
    assert_eq!(get_reading_type(&kun, &on, "たべる"), None);
}

#[test]
fn pages_ten_words() {
    let r = page((0..12).collect::<Vec<i32>>());
    assert_eq!(r.count, 12);
    assert_eq!(r.words, (0..10).collect::<Vec<i32>>());
    let r = page(vec![1, 2]);
    assert_eq!(r.count, 2);
    assert_eq!(r.words, vec![1, 2]);
}

fn word(kana: &str, kanji: Option<&str>) -> WordReading {
    WordReading { kana: kana.to_string(), kanji: kanji.map(|k| k.to_string()) }
}

#[test]
fn kanji_info_falls_back_to_the_query() {
    let words: Vec<WordReading> = Vec::new();
    assert!(get_kanji_words(&words).is_empty());
    let found = query_kanji("日本語");
    assert_eq!(found, vec!['日', '本', '語']);
    // all of the query's kanji are shown, though there are no words
    assert_eq!(kanji_info_limit(&words, &found), 3);
    assert_eq!(select_kanji_info(&found, kanji_info_limit(&words, &found)), vec!['日', '本', '語']);
    // with kana-only words the query's kanji are shown, each once, in order
    let words = vec![word("にほんご", None), word("にほん", None), word("ご", None)];
    assert!(get_kanji_words(&words).is_empty());
    let found = query_kanji("日本語の日");
    assert_eq!(found, vec!['日', '本', '語', '日']);
    assert_eq!(kanji_info_limit(&words, &found), 3);
    assert_eq!(select_kanji_info(&found, kanji_info_limit(&words, &found)), vec!['日', '本', '語']);
    // more words than distinct query kanji: the word count is the cap
    let four = vec![word("あ", None), word("い", None), word("う", None), word("え", None)];
    assert_eq!(kanji_info_limit(&four, &vec!['日', '日']), 4);
}

#[test]
fn kanji_info_cap_follows_the_first_kanji_word() {
    let words = vec![word("にほんご", Some("日本語")), word("ご", Some("語"))];
    assert_eq!(get_kanji_words(&words), vec![0, 1]);
    assert_eq!(kanji_info_limit(&words, &vec!['日', '本', '語', '月']), 3);
    let words = vec![word("ご", Some("語")), word("に", None), word("ほん", Some("本"))];
    assert_eq!(get_kanji_words(&words), vec![0, 2]);
    assert_eq!(kanji_info_limit(&words, &vec!['日', '本', '語', '月']), 3);
    let many: Vec<WordReading> = (0..12).map(|_| word("ひ", Some("日"))).collect();
    assert_eq!(get_kanji_words(&many).len(), 10);
    assert_eq!(select_kanji_info(&vec!['日', '月', '日', '火'], 2), vec!['日', '月']);
}

#[test]
fn dialect_codes() {
    assert_eq!(Dialect::Kansai.as_str(), "ksb");
    assert_eq!(Dialect::Tsugaru.as_str(), "tsug");
    assert_eq!(Dialect::from_code("ksb").ok(), Some(Dialect::Kansai));
    assert_eq!(Dialect::from_code("tsug").ok(), Some(Dialect::Tsugaru));
    assert!(matches!(Dialect::from_code("xyz"), Err(Error::ParseError)));
}

#[test]
fn error_from_parse_failure() {
    let e: Error = strum::ParseError::VariantNotFound.into();
    assert!(matches!(e, Error::ParseError));
    assert_eq!(Error::Undefined.describe(), "undefined query");
    assert_eq!(Error::ParseError.describe(), "unknown value");
    let bad = "x".parse::<i32>().unwrap_err();
    assert!(matches!(Error::from(bad), Error::ParseInt(_)));
}
