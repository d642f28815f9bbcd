use jotoba::readings::{
    find_kun_readings, find_on_readings, len, literal_reading, matches_kanji, Dict, DictCache,
};

fn row(sequence: i32, reading: &str, kanji: bool) -> Dict {
    Dict {
        sequence,
        reading: reading.to_string(),
        kanji,
        priority_count: 0,
        jlpt_lvl: None,
    }
}

fn strings(v: &[&str]) -> Vec<String> {
    v.iter().map(|s| s.to_string()).collect()
}

#[test]
fn literal_reading_cuts_at_the_dot() {
    assert_eq!(literal_reading("た.べる"), "た");
    assert_eq!(literal_reading("-つ.く"), "つ");
    assert_eq!(literal_reading("ひ-"), "ひ");
    assert_eq!(literal_reading("た"), "た");
}

#[test]
fn len_counts_spoken_characters() {
    assert_eq!(len("た.べる"), 3);
    assert_eq!(len("-つ.く"), 2);
    assert_eq!(len(""), 0);
}

#[test]
fn kun_reading_matches_words() {
    assert!(matches_kanji("食", "た.べる", "たべる", "食べる"));
    assert!(!matches_kanji("食", "く.う", "たべる", "食べる"));
    // the kanji stands at the end of the word
    assert!(matches_kanji("物", "-もの", "たべもの", "食べ物"));
    // exact match when the word does not start with the kanji
    assert!(matches_kanji("日", "ひ", "ひ", "ひ"));
    assert!(!matches_kanji("日", "ひ", "ひび", "月日"));
}

fn food_cache() -> DictCache {
    let mut cache = DictCache::new();
    cache.insert(vec![
        row(10, "食べる", true),
        row(10, "たべる", false),
        row(20, "食う", true),
        row(20, "くう", false),
        row(30, "食事", true),
        row(30, "しょくじ", false),
        row(40, "たべ", false),
    ]);
    cache
}

#[test]
fn kun_links_of_a_kanji() {
    let cache = food_cache();
    let kuns = strings(&["く.う", "た.べる", "は.む"]);
    let links = find_kun_readings("食", &kuns, &vec![10, 20, 30, 40, 10], &cache);
    assert_eq!(links, vec![10, 20]);
}

#[test]
fn kun_links_without_candidates_are_empty() {
    let cache = food_cache();
    let kuns = strings(&["は.む"]);
    assert!(find_kun_readings("食", &kuns, &vec![10, 20, 30], &cache).is_empty());
    assert!(find_kun_readings("食", &kuns, &vec![], &cache).is_empty());
}

#[test]
fn kun_links_are_capped_and_ranked() {
    let mut rows = Vec::new();
    let mut ids = Vec::new();
    for i in 1..=12 {
        let mut k = row(i, &format!("日{}", i), true);
        if i == 12 {
            k.priority_count = 2;
        }
        if i == 10 {
            k.jlpt_lvl = Some(1);
        }
        if i == 11 {
            k.jlpt_lvl = Some(3);
        }
        rows.push(k);
        rows.push(row(i, &format!("ひ{}", i), false));
        ids.push(i);
    }
    // an entry whose kanji form is the kanji's own reading ranks first
    rows.push(row(13, "ひ", true));
    rows.push(row(13, "ひ", false));
    ids.push(13);
    let mut cache = DictCache::new();
    cache.insert(rows);
    let links = find_kun_readings("日", &strings(&["ひ"]), &ids, &cache);
    assert_eq!(links, vec![13, 12, 10, 11, 1, 2, 3, 4, 5, 6]);
}

#[test]
fn rebuilding_gives_the_same_links() {
    let kuns = strings(&["く.う", "た.べる"]);
    let ids = vec![10, 20, 30];
    let first = find_kun_readings("食", &kuns, &ids, &food_cache());
    let mut other = DictCache::new();
    other.insert(vec![row(99, "他", true), row(99, "た", false)]);
    other.insert(vec![
        row(20, "食う", true),
        row(20, "くう", false),
        row(10, "食べる", true),
        row(10, "たべる", false),
        row(30, "食事", true),
        row(30, "しょくじ", false),
    ]);
    let second = find_kun_readings("食", &kuns, &ids, &other);
    assert_eq!(first, second);
    assert_eq!(first, find_kun_readings("食", &kuns, &ids, &food_cache()));
}

#[test]
fn on_links_are_capped_at_nine() {
    let found = vec![vec![1, 2], vec![3, 4, 5, 6, 7, 8, 9, 10, 11]];
    assert_eq!(find_on_readings(&found), vec![1, 2, 3, 4, 5, 6, 7, 8, 9]);
    assert_eq!(find_on_readings(&vec![vec![5], vec![]]), vec![5]);
    assert!(find_on_readings(&vec![]).is_empty());
}

#[test]
fn on_links_count_each_entry_once() {
    let found = vec![vec![1, 2, 3], vec![2, 4], vec![1, 5, 6, 7, 8, 9, 10, 11]];
    assert_eq!(find_on_readings(&found), vec![1, 2, 3, 4, 5, 6, 7, 8, 9]);
    assert_eq!(find_on_readings(&vec![vec![7, 7], vec![7]]), vec![7]);
}

#[test]
fn cache_reports_what_is_missing() {
    let cache = food_cache();
    assert!(cache.contains(10));
    assert!(!cache.contains(50));
    assert_eq!(cache.missing(&vec![10, 50, 50, 60, 40]), vec![50, 60]);
}
