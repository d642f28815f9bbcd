use vstd::prelude::*;

use crate::japanese::{chars_of, kanji_char, kanji_total, lemma_single, views, Class, JapaneseExt};
use crate::matcher::SearchMode;
use crate::readings::without_repeats;

verus! {

/// Which reading list of a kanji a reading belongs to.
#[derive(Debug, Clone, Copy, PartialEq, Eq, Structural)]
pub enum ReadingType {
    Kunyomi,
    Onyomi,
}

/// The declared type of `reading` among a kanji's kun and on readings.
pub open spec fn reading_type_of(kun: Seq<Seq<char>>, on: Seq<Seq<char>>, reading: Seq<char>) -> Option<ReadingType> {
    if kun.contains(reading) {
        Some(ReadingType::Kunyomi)
    } else if on.contains(reading) {
        Some(ReadingType::Onyomi)
    } else {
        None
    }
}

fn list_contains(list: &Vec<String>, s: &str) -> (r: bool)
    ensures
        r == views(list@).contains(s@),
{
    let ghost l = views(list@);
    let mut i: usize = 0;
    while i < list.len()
        invariant
            l == views(list@),
            i <= list@.len(),
            forall|j: int| 0 <= j < i ==> l[j] != s@,
        decreases list@.len() - i,
    {
        if SearchMode::Exact.matches(list[i].as_str(), s) {
            assert(l[i as int] == s@);
            return true;
        }
        i = i + 1;
    }
    false
}

/// The type of `reading` for a kanji with kun readings `kun` and on readings
/// `on`; `None` if the kanji does not have the reading.
pub fn get_reading_type(kun: &Vec<String>, on: &Vec<String>, reading: &str) -> (r: Option<ReadingType>)
    ensures
        r == reading_type_of(views(kun@), views(on@), reading@),
{
    if list_contains(kun, reading) {
        Some(ReadingType::Kunyomi)
    } else if list_contains(on, reading) {
        Some(ReadingType::Onyomi)
    } else {
        None
    }
}

/// The narrow lookup's mode: a reading that starts with `-` may have anything
/// before it, any other anything after it.
pub open spec fn narrow_mode(reading: Seq<char>) -> SearchMode {
    if reading.len() > 0 && reading[0] == '-' {
        SearchMode::LeftVariable
    } else {
        SearchMode::RightVariable
    }
}

/// The lookup of entries that a state asks for: narrow searches look on the
/// first pass only with their mode, wide ones with `Variable` over all rows.
pub open spec fn lookup_of(s: SearchState) -> Option<Lookup> {
    match s {
        SearchState::NarrowSearch { reading_type, mode } => Some(
            Lookup { reading_type, mode, first_pass_only: true },
        ),
        SearchState::WideSearch { reading_type } => Some(
            Lookup { reading_type, mode: SearchMode::Variable, first_pass_only: false },
        ),
        _ => None,
    }
}

/// The transitions of a search by kanji reading. A query without a reading
/// is undefined. A kanji that lacks the reading, a record or entries that do
/// not exist, and a wide lookup that finds nothing lead to the alternative
/// search. A narrow lookup
/// with at most two entries is widened; with more, its words are loaded. An
/// event that does not belong to the state leaves the state as it is.
pub open spec fn step(s: SearchState, e: SearchEvent) -> SearchState {
    match (s, e) {
        (SearchState::Start, SearchEvent::Query { has_reading }) => if has_reading {
            SearchState::PrimaryLookup
        } else {
            SearchState::Undefined
        },
        (SearchState::PrimaryLookup, SearchEvent::Kanji { kunyomi, onyomi, reading }) => match reading_type_of(
            views(kunyomi@),
            views(onyomi@),
            reading@,
        ) {
            Some(t) => SearchState::NarrowSearch { reading_type: t, mode: narrow_mode(reading@) },
            None => SearchState::AlternativeSearch,
        },
        (SearchState::PrimaryLookup, SearchEvent::NotFound) => SearchState::AlternativeSearch,
        (SearchState::NarrowSearch { reading_type, .. }, SearchEvent::Found { count }) => if count
            <= 2 {
            SearchState::WideSearch { reading_type }
        } else {
            SearchState::LoadAndRank
        },
        (SearchState::NarrowSearch { .. }, SearchEvent::NotFound) => SearchState::AlternativeSearch,
        (SearchState::WideSearch { .. }, SearchEvent::Found { count }) => if count == 0 {
            SearchState::AlternativeSearch
        } else {
            SearchState::LoadAndRank
        },
        (SearchState::WideSearch { .. }, SearchEvent::NotFound) => SearchState::AlternativeSearch,
        (SearchState::LoadAndRank, SearchEvent::Finished) => SearchState::Done,
        (SearchState::AlternativeSearch, SearchEvent::Finished) => SearchState::Done,
        _ => s,
    }
}

/// Where a search by kanji reading stands.
#[derive(Debug, Clone, Copy, PartialEq, Eq, Structural)]
pub enum SearchState {
    /// Nothing is done yet.
    Start,
    /// The kanji record of the query's literal is to be fetched.
    PrimaryLookup,
    /// Entries are looked up with the kanji's reading, first pass only.
    NarrowSearch { reading_type: ReadingType, mode: SearchMode },
    /// Entries are looked up again with `Variable`, over all rows.
    WideSearch { reading_type: ReadingType },
    /// The words of the entries found are loaded, ranked and paged.
    LoadAndRank,
    /// A plain search for the reading's text takes over.
    AlternativeSearch,
    /// The query carries no reading: the search fails as undefined.
    Undefined,
    /// The result is there.
    Done,
}

/// What the outside work of a state brought back.
pub enum SearchEvent {
    /// The query was read; whether it carries a kanji reading.
    Query { has_reading: bool },
    /// The kanji record: its kun and on readings, and the queried reading.
    Kanji { kunyomi: Vec<String>, onyomi: Vec<String>, reading: String },
    /// A record or entries the state looked for do not exist.
    NotFound,
    /// A lookup of entries found `count` of them.
    Found { count: usize },
    /// Words were loaded and ranked, or the alternative search finished.
    Finished,
}

/// A lookup of entries: by the kanji and a reading of this type, under `mode`,
/// on the first pass only or over all rows.
#[derive(Debug, Clone, Copy, PartialEq, Eq, Structural)]
pub struct Lookup {
    pub reading_type: ReadingType,
    pub mode: SearchMode,
    pub first_pass_only: bool,
}

impl SearchState {
    /// The lookup of entries that this state asks for, if it asks for one.
    pub fn lookup(&self) -> (r: Option<Lookup>)
        ensures
            r == lookup_of(*self),
    {
        match *self {
            SearchState::NarrowSearch { reading_type, mode } => Some(
                Lookup { reading_type, mode, first_pass_only: true },
            ),
            SearchState::WideSearch { reading_type } => Some(
                Lookup { reading_type, mode: SearchMode::Variable, first_pass_only: false },
            ),
            _ => None,
        }
    }

    /// The state after `event` (see `step`).
    pub fn next(&self, event: &SearchEvent) -> (r: SearchState)
        ensures
            r == step(*self, *event),
    {
        match (*self, event) {
            (SearchState::Start, SearchEvent::Query { has_reading }) => {
                if *has_reading {
                    SearchState::PrimaryLookup
                } else {
                    SearchState::Undefined
                }
            },
            (SearchState::PrimaryLookup, SearchEvent::Kanji { kunyomi, onyomi, reading }) => {
                match get_reading_type(kunyomi, onyomi, reading.as_str()) {
                    Some(t) => {
                        let v = chars_of(reading.as_str());
                        let mode = if v.len() > 0 && v[0] == '-' {
                            SearchMode::LeftVariable
                        } else {
                            SearchMode::RightVariable
                        };
                        SearchState::NarrowSearch { reading_type: t, mode }
                    },
                    None => SearchState::AlternativeSearch,
                }
            },
            (SearchState::PrimaryLookup, SearchEvent::NotFound) => SearchState::AlternativeSearch,
            (SearchState::NarrowSearch { reading_type, .. }, SearchEvent::Found { count }) => {
                if *count <= 2 {
                    SearchState::WideSearch { reading_type }
                } else {
                    SearchState::LoadAndRank
                }
            },
            (SearchState::NarrowSearch { .. }, SearchEvent::NotFound) => {
                SearchState::AlternativeSearch
            },
            (SearchState::WideSearch { .. }, SearchEvent::Found { count }) => {
                if *count == 0 {
                    SearchState::AlternativeSearch
                } else {
                    SearchState::LoadAndRank
                }
            },
            (SearchState::WideSearch { .. }, SearchEvent::NotFound) => SearchState::AlternativeSearch,
            (SearchState::LoadAndRank, SearchEvent::Finished) => SearchState::Done,
            (SearchState::AlternativeSearch, SearchEvent::Finished) => SearchState::Done,
            _ => *self,
        }
    }
}

/// A page of words and how many there were before paging.
pub struct ResultData<W> {
    pub words: Vec<W>,
    pub count: usize,
}

/// The first ten of the ranked `words`, with their number before paging.
pub fn page<W>(words: Vec<W>) -> (r: ResultData<W>)
    ensures
        r.count == words@.len(),
        r.words@ == if words@.len() > 10 {
            words@.take(10)
        } else {
            words@
        },
{
    let count = words.len();
    let mut words = words;
    words.truncate(10);
    ResultData { words, count }
}

// ---------------------------------------------------------------------------
// Kanji shown beside a word result
// ---------------------------------------------------------------------------

/// The readings of a result word: its kana form, and its kanji form if it has one.
pub struct WordReading {
    pub kana: String,
    pub kanji: Option<String>,
}

/// Indices of the words that have a kanji form, in order.
pub open spec fn kanji_word_indices(words: Seq<WordReading>) -> Seq<int>
    decreases words.len(),
{
    if words.len() == 0 {
        Seq::empty()
    } else {
        let prev = kanji_word_indices(words.drop_last());
        if words.last().kanji is Some {
            prev.push(words.len() - 1)
        } else {
            prev
        }
    }
}

proof fn lemma_kanji_word_indices(words: Seq<WordReading>)
    ensures
        forall|j: int|
            0 <= j < kanji_word_indices(words).len() ==> 0 <= #[trigger] kanji_word_indices(words)[j]
                < words.len() && words[kanji_word_indices(words)[j]].kanji is Some,
    decreases words.len(),
{
    if words.len() > 0 {
        lemma_kanji_word_indices(words.drop_last());
    }
}

pub open spec fn first_n(s: Seq<int>, n: nat) -> Seq<int> {
    if s.len() > n {
        s.take(n as int)
    } else {
        s
    }
}

/// Indices of the first ten words that have a kanji form.
pub fn get_kanji_words(words: &Vec<WordReading>) -> (r: Vec<usize>)
    ensures
        r@.map_values(|i: usize| i as int) == first_n(kanji_word_indices(words@), 10),
{
    let mut r: Vec<usize> = Vec::new();
    let mut i: usize = 0;
    while i < words.len()
        invariant
            i <= words@.len(),
            r@.map_values(|i: usize| i as int) == kanji_word_indices(words@.subrange(0, i as int)),
            forall|j: int| 0 <= j < r@.len() ==> r@[j] < i,
        decreases words@.len() - i,
    {
        assert(words@.subrange(0, i + 1).drop_last() =~= words@.subrange(0, i as int));
        if words[i].kanji.is_some() {
            let ghost prev = r@;
            r.push(i);
            assert(r@.map_values(|i: usize| i as int) =~= prev.map_values(|i: usize| i as int).push(i as int));
        }
        i = i + 1;
    }
    assert(words@.subrange(0, words@.len() as int) =~= words@);
    let ghost all = r@;
    if r.len() > 10 {
        r.truncate(10);
        assert(r@.map_values(|i: usize| i as int) =~= all.map_values(|i: usize| i as int).take(10));
    }
    r
}

/// The kanji of `s`, in order, repeats included.
pub open spec fn kanji_in(s: Seq<char>) -> Seq<char>
    decreases s.len(),
{
    if s.len() == 0 {
        s
    } else if kanji_char(s.last()) {
        kanji_in(s.drop_last()).push(s.last())
    } else {
        kanji_in(s.drop_last())
    }
}

/// The kanji of a query, in order: what is looked up when no result word has
/// a kanji form.
pub fn query_kanji(query: &str) -> (r: Vec<char>)
    ensures
        r@ == kanji_in(query@),
{
    let v = chars_of(query);
    let mut r: Vec<char> = Vec::new();
    let mut i: usize = 0;
    while i < v.len()
        invariant
            v@ == query@,
            i <= v@.len(),
            r@ == kanji_in(v@.subrange(0, i as int)),
        decreases v@.len() - i,
    {
        assert(v@.subrange(0, i + 1).drop_last() =~= v@.subrange(0, i as int));
        let c = v[i];
        let is_k = c.is_kanji();
        proof {
            lemma_single(c, Class::Kanji);
        }
        if is_k {
            assert(v@.subrange(0, i + 1).last() == v@[i as int]);
            r.push(v[i]);
        }
        i = i + 1;
    }
    assert(v@.subrange(0, v@.len() as int) =~= v@);
    r
}

/// How many kanji to show beside `words`, of the kanji `loaded` for them.
/// With a word that has a kanji form: as many as the first such word has
/// kanji if that is more than the number of words, else the number of words.
/// With none, `loaded` are the query's own kanji, and all of them are shown:
/// the number of distinct ones, or the number of words if that is larger.
pub open spec fn kanji_info_cap(words: Seq<WordReading>, loaded: Seq<char>) -> nat {
    let k = kanji_word_indices(words);
    if k.len() > 0 {
        if kanji_total(words[k[0]].kanji->0@) > words.len() {
            kanji_total(words[k[0]].kanji->0@)
        } else {
            words.len()
        }
    } else if without_repeats(loaded).len() > words.len() {
        without_repeats(loaded).len()
    } else {
        words.len()
    }
}

/// When no word has a kanji form, every distinct kanji of the query is shown,
/// in the order it first occurs.
pub proof fn lemma_query_fallback_shows_all(words: Seq<WordReading>, query: Seq<char>)
    requires
        kanji_word_indices(words).len() == 0,
    ensures
        kanji_info_cap(words, kanji_in(query)) >= without_repeats(kanji_in(query)).len(),
{
}

/// The number of kanji to show beside `words`, of the kanji `loaded` for them.
pub fn kanji_info_limit(words: &Vec<WordReading>, loaded: &Vec<char>) -> (r: usize)
    ensures
        r == kanji_info_cap(words@, loaded@),
{
    let k = get_kanji_words(words);
    proof {
        lemma_kanji_word_indices(words@);
    }
    assert(k@.map_values(|i: usize| i as int).len() == k@.len());
    if k.len() > 0 {
        assert(k@.map_values(|i: usize| i as int)[0] == k@[0] as int);
        assert(kanji_word_indices(words@)[0] == k@[0] as int);
        let first = &words[k[0]];
        assert(first.kanji is Some);
        match &first.kanji {
            Some(reading) => {
                let n = reading.as_str().kanji_count();
                assert(n == kanji_total(words@[kanji_word_indices(words@)[0]].kanji->0@));
                if n > words.len() {
                    return n;
                }
            },
            None => {},
        }
        words.len()
    } else {
        assert(kanji_word_indices(words@).len() == 0);
        let distinct = distinct_chars(loaded);
        if distinct.len() > words.len() {
            distinct.len()
        } else {
            words.len()
        }
    }
}

fn contains_char(v: &Vec<char>, c: char) -> (r: bool)
    ensures
        r == v@.contains(c),
{
    let mut i: usize = 0;
    while i < v.len()
        invariant
            i <= v@.len(),
            forall|j: int| 0 <= j < i ==> v@[j] != c,
        decreases v@.len() - i,
    {
        if v[i] == c {
            return true;
        }
        i = i + 1;
    }
    false
}

/// The kanji to show, from those loaded (named by their literals, in the order
/// loaded): each once, first occurrence kept, at most `limit` of them.
pub fn select_kanji_info(loaded: &Vec<char>, limit: usize) -> (r: Vec<char>)
    ensures
        r@ == if without_repeats(loaded@).len() > limit {
            without_repeats(loaded@).take(limit as int)
        } else {
            without_repeats(loaded@)
        },
{
    let mut r = distinct_chars(loaded);
    r.truncate(limit);
    r
}

/// `loaded` with every repeat left out.
fn distinct_chars(loaded: &Vec<char>) -> (r: Vec<char>)
    ensures
        r@ == without_repeats(loaded@),
{
    let mut r: Vec<char> = Vec::new();
    let mut i: usize = 0;
    while i < loaded.len()
        invariant
            i <= loaded@.len(),
            r@ == without_repeats(loaded@.subrange(0, i as int)),
        decreases loaded@.len() - i,
    {
        assert(loaded@.subrange(0, i + 1).drop_last() =~= loaded@.subrange(0, i as int));
        if !contains_char(&r, loaded[i]) {
            r.push(loaded[i]);
        }
        i = i + 1;
    }
    assert(loaded@.subrange(0, loaded@.len() as int) =~= loaded@);
    r
}

} // verus!
