use vstd::prelude::*;
use vstd::string::StrSliceExecFns;

verus! {

/// Script class of a character or of a whole text.
#[derive(Debug, Clone, Copy, PartialEq, Eq, Structural)]
pub enum CharType {
    Kana,
    /// Kanji, and for single characters also full-width roman letters.
    Kanji,
    Other,
}

// ---------------------------------------------------------------------------
// Character tables
// ---------------------------------------------------------------------------

pub open spec fn hiragana_char(c: char) -> bool {
    '\u{3040}' <= c <= '\u{309F}'
}

pub open spec fn katakana_char(c: char) -> bool {
    '\u{30A0}' <= c <= '\u{30FF}'
}

pub open spec fn kana_char(c: char) -> bool {
    hiragana_char(c) || katakana_char(c)
}

pub open spec fn roman_letter_char(c: char) -> bool {
    ('\u{FF01}' <= c <= '\u{FF5A}') || ('\u{2000}' <= c <= '\u{206F}') || ('\u{20000}' <= c
        <= '\u{2A6DF}') || c == '\u{2010}' || c == '\u{2212}'
}

pub open spec fn kanji_char(c: char) -> bool {
    ('\u{3400}' <= c <= '\u{4DBF}') || ('\u{4E00}' <= c <= '\u{9FFF}') || ('\u{F900}' <= c
        <= '\u{FAFF}') || ('\u{FF10}' <= c <= '\u{FF19}') || ('\u{20000}' <= c <= '\u{2A6DF}')
        || c == '\u{29E8A}'
}

pub open spec fn symbol_char(c: char) -> bool {
    ('\u{3000}' <= c <= '\u{303F}') || ('\u{0370}' <= c <= '\u{03FF}') || ('\u{25A0}' <= c
        <= '\u{25FF}') || ('\u{FF00}' <= c <= '\u{FFEF}') || c == '\u{002D}' || c == '\u{3005}'
        || c == '\u{00D7}'
}

pub open spec fn japanese_char(c: char) -> bool {
    kana_char(c) || kanji_char(c) || symbol_char(c) || roman_letter_char(c)
}

pub open spec fn small_hiragana_char(c: char) -> bool {
    c == '\u{3083}' || c == '\u{3085}' || c == '\u{3087}'
}

pub open spec fn small_katakana_char(c: char) -> bool {
    c == '\u{30E3}' || c == '\u{30E5}' || c == '\u{30E7}'
}

/// Class of a single character. Full-width roman letters count as `Kanji`.
pub open spec fn char_type(c: char) -> CharType {
    if kana_char(c) {
        CharType::Kana
    } else if kanji_char(c) || roman_letter_char(c) {
        CharType::Kanji
    } else {
        CharType::Other
    }
}

/// Every character of `s` is in class `k` (true of the empty text).
pub open spec fn all_of(s: Seq<char>, k: Class) -> bool {
    forall|i: int| 0 <= i < s.len() ==> #[trigger] in_class(k, s[i])
}

/// At least one character of `s` is in class `k`.
pub open spec fn any_of(s: Seq<char>, k: Class) -> bool {
    exists|i: int| 0 <= i < s.len() && #[trigger] in_class(k, s[i])
}

/// Number of kanji in `s`.
pub open spec fn kanji_total(s: Seq<char>) -> nat
    decreases s.len(),
{
    if s.len() == 0 {
        0
    } else {
        kanji_total(s.drop_last()) + if kanji_char(s.last()) {
            1nat
        } else {
            0nat
        }
    }
}

/// Class of a whole text: all kanji, else all kana, else other.
pub open spec fn text_type(s: Seq<char>) -> CharType {
    if all_of(s, Class::Kanji) {
        CharType::Kanji
    } else if all_of(s, Class::Kana) {
        CharType::Kana
    } else {
        CharType::Other
    }
}

/// What romaji's hiragana conversion makes of a text.
pub uninterp spec fn hiragana_of(s: Seq<char>) -> Seq<char>;

/// Relies on `romaji::RomajiExt::to_hiragana` for str: a deterministic
/// transliteration of its argument.
#[verifier::external_body]
fn romaji_hiragana(s: &str) -> (r: String)
    ensures
        r@ == hiragana_of(s@),
{
    romaji::RomajiExt::to_hiragana(s)
}

/// Relies on `String::from_iter` over chars: the string holds the chars in order.
#[verifier::external_body]
pub(crate) fn string_of_chars(v: &Vec<char>) -> (r: String)
    ensures
        r@ == v@,
{
    String::from_iter(v.iter())
}

/// The characters of `s`, in order.
pub fn chars_of(s: &str) -> (r: Vec<char>)
    ensures
        r@ == s@,
{
    let n = s.unicode_len();
    let mut r: Vec<char> = Vec::new();
    let mut i: usize = 0;
    while i < n
        invariant
            n == s@.len(),
            i <= n,
            r@ == s@.subrange(0, i as int),
        decreases n - i,
    {
        let c = s.get_char(i);
        r.push(c);
        i = i + 1;
        assert(r@ =~= s@.subrange(0, i as int));
    }
    assert(r@ =~= s@);
    r
}

// ---------------------------------------------------------------------------
// Per-character tests
// ---------------------------------------------------------------------------

fn hiragana(c: char) -> (r: bool)
    ensures
        r == hiragana_char(c),
{
    c >= '\u{3040}' && c <= '\u{309F}'
}

fn katakana(c: char) -> (r: bool)
    ensures
        r == katakana_char(c),
{
    c >= '\u{30A0}' && c <= '\u{30FF}'
}

fn kana(c: char) -> (r: bool)
    ensures
        r == kana_char(c),
{
    hiragana(c) || katakana(c)
}

fn roman_letter(c: char) -> (r: bool)
    ensures
        r == roman_letter_char(c),
{
    (c >= '\u{FF01}' && c <= '\u{FF5A}') || (c >= '\u{2000}' && c <= '\u{206F}') || (c
        >= '\u{20000}' && c <= '\u{2A6DF}') || c == '\u{2010}' || c == '\u{2212}'
}

fn kanji(c: char) -> (r: bool)
    ensures
        r == kanji_char(c),
{
    (c >= '\u{3400}' && c <= '\u{4DBF}') || (c >= '\u{4E00}' && c <= '\u{9FFF}') || (c
        >= '\u{F900}' && c <= '\u{FAFF}') || (c >= '\u{FF10}' && c <= '\u{FF19}') || (c
        >= '\u{20000}' && c <= '\u{2A6DF}') || c == '\u{29E8A}'
}

fn symbol(c: char) -> (r: bool)
    ensures
        r == symbol_char(c),
{
    (c >= '\u{3000}' && c <= '\u{303F}') || (c >= '\u{0370}' && c <= '\u{03FF}') || (c
        >= '\u{25A0}' && c <= '\u{25FF}') || (c >= '\u{FF00}' && c <= '\u{FFEF}') || c
        == '\u{002D}' || c == '\u{3005}' || c == '\u{00D7}'
}

fn japanese(c: char) -> (r: bool)
    ensures
        r == japanese_char(c),
{
    kana(c) || kanji(c) || symbol(c) || roman_letter(c)
}

fn small_hiragana(c: char) -> (r: bool)
    ensures
        r == small_hiragana_char(c),
{
    c == '\u{3083}' || c == '\u{3085}' || c == '\u{3087}'
}

fn small_katakana(c: char) -> (r: bool)
    ensures
        r == small_katakana_char(c),
{
    c == '\u{30E3}' || c == '\u{30E5}' || c == '\u{30E7}'
}

/// The class of one character.
pub fn char_type_of(c: char) -> (r: CharType)
    ensures
        r == char_type(c),
{
    if kana(c) {
        CharType::Kana
    } else if kanji(c) || roman_letter(c) {
        CharType::Kanji
    } else {
        CharType::Other
    }
}


/// The character tests that the text-level predicates fold over.
#[derive(Debug, Clone, Copy, PartialEq, Eq, Structural)]
pub enum Class {
    Hiragana,
    Katakana,
    Kana,
    Kanji,
    Symbol,
    RomanLetter,
    Japanese,
    SmallHiragana,
    SmallKatakana,
}

pub open spec fn in_class(k: Class, c: char) -> bool {
    match k {
        Class::Hiragana => hiragana_char(c),
        Class::Katakana => katakana_char(c),
        Class::Kana => kana_char(c),
        Class::Kanji => kanji_char(c),
        Class::Symbol => symbol_char(c),
        Class::RomanLetter => roman_letter_char(c),
        Class::Japanese => japanese_char(c),
        Class::SmallHiragana => small_hiragana_char(c),
        Class::SmallKatakana => small_katakana_char(c),
    }
}

fn test_class(k: &Class, c: char) -> (r: bool)
    ensures
        r == in_class(*k, c),
{
    match k {
        Class::Hiragana => hiragana(c),
        Class::Katakana => katakana(c),
        Class::Kana => kana(c),
        Class::Kanji => kanji(c),
        Class::Symbol => symbol(c),
        Class::RomanLetter => roman_letter(c),
        Class::Japanese => japanese(c),
        Class::SmallHiragana => small_hiragana(c),
        Class::SmallKatakana => small_katakana(c),
    }
}

/// Whether every character of `s` is in class `k`.
fn all_in(s: &str, k: Class) -> (r: bool)
    ensures
        r == all_of(s@, k),
{
    let v = chars_of(s);
    let mut i: usize = 0;
    while i < v.len()
        invariant
            v@ == s@,
            i <= v@.len(),
            forall|j: int| 0 <= j < i ==> #[trigger] in_class(k, s@[j]),
        decreases v@.len() - i,
    {
        if !test_class(&k, v[i]) {
            return false;
        }
        i = i + 1;
    }
    true
}

/// Whether some character of `s` is in class `k`.
fn any_in(s: &str, k: Class) -> (r: bool)
    ensures
        r == any_of(s@, k),
{
    let v = chars_of(s);
    let mut i: usize = 0;
    while i < v.len()
        invariant
            v@ == s@,
            i <= v@.len(),
            forall|j: int| 0 <= j < i ==> !#[trigger] in_class(k, s@[j]),
        decreases v@.len() - i,
    {
        if test_class(&k, v[i]) {
            return true;
        }
        i = i + 1;
    }
    false
}

/// Script classification of characters and texts. For a text, "is X" means that
/// every character is X (so the empty text is X), "has X" that some character is.
pub trait JapaneseExt {
    /// The characters that the predicates range over.
    spec fn text(&self) -> Seq<char>;

    /// The class that `get_text_type` reports.
    spec fn class(&self) -> CharType;

    /// Returns true if self is of type ct
    fn is_of_type(&self, ct: CharType) -> (r: bool)
        ensures
            r == (self.class() == ct),
    ;

    /// Get the CharType of self
    fn get_text_type(&self) -> (r: CharType)
        ensures
            r == self.class(),
    ;

    /// Returns true if self contains at least one kana character
    fn has_kana(&self) -> (r: bool)
        ensures
            r == any_of(self.text(), Class::Kana),
    ;

    /// Returns true if self is entirely written in kana
    fn is_kana(&self) -> (r: bool)
        ensures
            r == all_of(self.text(), Class::Kana),
    ;

    /// Returns true if self is entirely written with kanji
    fn is_kanji(&self) -> (r: bool)
        ensures
            r == all_of(self.text(), Class::Kanji),
    ;

    /// Returns true if self has at least one kanji
    fn has_kanji(&self) -> (r: bool)
        ensures
            r == any_of(self.text(), Class::Kanji),
    ;

    /// Returns true if self is built from kana, kanji, symbols and roman letters only
    fn is_japanese(&self) -> (r: bool)
        ensures
            r == all_of(self.text(), Class::Japanese),
    ;

    /// Returns true if self contains japanese characters
    fn has_japanese(&self) -> (r: bool)
        ensures
            r == any_of(self.text(), Class::Japanese),
    ;

    /// Returns true if self is written in katakana
    fn is_katakana(&self) -> (r: bool)
        ensures
            r == all_of(self.text(), Class::Katakana),
    ;

    /// Returns true if self is written in hiragana
    fn is_hiragana(&self) -> (r: bool)
        ensures
            r == all_of(self.text(), Class::Hiragana),
    ;

    /// Returns the amount of kanji self has
    fn kanji_count(&self) -> (r: usize)
        ensures
            r == kanji_total(self.text()),
    ;

    /// Returns true if self is a (cjk) symbol
    fn is_symbol(&self) -> (r: bool)
        ensures
            r == all_of(self.text(), Class::Symbol),
    ;

    /// Returns true if self contains a (cjk) symbol
    fn has_symbol(&self) -> (r: bool)
        ensures
            r == any_of(self.text(), Class::Symbol),
    ;

    /// Self converted to hiragana
    fn to_hiragana(&self) -> (r: String)
        ensures
            r@ == hiragana_of(self.text()),
    ;

    /// Returns true if self consists of full-width roman letters
    fn is_roman_letter(&self) -> (r: bool)
        ensures
            r == all_of(self.text(), Class::RomanLetter),
    ;

    /// Returns true if self is a small katakana letter
    fn is_small_katakana(&self) -> (r: bool)
        ensures
            r == all_of(self.text(), Class::SmallKatakana),
    ;

    /// Returns true if self is a small hiragana letter
    fn is_small_hiragana(&self) -> (r: bool)
        ensures
            r == all_of(self.text(), Class::SmallHiragana),
    ;

    /// Returns true if self is all small katakana or all small hiragana
    fn is_small_kana(&self) -> (r: bool)
        ensures
            r == (all_of(self.text(), Class::SmallKatakana) || all_of(self.text(), Class::SmallHiragana)),
    ;
}

impl JapaneseExt for str {
    open spec fn text(&self) -> Seq<char> {
        self@
    }

    open spec fn class(&self) -> CharType {
        text_type(self@)
    }

    fn is_of_type(&self, ct: CharType) -> (r: bool) {
        self.get_text_type() == ct
    }

    fn get_text_type(&self) -> (r: CharType) {
        if self.is_kanji() {
            CharType::Kanji
        } else if self.is_kana() {
            CharType::Kana
        } else {
            CharType::Other
        }
    }

    fn has_kana(&self) -> (r: bool) {
        any_in(self, Class::Kana)
    }

    fn is_kana(&self) -> (r: bool) {
        all_in(self, Class::Kana)
    }

    fn is_kanji(&self) -> (r: bool) {
        all_in(self, Class::Kanji)
    }

    fn has_kanji(&self) -> (r: bool) {
        any_in(self, Class::Kanji)
    }

    fn is_japanese(&self) -> (r: bool) {
        all_in(self, Class::Japanese)
    }

    fn has_japanese(&self) -> (r: bool) {
        any_in(self, Class::Japanese)
    }

    fn is_katakana(&self) -> (r: bool) {
        all_in(self, Class::Katakana)
    }

    fn is_hiragana(&self) -> (r: bool) {
        all_in(self, Class::Hiragana)
    }

    fn kanji_count(&self) -> (r: usize) {
        let v = chars_of(self);
        let mut n: usize = 0;
        let mut i: usize = 0;
        while i < v.len()
            invariant
                v@ == self@,
                i <= v@.len(),
                n == kanji_total(v@.subrange(0, i as int)),
                n <= i,
            decreases v@.len() - i,
        {
            assert(v@.subrange(0, i + 1).drop_last() =~= v@.subrange(0, i as int));
            if kanji(v[i]) {
                n = n + 1;
            }
            i = i + 1;
        }
        assert(v@.subrange(0, i as int) =~= v@);
        n
    }

    fn is_symbol(&self) -> (r: bool) {
        all_in(self, Class::Symbol)
    }

    fn has_symbol(&self) -> (r: bool) {
        any_in(self, Class::Symbol)
    }

    fn to_hiragana(&self) -> (r: String) {
        romaji_hiragana(self)
    }

    fn is_roman_letter(&self) -> (r: bool) {
        all_in(self, Class::RomanLetter)
    }

    fn is_small_katakana(&self) -> (r: bool) {
        all_in(self, Class::SmallKatakana)
    }

    fn is_small_hiragana(&self) -> (r: bool) {
        all_in(self, Class::SmallHiragana)
    }

    fn is_small_kana(&self) -> (r: bool) {
        self.is_small_katakana() || self.is_small_hiragana()
    }
}

/// A single character is entirely, and has some, class `k` exactly when it is of class `k`.
pub proof fn lemma_single(c: char, k: Class)
    ensures
        all_of(seq![c], k) == in_class(k, c),
        any_of(seq![c], k) == in_class(k, c),
{
    assert(seq![c][0] == c);
}

impl JapaneseExt for char {
    open spec fn text(&self) -> Seq<char> {
        seq![*self]
    }

    open spec fn class(&self) -> CharType {
        char_type(*self)
    }

    fn is_of_type(&self, ct: CharType) -> (r: bool) {
        self.get_text_type() == ct
    }

    fn get_text_type(&self) -> (r: CharType) {
        char_type_of(*self)
    }

    fn has_kana(&self) -> (r: bool) {
        proof {
            lemma_single(*self, Class::Kana);
        }
        kana(*self)
    }

    fn is_kana(&self) -> (r: bool) {
        proof {
            lemma_single(*self, Class::Kana);
        }
        kana(*self)
    }

    fn is_kanji(&self) -> (r: bool) {
        proof {
            lemma_single(*self, Class::Kanji);
        }
        kanji(*self)
    }

    fn has_kanji(&self) -> (r: bool) {
        proof {
            lemma_single(*self, Class::Kanji);
        }
        kanji(*self)
    }

    fn is_japanese(&self) -> (r: bool) {
        proof {
            lemma_single(*self, Class::Japanese);
        }
        japanese(*self)
    }

    fn has_japanese(&self) -> (r: bool) {
        proof {
            lemma_single(*self, Class::Japanese);
        }
        japanese(*self)
    }

    fn is_katakana(&self) -> (r: bool) {
        proof {
            lemma_single(*self, Class::Katakana);
        }
        katakana(*self)
    }

    fn is_hiragana(&self) -> (r: bool) {
        proof {
            lemma_single(*self, Class::Hiragana);
        }
        hiragana(*self)
    }

    fn kanji_count(&self) -> (r: usize) {
        assert(seq![*self].drop_last() =~= Seq::<char>::empty());
        assert(seq![*self].last() == *self);
        assert(kanji_total(seq![*self]) == kanji_total(Seq::<char>::empty()) + if kanji_char(
            *self,
        ) {
            1nat
        } else {
            0nat
        });
        if kanji(*self) {
            1
        } else {
            0
        }
    }

    fn is_symbol(&self) -> (r: bool) {
        proof {
            lemma_single(*self, Class::Symbol);
        }
        symbol(*self)
    }

    fn has_symbol(&self) -> (r: bool) {
        proof {
            lemma_single(*self, Class::Symbol);
        }
        symbol(*self)
    }

    fn to_hiragana(&self) -> (r: String) {
        let v = vec![*self];
        assert(v@ =~= seq![*self]);
        let s = string_of_chars(&v);
        romaji_hiragana(s.as_str())
    }

    fn is_roman_letter(&self) -> (r: bool) {
        proof {
            lemma_single(*self, Class::RomanLetter);
        }
        roman_letter(*self)
    }

    fn is_small_katakana(&self) -> (r: bool) {
        proof {
            lemma_single(*self, Class::SmallKatakana);
        }
        small_katakana(*self)
    }

    fn is_small_hiragana(&self) -> (r: bool) {
        proof {
            lemma_single(*self, Class::SmallHiragana);
        }
        small_hiragana(*self)
    }

    fn is_small_kana(&self) -> (r: bool) {
        self.is_small_katakana() || self.is_small_hiragana()
    }
}

/// Left-to-right scan of `s` for runs of class `ct`: the runs already closed,
/// and the run still open at the end of `s`.
pub open spec fn scan_runs(s: Seq<char>, ct: CharType) -> (Seq<Seq<char>>, Seq<char>)
    decreases s.len(),
{
    if s.len() == 0 {
        (Seq::empty(), Seq::empty())
    } else {
        let (done, open) = scan_runs(s.drop_last(), ct);
        if char_type(s.last()) == ct {
            (done, open.push(s.last()))
        } else if open.len() > 0 {
            (done.push(open), Seq::empty())
        } else {
            (done, Seq::empty())
        }
    }
}

/// The maximal runs of characters of class `ct` in `s`, left to right.
pub open spec fn runs_of(s: Seq<char>, ct: CharType) -> Seq<Seq<char>> {
    let (done, open) = scan_runs(s, ct);
    if open.len() > 0 {
        done.push(open)
    } else {
        done
    }
}

pub open spec fn views(v: Seq<String>) -> Seq<Seq<char>> {
    v.map_values(|x: String| x@)
}

/// Return all words of chartype ct: the maximal runs of characters whose class
/// is `ct`, in the order they appear.
pub fn all_words_with_ct(inp: &str, ct: CharType) -> (r: Vec<String>)
    ensures
        views(r@) == runs_of(inp@, ct),
{
    let v = chars_of(inp);
    let mut all: Vec<String> = Vec::new();
    let mut start: usize = 0;
    let mut i: usize = 0;
    while i < v.len()
        invariant
            v@ == inp@,
            start <= i <= v@.len(),
            views(all@) == scan_runs(v@.subrange(0, i as int), ct).0,
            v@.subrange(start as int, i as int) == scan_runs(v@.subrange(0, i as int), ct).1,
        decreases v@.len() - i,
    {
        let ghost pre = v@.subrange(0, i as int);
        assert(v@.subrange(0, i + 1).drop_last() =~= pre);
        assert(v@.subrange(0, i + 1).last() == v@[i as int]);
        if char_type_of(v[i]) == ct {
            assert(v@.subrange(start as int, i + 1) =~= v@.subrange(start as int, i as int).push(
                v@[i as int],
            ));
            i = i + 1;
        } else {
            if start < i {
                let w = inp.substring_char(start, i).to_owned();
                all.push(w);
                assert(views(all@) =~= scan_runs(pre, ct).0.push(v@.subrange(start as int, i as int)));
            }
            i = i + 1;
            start = i;
            assert(v@.subrange(start as int, i as int) =~= Seq::<char>::empty());
        }
    }
    assert(v@.subrange(0, i as int) =~= v@);
    if start < i {
        let w = inp.substring_char(start, i).to_owned();
        all.push(w);
        assert(views(all@) =~= runs_of(inp@, ct));
    }
    all
}

/// The hiragana and katakana blocks are apart: a hiragana character is no
/// katakana character, and a katakana character no hiragana character.
pub proof fn lemma_kana_blocks_disjoint(c: char)
    ensures
        hiragana_char(c) ==> !katakana_char(c),
        katakana_char(c) ==> !hiragana_char(c),
{
}

/// A text is kana exactly when each of its characters is hiragana or
/// katakana; the empty text is kana.
pub proof fn lemma_kana_text(s: Seq<char>)
    ensures
        all_of(s, Class::Kana) <==> (forall|i: int|
            0 <= i < s.len() ==> hiragana_char(#[trigger] s[i]) || katakana_char(s[i])),
        all_of(Seq::<char>::empty(), Class::Kana),
{
    assert(all_of(s, Class::Kana) ==> (forall|i: int|
        0 <= i < s.len() ==> hiragana_char(#[trigger] s[i]) || katakana_char(s[i]))) by {
        if all_of(s, Class::Kana) {
            assert forall|i: int| 0 <= i < s.len() implies hiragana_char(#[trigger] s[i])
                || katakana_char(s[i]) by {
                assert(in_class(Class::Kana, s[i]));
            }
        }
    }
}

/// `s[i..j]` is a maximal run of class `ct`: non-empty, all of class `ct`,
/// and with no character of class `ct` just before or just after it.
pub open spec fn is_maximal_run(s: Seq<char>, ct: CharType, i: int, j: int) -> bool {
    &&& 0 <= i < j <= s.len()
    &&& forall|k: int| i <= k < j ==> char_type(#[trigger] s[k]) == ct
    &&& i == 0 || char_type(s[i - 1]) != ct
    &&& j == s.len() || char_type(s[j]) != ct
}

/// Where the runs that `scan_runs` closes lie in `s`, and where its open run
/// starts.
pub open spec fn scan_bounds(s: Seq<char>, ct: CharType) -> (Seq<(int, int)>, int)
    decreases s.len(),
{
    if s.len() == 0 {
        (Seq::empty(), 0)
    } else {
        let (cb, os) = scan_bounds(s.drop_last(), ct);
        let n = s.len() - 1;
        if char_type(s.last()) == ct {
            (cb, os)
        } else if os < n {
            (cb.push((os, n)), n + 1)
        } else {
            (cb, n + 1)
        }
    }
}

proof fn lemma_scan_bounds(s: Seq<char>, ct: CharType)
    ensures
        ({
            let (done, open) = scan_runs(s, ct);
            let (cb, os) = scan_bounds(s, ct);
            &&& cb.len() == done.len()
            &&& 0 <= os <= s.len()
            &&& open == s.subrange(os, s.len() as int)
            &&& forall|k: int| os <= k < s.len() ==> char_type(#[trigger] s[k]) == ct
            &&& os == 0 || char_type(s[os - 1]) != ct
            &&& forall|m: int|
                0 <= m < cb.len() ==> {
                    &&& done[m] == s.subrange(cb[m].0, cb[m].1)
                    &&& is_maximal_run(s, ct, #[trigger] cb[m].0, cb[m].1)
                    &&& cb[m].1 < os
                }
            &&& forall|m: int, m2: int| 0 <= m < m2 < cb.len() ==> #[trigger] cb[m].1 < #[trigger] cb[m2].0
            &&& forall|i: int, j: int|
                j < s.len() && is_maximal_run(s, ct, i, j) ==> exists|m: int|
                    0 <= m < cb.len() && #[trigger] cb[m] == (i, j)
        }),
    decreases s.len(),
{
    if s.len() > 0 {
        let t = s.drop_last();
        lemma_scan_bounds(t, ct);
        let (done0, open0) = scan_runs(t, ct);
        let (cb0, os0) = scan_bounds(t, ct);
        let (done, open) = scan_runs(s, ct);
        let (cb, os) = scan_bounds(s, ct);
        let n = t.len() as int;
        assert(s.last() == s[n]);
        assert forall|k: int| 0 <= k < n implies s[k] == t[k] by {}
        assert forall|a: int, b: int| 0 <= a <= b <= n implies s.subrange(a, b) == t.subrange(a, b) by {
            assert(s.subrange(a, b) =~= t.subrange(a, b));
        }
        assert forall|i: int, j: int| j <= n && is_maximal_run(t, ct, i, j) && j < n implies is_maximal_run(s, ct, i, j) by {}
        if char_type(s[n]) == ct {
            assert(open =~= s.subrange(os, s.len() as int));
            assert forall|m: int| 0 <= m < cb.len() implies is_maximal_run(s, ct, #[trigger] cb[m].0, cb[m].1) by {
                assert(is_maximal_run(t, ct, cb0[m].0, cb0[m].1));
            }
            assert forall|i: int, j: int| j < s.len() && is_maximal_run(s, ct, i, j) implies exists|m: int|
                0 <= m < cb.len() && #[trigger] cb[m] == (i, j) by {
                if j == n {
                    assert(char_type(s[j]) != ct);
                } else {
                    assert(is_maximal_run(t, ct, i, j));
                }
            }
        } else if os0 < n {
            assert(done[done.len() - 1] == open0);
            assert(open =~= s.subrange(os, s.len() as int));
            assert(is_maximal_run(s, ct, os0, n));
            assert forall|m: int| 0 <= m < cb.len() implies {
                &&& done[m] == s.subrange(cb[m].0, cb[m].1)
                &&& is_maximal_run(s, ct, #[trigger] cb[m].0, cb[m].1)
                &&& cb[m].1 < os
            } by {
                if m < cb0.len() {
                    assert(cb[m] == cb0[m]);
                    assert(done[m] == done0[m]);
                    assert(is_maximal_run(t, ct, cb0[m].0, cb0[m].1));
                }
            }
            assert forall|m: int, m2: int| 0 <= m < m2 < cb.len() implies #[trigger] cb[m].1 < #[trigger] cb[m2].0 by {
                if m2 < cb0.len() {
                    assert(cb[m] == cb0[m] && cb[m2] == cb0[m2]);
                } else {
                    assert(cb[m] == cb0[m]);
                    assert(is_maximal_run(t, ct, cb0[m].0, cb0[m].1));
                }
            }
            assert forall|i: int, j: int| j < s.len() && is_maximal_run(s, ct, i, j) implies exists|m: int|
                0 <= m < cb.len() && #[trigger] cb[m] == (i, j) by {
                if j == n {
                    if i < os0 {
                        assert(char_type(s[os0 - 1]) == ct);
                    } else if i > os0 {
                        assert(char_type(s[i - 1]) == ct);
                    }
                    assert(cb[cb.len() - 1] == (i, j));
                } else {
                    assert(is_maximal_run(t, ct, i, j));
                    let m = choose|m: int| 0 <= m < cb0.len() && #[trigger] cb0[m] == (i, j);
                    assert(cb[m] == cb0[m]);
                }
            }
        } else {
            assert(open =~= s.subrange(os, s.len() as int));
            assert forall|m: int| 0 <= m < cb.len() implies is_maximal_run(s, ct, #[trigger] cb[m].0, cb[m].1) by {
                assert(is_maximal_run(t, ct, cb0[m].0, cb0[m].1));
            }
            assert forall|i: int, j: int| j < s.len() && is_maximal_run(s, ct, i, j) implies exists|m: int|
                0 <= m < cb.len() && #[trigger] cb[m] == (i, j) by {
                if j == n {
                    assert(char_type(s[j - 1]) == ct);
                    assert(j - 1 >= os0);
                } else {
                    assert(is_maximal_run(t, ct, i, j));
                }
            }
        }
    }
}

/// Where the runs of `runs_of(s, ct)` lie in `s`.
pub open spec fn run_bounds(s: Seq<char>, ct: CharType) -> Seq<(int, int)> {
    let (cb, os) = scan_bounds(s, ct);
    if os < s.len() {
        cb.push((os, s.len() as int))
    } else {
        cb
    }
}

/// The segments that `all_words_with_ct` yields are exactly the maximal runs
/// of class `ct` in `s`, left to right: each segment is the text of a maximal
/// run, the runs come in order of position, and every maximal run is one of
/// them.
pub proof fn lemma_runs_are_maximal_runs(s: Seq<char>, ct: CharType)
    ensures
        run_bounds(s, ct).len() == runs_of(s, ct).len(),
        forall|m: int|
            0 <= m < run_bounds(s, ct).len() ==> runs_of(s, ct)[m] == s.subrange(
                #[trigger] run_bounds(s, ct)[m].0,
                run_bounds(s, ct)[m].1,
            ) && is_maximal_run(s, ct, run_bounds(s, ct)[m].0, run_bounds(s, ct)[m].1),
        forall|m: int, m2: int|
            0 <= m < m2 < run_bounds(s, ct).len() ==> #[trigger] run_bounds(s, ct)[m].1
                < #[trigger] run_bounds(s, ct)[m2].0,
        forall|i: int, j: int|
            is_maximal_run(s, ct, i, j) ==> exists|m: int|
                0 <= m < run_bounds(s, ct).len() && #[trigger] run_bounds(s, ct)[m] == (i, j),
{
    lemma_scan_bounds(s, ct);
    let (done, open) = scan_runs(s, ct);
    let (cb, os) = scan_bounds(s, ct);
    let b = run_bounds(s, ct);
    let n = s.len() as int;
    if os < n {
        assert(is_maximal_run(s, ct, os, n));
        assert forall|m: int| 0 <= m < b.len() implies runs_of(s, ct)[m] == s.subrange(
            #[trigger] b[m].0,
            b[m].1,
        ) && is_maximal_run(s, ct, b[m].0, b[m].1) by {
            if m < cb.len() {
                assert(b[m] == cb[m]);
            }
        }
        assert forall|m: int, m2: int| 0 <= m < m2 < b.len() implies #[trigger] b[m].1
            < #[trigger] b[m2].0 by {
            assert(b[m] == cb[m]);
            if m2 < cb.len() {
                assert(b[m2] == cb[m2]);
            } else {
                assert(b[m2] == (os, n));
                let lo = cb[m].0;
                assert(cb[m].1 < os);
            }
        }
        assert forall|i: int, j: int| is_maximal_run(s, ct, i, j) implies exists|m: int|
            0 <= m < b.len() && #[trigger] b[m] == (i, j) by {
            if j == n {
                if i < os {
                    assert(char_type(s[os - 1]) == ct);
                } else if i > os {
                    assert(char_type(s[i - 1]) == ct);
                }
                assert(b[b.len() - 1] == (i, j));
            } else {
                let m = choose|m: int| 0 <= m < cb.len() && #[trigger] cb[m] == (i, j);
                assert(b[m] == cb[m]);
            }
        }
    } else {
        assert forall|i: int, j: int| is_maximal_run(s, ct, i, j) implies exists|m: int|
            0 <= m < b.len() && #[trigger] b[m] == (i, j) by {
            if j == n {
                assert(char_type(s[j - 1]) == ct);
            }
        }
    }
}

} // verus!
