use jotoba::japanese::{all_words_with_ct, chars_of, CharType, JapaneseExt};

#[test]
fn hiragana_block_is_not_katakana() {
    for c in ['\u{3040}', 'あ', 'ん', '\u{309F}'] {
        assert!(c.is_hiragana());
        assert!(!c.is_katakana());
        assert!(c.is_kana());
    }
}

#[test]
fn katakana_block_is_not_hiragana() {
    for c in ['\u{30A0}', 'ア', 'ン', '\u{30FF}'] {
        assert!(c.is_katakana());
        assert!(!c.is_hiragana());
        assert!(c.is_kana());
    }
}

#[test]
fn kana_text_is_all_hiragana_or_katakana() {
    assert!("ひらがなカタカナ".is_kana());
    assert!("".is_kana());
    assert!(!"かなa".is_kana());
    assert!(!"漢字".is_kana());
    assert!("かなa".has_kana());
    assert!(!"abc".has_kana());
}

#[test]
fn segments_kanji_runs() {
    assert_eq!(
        all_words_with_ct("これは漢字です", CharType::Kanji),
        vec!["漢字".to_string()]
    );
    assert_eq!(
        all_words_with_ct("漢字とかな、日本", CharType::Kanji),
        vec!["漢字".to_string(), "日本".to_string()]
    );
    assert_eq!(
        all_words_with_ct("漢字とかな", CharType::Kana),
        vec!["とかな".to_string()]
    );
    assert!(all_words_with_ct("", CharType::Kanji).is_empty());
}

#[test]
fn full_width_roman_letter_counts_as_kanji_for_a_char() {
    assert_eq!('Ａ'.get_text_type(), CharType::Kanji);
    assert!(!'Ａ'.is_kanji());
    assert_eq!("Ａ".get_text_type(), CharType::Other);
    assert_eq!("漢字".get_text_type(), CharType::Kanji);
    assert_eq!("かな".get_text_type(), CharType::Kana);
    assert_eq!("".get_text_type(), CharType::Kanji);
    assert!('か'.is_of_type(CharType::Kana));
}

#[test]
fn counts_kanji() {
    assert_eq!("日本語です".kanji_count(), 3);
    assert_eq!('日'.kanji_count(), 1);
    assert_eq!('に'.kanji_count(), 0);
    assert_eq!("".kanji_count(), 0);
}

#[test]
fn japanese_and_symbols() {
    assert!("日本語、です".is_japanese());
    assert!(!"日本語 abc".is_japanese());
    assert!("abc日".has_japanese());
    assert!(!"abc".has_japanese());
    assert!('×'.is_symbol());
    assert!("a×".has_symbol());
    assert!('ｚ'.is_roman_letter());
    assert!(!"a".is_roman_letter());
}

#[test]
fn small_kana() {
    assert!('ゃ'.is_small_hiragana());
    assert!('ャ'.is_small_katakana());
    assert!("ゃゅ".is_small_kana());
    assert!("ャョ".is_small_kana());
    assert!(!"ゃャ".is_small_kana());
    assert!(!'や'.is_small_kana());
}

#[test]
fn converts_katakana_to_hiragana() {
    assert_eq!("カタ".to_hiragana(), "かた");
    assert_eq!('モ'.to_hiragana(), "も");
}

#[test]
fn splits_into_chars() {
    assert_eq!(chars_of("日本"), vec!['日', '本']);
}
