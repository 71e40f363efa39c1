use wetext_rs::{Language, Normalizer};

#[test]
fn test_detect_language() {
    // English
    assert_eq!(Normalizer::detect_language("hello world"), Language::En);
    assert_eq!(Normalizer::detect_language("Hello, World!"), Language::En);

    // Chinese
    assert_eq!(Normalizer::detect_language("你好世界"), Language::Zh);
    assert_eq!(Normalizer::detect_language("今天是2024年"), Language::Zh);

    // Japanese (Hiragana/Katakana triggers Japanese detection)
    assert_eq!(Normalizer::detect_language("こんにちは"), Language::Ja); // Hiragana
    assert_eq!(Normalizer::detect_language("カタカナ"), Language::Ja); // Katakana
    assert_eq!(Normalizer::detect_language("東京タワー"), Language::Ja); // Mixed Kanji + Katakana

    // Pure digits treated as Chinese (common TTS use case)
    assert_eq!(Normalizer::detect_language("123"), Language::Zh);
    assert_eq!(Normalizer::detect_language("2024"), Language::Zh);

    // Edge cases
    assert_eq!(Normalizer::detect_language(""), Language::En); // Empty defaults to English
}

#[test]
fn letters_of_any_script_make_text_english() {
    assert_eq!(Normalizer::detect_language("Привет"), Language::En);
    assert_eq!(Normalizer::detect_language("Ελλάδα 2024"), Language::En);
    assert_eq!(Normalizer::detect_language("12, 3.5%"), Language::Zh);
    assert_eq!(Normalizer::detect_language("  "), Language::Zh);
}

#[test]
fn han_outside_the_main_block_and_numerals_are_no_letters() {
    assert_eq!(Normalizer::detect_language("㐀"), Language::Zh);
    assert_eq!(Normalizer::detect_language("二〇二四"), Language::Zh);
    assert_eq!(Normalizer::detect_language("〇"), Language::Zh);
    assert_eq!(Normalizer::detect_language("Ⅻ"), Language::Zh);
    assert_eq!(Normalizer::detect_language("ㄅㄆㄇ"), Language::Zh);
    assert_eq!(Normalizer::detect_language("𠀀"), Language::Zh);
    assert_eq!(Normalizer::detect_language("㐀 hello"), Language::En);
}

#[test]
fn language_of_reads_the_letter_flags() {
    assert_eq!(Normalizer::language_of("ab", &[true, false]), Language::En);
    assert_eq!(Normalizer::language_of("ab", &[false, false]), Language::Zh);
    assert_eq!(Normalizer::language_of("", &[]), Language::En);
    assert_eq!(Normalizer::language_of("a東", &[true, true]), Language::Zh);
    assert_eq!(Normalizer::language_of("東カ", &[true, true]), Language::Ja);
}
