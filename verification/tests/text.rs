use raw_workbench::tempo::TimeSignature;
use raw_workbench::text::{chars_of, decimal_string, same_text, split_words, white_space};

#[test]
fn split_words_like_split_whitespace() {
    assert_eq!(split_words("copy  t1\t0.5 2\n"), vec!["copy", "t1", "0.5", "2"]);
    assert_eq!(split_words(""), Vec::<String>::new());
    assert_eq!(split_words("   "), Vec::<String>::new());
    assert_eq!(split_words("a\u{3000}b\u{85}c"), vec!["a", "b", "c"]);
    assert_eq!(split_words("é ü"), vec!["é", "ü"]);
    let s = "  import x.wav  t ";
    let expected: Vec<String> = s.split_whitespace().map(|w| w.to_string()).collect();
    assert_eq!(split_words(s), expected);
}

#[test]
fn white_space_matches_char_is_whitespace() {
    for u in 0u32..0x3100 {
        if let Some(c) = char::from_u32(u) {
            assert_eq!(white_space(c), c.is_whitespace(), "{:x}", u);
        }
    }
}

#[test]
fn decimal_numerals() {
    assert_eq!(decimal_string(0), "0");
    assert_eq!(decimal_string(7), "7");
    assert_eq!(decimal_string(10), "10");
    assert_eq!(decimal_string(44100), "44100");
    assert_eq!(decimal_string(u64::MAX), u64::MAX.to_string());
}

#[test]
fn characters_and_equality_of_text() {
    assert_eq!(chars_of("añb"), vec!['a', 'ñ', 'b']);
    assert!(same_text("wav", "wav"));
    assert!(!same_text("wav", "WAV"));
    assert!(!same_text("wa", "wav"));
}

#[test]
fn time_signatures() {
    let common = TimeSignature::common_time();
    assert_eq!(common.beats(), 4);
    assert_eq!(common.beat_unit(), 4);
    assert_eq!(common.to_string(), "4/4");
    let cut = TimeSignature::cut_time();
    assert_eq!(cut.to_string(), "2/2");
    let waltz = TimeSignature::new(3, 8);
    assert_eq!(waltz.beats(), 3);
    assert_eq!(waltz.beat_unit(), 8);
    assert_eq!(waltz.to_string(), "3/8");
}
