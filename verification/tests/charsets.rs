use qgfx::font::{gen_charset, CacheGlyphError, CacheReadError, Charset, FontHandle, FontSpec};
use std::collections::HashSet;

#[test]
fn no_set_gives_no_character() {
    assert!(gen_charset(&HashSet::new()).is_empty());
}

#[test]
fn lowercase_is_the_alphabet() {
    let mut sets = HashSet::new();
    sets.insert(Charset::Lowercase);
    let chars: String = gen_charset(&sets).into_iter().collect();
    assert_eq!(chars, "abcdefghijklmnopqrstuvwxyz");
}

#[test]
fn numbers_are_the_ten_digits() {
    let mut sets = HashSet::new();
    sets.insert(Charset::Numbers);
    assert_eq!(gen_charset(&sets), vec!['0', '1', '2', '3', '4', '5', '6', '7', '8', '9']);
}

#[test]
fn punctuation_has_thirty_five_characters() {
    let mut sets = HashSet::new();
    sets.insert(Charset::Punctuation);
    let chars = gen_charset(&sets);
    assert_eq!(chars.len(), 35);
    assert_eq!(chars[0], ' ');
    assert_eq!(chars[4], '\u{a3}');
    assert_eq!(chars[34], '\u{ac}');
    assert!(chars.contains(&'?'));
}

#[test]
fn all_sets_come_in_a_fixed_order() {
    let mut sets = HashSet::new();
    sets.insert(Charset::Punctuation);
    sets.insert(Charset::Uppercase);
    sets.insert(Charset::Numbers);
    sets.insert(Charset::Lowercase);
    let chars = gen_charset(&sets);
    assert_eq!(chars.len(), 26 + 26 + 10 + 35);
    assert_eq!(chars[0], 'a');
    assert_eq!(chars[26], 'A');
    assert_eq!(chars[52], '0');
    assert_eq!(chars[62], ' ');
    let mut seen = HashSet::new();
    for c in &chars {
        assert!(seen.insert(*c));
    }
}

#[test]
fn font_specs_compare_by_path_and_size() {
    let a = FontSpec::new("fonts/a.ttf", 2400, 2400);
    assert_eq!(a.path(), "fonts/a.ttf");
    assert_eq!((a.x_scale(), a.y_scale()), (2400, 2400));
    assert!(a.same_as(&FontSpec::new("fonts/a.ttf", 2400, 2400)));
    assert!(!a.same_as(&FontSpec::new("fonts/a.ttf", 2400, 1200)));
    assert!(!a.same_as(&FontSpec::new("fonts/b.ttf", 2400, 2400)));
    assert!(a.same_as(&a.duplicate()));
    assert_eq!(a, a.duplicate());
}

#[test]
fn handles_and_read_errors() {
    assert!(FontHandle(1) > FontHandle(0));
    assert_eq!(CacheReadError.description(), "The requested glyph was not in the cache");
}

#[test]
fn glyph_errors_have_a_sentence_each() {
    let io = CacheGlyphError::from(std::io::Error::new(std::io::ErrorKind::NotFound, "gone"));
    assert!(matches!(io, CacheGlyphError::IoError(_)));
    assert!(!io.description().is_empty());
    assert_eq!(
        CacheGlyphError::GlyphNotSupported(vec!['a']).description(),
        "A glyph is not supported."
    );
    assert_eq!(
        CacheGlyphError::CacheTooSmall.description(),
        "The cache is too small for these characters with this font."
    );
    assert_eq!(CacheGlyphError::DecodeError.description(), "The font file does not hold a font.");
    assert_eq!(*FontHandle(3), 3);
}

#[test]
fn glyph_errors_say_what_they_hold() {
    assert_eq!(
        CacheGlyphError::GlyphNotSupported(vec!['a', '\u{2603}', '\n']).message(),
        "The following chars are not supported by the given font:\n               ['a', '\u{2603}', '\\n']"
    );
    assert_eq!(
        CacheGlyphError::GlyphNotSupported(Vec::new()).message(),
        "The following chars are not supported by the given font:\n               []"
    );
    assert_eq!(
        CacheGlyphError::CacheTooSmall.message(),
        "The cache is to small to contain all the characters\n             given."
    );
    assert_eq!(CacheGlyphError::DecodeError.message(), "The font file does not hold a font.");
    let io = CacheGlyphError::from(std::io::Error::new(std::io::ErrorKind::NotFound, "gone"));
    assert_eq!(io.message(), "gone");
}
