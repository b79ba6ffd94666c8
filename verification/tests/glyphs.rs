use qgfx::font::{CacheGlyphError, CacheReadError, FontHandle, FontSpec};
use qgfx::font_cache::{GliumFontCache, GlyphMetrics, GlyphSource, PixelBox};
use qgfx::font_data::glyph_ids;
use qgfx::rect::Rect;

fn glyph(c: char, id: u32, w: u32, h: u32) -> GlyphSource {
    GlyphSource {
        code_point: c,
        metrics: GlyphMetrics {
            glyph_id: id,
            left_side_bearing: 1.5f32.to_bits(),
            advance_width: (w as f32 + 2.0).to_bits(),
            bounding_box: if w > 0 || h > 0 { Some(PixelBox { x: 0, y: -(h as i32), w, h }) } else { None },
        },
    }
}

fn be16(v: u16) -> [u8; 2] {
    v.to_be_bytes()
}

fn be32(v: u32) -> [u8; 4] {
    v.to_be_bytes()
}

/// A font file with the three tables a font must have and a character map
/// that gives `A` to `Z` the glyphs 1 to 26 and `z` the glyph 500, of 27
/// glyphs in all.
fn tiny_font() -> Vec<u8> {
    let mut cmap: Vec<u8> = Vec::new();
    cmap.extend(be16(0));
    cmap.extend(be16(1));
    cmap.extend(be16(0));
    cmap.extend(be16(4));
    cmap.extend(be32(12));
    cmap.extend(be16(12));
    cmap.extend(be16(0));
    cmap.extend(be32(16 + 2 * 12));
    cmap.extend(be32(0));
    cmap.extend(be32(2));
    for (first, last, id) in [(65u32, 90u32, 1u32), (122, 122, 500)] {
        cmap.extend(be32(first));
        cmap.extend(be32(last));
        cmap.extend(be32(id));
    }
    let mut head = vec![0u8; 54];
    head[18..20].copy_from_slice(&be16(1000));
    let hhea = vec![0u8; 36];
    let mut maxp: Vec<u8> = Vec::new();
    maxp.extend(be32(0x0000_5000));
    maxp.extend(be16(27));
    let tables: [(&[u8; 4], &Vec<u8>); 4] =
        [(b"cmap", &cmap), (b"head", &head), (b"hhea", &hhea), (b"maxp", &maxp)];
    let mut file: Vec<u8> = Vec::new();
    file.extend(be32(0x0001_0000));
    file.extend(be16(4));
    file.extend([0u8; 6]);
    let mut offset = 12 + 16 * tables.len() as u32;
    for (tag, data) in tables.iter() {
        file.extend(tag.iter());
        file.extend(be32(0));
        file.extend(be32(offset));
        file.extend(be32(data.len() as u32));
        offset += data.len() as u32;
    }
    for (_, data) in tables.iter() {
        file.extend(data.iter());
    }
    file
}

#[test]
fn glyph_ids_follow_the_character_map() {
    let font = tiny_font();
    let ids = glyph_ids(&font, &['A', 'C', 'Z', 'a', '?', 'A']).unwrap();
    assert_eq!(ids, vec![1, 3, 26, 0, 0, 1]);
}

#[test]
fn glyph_number_beyond_the_font_counts_as_missing() {
    let font = tiny_font();
    assert_eq!(glyph_ids(&font, &['z']).unwrap(), vec![0]);
}

#[test]
fn empty_charset_of_a_font_gives_no_id() {
    assert_eq!(glyph_ids(&tiny_font(), &[]).unwrap(), Vec::<u32>::new());
}

#[test]
fn bytes_that_are_no_font_are_a_decode_error() {
    assert!(matches!(glyph_ids(b"not a font", &['a']), Err(CacheGlyphError::DecodeError)));
    assert!(matches!(glyph_ids(&[], &[]), Err(CacheGlyphError::DecodeError)));
    let mut cut = tiny_font();
    cut.truncate(40);
    assert!(matches!(glyph_ids(&cut, &['A']), Err(CacheGlyphError::DecodeError)));
}

#[test]
fn new_glyph_cache_is_empty() {
    let cache = GliumFontCache::new();
    assert_eq!(cache.atlas_size(), (4096, 4096));
    assert_eq!(cache.curr_font_handle(), FontHandle(0));
    assert_eq!(cache.glyph_count(), 0);
    assert_eq!(cache.font_handle(&FontSpec::new("a.ttf", 2400, 2400)), None);
    assert_eq!(cache.rect_for(FontHandle(0), 'a'), Err(CacheReadError));
    assert_eq!(cache.get_glyph(FontHandle(0), 'a'), None);
}

#[test]
fn glyphs_are_packed_in_the_order_of_the_request() {
    let mut cache = GliumFontCache::with_atlas_size(64, 64);
    let spec = FontSpec::new("a.ttf", 2400, 2400);
    let fh = cache.cache_glyphs(&spec, &[glyph('a', 5, 10, 12), glyph('b', 6, 8, 12)]).unwrap();
    assert_eq!(fh, FontHandle(0));
    assert_eq!(cache.rect_for(fh, 'a'), Ok(Some(Rect::new(0, 0, 10, 12))));
    assert_eq!(cache.rect_for(fh, 'b'), Ok(Some(Rect::new(10, 0, 8, 12))));
    assert_eq!(cache.get_glyph(fh, 'b').unwrap().metrics, glyph('b', 6, 8, 12).metrics);
    assert_eq!(cache.glyph_count(), 2);
    assert_eq!(cache.font_handle(&spec), Some(fh));
    assert_eq!(cache.curr_font_handle(), FontHandle(1));
}

#[test]
fn same_request_twice_gives_the_same_handle_and_no_new_glyph() {
    let mut cache = GliumFontCache::with_atlas_size(64, 64);
    let spec = FontSpec::new("a.ttf", 2400, 2400);
    let charset = [glyph('x', 1, 4, 4), glyph('y', 2, 4, 4), glyph(' ', 3, 0, 0)];
    let first = cache.cache_glyphs(&spec, &charset).unwrap();
    let count = cache.glyph_count();
    let rect = cache.rect_for(first, 'y');
    let second = cache.cache_glyphs(&spec, &charset).unwrap();
    assert_eq!(first, second);
    assert_eq!(cache.glyph_count(), count);
    assert_eq!(cache.rect_for(first, 'y'), rect);
    assert_eq!(cache.curr_font_handle(), FontHandle(1));
}

#[test]
fn one_unmapped_character_fails_the_whole_request() {
    let mut cache = GliumFontCache::with_atlas_size(64, 64);
    let other = FontSpec::new("other.ttf", 1200, 1200);
    let kept = cache.cache_glyphs(&other, &[glyph('k', 9, 3, 3)]).unwrap();
    let spec = FontSpec::new("a.ttf", 2400, 2400);
    let res = cache.cache_glyphs(
        &spec,
        &[glyph('a', 1, 4, 4), glyph('b', 2, 4, 4), glyph('\u{2603}', 0, 0, 0), glyph('c', 3, 4, 4)],
    );
    match res {
        Err(CacheGlyphError::GlyphNotSupported(chars)) => assert_eq!(chars, vec!['\u{2603}']),
        other => panic!("unexpected answer {:?}", other),
    }
    assert_eq!(cache.font_handle(&spec), None);
    assert_eq!(cache.curr_font_handle(), FontHandle(1));
    assert_eq!(cache.glyph_count(), 1);
    for c in ['a', 'b', 'c', '\u{2603}'] {
        assert_eq!(cache.rect_for(FontHandle(1), c), Err(CacheReadError));
        assert_eq!(cache.rect_for(kept, c), Err(CacheReadError));
    }
    assert_eq!(cache.rect_for(kept, 'k'), Ok(Some(Rect::new(0, 0, 3, 3))));
    // The atlas is as before: the next glyph goes where 'a' would have gone.
    let fh = cache.cache_glyphs(&spec, &[glyph('a', 1, 4, 4)]).unwrap();
    assert_eq!(cache.rect_for(fh, 'a'), Ok(Some(Rect::new(3, 0, 4, 4))));
}

#[test]
fn unmapped_characters_are_listed_once_in_request_order() {
    let mut cache = GliumFontCache::with_atlas_size(64, 64);
    let spec = FontSpec::new("a.ttf", 2400, 2400);
    let res = cache.cache_glyphs(
        &spec,
        &[glyph('q', 0, 0, 0), glyph('a', 1, 4, 4), glyph('p', 0, 0, 0), glyph('q', 0, 0, 0)],
    );
    match res {
        Err(CacheGlyphError::GlyphNotSupported(chars)) => assert_eq!(chars, vec!['q', 'p']),
        other => panic!("unexpected answer {:?}", other),
    }
}

#[test]
fn repeated_characters_count_once() {
    let mut cache = GliumFontCache::with_atlas_size(64, 64);
    let spec = FontSpec::new("a.ttf", 2400, 2400);
    let fh = cache
        .cache_glyphs(&spec, &[glyph('a', 1, 4, 4), glyph('a', 1, 4, 4), glyph('b', 2, 4, 4)])
        .unwrap();
    assert_eq!(cache.glyph_count(), 2);
    assert_eq!(cache.rect_for(fh, 'b'), Ok(Some(Rect::new(4, 0, 4, 4))));
}

#[test]
fn further_characters_extend_the_same_font() {
    let mut cache = GliumFontCache::with_atlas_size(64, 64);
    let spec = FontSpec::new("a.ttf", 2400, 2400);
    let first = cache.cache_glyphs(&spec, &[glyph('a', 1, 4, 4)]).unwrap();
    let second = cache.cache_glyphs(&spec, &[glyph('a', 1, 4, 4), glyph('b', 2, 5, 4)]).unwrap();
    assert_eq!(first, second);
    assert_eq!(cache.glyph_count(), 2);
    assert_eq!(cache.rect_for(first, 'a'), Ok(Some(Rect::new(0, 0, 4, 4))));
    assert_eq!(cache.rect_for(first, 'b'), Ok(Some(Rect::new(4, 0, 5, 4))));
}

#[test]
fn glyph_without_pixels_is_cached_without_a_block() {
    let mut cache = GliumFontCache::with_atlas_size(8, 8);
    let spec = FontSpec::new("a.ttf", 2400, 2400);
    let fh = cache.cache_glyphs(&spec, &[glyph(' ', 3, 0, 0), glyph('a', 1, 8, 8)]).unwrap();
    assert_eq!(cache.rect_for(fh, ' '), Ok(None));
    assert_eq!(cache.rect_for(fh, 'a'), Ok(Some(Rect::new(0, 0, 8, 8))));
    assert_eq!(cache.get_glyph(fh, ' ').unwrap().metrics.glyph_id, 3);
}

#[test]
fn full_atlas_fails_the_whole_request() {
    let mut cache = GliumFontCache::with_atlas_size(8, 8);
    let spec = FontSpec::new("a.ttf", 2400, 2400);
    let res = cache.cache_glyphs(&spec, &[glyph('a', 1, 8, 4), glyph('b', 2, 8, 4), glyph('c', 3, 1, 1)]);
    assert!(matches!(res, Err(CacheGlyphError::CacheTooSmall)));
    assert_eq!(cache.glyph_count(), 0);
    assert_eq!(cache.font_handle(&spec), None);
    assert_eq!(cache.rect_for(FontHandle(0), 'a'), Err(CacheReadError));
    // Nothing was taken from the atlas.
    let fh = cache.cache_glyphs(&spec, &[glyph('d', 4, 8, 8)]).unwrap();
    assert_eq!(cache.rect_for(fh, 'd'), Ok(Some(Rect::new(0, 0, 8, 8))));
}

#[test]
fn fonts_differ_by_path_and_size() {
    let mut cache = GliumFontCache::with_atlas_size(64, 64);
    let a = cache.cache_glyphs(&FontSpec::new("a.ttf", 2400, 2400), &[glyph('a', 1, 4, 4)]).unwrap();
    let b = cache.cache_glyphs(&FontSpec::new("a.ttf", 1200, 1200), &[glyph('a', 1, 2, 2)]).unwrap();
    let c = cache.cache_glyphs(&FontSpec::new("b.ttf", 2400, 2400), &[]).unwrap();
    assert_eq!((a, b, c), (FontHandle(0), FontHandle(1), FontHandle(2)));
    assert_eq!(cache.rect_for(a, 'a'), Ok(Some(Rect::new(0, 0, 4, 4))));
    assert_eq!(cache.rect_for(b, 'a'), Ok(Some(Rect::new(4, 0, 2, 2))));
    assert_eq!(cache.rect_for(c, 'a'), Err(CacheReadError));
}

#[test]
fn glyph_lookup_answers_as_the_cache_did() {
    let mut cache = GliumFontCache::with_atlas_size(64, 64);
    let spec = FontSpec::new("a.ttf", 2400, 2400);
    let fh = cache.cache_glyphs(&spec, &[glyph('a', 1, 4, 4)]).unwrap();
    let lookup = cache.get_glyph_lookup();
    cache.cache_glyphs(&spec, &[glyph('b', 2, 4, 4)]).unwrap();
    assert_eq!(lookup.rect_for(fh, 'a'), Ok(Some(Rect::new(0, 0, 4, 4))));
    assert_eq!(lookup.get_glyph(fh, 'a'), cache.get_glyph(fh, 'a'));
    assert_eq!(lookup.rect_for(fh, 'b'), Err(CacheReadError));
    assert!(cache.rect_for(fh, 'b').is_ok());
}

#[test]
fn no_two_glyph_bitmaps_overlap() {
    let mut cache = GliumFontCache::with_atlas_size(40, 40);
    let spec = FontSpec::new("a.ttf", 2400, 2400);
    let mut placed: Vec<Rect> = Vec::new();
    let mut seed: u32 = 7;
    for n in 0..120u32 {
        seed = seed.wrapping_mul(1103515245).wrapping_add(12345);
        let w = 1 + (seed >> 16) % 9;
        seed = seed.wrapping_mul(1103515245).wrapping_add(12345);
        let h = 1 + (seed >> 16) % 9;
        let c = char::from_u32(0x100 + n).unwrap();
        if let Ok(fh) = cache.cache_glyphs(&spec, &[glyph(c, n + 1, w, h)]) {
            let rect = cache.rect_for(fh, c).unwrap().unwrap();
            assert!(rect.is_within(&Rect::new(0, 0, 40, 40)));
            for other in &placed {
                assert!(!rect.intersects(other));
            }
            placed.push(rect);
        }
    }
    assert!(placed.len() > 10);
    assert_eq!(cache.glyph_count(), placed.len());
}
