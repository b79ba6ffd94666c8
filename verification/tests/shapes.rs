use qgfx::controller::{GlyphStep, RenderTextureError, RendererController};
use qgfx::font::{CacheReadError, FontSpec};
use qgfx::font_cache::{GliumFontCache, GliumGlyphLookup, GlyphMetrics, GlyphSource, PixelBox};
use qgfx::renderer::{DrawCall, Renderer, TexSource, TexType, Vertex};
use qgfx::tex::{CacheTexError, TexHandle};
use qgfx::tex_cache::{decode_image, GliumTexCache, GliumTexHandleLookup};
use qgfx::Rect;

fn bits(v: f32) -> u32 {
    v.to_bits()
}

fn glyph(c: char, id: u32, w: u32, h: u32) -> GlyphSource {
    GlyphSource {
        code_point: c,
        metrics: GlyphMetrics {
            glyph_id: id,
            left_side_bearing: bits(0.5),
            advance_width: bits(7.0),
            bounding_box: if w > 0 { Some(PixelBox { x: 1, y: -4, w, h }) } else { None },
        },
    }
}

/// A bitmap file of one white pixel.
fn white_pixel() -> Vec<u8> {
    vec![
        0x42, 0x4d, 0x42, 0x00, 0x00, 0x00, 0x00, 0x00, 0x00, 0x00, 0x3e, 0x00, 0x00, 0x00, 0x28,
        0x00, 0x00, 0x00, 0x01, 0x00, 0x00, 0x00, 0x01, 0x00, 0x00, 0x00, 0x01, 0x00, 0x01, 0x00,
        0x00, 0x00, 0x00, 0x00, 0x04, 0x00, 0x00, 0x00, 0x00, 0x00, 0x00, 0x00, 0x00, 0x00, 0x00,
        0x00, 0x00, 0x00, 0x00, 0x00, 0x00, 0x00, 0x00, 0x00, 0x00, 0x00, 0x00, 0x00, 0xff, 0xff,
        0xff, 0x00, 0x80, 0x00, 0x00, 0x00,
    ]
}

#[test]
fn white_pixel_decodes_to_four_bytes() {
    let image = decode_image(&white_pixel()).unwrap();
    assert_eq!((image.width, image.height), (1, 1));
    assert_eq!(image.pixels, vec![255, 255, 255, 255]);
}

#[test]
fn bytes_that_are_no_image_are_an_image_error() {
    assert!(matches!(decode_image(b"no image here"), Err(CacheTexError::ImageError(_))));
    assert!(matches!(decode_image(&[]), Err(CacheTexError::ImageError(_))));
}

#[test]
fn image_file_is_decoded_and_cached() {
    let mut cache = GliumTexCache::new();
    cache.set_cache_texture_size(4, 4);
    let cached = cache.cache_tex_from_bytes(&white_pixel()).unwrap();
    assert_eq!(cached.placement.handle, TexHandle(0));
    assert_eq!(cached.placement.rect, Rect::new(0, 0, 1, 1));
    assert!(cached.placement.new_page);
    assert_eq!(cached.image.pixels.len(), 4);
    assert_eq!(cache.rect_for(TexHandle(0)), Some((0, Rect::new(0, 0, 1, 1))));
    let res = cache.cache_tex_from_bytes(&[1, 2, 3]);
    assert!(matches!(res, Err(CacheTexError::ImageError(_))));
    assert_eq!(cache.next_tex_handle(), TexHandle(1));
    cache.set_cache_texture_size(0, 0);
    assert!(matches!(
        cache.cache_tex_from_bytes(&white_pixel()),
        Err(CacheTexError::CacheTooSmall)
    ));
}

#[test]
fn tex_lookup_answers_as_the_cache_did() {
    let mut cache = GliumTexCache::new();
    cache.set_cache_texture_size(16, 16);
    let a = cache.cache_image(8, 8).unwrap();
    let lookup = cache.get_tex_lookup();
    let b = cache.cache_image(8, 8).unwrap();
    assert_eq!(lookup.rect_for(a.handle), Some((0, a.rect)));
    assert!(lookup.is_tex_cached(a.handle));
    assert_eq!(lookup.rect_for(b.handle), None);
    assert!(!lookup.is_tex_cached(b.handle));
    assert_eq!(lookup.page_size(0), Some((16, 16)));
    assert_eq!(lookup.page_size(1), None);
    assert_eq!(cache.rect_for(b.handle), Some((0, b.rect)));
}

type Controller = RendererController<GliumGlyphLookup, GliumTexHandleLookup>;

fn controller(fonts: &GliumFontCache, cache: &GliumTexCache, white: TexHandle) -> Controller {
    RendererController::new(fonts.get_glyph_lookup(), cache.get_tex_lookup(), white)
}

fn no_fonts() -> GliumFontCache {
    GliumFontCache::with_atlas_size(64, 64)
}

#[test]
fn lookup_gives_the_corners_of_the_block() {
    let mut cache = GliumTexCache::new();
    cache.set_cache_texture_size(100, 50);
    cache.cache_image(30, 20).unwrap();
    let second = cache.cache_image(10, 5).unwrap();
    let controller = controller(&no_fonts(), &cache, TexHandle(0));
    assert_eq!(controller.white(), TexHandle(0));
    assert_eq!(controller.lookup_tex(second.handle), Some((0, [30, 0, 40, 5])));
    assert_eq!(controller.lookup_tex(TexHandle(9)), None);
}

#[test]
fn lookup_of_a_block_at_the_far_edge_does_not_overflow() {
    let mut cache = GliumTexCache::new();
    cache.set_cache_texture_size(u32::MAX, u32::MAX);
    let whole = cache.cache_image(u32::MAX, u32::MAX).unwrap();
    let controller = controller(&no_fonts(), &cache, whole.handle);
    let far = u32::MAX as u64;
    assert_eq!(controller.lookup_tex(whole.handle), Some((0, [0, 0, far, far])));
}

#[test]
fn controller_answers_from_the_lookups_it_holds() {
    let mut cache = GliumTexCache::new();
    cache.set_cache_texture_size(8, 8);
    let a = cache.cache_image(2, 2).unwrap();
    let mut controller = controller(&no_fonts(), &cache, a.handle);
    let b = cache.cache_image(3, 3).unwrap();
    // The record the controller holds was taken before the second image.
    assert_eq!(controller.tex(b.handle, &[0; 4], &[0; 4]), Err(RenderTextureError));
    controller.set_tex_cache(cache.get_tex_lookup());
    assert_eq!(controller.tex(b.handle, &[0; 4], &[0; 4]), Ok(()));
    assert_eq!(controller.flush().len(), 6);
    // A controller can also answer from the cache itself.
    let mut live = RendererController::new(no_fonts(), cache, a.handle);
    assert_eq!(live.tex(b.handle, &[0; 4], &[0; 4]), Ok(()));
    assert_eq!(live.lookup_tex(b.handle), Some((0, [2, 0, 5, 3])));
}

fn corners(unit: &[Vertex]) -> Vec<([f32; 2], [u64; 2])> {
    unit.iter()
        .map(|v| ([f32::from_bits(v.pos[0]), f32::from_bits(v.pos[1])], v.tex_coords))
        .collect()
}

#[test]
fn texture_is_two_triangles_with_its_rows_turned_over() {
    let mut cache = GliumTexCache::new();
    cache.set_cache_texture_size(100, 50);
    cache.cache_image(30, 20).unwrap();
    let image = cache.cache_image(10, 5).unwrap();
    let mut controller = controller(&no_fonts(), &cache, TexHandle(0));
    let pos = [bits(1.0), bits(2.0), bits(11.0), bits(22.0)];
    let tint = [bits(1.0), bits(0.0), bits(0.0), bits(1.0)];
    assert_eq!(controller.tex(image.handle, &pos, &tint), Ok(()));
    let unit = controller.flush();
    // The block is 30..40 by 0..5, that is 60..80 by 0..10 in half pixels.
    assert_eq!(
        corners(&unit),
        vec![
            ([1.0, 2.0], [60, 10]),
            ([11.0, 2.0], [80, 10]),
            ([11.0, 22.0], [80, 0]),
            ([1.0, 2.0], [60, 10]),
            ([1.0, 22.0], [60, 0]),
            ([11.0, 22.0], [80, 0]),
        ]
    );
    for v in &unit {
        assert_eq!((v.tex_type, v.tex_ix, v.col), (TexType::Texture, 0, tint));
    }
}

#[test]
fn texture_that_is_not_cached_draws_nothing() {
    let cache = GliumTexCache::new();
    let mut controller = controller(&no_fonts(), &cache, TexHandle(0));
    let res = controller.tex(TexHandle(3), &[0; 4], &[0; 4]);
    assert_eq!(res, Err(RenderTextureError));
    assert!(controller.flush().is_empty());
}

#[test]
fn rectangle_samples_the_middle_of_the_white_texture() {
    let mut cache = GliumTexCache::new();
    cache.set_cache_texture_size(8, 8);
    cache.cache_image(8, 8).unwrap();
    cache.cache_image(5, 5).unwrap();
    let white = cache.cache_tex_from_bytes(&white_pixel()).unwrap().placement;
    assert_eq!((white.page, white.rect), (1, Rect::new(5, 0, 1, 1)));
    let mut controller = controller(&no_fonts(), &cache, white.handle);
    let pos = [bits(0.0), bits(0.0), bits(4.0), bits(3.0)];
    assert_eq!(controller.rect(&pos, &[7; 4]), Ok(()));
    let unit = controller.flush();
    assert_eq!(
        corners(&unit),
        vec![
            ([0.0, 0.0], [11, 1]),
            ([4.0, 0.0], [11, 1]),
            ([4.0, 3.0], [11, 1]),
            ([0.0, 0.0], [11, 1]),
            ([0.0, 3.0], [11, 1]),
            ([4.0, 3.0], [11, 1]),
        ]
    );
    for v in &unit {
        assert_eq!((v.tex_type, v.tex_ix, v.col), (TexType::Texture, 1, [7; 4]));
    }
}

#[test]
fn glyph_box_samples_its_block_upright() {
    let mut controller = controller(&no_fonts(), &GliumTexCache::new(), TexHandle(0));
    let pos = [bits(1.0), bits(2.0), bits(3.0), bits(4.0)];
    controller.glyph(Rect::new(10, 20, 3, 4), &pos, &[9; 4]);
    let unit = controller.flush();
    assert_eq!(
        corners(&unit),
        vec![
            ([1.0, 2.0], [20, 40]),
            ([3.0, 2.0], [26, 40]),
            ([3.0, 4.0], [26, 48]),
            ([1.0, 2.0], [20, 40]),
            ([1.0, 4.0], [20, 48]),
            ([3.0, 4.0], [26, 48]),
        ]
    );
    for v in &unit {
        assert_eq!((v.tex_type, v.tex_ix), (TexType::Font, 0));
    }
}

#[test]
fn line_is_two_triangles_over_its_four_corners() {
    let mut cache = GliumTexCache::new();
    cache.set_cache_texture_size(8, 8);
    cache.cache_image(8, 8).unwrap();
    let white = cache.cache_image(2, 4).unwrap();
    let mut controller = controller(&no_fonts(), &cache, white.handle);
    let corners = [[1, 10], [2, 20], [3, 30], [4, 40]];
    let col = [5, 6, 7, 8];
    assert_eq!(controller.line(&corners, &col), Ok(()));
    let unit = controller.flush();
    let order: Vec<u32> = unit.iter().map(|v| v.pos[0]).collect();
    assert_eq!(order, vec![1, 2, 3, 3, 4, 2]);
    for v in &unit {
        assert_eq!((v.tex_type, v.tex_ix, v.tex_coords, v.col), (TexType::Texture, 1, [2, 4], col));
    }
}

#[test]
fn shapes_without_the_white_texture_draw_nothing() {
    let mut cache = GliumTexCache::new();
    cache.set_cache_texture_size(8, 8);
    cache.cache_image(1, 1).unwrap();
    let mut controller = controller(&no_fonts(), &cache, TexHandle(5));
    assert_eq!(controller.line(&[[0, 0]; 4], &[0; 4]), Err(RenderTextureError));
    assert_eq!(controller.rect(&[0; 4], &[0; 4]), Err(RenderTextureError));
    assert_eq!(controller.circle(&[0, 0], &[[1, 1], [2, 2]], &[0; 4]), Err(RenderTextureError));
    assert!(controller.flush().is_empty());
}

#[test]
fn circle_is_a_fan_of_wedges() {
    let mut cache = GliumTexCache::new();
    cache.set_cache_texture_size(4, 2);
    let white = cache.cache_image(4, 2).unwrap();
    let mut controller = controller(&no_fonts(), &cache, white.handle);
    let ring = [[1, 1], [2, 2], [3, 3], [1, 1]];
    assert_eq!(controller.circle(&[0, 0], &ring, &[1, 1, 1, 1]), Ok(()));
    let unit = controller.flush();
    let order: Vec<u32> = unit.iter().map(|v| v.pos[0]).collect();
    assert_eq!(order, vec![0, 1, 2, 0, 2, 3, 0, 3, 1]);
    for v in &unit {
        assert_eq!((v.tex_type, v.tex_ix, v.tex_coords), (TexType::Texture, 0, [4, 2]));
    }
    assert_eq!(controller.circle(&[0, 0], &[[1, 1]], &[1, 1, 1, 1]), Ok(()));
    assert_eq!(controller.circle(&[0, 0], &[], &[1, 1, 1, 1]), Ok(()));
    assert!(controller.flush().is_empty());
}

#[test]
fn flush_hands_over_one_unit_and_empties_the_buffer() {
    let mut cache = GliumTexCache::new();
    for _ in 0..5 {
        cache.cache_image(1, 1).unwrap();
    }
    let fonts = no_fonts();
    let mut controller = Renderer::new().get_renderer_controller(
        fonts.get_glyph_lookup(),
        cache.get_tex_lookup(),
        TexHandle(4),
    );
    assert_eq!(controller.white(), TexHandle(4));
    controller.line(&[[0, 0]; 4], &[0; 4]).unwrap();
    controller.glyph(Rect::new(0, 0, 1, 1), &[0; 4], &[0; 4]);
    let mut copy = controller.duplicate(fonts.get_glyph_lookup(), cache.get_tex_lookup());
    let unit = controller.flush();
    assert_eq!(unit.len(), 12);
    assert_eq!(unit[5].tex_type, TexType::Texture);
    assert_eq!(unit[6].tex_type, TexType::Font);
    assert!(controller.flush().is_empty());
    copy.line(&[[0, 0]; 4], &[0; 4]).unwrap();
    assert_eq!(copy.white(), TexHandle(4));
    assert_eq!(copy.flush().len(), 18);
    assert!(controller.flush().is_empty());
}

#[test]
fn text_falls_back_to_the_question_mark() {
    let mut fonts = GliumFontCache::with_atlas_size(64, 64);
    let spec = FontSpec::new("a.ttf", 2400, 2400);
    let fh = fonts
        .cache_glyphs(&spec, &[glyph('?', 9, 3, 4), glyph('a', 1, 3, 4), glyph(' ', 2, 0, 0), glyph('b', 3, 3, 4)])
        .unwrap();
    let controller = controller(&fonts, &GliumTexCache::new(), TexHandle(0));
    assert!(controller.can_draw_text(fh, "a b\u{2603}a"));
    let steps = controller.text(fh, "a b\u{2603}a");
    let own = |c: char| fonts.get_glyph(fh, c).unwrap();
    assert_eq!(
        steps,
        vec![
            GlyphStep { entry: own('a'), kern_after: None },
            GlyphStep { entry: own(' '), kern_after: None },
            GlyphStep { entry: own('b'), kern_after: Some(1) },
            GlyphStep { entry: own('?'), kern_after: Some(3) },
            GlyphStep { entry: own('a'), kern_after: Some(9) },
        ]
    );
    assert!(controller.text(fh, "").is_empty());
}

#[test]
fn text_of_cached_characters_needs_no_question_mark() {
    let mut fonts = GliumFontCache::with_atlas_size(64, 64);
    let spec = FontSpec::new("a.ttf", 2400, 2400);
    let fh = fonts.cache_glyphs(&spec, &[glyph('a', 1, 3, 4), glyph('b', 3, 3, 4)]).unwrap();
    let controller = controller(&fonts, &GliumTexCache::new(), TexHandle(0));
    assert!(controller.can_draw_text(fh, "abba"));
    assert!(controller.can_draw_text(fh, ""));
    assert!(!controller.can_draw_text(fh, "abc"));
    assert!(!controller.can_draw_text(fh, "?"));
    let steps = controller.text(fh, "ab");
    let own = |c: char| fonts.get_glyph(fh, c).unwrap();
    assert_eq!(
        steps,
        vec![
            GlyphStep { entry: own('a'), kern_after: None },
            GlyphStep { entry: own('b'), kern_after: Some(1) },
        ]
    );
}

#[test]
fn text_is_drawn_with_six_vertices_for_each_visible_glyph() {
    let mut fonts = GliumFontCache::with_atlas_size(64, 64);
    let spec = FontSpec::new("a.ttf", 2400, 2400);
    let fh = fonts
        .cache_glyphs(&spec, &[glyph('a', 1, 3, 4), glyph(' ', 2, 0, 0), glyph('b', 3, 5, 4)])
        .unwrap();
    let mut controller = controller(&fonts, &GliumTexCache::new(), TexHandle(0));
    controller.glyph(Rect::new(0, 0, 1, 1), &[0; 4], &[0; 4]);
    let steps = controller.text(fh, "a b");
    let boxes = [
        [bits(0.0), bits(0.0), bits(3.0), bits(4.0)],
        [bits(10.0), bits(0.0), bits(15.0), bits(4.0)],
    ];
    let tint = [bits(1.0), bits(0.5), bits(0.25), bits(1.0)];
    controller.text_quads(&steps, &boxes, &tint);
    let unit = controller.flush();
    assert_eq!(unit.len(), 6 + 12);
    for v in &unit[6..] {
        assert_eq!((v.tex_type, v.tex_ix, v.col), (TexType::Font, 0, tint));
    }
    // 'a' lies at 0..3 by 0..4 of the atlas, 'b' at 3..8 by 0..4.
    assert_eq!(
        corners(&unit[6..12]),
        vec![
            ([0.0, 0.0], [0, 0]),
            ([3.0, 0.0], [6, 0]),
            ([3.0, 4.0], [6, 8]),
            ([0.0, 0.0], [0, 0]),
            ([0.0, 4.0], [0, 8]),
            ([3.0, 4.0], [6, 8]),
        ]
    );
    assert_eq!(
        corners(&unit[12..]),
        vec![
            ([10.0, 0.0], [6, 0]),
            ([15.0, 0.0], [16, 0]),
            ([15.0, 4.0], [16, 8]),
            ([10.0, 0.0], [6, 0]),
            ([10.0, 4.0], [6, 8]),
            ([15.0, 4.0], [16, 8]),
        ]
    );
    let none = controller.text(fh, "  ");
    controller.text_quads(&none, &[], &tint);
    controller.text_quads(&[], &[], &tint);
    assert!(controller.flush().is_empty());
}

#[test]
fn render_resolves_the_texture_of_each_batch() {
    let vertex = |tex_type, tex_ix| Vertex { pos: [0; 2], tex_coords: [0; 2], col: [0; 4], tex_type, tex_ix };
    let mut renderer = Renderer::new();
    renderer.recv_data(vec![vec![
        vertex(TexType::Texture, 1),
        vertex(TexType::Font, 0),
        vertex(TexType::Texture, 7),
        vertex(TexType::Texture, 0),
    ]]);
    let calls: Vec<DrawCall> = renderer.render(2);
    let bound: Vec<(TexSource, i32)> = calls.iter().map(|c| (c.texture, c.is_font)).collect();
    assert_eq!(
        bound,
        vec![(TexSource::Page(1), 0), (TexSource::GlyphAtlas, 1), (TexSource::Page(0), 0)]
    );
    assert_eq!(calls[1].vertices[0], vertex(TexType::Font, 0));
    assert!(renderer.waiting().is_empty());
    assert!(renderer.render(2).is_empty());
}

#[test]
fn error_sentences() {
    assert_eq!(
        RenderTextureError.description(),
        "Texture rendering failed - texture wasn't cached."
    );
    assert_eq!(RenderTextureError::from(CacheReadError), RenderTextureError);
    assert_eq!(
        qgfx::PackRectError::SpaceTooSmall.description(),
        "This variant is returned when the space in the node is too small for\n      the given rect you're attempting to pack into it."
    );
}

#[test]
fn other_formats_are_recognised_by_their_first_bytes() {
    // A GIF of one white pixel.
    let gif = [
        0x47, 0x49, 0x46, 0x38, 0x39, 0x61, 0x01, 0x00, 0x01, 0x00, 0x80, 0x00, 0x00, 0xff, 0xff,
        0xff, 0x00, 0x00, 0x00, 0x2c, 0x00, 0x00, 0x00, 0x00, 0x01, 0x00, 0x01, 0x00, 0x00, 0x02,
        0x02, 0x44, 0x01, 0x00, 0x3b,
    ];
    let image = decode_image(&gif).unwrap();
    assert_eq!((image.width, image.height), (1, 1));
    assert_eq!(image.pixels, vec![255, 255, 255, 255]);
    // A PNM of two pixels, black and white.
    let image = decode_image(b"P1\n2 1\n1 0\n").unwrap();
    assert_eq!((image.width, image.height), (2, 1));
    assert_eq!(image.pixels, vec![0, 0, 0, 255, 255, 255, 255, 255]);
}
