use qgfx::binary_tree::{BinaryTreeNode, PackRectError};
use qgfx::rect::Rect;
use qgfx::tex::{CacheTexError, TexHandle};
use qgfx::tex_cache::GliumTexCache;

fn page(w: u32, h: u32) -> BinaryTreeNode {
    BinaryTreeNode::new(Rect::new(0, 0, w, h))
}

fn normalised(rect: Rect, page: (u32, u32)) -> [f32; 4] {
    [
        rect.x as f32 / page.0 as f32,
        rect.y as f32 / page.1 as f32,
        rect.w as f32 / page.0 as f32,
        rect.h as f32 / page.1 as f32,
    ]
}

#[test]
fn fresh_node_is_a_leaf() {
    let node = page(256, 256);
    assert!(node.is_leaf());
    assert_eq!(node.rect_for(TexHandle(0)), None);
}

#[test]
fn first_block_takes_the_corner() {
    let mut node = page(256, 256);
    let rect = node.pack_rect(64, 64, TexHandle(7)).unwrap();
    assert_eq!(rect, Rect::new(0, 0, 64, 64));
    assert!(!node.is_leaf());
    assert_eq!(node.rect_for(TexHandle(7)), Some(rect));
    assert_eq!(node.rect_for(TexHandle(8)), None);
}

#[test]
fn right_leaf_is_tried_before_the_one_below() {
    let mut node = page(256, 256);
    node.pack_rect(64, 64, TexHandle(0)).unwrap();
    let second = node.pack_rect(64, 64, TexHandle(1)).unwrap();
    assert_eq!(second, Rect::new(64, 0, 64, 64));
    let third = node.pack_rect(64, 64, TexHandle(2)).unwrap();
    assert_eq!(third, Rect::new(128, 0, 64, 64));
}

#[test]
fn below_leaf_takes_what_the_right_one_cannot() {
    let mut node = page(64, 128);
    node.pack_rect(64, 64, TexHandle(0)).unwrap();
    // Nothing is left to the right of the first block, but 64 by 64 below it.
    let second = node.pack_rect(64, 64, TexHandle(1)).unwrap();
    assert_eq!(second, Rect::new(0, 64, 64, 64));
    assert!(node.pack_rect(1, 1, TexHandle(2)).is_err());
}

#[test]
fn leaf_below_is_as_wide_as_the_block() {
    let mut node = page(256, 256);
    node.pack_rect(64, 64, TexHandle(0)).unwrap();
    // The leaf to the right is 192 wide and the one below 64.
    assert!(node.pack_rect(256, 64, TexHandle(1)).is_err());
    assert!(node.pack_rect(193, 1, TexHandle(1)).is_err());
    assert_eq!(node.pack_rect(192, 256, TexHandle(1)).unwrap(), Rect::new(64, 0, 192, 256));
    assert!(node.pack_rect(65, 1, TexHandle(2)).is_err());
    assert_eq!(node.pack_rect(64, 192, TexHandle(2)).unwrap(), Rect::new(0, 64, 64, 192));
    assert!(node.pack_rect(1, 1, TexHandle(3)).is_err());
}

#[test]
fn too_large_a_block_leaves_the_tree_as_it_was() {
    let mut node = page(100, 100);
    node.pack_rect(60, 60, TexHandle(0)).unwrap();
    let res = node.pack_rect(101, 10, TexHandle(1));
    assert!(matches!(res, Err(PackRectError::SpaceTooSmall)));
    assert_eq!(node.rect_for(TexHandle(0)), Some(Rect::new(0, 0, 60, 60)));
    assert_eq!(node.rect_for(TexHandle(1)), None);
    // The leaves are as before: 40 by 100 to the right is still free.
    assert_eq!(node.pack_rect(40, 100, TexHandle(2)).unwrap(), Rect::new(60, 0, 40, 100));
}

#[test]
fn exact_fit_fills_the_page() {
    let mut node = page(32, 16);
    assert_eq!(node.pack_rect(32, 16, TexHandle(0)).unwrap(), Rect::new(0, 0, 32, 16));
    assert!(node.pack_rect(1, 1, TexHandle(1)).is_err());
    // A block without area still fits the leaves that are left.
    assert_eq!(node.pack_rect(0, 16, TexHandle(2)).unwrap(), Rect::new(32, 0, 0, 16));
}

#[test]
fn lookup_meets_the_first_placement_of_a_handle() {
    let mut node = page(100, 100);
    let first = node.pack_rect(10, 10, TexHandle(3)).unwrap();
    node.pack_rect(10, 10, TexHandle(3)).unwrap();
    assert_eq!(node.rect_for(TexHandle(3)), Some(first));
}

#[test]
fn packed_blocks_stay_inside_the_page() {
    let mut node = page(200, 120);
    let whole = Rect::new(0, 0, 200, 120);
    let sizes = [(50, 50), (80, 30), (200, 10), (30, 120), (70, 70), (1, 1), (199, 119)];
    for (i, (w, h)) in sizes.iter().enumerate() {
        if let Ok(rect) = node.pack_rect(*w, *h, TexHandle(i)) {
            assert!(rect.is_within(&whole));
            assert_eq!((rect.w, rect.h), (*w, *h));
        }
    }
}

#[test]
fn blocks_in_one_row_do_not_overlap() {
    let mut node = page(256, 64);
    let mut placed: Vec<Rect> = Vec::new();
    for i in 0..4 {
        let rect = node.pack_rect(64, 64, TexHandle(i)).unwrap();
        for other in &placed {
            assert!(!rect.intersects(other));
        }
        placed.push(rect);
    }
    assert!(node.pack_rect(1, 1, TexHandle(9)).is_err());
}

#[test]
fn block_that_would_lie_over_another_is_turned_away() {
    let mut node = page(2, 2);
    assert_eq!(node.pack_rect(1, 1, TexHandle(0)).unwrap(), Rect::new(0, 0, 1, 1));
    assert_eq!(node.pack_rect(1, 2, TexHandle(1)).unwrap(), Rect::new(1, 0, 1, 2));
    let third = node.pack_rect(2, 1, TexHandle(2));
    assert!(matches!(third, Err(PackRectError::SpaceTooSmall)));
    assert_eq!(node.rect_for(TexHandle(2)), None);
    assert_eq!(node.pack_rect(1, 1, TexHandle(3)).unwrap(), Rect::new(0, 1, 1, 1));
}

#[test]
fn no_two_blocks_of_a_page_overlap() {
    let mut node = page(97, 61);
    let whole = Rect::new(0, 0, 97, 61);
    let mut placed: Vec<Rect> = Vec::new();
    let mut seed: u32 = 12345;
    for i in 0..400 {
        seed = seed.wrapping_mul(1103515245).wrapping_add(12345);
        let w = 1 + (seed >> 16) % 23;
        seed = seed.wrapping_mul(1103515245).wrapping_add(12345);
        let h = 1 + (seed >> 16) % 17;
        if let Ok(rect) = node.pack_rect(w, h, TexHandle(i)) {
            assert_eq!((rect.w, rect.h), (w, h));
            assert!(rect.is_within(&whole));
            for other in &placed {
                assert!(!rect.intersects(other));
            }
            placed.push(rect);
        }
    }
    assert!(placed.len() > 10);
    let area: u32 = placed.iter().map(|r| r.w * r.h).sum();
    assert!(area <= 97 * 61);
}

#[test]
fn clone_keeps_every_placement() {
    let mut node = page(64, 64);
    node.pack_rect(10, 20, TexHandle(0)).unwrap();
    node.pack_rect(30, 5, TexHandle(1)).unwrap();
    let mut copy = node.clone();
    assert_eq!(copy.rect_for(TexHandle(0)), node.rect_for(TexHandle(0)));
    assert_eq!(copy.rect_for(TexHandle(1)), node.rect_for(TexHandle(1)));
    assert_eq!(copy.pack_rect(5, 5, TexHandle(2)).ok(), node.pack_rect(5, 5, TexHandle(2)).ok());
}

#[test]
fn rect_relations() {
    let a = Rect::new(0, 0, 10, 10);
    let b = Rect::new(10, 0, 10, 10);
    let c = Rect::new(9, 9, 2, 2);
    let empty = Rect::new(5, 5, 0, 3);
    assert!(!a.intersects(&b));
    assert!(a.intersects(&c));
    assert!(b.intersects(&c));
    assert!(!a.intersects(&empty));
    assert!(empty.is_within(&a));
    assert!(!c.is_within(&a));
    let far = Rect::new(u32::MAX, u32::MAX, u32::MAX, u32::MAX);
    assert!(!far.is_within(&a));
    assert!(far.intersects(&far));
}

#[test]
fn new_cache_has_the_default_settings() {
    let cache = GliumTexCache::new();
    assert_eq!(cache.page_count(), 0);
    assert_eq!(cache.max_cache_textures(), 0);
    assert_eq!(cache.cache_texture_size(), (2048, 2048));
    assert_eq!(cache.next_tex_handle(), TexHandle(0));
    assert_eq!(cache.rect_for(TexHandle(0)), None);
    assert!(!cache.is_tex_cached(TexHandle(0)));
    assert_eq!(cache.page_size(0), None);
}

#[test]
fn first_image_goes_into_the_corner_of_a_new_page() {
    let mut cache = GliumTexCache::new();
    cache.set_cache_texture_size(256, 256);
    let first = cache.cache_image(64, 64).unwrap();
    assert_eq!(first.handle, TexHandle(0));
    assert_eq!(first.page, 0);
    assert!(first.new_page);
    assert_eq!(first.rect, Rect::new(0, 0, 64, 64));
    assert_eq!(normalised(first.rect, (256, 256)), [0.0, 0.0, 64.0 / 256.0, 64.0 / 256.0]);
    let second = cache.cache_image(64, 64).unwrap();
    assert_eq!(second.handle, TexHandle(1));
    assert_eq!(second.page, 0);
    assert!(!second.new_page);
    assert_eq!(
        normalised(second.rect, (256, 256)),
        [64.0 / 256.0, 0.0, 64.0 / 256.0, 64.0 / 256.0]
    );
    assert!(!first.rect.intersects(&second.rect));
    assert_eq!(cache.rect_for(first.handle), Some((0, first.rect)));
    assert_eq!(cache.rect_for(second.handle), Some((0, second.rect)));
    assert_eq!(cache.page_size(0), Some((256, 256)));
}

#[test]
fn full_single_page_answers_no_space() {
    let mut cache = GliumTexCache::new();
    cache.set_cache_texture_size(256, 256);
    cache.set_max_cache_textures(1);
    let a = cache.cache_image(256, 128).unwrap();
    let b = cache.cache_image(256, 128).unwrap();
    assert_eq!((a.page, b.page), (0, 0));
    let res = cache.cache_image(16, 16);
    assert!(matches!(res, Err(CacheTexError::NoSpace)));
    assert_eq!(cache.page_count(), 1);
    assert_eq!(cache.rect_for(a.handle), Some((0, Rect::new(0, 0, 256, 128))));
    assert_eq!(cache.rect_for(b.handle), Some((0, Rect::new(0, 128, 256, 128))));
    // The handle of the failed request is spent.
    assert_eq!(cache.next_tex_handle(), TexHandle(3));
    assert!(!cache.is_tex_cached(TexHandle(2)));
}

#[test]
fn image_larger_than_a_page_is_turned_away() {
    let mut cache = GliumTexCache::new();
    cache.set_cache_texture_size(128, 64);
    assert!(matches!(cache.cache_image(129, 1), Err(CacheTexError::CacheTooSmall)));
    assert!(matches!(cache.cache_image(1, 65), Err(CacheTexError::CacheTooSmall)));
    assert_eq!(cache.next_tex_handle(), TexHandle(0));
    assert_eq!(cache.page_count(), 0);
    assert!(cache.cache_image(128, 64).is_ok());
}

#[test]
fn unlimited_cache_always_finds_room() {
    let mut cache = GliumTexCache::new();
    cache.set_cache_texture_size(100, 100);
    let sizes = [(100, 100), (60, 60), (60, 60), (40, 100), (100, 40), (1, 1), (100, 100)];
    let mut placed = Vec::new();
    for (w, h) in sizes.iter() {
        let p = cache.cache_image(*w, *h).unwrap();
        let (pw, ph) = cache.page_size(p.page).unwrap();
        assert!(p.rect.is_within(&Rect::new(0, 0, pw, ph)));
        let n = normalised(p.rect, (pw, ph));
        assert!(n[0] >= 0.0 && n[1] >= 0.0 && n[0] + n[2] <= 1.0 && n[1] + n[3] <= 1.0);
        placed.push(p);
    }
    for p in &placed {
        assert_eq!(cache.rect_for(p.handle), Some((p.page, p.rect)));
        assert!(cache.is_tex_cached(p.handle));
    }
    assert_eq!(cache.page_count(), 5);
}

#[test]
fn pages_are_tried_in_the_order_of_their_creation() {
    let mut cache = GliumTexCache::new();
    cache.set_cache_texture_size(10, 10);
    let a = cache.cache_image(10, 6).unwrap();
    let b = cache.cache_image(10, 6).unwrap();
    assert_eq!((a.page, b.page), (0, 1));
    assert!(b.new_page);
    // 10 by 4 fits below the block of page 0, which is asked first.
    let c = cache.cache_image(10, 4).unwrap();
    assert_eq!(c.page, 0);
    assert_eq!(c.rect, Rect::new(0, 6, 10, 4));
}

#[test]
fn discarded_page_takes_its_images_along() {
    let mut cache = GliumTexCache::new();
    cache.set_cache_texture_size(8, 8);
    let a = cache.cache_image(8, 8).unwrap();
    let b = cache.cache_image(4, 4).unwrap();
    assert!(b.new_page);
    cache.discard_last_page();
    assert_eq!(cache.page_count(), 1);
    assert_eq!(cache.rect_for(b.handle), None);
    assert_eq!(cache.rect_for(a.handle), Some((0, a.rect)));
    assert_eq!(cache.next_tex_handle(), TexHandle(2));
}

#[test]
fn resized_pages_leave_old_pages_alone() {
    let mut cache = GliumTexCache::new();
    cache.set_cache_texture_size(16, 16);
    cache.cache_image(16, 16).unwrap();
    cache.set_cache_texture_size(32, 8);
    let p = cache.cache_image(32, 8).unwrap();
    assert_eq!(p.page, 1);
    assert_eq!(cache.page_size(0), Some((16, 16)));
    assert_eq!(cache.page_size(1), Some((32, 8)));
    assert!(matches!(cache.cache_image(16, 16), Err(CacheTexError::CacheTooSmall)));
}

#[test]
fn record_of_handles_follows_every_answer() {
    let mut cache = GliumTexCache::new();
    cache.set_cache_texture_size(8, 8);
    cache.set_max_cache_textures(1);
    let a = cache.cache_image(8, 4).unwrap();
    assert!(matches!(cache.cache_image(9, 1), Err(CacheTexError::CacheTooSmall)));
    assert!(matches!(cache.cache_image(8, 8), Err(CacheTexError::NoSpace)));
    let b = cache.cache_image(8, 4).unwrap();
    assert_eq!((a.handle, b.handle), (TexHandle(0), TexHandle(2)));
    let lookup = cache.get_tex_lookup();
    assert_eq!(lookup.rect_for(TexHandle(0)), Some((0, Rect::new(0, 0, 8, 4))));
    assert_eq!(lookup.rect_for(TexHandle(1)), None);
    assert_eq!(lookup.rect_for(TexHandle(2)), Some((0, Rect::new(0, 4, 8, 4))));
    assert_eq!(lookup.rect_for(TexHandle(3)), None);
    assert_eq!(lookup.rect_for(TexHandle(usize::MAX)), None);
    assert!(lookup.is_tex_cached(TexHandle(2)));
    assert!(!lookup.is_tex_cached(TexHandle(1)));
    for h in 0..4 {
        assert_eq!(lookup.rect_for(TexHandle(h)), cache.rect_for(TexHandle(h)));
    }
}

#[test]
fn record_forgets_the_image_of_a_discarded_page() {
    let mut cache = GliumTexCache::new();
    cache.set_cache_texture_size(8, 8);
    let a = cache.cache_image(8, 8).unwrap();
    let b = cache.cache_image(4, 4).unwrap();
    assert!(b.new_page);
    cache.discard_last_page();
    let lookup = cache.get_tex_lookup();
    assert_eq!(lookup.rect_for(a.handle), Some((0, a.rect)));
    assert_eq!(lookup.rect_for(b.handle), None);
    assert_eq!(lookup.page_size(0), Some((8, 8)));
    assert_eq!(lookup.page_size(1), None);
    let c = cache.cache_image(4, 4).unwrap();
    assert_eq!((c.handle, c.page), (TexHandle(2), 1));
    assert_eq!(cache.rect_for(b.handle), None);
}
