//! The glyph cache: the fonts it knows, the glyphs it holds for each, and the
//! one atlas page their bitmaps are packed into.
//!
//! No font is registered twice, no glyph is entered twice for a font, and no
//! two bitmaps share a pixel of the atlas: `FontCacheView::fonts_valid` and
//! `glyphs_valid`, which hold of every cache.
//!
//! The cache keeps the bookkeeping only. What a font says of a character, its
//! glyph number, its metrics and the size of its bitmap, is handed in as
//! plain values; rasterising a glyph and writing it into the atlas texture is
//! the caller's part.

use vstd::prelude::*;
use crate::binary_tree::{
    first_fit, has_fit, is_first_fit, lemma_first_fit, placed_in, split_leaf, BinaryTreeNode,
};
use crate::font::{CacheGlyphError, CacheReadError, FontHandle, FontSpec};
use crate::lookup::{
    first_of, lemma_filter_keeps_order, lemma_filter_none, lemma_first_of_concat,
    lemma_first_of_listed, lemma_first_of_one,
};
use crate::rect::Rect;
use crate::tex::TexHandle;

verus! {

/// The pixels a glyph covers, relative to the pen position.
#[derive(Clone, Copy, Debug, PartialEq, Eq, Structural)]
pub struct PixelBox {
    pub x: i32,
    pub y: i32,
    pub w: u32,
    pub h: u32,
}

/// What a font says of one glyph at one size. The two distances are
/// single-precision numbers carried as their bit patterns.
#[derive(Clone, Copy, Debug, PartialEq, Eq, Structural)]
pub struct GlyphMetrics {
    /// The number of the glyph in its font; 0 where the font has no glyph
    /// for the character.
    pub glyph_id: u32,
    /// The distance from the pen position to the left edge of the glyph.
    pub left_side_bearing: u32,
    /// The distance the pen moves on.
    pub advance_width: u32,
    /// The pixels the glyph covers; `None` for a glyph without outline, such
    /// as a space.
    pub bounding_box: Option<PixelBox>,
}

/// One character of a request, with what the font says of it.
#[derive(Clone, Copy, Debug, PartialEq, Eq, Structural)]
pub struct GlyphSource {
    pub code_point: char,
    pub metrics: GlyphMetrics,
}

/// A cached glyph: where its bitmap lies in the atlas, and its metrics.
#[derive(Clone, Copy, Debug, PartialEq, Eq, Structural)]
pub struct GlyphEntry {
    /// The block of the bitmap, in pixels of the atlas; `None` for a glyph
    /// that covers no pixel.
    pub rect: Option<Rect>,
    pub metrics: GlyphMetrics,
}

/// Why a request for glyphs fails, in the terms the contracts are stated in.
pub enum GlyphFailure {
    /// The font has no glyph for these characters.
    NotSupported(Seq<char>),
    /// The atlas has no room for all the new glyphs.
    AtlasFull,
}

/// The size of the bitmap of a glyph, where the glyph covers any pixel.
pub open spec fn bitmap_of(g: GlyphSource) -> Option<(u32, u32)> {
    match g.metrics.bounding_box {
        Some(b) => if b.w > 0 && b.h > 0 {
            Some((b.w, b.h))
        } else {
            None
        },
        None => None,
    }
}

/// One of `gs` is for the character `c`.
pub open spec fn has_code_point(gs: Seq<GlyphSource>, c: char) -> bool {
    exists|i: int| 0 <= i < gs.len() && (#[trigger] gs[i]).code_point == c
}

/// The request without its repetitions: of the entries for one character the
/// first stays.
pub open spec fn requested(glyphs: Seq<GlyphSource>) -> Seq<GlyphSource>
    decreases glyphs.len(),
{
    if glyphs.len() == 0 {
        Seq::empty()
    } else {
        let before = requested(glyphs.drop_last());
        if has_code_point(before, glyphs.last().code_point) {
            before
        } else {
            before.push(glyphs.last())
        }
    }
}

/// The test for a character the font has no glyph for.
pub open spec fn is_unmapped() -> spec_fn(GlyphSource) -> bool {
    |g: GlyphSource| g.metrics.glyph_id == 0
}

/// The characters of `gs` that the font has no glyph for.
pub open spec fn unmapped(gs: Seq<GlyphSource>) -> Seq<char> {
    gs.filter(is_unmapped()).map_values(|g: GlyphSource| g.code_point)
}

/// The entry a glyph gets once its bitmap, if it has one, lies at `rect`.
pub open spec fn entry_of(font: FontHandle, g: GlyphSource, rect: Option<Rect>) -> (
    (FontHandle, char),
    GlyphEntry,
) {
    ((font, g.code_point), GlyphEntry { rect, metrics: g.metrics })
}

/// Packs the bitmap of one glyph into the first free leaf that is large
/// enough: the leaves left and the block taken, or `None` where no leaf is
/// large enough. A glyph without bitmap takes nothing.
pub open spec fn place_one(free: Seq<Rect>, g: GlyphSource) -> Option<(Seq<Rect>, Option<Rect>)> {
    match bitmap_of(g) {
        None => Some((free, None)),
        Some((w, h)) => if has_fit(free, w, h) {
            let k = first_fit(free, w, h);
            Some((split_leaf(free, k, w, h), Some(placed_in(free[k], w, h))))
        } else {
            None
        },
    }
}

/// Packs the bitmaps of `gs` one after the other: the leaves left and the
/// entries made, or `None` where one of them finds no room.
pub open spec fn place_all(free: Seq<Rect>, font: FontHandle, gs: Seq<GlyphSource>) -> Option<
    (Seq<Rect>, Seq<((FontHandle, char), GlyphEntry)>),
>
    decreases gs.len(),
{
    if gs.len() == 0 {
        Some((free, Seq::empty()))
    } else {
        match place_all(free, font, gs.drop_last()) {
            None => None,
            Some((left, entries)) => match place_one(left, gs.last()) {
                None => None,
                Some((left, rect)) => Some((left, entries.push(entry_of(font, gs.last(), rect)))),
            },
        }
    }
}

/// Packing that fails on the front of a request fails on the whole of it.
pub proof fn lemma_place_all_fails_on(
    free: Seq<Rect>,
    font: FontHandle,
    gs: Seq<GlyphSource>,
    n: int,
)
    requires
        0 <= n <= gs.len(),
        place_all(free, font, gs.take(n)) is None,
    ensures
        place_all(free, font, gs) is None,
    decreases gs.len() - n,
{
    if n == gs.len() {
        assert(gs.take(n) =~= gs);
    } else {
        assert(gs.take(n + 1).drop_last() =~= gs.take(n));
        lemma_place_all_fails_on(free, font, gs, n + 1);
    }
}

/// Packing enters one glyph for each character of the request, in the order
/// of the request, under the request's font and with the metrics handed in.
pub proof fn lemma_place_all_entries(free: Seq<Rect>, font: FontHandle, gs: Seq<GlyphSource>)
    ensures
        place_all(free, font, gs) matches Some((_, entries)) ==> {
            &&& entries.len() == gs.len()
            &&& forall|i: int|
                0 <= i < gs.len() ==> {
                    &&& (#[trigger] entries[i]).0 == (font, gs[i].code_point)
                    &&& entries[i].1.metrics == gs[i].metrics
                }
        },
    decreases gs.len(),
{
    if gs.len() > 0 {
        lemma_place_all_entries(free, font, gs.drop_last());
        if let Some((_, entries)) = place_all(free, font, gs) {
            let front = place_all(free, font, gs.drop_last())->0;
            let before = front.1;
            assert forall|i: int| 0 <= i < gs.len() implies {
                &&& (#[trigger] entries[i]).0 == (font, gs[i].code_point)
                &&& entries[i].1.metrics == gs[i].metrics
            } by {
                if i < gs.len() - 1 {
                    assert(entries[i] == before[i]);
                    assert(gs.drop_last()[i] == gs[i]);
                }
            }
        }
    }
}

/// No character is listed as unmapped exactly when the font has a glyph for
/// each.
pub proof fn lemma_unmapped_none(gs: Seq<GlyphSource>)
    ensures
        unmapped(gs).len() == 0 <==> forall|i: int|
            0 <= i < gs.len() ==> (#[trigger] gs[i]).metrics.glyph_id != 0,
    decreases gs.len(),
{
    if gs.len() == 0 {
        assert(gs.filter(is_unmapped()).len() == 0) by {
            reveal(Seq::filter);
        }
    } else {
        let front = gs.drop_last();
        lemma_unmapped_none(front);
        assert(gs =~= front.push(gs.last()));
        front.lemma_filter_push(gs.last(), is_unmapped());
        if unmapped(gs).len() == 0 {
            assert forall|i: int| 0 <= i < gs.len() implies (#[trigger] gs[i]).metrics.glyph_id
                != 0 by {
                if i < gs.len() - 1 {
                    assert(front[i] == gs[i]);
                }
            }
        }
        if forall|i: int| 0 <= i < gs.len() ==> (#[trigger] gs[i]).metrics.glyph_id != 0 {
            assert(gs[gs.len() - 1].metrics.glyph_id != 0);
            assert forall|i: int| 0 <= i < front.len() implies (
            #[trigger] front[i]).metrics.glyph_id != 0 by {
                assert(front[i] == gs[i]);
            }
        }
    }
}

/// The request without its repetitions holds entries of the request only,
/// and one for each of its characters.
pub proof fn lemma_requested(glyphs: Seq<GlyphSource>)
    ensures
        forall|k: int|
            0 <= k < requested(glyphs).len() ==> glyphs.contains(#[trigger] requested(glyphs)[k]),
        forall|j: int|
            0 <= j < glyphs.len() ==> has_code_point(
                requested(glyphs),
                (#[trigger] glyphs[j]).code_point,
            ),
    decreases glyphs.len(),
{
    if glyphs.len() > 0 {
        let front = glyphs.drop_last();
        let before = requested(front);
        let all = requested(glyphs);
        lemma_requested(front);
        assert forall|k: int| 0 <= k < all.len() implies glyphs.contains(#[trigger] all[k]) by {
            if k < before.len() {
                assert(all[k] == before[k]);
                assert(front.contains(before[k]));
                let j = choose|j: int| 0 <= j < front.len() && front[j] == before[k];
                assert(glyphs[j] == all[k]);
            } else {
                assert(glyphs[glyphs.len() - 1] == all[k]);
            }
        }
        assert forall|j: int| 0 <= j < glyphs.len() implies has_code_point(
            all,
            (#[trigger] glyphs[j]).code_point,
        ) by {
            let c = glyphs[j].code_point;
            if j < front.len() {
                assert(front[j] == glyphs[j]);
                let k = choose|k: int| 0 <= k < before.len() && (#[trigger] before[k]).code_point == c;
                assert(all[k].code_point == c);
            } else if has_code_point(before, c) {
                let k = choose|k: int| 0 <= k < before.len() && (#[trigger] before[k]).code_point == c;
                assert(all[k].code_point == c);
            } else {
                assert(all[before.len() as int].code_point == c);
            }
        }
    }
}

/// The request without its repetitions holds no character twice.
pub proof fn lemma_requested_distinct(glyphs: Seq<GlyphSource>)
    ensures
        forall|a: int, b: int|
            0 <= a < b < requested(glyphs).len() ==> (#[trigger] requested(glyphs)[a]).code_point != (
            #[trigger] requested(glyphs)[b]).code_point,
    decreases glyphs.len(),
{
    if glyphs.len() > 0 {
        let before = requested(glyphs.drop_last());
        let all = requested(glyphs);
        lemma_requested_distinct(glyphs.drop_last());
        assert forall|a: int, b: int| 0 <= a < b < all.len() implies (#[trigger] all[a]).code_point
            != (#[trigger] all[b]).code_point by {
            if b < before.len() {
                assert(all[a] == before[a] && all[b] == before[b]);
            } else {
                assert(all[a] == before[a]);
            }
        }
    }
}

/// No two of the entries stand under the same font and character.
pub open spec fn keys_distinct(glyphs: Seq<((FontHandle, char), GlyphEntry)>) -> bool {
    forall|i: int, j: int|
        0 <= i < j < glyphs.len() ==> (#[trigger] glyphs[i]).0 != (#[trigger] glyphs[j]).0
}

/// No two bitmaps of the entries share a pixel of the atlas.
pub open spec fn blocks_apart(glyphs: Seq<((FontHandle, char), GlyphEntry)>) -> bool {
    forall|i: int, j: int|
        0 <= i < j < glyphs.len() ==> match (
            (#[trigger] glyphs[i]).1.rect,
            (#[trigger] glyphs[j]).1.rect,
        ) {
            (Some(a), Some(b)) => !a.overlaps(b),
            _ => true,
        }
}

/// The block is one that the atlas tree holds.
spec fn is_placed(placements: Seq<(TexHandle, Rect)>, r: Rect) -> bool {
    exists|p: int| 0 <= p < placements.len() && (#[trigger] placements[p]).1 == r
}

/// Every bitmap of the entries lies in a block that the atlas tree holds.
spec fn all_placed(
    glyphs: Seq<((FontHandle, char), GlyphEntry)>,
    placements: Seq<(TexHandle, Rect)>,
) -> bool {
    forall|i: int|
        0 <= i < glyphs.len() ==> ((#[trigger] glyphs[i]).1.rect matches Some(r) ==> is_placed(
            placements,
            r,
        ))
}

/// A glyph whose bitmap was packed into the atlas can be entered: its bitmap
/// shares no pixel with a bitmap entered before.
proof fn lemma_enter_glyph(
    glyphs: Seq<((FontHandle, char), GlyphEntry)>,
    placed: Seq<(TexHandle, Rect)>,
    grown: Seq<(TexHandle, Rect)>,
    entry: ((FontHandle, char), GlyphEntry),
    tag: TexHandle,
    slot: int,
)
    requires
        blocks_apart(glyphs),
        all_placed(glyphs, placed),
        match entry.1.rect {
            Some(r) => {
                &&& 0 <= slot <= placed.len()
                &&& grown == placed.insert(slot, (tag, r))
                &&& forall|p: int| 0 <= p < placed.len() ==> !r.overlaps((#[trigger] placed[p]).1)
            },
            None => grown == placed,
        },
    ensures
        blocks_apart(glyphs.push(entry)),
        all_placed(glyphs.push(entry), grown),
{
    let more = glyphs.push(entry);
    assert forall|i: int| 0 <= i < glyphs.len() implies ((#[trigger] glyphs[i]).1.rect matches Some(
        r,
    ) ==> is_placed(grown, r)) by {
        if let Some(r) = glyphs[i].1.rect {
            let p = choose|p: int| 0 <= p < placed.len() && (#[trigger] placed[p]).1 == r;
            if entry.1.rect is Some {
                if p < slot {
                    assert(grown[p].1 == r);
                } else {
                    assert(grown[p + 1].1 == r);
                }
            } else {
                assert(grown[p].1 == r);
            }
        }
    }
    assert forall|i: int| 0 <= i < more.len() implies ((#[trigger] more[i]).1.rect matches Some(
        r,
    ) ==> is_placed(grown, r)) by {
        if i < glyphs.len() {
            assert(more[i] == glyphs[i]);
        } else if let Some(r) = entry.1.rect {
            assert(grown[slot].1 == r);
        }
    }
    assert forall|i: int, j: int| 0 <= i < j < more.len() implies match (
        (#[trigger] more[i]).1.rect,
        (#[trigger] more[j]).1.rect,
    ) {
        (Some(a), Some(b)) => !a.overlaps(b),
        _ => true,
    } by {
        assert(more[i] == glyphs[i]);
        if j < glyphs.len() {
            assert(more[j] == glyphs[j]);
        } else if let (Some(a), Some(b)) = (glyphs[i].1.rect, entry.1.rect) {
            let p = choose|p: int| 0 <= p < placed.len() && (#[trigger] placed[p]).1 == a;
            assert(!b.overlaps(placed[p].1));
        }
    }
}

/// The glyphs a request adds stand under keys that differ from each other
/// and from every key entered before.
proof fn lemma_new_keys_distinct(
    cache: FontCacheView,
    font: FontHandle,
    glyphs: Seq<GlyphSource>,
    entries: Seq<((FontHandle, char), GlyphEntry)>,
)
    requires
        keys_distinct(cache.glyphs),
        entries.len() == cache.needed(font, glyphs).len(),
        forall|k: int|
            0 <= k < entries.len() ==> (#[trigger] entries[k]).0 == (
                font,
                cache.needed(font, glyphs)[k].code_point,
            ),
    ensures
        keys_distinct(cache.glyphs + entries),
{
    let all = requested(glyphs);
    let needed = cache.needed(font, glyphs);
    let more = cache.glyphs + entries;
    let n = cache.glyphs.len() as int;
    lemma_requested_distinct(glyphs);
    assert forall|i: int, j: int| 0 <= i < j < more.len() implies (#[trigger] more[i]).0 != (
    #[trigger] more[j]).0 by {
        if j < n {
            assert(more[i] == cache.glyphs[i] && more[j] == cache.glyphs[j]);
        } else if i < n {
            assert(more[i] == cache.glyphs[i]);
            assert(more[j] == entries[j - n]);
            all.lemma_filter_pred(cache.is_missing(font), j - n);
            lemma_first_of_listed(cache.glyphs, (font, needed[j - n].code_point));
        } else {
            assert(more[i] == entries[i - n]);
            assert(more[j] == entries[j - n]);
            lemma_filter_keeps_order(all, cache.is_missing(font), i - n, j - n);
            let (a, b) = choose|a: int, b: int|
                0 <= a < b < all.len() && #[trigger] all[a] == needed[i - n] && #[trigger] all[b]
                    == needed[j - n];
            assert(all[a].code_point != all[b].code_point);
        }
    }
}

/// What a glyph cache stands for.
pub struct FontCacheView {
    /// The fonts in the order of their registration, each with its handle.
    pub fonts: Seq<((Seq<char>, u32, u32), FontHandle)>,
    /// The handle the next new font gets.
    pub next_handle: nat,
    /// The cached glyphs in the order of their caching, under font and
    /// character.
    pub glyphs: Seq<((FontHandle, char), GlyphEntry)>,
    /// The free leaves of the atlas, in the order in which packing tries
    /// them.
    pub free: Seq<Rect>,
    /// The size of the atlas in pixels.
    pub atlas_size: (u32, u32),
}

impl FontCacheView {
    /// The handle under which a font is registered.
    pub open spec fn handle_of(self, spec: (Seq<char>, u32, u32)) -> Option<FontHandle> {
        first_of(self.fonts, spec)
    }

    /// The handle a request for a font works with: the registered one, or
    /// the next to be issued.
    pub open spec fn handle_for(self, spec: (Seq<char>, u32, u32)) -> FontHandle {
        match self.handle_of(spec) {
            Some(handle) => handle,
            None => FontHandle(self.next_handle as usize),
        }
    }

    /// The cached glyph of a character in a font.
    pub open spec fn glyph(self, font: FontHandle, c: char) -> Option<GlyphEntry> {
        first_of(self.glyphs, (font, c))
    }

    /// The test for a character whose glyph is not cached for `font`.
    pub open spec fn is_missing(self, font: FontHandle) -> spec_fn(GlyphSource) -> bool {
        |g: GlyphSource| self.glyph(font, g.code_point) is None
    }

    /// The glyphs a request adds: its characters, each once, that are not
    /// cached for `font` yet.
    pub open spec fn needed(self, font: FontHandle, glyphs: Seq<GlyphSource>) -> Seq<GlyphSource> {
        requested(glyphs).filter(self.is_missing(font))
    }

    /// The whole atlas as a rectangle.
    pub open spec fn atlas(self) -> Rect {
        Rect { x: 0, y: 0, w: self.atlas_size.0, h: self.atlas_size.1 }
    }

    /// Every cached glyph is one the font has, and its bitmap lies inside
    /// the atlas; no glyph is entered twice for a font, and no two bitmaps
    /// share a pixel.
    pub open spec fn glyphs_valid(self) -> bool {
        &&& forall|i: int|
            0 <= i < self.glyphs.len() ==> {
                &&& (#[trigger] self.glyphs[i]).1.metrics.glyph_id != 0
                &&& self.glyphs[i].1.rect matches Some(r) ==> r.within(self.atlas())
            }
        &&& keys_distinct(self.glyphs)
        &&& blocks_apart(self.glyphs)
    }

    /// No font is registered twice, and the fonts were issued the handles 0,
    /// 1 and so on in the order of their registration, so that the handles
    /// differ and lie below the next one.
    pub open spec fn fonts_valid(self) -> bool {
        &&& self.next_handle == self.fonts.len()
        &&& forall|i: int| 0 <= i < self.fonts.len() ==> (#[trigger] self.fonts[i]).1@ == i
        &&& forall|i: int, j: int|
            0 <= i < j < self.fonts.len() ==> (#[trigger] self.fonts[i]).0 != (
            #[trigger] self.fonts[j]).0
    }

    /// Caching the same glyphs for the same font once more answers with the
    /// same handle and changes nothing: no font is registered, no glyph is
    /// entered, no leaf of the atlas is taken.
    pub proof fn lemma_cache_glyphs_again(self, spec: (Seq<char>, u32, u32), glyphs: Seq<GlyphSource>)
        requires
            self.cache_glyphs(spec, glyphs).1 is Ok,
        ensures
            self.cache_glyphs(spec, glyphs).0.cache_glyphs(spec, glyphs) == self.cache_glyphs(
                spec,
                glyphs,
            ),
    {
        let font = self.handle_for(spec);
        let needed = self.needed(font, glyphs);
        let after = self.cache_glyphs(spec, glyphs).0;
        let placed = place_all(self.free, font, needed)->0;
        let entries = placed.1;
        lemma_place_all_entries(self.free, font, needed);
        assert(after.glyphs == self.glyphs + entries);
        // The font is registered now, under the handle the first call worked with.
        if self.handle_of(spec) is None {
            lemma_first_of_concat(self.fonts, seq![(spec, font)], spec);
            lemma_first_of_one((spec, font), spec);
            assert(self.fonts.push((spec, font)) =~= self.fonts + seq![(spec, font)]);
        }
        assert(after.handle_of(spec) == Some(font));
        // Every character of the request is cached now.
        let all = requested(glyphs);
        assert forall|i: int| 0 <= i < all.len() implies !(after.is_missing(font))(
            #[trigger] all[i],
        ) by {
            let g = all[i];
            let key = (font, g.code_point);
            lemma_first_of_concat(self.glyphs, entries, key);
            if self.glyph(font, g.code_point) is None {
                all.lemma_filter_contains(self.is_missing(font), i);
                let j = choose|j: int| 0 <= j < needed.len() && needed[j] == g;
                assert(entries[j].0 == key);
                lemma_first_of_listed(entries, key);
            }
        }
        lemma_filter_none(all, after.is_missing(font));
        let again = after.needed(font, glyphs);
        assert(again == Seq::<GlyphSource>::empty());
        assert(again.filter(is_unmapped()).len() == 0) by {
            reveal(Seq::filter);
        }
        assert(unmapped(again).len() == 0);
        assert(place_all(after.free, font, again) == Some(
            (after.free, Seq::<((FontHandle, char), GlyphEntry)>::empty()),
        ));
        let twice = after.cache_glyphs(spec, glyphs).0;
        assert(twice.glyphs =~= after.glyphs);
        assert(twice == after);
    }

    /// A request that holds a character the font has no glyph for fails as a
    /// whole, however many of its other characters the font has: the answer
    /// lists the character, and the cache stays as it is, so that none of
    /// the request's characters can be looked up that could not before. The
    /// character is taken not to be cached for the font yet, and the font to
    /// say the same of it wherever the request repeats it.
    pub proof fn lemma_unmapped_glyph_fails(
        self,
        spec: (Seq<char>, u32, u32),
        glyphs: Seq<GlyphSource>,
        i: int,
    )
        requires
            0 <= i < glyphs.len(),
            glyphs[i].metrics.glyph_id == 0,
            forall|j: int|
                0 <= j < glyphs.len() && (#[trigger] glyphs[j]).code_point == glyphs[i].code_point
                    ==> glyphs[j].metrics.glyph_id == 0,
            self.glyph(self.handle_for(spec), glyphs[i].code_point) is None,
        ensures
            self.cache_glyphs(spec, glyphs).0 == self,
            self.cache_glyphs(spec, glyphs).1 matches Err(GlyphFailure::NotSupported(chars))
                && chars.contains(glyphs[i].code_point),
    {
        let font = self.handle_for(spec);
        let c = glyphs[i].code_point;
        let all = requested(glyphs);
        let needed = self.needed(font, glyphs);
        lemma_requested(glyphs);
        let k = choose|k: int| 0 <= k < all.len() && (#[trigger] all[k]).code_point == c;
        let g = all[k];
        assert(glyphs.contains(g));
        let j = choose|j: int| 0 <= j < glyphs.len() && glyphs[j] == g;
        assert(glyphs[j].metrics.glyph_id == 0);
        all.lemma_filter_contains(self.is_missing(font), k);
        let n = choose|n: int| 0 <= n < needed.len() && needed[n] == g;
        needed.lemma_filter_contains(is_unmapped(), n);
        let bad = needed.filter(is_unmapped());
        let m = choose|m: int| 0 <= m < bad.len() && bad[m] == g;
        assert(unmapped(needed)[m] == c);
    }

    /// A request with one character the font has no glyph for, among any
    /// number of characters it has glyphs for, is answered with the list of
    /// that one character, and the cache stays as it is. The character is
    /// taken not to be cached for the font yet.
    pub proof fn lemma_one_unmapped_glyph(
        self,
        spec: (Seq<char>, u32, u32),
        glyphs: Seq<GlyphSource>,
        u: char,
    )
        requires
            has_code_point(glyphs, u),
            forall|j: int|
                0 <= j < glyphs.len() ==> ((#[trigger] glyphs[j]).metrics.glyph_id == 0
                    <==> glyphs[j].code_point == u),
            self.glyph(self.handle_for(spec), u) is None,
        ensures
            self.cache_glyphs(spec, glyphs) == (
                self,
                Err::<FontHandle, GlyphFailure>(GlyphFailure::NotSupported(seq![u])),
            ),
    {
        let font = self.handle_for(spec);
        let all = requested(glyphs);
        let needed = self.needed(font, glyphs);
        let bad = needed.filter(is_unmapped());
        let i = choose|i: int| 0 <= i < glyphs.len() && (#[trigger] glyphs[i]).code_point == u;
        self.lemma_unmapped_glyph_fails(spec, glyphs, i);
        lemma_requested(glyphs);
        lemma_requested_distinct(glyphs);
        assert forall|n: int| 0 <= n < bad.len() implies (#[trigger] bad[n]).code_point == u by {
            needed.lemma_filter_pred(is_unmapped(), n);
            assert(bad.contains(bad[n]));
            needed.lemma_filter_contains_rev(is_unmapped(), bad[n]);
            all.lemma_filter_contains_rev(self.is_missing(font), bad[n]);
            let k = choose|k: int| 0 <= k < all.len() && all[k] == bad[n];
            assert(glyphs.contains(all[k]));
            let j = choose|j: int| 0 <= j < glyphs.len() && glyphs[j] == all[k];
            assert(glyphs[j].metrics.glyph_id == 0);
        }
        if bad.len() > 1 {
            lemma_filter_keeps_order(needed, is_unmapped(), 0, 1);
            let (a, b) = choose|a: int, b: int|
                0 <= a < b < needed.len() && #[trigger] needed[a] == bad[0] && #[trigger] needed[b]
                    == bad[1];
            lemma_filter_keeps_order(all, self.is_missing(font), a, b);
            let (c, d) = choose|c: int, d: int|
                0 <= c < d < all.len() && #[trigger] all[c] == needed[a] && #[trigger] all[d]
                    == needed[b];
            assert(all[c].code_point != all[d].code_point);
        }
        assert(unmapped(needed).len() == bad.len());
        assert(unmapped(needed) =~= seq![u]);
    }

    /// What caching `glyphs` for the font `spec` makes of the cache, and
    /// what it answers.
    ///
    /// The request works with the handle of the font, a new one where the
    /// font is not registered. Of its characters, each taken once, those not
    /// yet cached for the font are needed. Where the font has no glyph for
    /// one of them, or where the atlas has no room for all their bitmaps, the
    /// request fails and the cache stays as it is. Otherwise the bitmaps are
    /// packed in the order of the request, the glyphs are entered, and the
    /// font is registered where it was not.
    pub open spec fn cache_glyphs(self, spec: (Seq<char>, u32, u32), glyphs: Seq<GlyphSource>) -> (
        FontCacheView,
        Result<FontHandle, GlyphFailure>,
    ) {
        let font = self.handle_for(spec);
        let needed = self.needed(font, glyphs);
        if unmapped(needed).len() > 0 {
            (self, Err(GlyphFailure::NotSupported(unmapped(needed))))
        } else {
            match place_all(self.free, font, needed) {
                None => (self, Err(GlyphFailure::AtlasFull)),
                Some((free, entries)) => (
                    FontCacheView {
                        fonts: if self.handle_of(spec) is Some {
                            self.fonts
                        } else {
                            self.fonts.push((spec, font))
                        },
                        next_handle: if self.handle_of(spec) is Some {
                            self.next_handle
                        } else {
                            self.next_handle + 1
                        },
                        glyphs: self.glyphs + entries,
                        free,
                        atlas_size: self.atlas_size,
                    },
                    Ok(font),
                ),
            }
        }
    }
}

/// The bookkeeping of a glyph cache.
pub struct GliumFontCache {
    /// The registered fonts with their handles.
    font_handles: Vec<(FontSpec, FontHandle)>,
    /// The handle the next new font gets.
    curr_font_handle: FontHandle,
    /// The cached glyphs under font and character.
    glyphs: Vec<((FontHandle, char), GlyphEntry)>,
    /// The packing tree of the atlas.
    atlas: BinaryTreeNode,
    /// The size of the atlas in pixels.
    atlas_size: (u32, u32),
}

impl View for GliumFontCache {
    type V = FontCacheView;

    closed spec fn view(&self) -> FontCacheView {
        FontCacheView {
            fonts: self.font_handles@.map_values(|e: (FontSpec, FontHandle)| (e.0@, e.1)),
            next_handle: self.curr_font_handle.0 as nat,
            glyphs: self.glyphs@,
            free: self.atlas.leaves(),
            atlas_size: self.atlas_size,
        }
    }
}

impl GliumFontCache {
    /// The atlas tree is well formed and spans the atlas, the registry and
    /// the cached glyphs are valid, and every bitmap lies in a block that the
    /// atlas tree holds.
    pub closed spec fn wf(self) -> bool {
        &&& self.atlas.wf()
        &&& self.atlas.extent() == self@.atlas()
        &&& self@.glyphs_valid()
        &&& self@.fonts_valid()
        &&& all_placed(self.glyphs@, self.atlas.placements())
    }

    /// What holds of every well-formed cache holds of what it stands for:
    /// the registry and the glyphs are valid.
    pub proof fn lemma_valid(self)
        requires
            self.wf(),
        ensures
            self@.fonts_valid(),
            self@.glyphs_valid(),
    {
    }

    /// An empty cache with an atlas of 4096 by 4096 pixels.
    pub fn new() -> (cache: GliumFontCache)
        ensures
            cache.wf(),
            cache@ == (FontCacheView {
                fonts: Seq::empty(),
                next_handle: 0,
                glyphs: Seq::empty(),
                free: seq![Rect { x: 0, y: 0, w: 4096, h: 4096 }],
                atlas_size: (4096u32, 4096u32),
            }),
    {
        Self::with_atlas_size(4096, 4096)
    }

    /// An empty cache with an atlas of the given size.
    pub fn with_atlas_size(w: u32, h: u32) -> (cache: GliumFontCache)
        ensures
            cache.wf(),
            cache@ == (FontCacheView {
                fonts: Seq::empty(),
                next_handle: 0,
                glyphs: Seq::empty(),
                free: seq![Rect { x: 0, y: 0, w, h }],
                atlas_size: (w, h),
            }),
    {
        let cache = GliumFontCache {
            font_handles: Vec::new(),
            curr_font_handle: FontHandle(0),
            glyphs: Vec::new(),
            atlas: BinaryTreeNode::new(Rect { x: 0, y: 0, w, h }),
            atlas_size: (w, h),
        };
        assert(cache@.fonts =~= Seq::empty());
        cache
    }

    /// The size of the atlas in pixels.
    pub fn atlas_size(&self) -> (size: (u32, u32))
        ensures
            size == self@.atlas_size,
    {
        self.atlas_size
    }

    /// The handle the next new font gets.
    pub fn curr_font_handle(&self) -> (handle: FontHandle)
        ensures
            handle@ == self@.next_handle,
    {
        self.curr_font_handle
    }

    /// The number of glyphs the cache holds.
    pub fn glyph_count(&self) -> (n: usize)
        ensures
            n == self@.glyphs.len(),
    {
        self.glyphs.len()
    }

    /// The glyph cached as number `ix`, counting from 0 in the order of
    /// caching, with its font and character; `None` where fewer glyphs are
    /// cached. The glyphs a request added are those from the count before the
    /// request on.
    pub fn glyph_at(&self, ix: usize) -> (glyph: Option<((FontHandle, char), GlyphEntry)>)
        ensures
            glyph == if ix < self@.glyphs.len() {
                Some(self@.glyphs[ix as int])
            } else {
                None
            },
    {
        if ix < self.glyphs.len() {
            Some(self.glyphs[ix])
        } else {
            None
        }
    }

    /// The handle under which a font is registered.
    pub fn font_handle(&self, spec: &FontSpec) -> (handle: Option<FontHandle>)
        ensures
            handle == self@.handle_of(spec@),
    {
        let ghost fonts = self@.fonts;
        let mut i: usize = 0;
        assert(fonts.skip(0) =~= fonts);
        while i < self.font_handles.len()
            invariant
                i <= self.font_handles.len(),
                fonts == self@.fonts,
                fonts.len() == self.font_handles.len(),
                first_of(fonts, spec@) == first_of(fonts.skip(i as int), spec@),
            decreases self.font_handles.len() - i,
        {
            assert(fonts.skip(i as int)[0] == fonts[i as int]);
            assert(fonts[i as int] == (self.font_handles[i as int].0@, self.font_handles[i as int].1));
            assert(fonts.skip(i as int).drop_first() =~= fonts.skip(i + 1));
            if self.font_handles[i].0.same_as(spec) {
                return Some(self.font_handles[i].1);
            }
            i += 1;
        }
        None
    }

    /// The cached glyph of a character in a font, with its block in the
    /// atlas and its metrics; `None` where the glyph was never cached.
    pub fn get_glyph(&self, fh: FontHandle, c: char) -> (entry: Option<GlyphEntry>)
        ensures
            entry == self@.glyph(fh, c),
            self.wf() ==> (entry matches Some(e) ==> {
                &&& e.metrics.glyph_id != 0
                &&& e.rect matches Some(r) ==> r.within(self@.atlas())
            }),
    {
        proof {
            lemma_first_of_listed(self@.glyphs, (fh, c));
        }
        find_glyph(&self.glyphs, fh, c)
    }

    /// Where the bitmap of a character's glyph lies in the atlas. The answer
    /// is `Ok(None)` for a cached glyph that covers no pixel, and an error
    /// for a glyph that was never cached.
    pub fn rect_for(&self, font_handle: FontHandle, code_point: char) -> (res: Result<
        Option<Rect>,
        CacheReadError,
    >)
        ensures
            match self@.glyph(font_handle, code_point) {
                Some(entry) => res == Ok::<Option<Rect>, CacheReadError>(entry.rect),
                None => res is Err,
            },
            self.wf() ==> (res matches Ok(Some(r)) ==> r.within(self@.atlas())),
    {
        match self.get_glyph(font_handle, code_point) {
            Some(entry) => Ok(entry.rect),
            None => Err(CacheReadError),
        }
    }
    /// The size of the bitmap of a glyph, where the glyph covers any pixel.
    fn bitmap(g: &GlyphSource) -> (size: Option<(u32, u32)>)
        ensures
            size == bitmap_of(*g),
    {
        match g.metrics.bounding_box {
            Some(b) => if b.w > 0 && b.h > 0 {
                Some((b.w, b.h))
            } else {
                None
            },
            None => None,
        }
    }

    /// Whether one of `gs` is for the character `c`.
    fn contains_code_point(gs: &Vec<GlyphSource>, c: char) -> (held: bool)
        ensures
            held == has_code_point(gs@, c),
    {
        let mut i: usize = 0;
        while i < gs.len()
            invariant
                i <= gs.len(),
                forall|k: int| 0 <= k < i ==> (#[trigger] gs[k]).code_point != c,
            decreases gs.len() - i,
        {
            if gs[i].code_point == c {
                return true;
            }
            i += 1;
        }
        false
    }

    /// The glyphs a request adds: its characters, each once, that are not
    /// cached for `font` yet.
    fn needed_glyphs(&self, font: FontHandle, glyphs: &[GlyphSource]) -> (needed: Vec<GlyphSource>)
        ensures
            needed@ == self@.needed(font, glyphs@),
    {
        let mut seen: Vec<GlyphSource> = Vec::new();
        let mut needed: Vec<GlyphSource> = Vec::new();
        let ghost missing = self@.is_missing(font);
        let mut i: usize = 0;
        proof {
            assert(glyphs@.take(0) =~= Seq::<GlyphSource>::empty());
            assert(seen@.filter(missing).len() == 0) by {
                reveal(Seq::filter);
            }
            assert(needed@ =~= seen@.filter(missing));
        }
        while i < glyphs.len()
            invariant
                i <= glyphs.len(),
                missing == self@.is_missing(font),
                seen@ == requested(glyphs@.take(i as int)),
                needed@ == seen@.filter(missing),
            decreases glyphs.len() - i,
        {
            let g = glyphs[i];
            proof {
                assert(glyphs@.take(i + 1).drop_last() =~= glyphs@.take(i as int));
                assert(glyphs@.take(i + 1).last() == g);
                seen@.lemma_filter_push(g, missing);
            }
            if !Self::contains_code_point(&seen, g.code_point) {
                seen.push(g);
                if self.get_glyph(font, g.code_point).is_none() {
                    needed.push(g);
                }
            }
            i += 1;
        }
        assert(glyphs@.take(i as int) =~= glyphs@);
        needed
    }

    /// The characters of `gs` that the font has no glyph for.
    fn unmapped_chars(gs: &Vec<GlyphSource>) -> (chars: Vec<char>)
        ensures
            chars@ == unmapped(gs@),
    {
        let mut chars: Vec<char> = Vec::new();
        let mut i: usize = 0;
        proof {
            assert(gs@.take(0) =~= Seq::<GlyphSource>::empty());
            assert(gs@.take(0).filter(is_unmapped()).len() == 0) by {
                reveal(Seq::filter);
            }
            assert(chars@ =~= unmapped(gs@.take(0)));
        }
        while i < gs.len()
            invariant
                i <= gs.len(),
                chars@ == unmapped(gs@.take(i as int)),
            decreases gs.len() - i,
        {
            proof {
                assert(gs@.take(i + 1) =~= gs@.take(i as int).push(gs[i as int]));
                gs@.take(i as int).lemma_filter_push(gs[i as int], is_unmapped());
            }
            if gs[i].metrics.glyph_id == 0 {
                chars.push(gs[i].code_point);
                assert(chars@ =~= unmapped(gs@.take(i + 1)));
            }
            i += 1;
        }
        assert(gs@.take(i as int) =~= gs@);
        chars
    }

    /// Caches the glyphs of `glyphs` for the font `spec` and returns the
    /// font's handle.
    ///
    /// Each entry of `glyphs` is a character with what the font says of it.
    /// Characters that occur more than once count once, and characters whose
    /// glyph is cached for the font already are passed over. Where the font
    /// has no glyph for one of the others, the call fails with their list;
    /// where the atlas has no room for all the new bitmaps, it fails with
    /// `CacheTooSmall`. A call that fails changes nothing. Otherwise the
    /// bitmaps are packed into the atlas in the order of the request, and the
    /// new entries say where: the caller rasterises each glyph into the block
    /// that `rect_for` answers.
    pub fn cache_glyphs(&mut self, spec: &FontSpec, glyphs: &[GlyphSource]) -> (res: Result<
        FontHandle,
        CacheGlyphError,
    >)
        requires
            old(self).wf(),
        ensures
            final(self).wf(),
            final(self)@ == old(self)@.cache_glyphs(spec@, glyphs@).0,
            match res {
                Ok(handle) => old(self)@.cache_glyphs(spec@, glyphs@).1 == Ok::<
                    FontHandle,
                    GlyphFailure,
                >(handle),
                Err(CacheGlyphError::GlyphNotSupported(chars)) => old(self)@.cache_glyphs(
                    spec@,
                    glyphs@,
                ).1 == Err::<FontHandle, GlyphFailure>(GlyphFailure::NotSupported(chars@)),
                Err(CacheGlyphError::CacheTooSmall) => old(self)@.cache_glyphs(spec@, glyphs@).1
                    == Err::<FontHandle, GlyphFailure>(GlyphFailure::AtlasFull),
                Err(_) => false,
            },
            res is Err ==> final(self)@ == old(self)@,
    {
        let registered = self.font_handle(spec);
        let fh = match registered {
            Some(handle) => handle,
            None => self.curr_font_handle,
        };
        let needed = self.needed_glyphs(fh, glyphs);
        let missing = Self::unmapped_chars(&needed);
        if missing.len() != 0 {
            return Err(CacheGlyphError::GlyphNotSupported(missing));
        }
        let ghost before = self@;
        let ghost whole = before.atlas();
        let mut atlas = self.atlas.clone();
        let mut entries: Vec<((FontHandle, char), GlyphEntry)> = Vec::new();
        let mut i: usize = 0;
        proof {
            lemma_unmapped_none(needed@);
            assert(needed@.take(0) =~= Seq::<GlyphSource>::empty());
            assert(self.glyphs@ + entries@ =~= self.glyphs@);
        }
        while i < needed.len()
            invariant
                i <= needed.len(),
                *self == *old(self),
                old(self).wf(),
                before == old(self)@,
                fh == before.handle_for(spec@),
                needed@ == before.needed(fh, glyphs@),
                unmapped(needed@).len() == 0,
                atlas.wf(),
                atlas.extent() == whole,
                whole == before.atlas(),
                place_all(before.free, fh, needed@.take(i as int)) == Some(
                    (atlas.leaves(), entries@),
                ),
                forall|k: int| 0 <= k < needed.len() ==> (#[trigger] needed[k]).metrics.glyph_id != 0,
                forall|k: int|
                    0 <= k < entries.len() ==> {
                        &&& (#[trigger] entries[k]).1.metrics.glyph_id != 0
                        &&& entries[k].1.rect matches Some(r) ==> r.within(whole)
                    },
                entries.len() == i,
                forall|k: int|
                    0 <= k < entries.len() ==> (#[trigger] entries[k]).0 == (
                        fh,
                        needed[k].code_point,
                    ),
                blocks_apart(self.glyphs@ + entries@),
                all_placed(self.glyphs@ + entries@, atlas.placements()),
            decreases needed.len() - i,
        {
            let g = needed[i];
            let ghost free = atlas.leaves();
            let ghost placed = atlas.placements();
            let ghost tree_before = atlas;
            let ghost so_far = self.glyphs@ + entries@;
            let ghost mut slot: int = 0;
            proof {
                assert(needed@.take(i + 1).drop_last() =~= needed@.take(i as int));
                assert(needed@.take(i + 1).last() == g);
                atlas.lemma_blocks_within_extent();
            }
            let rect = match Self::bitmap(&g) {
                None => None,
                Some((w, h)) => match atlas.pack_rect(w, h, TexHandle(fh.0)) {
                    Ok(rect) => {
                        proof {
                            slot = tree_before.slot(w, h);
                            let k = choose|k: int|
                                {
                                    &&& #[trigger] is_first_fit(free, k, w, h)
                                    &&& rect == placed_in(free[k], w, h)
                                    &&& atlas.leaves() == split_leaf(free, k, w, h)
                                };
                            lemma_first_fit(free, k, w, h);
                            assert(free[k].within(whole));
                        }
                        Some(rect)
                    },
                    Err(_) => {
                        proof {
                            assert(place_one(free, g) is None);
                            assert(place_all(before.free, fh, needed@.take(i + 1)) is None);
                            lemma_place_all_fails_on(before.free, fh, needed@, i + 1);
                        }
                        return Err(CacheGlyphError::CacheTooSmall);
                    },
                },
            };
            entries.push(((fh, g.code_point), GlyphEntry { rect, metrics: g.metrics }));
            proof {
                assert(place_one(free, g) == Some((atlas.leaves(), rect)));
                assert(entries@.last() == entry_of(fh, g, rect));
                lemma_enter_glyph(
                    so_far,
                    placed,
                    atlas.placements(),
                    entries@.last(),
                    TexHandle(fh.0),
                    slot,
                );
                assert(self.glyphs@ + entries@ =~= so_far.push(entries@.last()));
            }
            i += 1;
        }
        assert(needed@.take(i as int) =~= needed@);
        let ghost added = entries@;
        self.atlas = atlas;
        self.glyphs.append(&mut entries);
        if registered.is_none() {
            proof {
                lemma_first_of_listed(before.fonts, spec@);
            }
            self.font_handles.push((spec.duplicate(), fh));
            self.curr_font_handle = FontHandle(self.font_handles.len());
        }
        proof {
            let want = before.cache_glyphs(spec@, glyphs@).0;
            assert(self@.fonts =~= want.fonts);
            assert(self@.glyphs =~= want.glyphs);
            assert(self@ == want);
            assert(self.glyphs@ == before.glyphs + added);
            lemma_new_keys_distinct(before, fh, glyphs@, added);
            assert forall|k: int| 0 <= k < self@.glyphs.len() implies {
                &&& (#[trigger] self@.glyphs[k]).1.metrics.glyph_id != 0
                &&& self@.glyphs[k].1.rect matches Some(r) ==> r.within(self@.atlas())
            } by {
                if k < before.glyphs.len() {
                    assert(self@.glyphs[k] == before.glyphs[k]);
                } else {
                    assert(self@.glyphs[k] == added[k - before.glyphs.len()]);
                }
            }
            assert forall|a: int| 0 <= a < self@.fonts.len() implies (#[trigger] self@.fonts[a]).1@
                == a by {
                if a < before.fonts.len() {
                    assert(self@.fonts[a] == before.fonts[a]);
                }
            }
            assert forall|a: int, b: int| 0 <= a < b < self@.fonts.len() implies (
            #[trigger] self@.fonts[a]).0 != (#[trigger] self@.fonts[b]).0 by {
                assert(self@.fonts[a] == before.fonts[a]);
                if b < before.fonts.len() {
                    assert(self@.fonts[b] == before.fonts[b]);
                }
            }
        }
        Ok(fh)
    }

    /// A copy of the glyphs as they are cached now, for lookups only. It
    /// answers as the cache answers at the time of the call and does not
    /// follow what is cached later, so that it can be read while the cache is
    /// written. It holds the entries of the glyphs and nothing of the atlas.
    pub fn get_glyph_lookup(&self) -> (lookup: GliumGlyphLookup)
        ensures
            lookup@ == self@,
            self.wf() ==> lookup.wf(),
    {
        let mut glyphs: Vec<((FontHandle, char), GlyphEntry)> = Vec::new();
        let mut k: usize = 0;
        while k < self.glyphs.len()
            invariant
                k <= self.glyphs.len(),
                glyphs@ == self.glyphs@.take(k as int),
            decreases self.glyphs.len() - k,
        {
            glyphs.push(self.glyphs[k]);
            k += 1;
            assert(glyphs@ =~= self.glyphs@.take(k as int));
        }
        assert(glyphs@ =~= self.glyphs@);
        GliumGlyphLookup { glyphs, source: Ghost(self@) }
    }
}

/// The entry of the first glyph listed under a font and a character.
fn find_glyph(glyphs: &Vec<((FontHandle, char), GlyphEntry)>, fh: FontHandle, c: char) -> (entry:
    Option<GlyphEntry>)
    ensures
        entry == first_of(glyphs@, (fh, c)),
{
    let mut i: usize = 0;
    assert(glyphs@.skip(0) =~= glyphs@);
    while i < glyphs.len()
        invariant
            i <= glyphs.len(),
            first_of(glyphs@, (fh, c)) == first_of(glyphs@.skip(i as int), (fh, c)),
        decreases glyphs.len() - i,
    {
        assert(glyphs@.skip(i as int)[0] == glyphs[i as int]);
        assert(glyphs@.skip(i as int).drop_first() =~= glyphs@.skip(i + 1));
        if glyphs[i].0.0 == fh && glyphs[i].0.1 == c {
            return Some(glyphs[i].1);
        }
        i += 1;
    }
    None
}

/// A copy of the glyphs of a glyph cache that answers lookups.
pub struct GliumGlyphLookup {
    /// The cached glyphs under font and character.
    glyphs: Vec<((FontHandle, char), GlyphEntry)>,
    /// The cache as it was when the copy was taken.
    source: Ghost<FontCacheView>,
}

impl View for GliumGlyphLookup {
    type V = FontCacheView;

    closed spec fn view(&self) -> FontCacheView {
        self.source@
    }
}

impl GliumGlyphLookup {
    /// The copy holds the glyphs of the cache it was taken of, and they are
    /// valid.
    pub closed spec fn wf(self) -> bool {
        &&& self.glyphs@ == self@.glyphs
        &&& self@.glyphs_valid()
    }

    /// The glyph of a character in a font as the cache held it, with its
    /// block in the atlas and its metrics.
    pub fn get_glyph(&self, fh: FontHandle, c: char) -> (entry: Option<GlyphEntry>)
        requires
            self.wf(),
        ensures
            entry == self@.glyph(fh, c),
            entry matches Some(e) ==> {
                &&& e.metrics.glyph_id != 0
                &&& e.rect matches Some(r) ==> r.within(self@.atlas())
            },
    {
        proof {
            lemma_first_of_listed(self@.glyphs, (fh, c));
        }
        find_glyph(&self.glyphs, fh, c)
    }

    /// Where the bitmap of a character's glyph lay in the atlas: `Ok(None)`
    /// for a glyph that covers no pixel, an error for a glyph that was not
    /// cached.
    pub fn rect_for(&self, font_handle: FontHandle, code_point: char) -> (res: Result<
        Option<Rect>,
        CacheReadError,
    >)
        requires
            self.wf(),
        ensures
            match self@.glyph(font_handle, code_point) {
                Some(entry) => res == Ok::<Option<Rect>, CacheReadError>(entry.rect),
                None => res is Err,
            },
            res matches Ok(Some(r)) ==> r.within(self@.atlas()),
    {
        match self.get_glyph(font_handle, code_point) {
            Some(entry) => Ok(entry.rect),
            None => Err(CacheReadError),
        }
    }
}

impl Clone for GliumGlyphLookup {
    /// A copy of the glyphs.
    fn clone(&self) -> (res: Self)
        ensures
            res@ == self@,
            self.wf() ==> res.wf(),
    {
        let mut glyphs: Vec<((FontHandle, char), GlyphEntry)> = Vec::new();
        let mut k: usize = 0;
        while k < self.glyphs.len()
            invariant
                k <= self.glyphs.len(),
                glyphs@ == self.glyphs@.take(k as int),
            decreases self.glyphs.len() - k,
        {
            glyphs.push(self.glyphs[k]);
            k += 1;
            assert(glyphs@ =~= self.glyphs@.take(k as int));
        }
        assert(glyphs@ =~= self.glyphs@);
        GliumGlyphLookup { glyphs, source: Ghost(self@) }
    }
}

/// What answers lookups of glyphs: a glyph cache, or a copy of its glyphs.
pub trait GlyphLookup {
    /// The cache that the answers are those of.
    spec fn glyph_cache(&self) -> FontCacheView;

    /// What has to hold of the value for it to answer.
    spec fn glyphs_wf(&self) -> bool;

    /// Where the bitmap of a character's glyph lies in the atlas: `Ok(None)`
    /// for a glyph that covers no pixel, an error for a glyph that is not
    /// cached.
    fn rect_for(&self, font_handle: FontHandle, code_point: char) -> (res: Result<
        Option<Rect>,
        CacheReadError,
    >)
        requires
            self.glyphs_wf(),
        ensures
            match self.glyph_cache().glyph(font_handle, code_point) {
                Some(entry) => res == Ok::<Option<Rect>, CacheReadError>(entry.rect),
                None => res is Err,
            },
            res matches Ok(Some(r)) ==> r.within(self.glyph_cache().atlas()),
    ;

    /// The cached glyph of a character in a font.
    fn get_glyph(&self, fh: FontHandle, c: char) -> (entry: Option<GlyphEntry>)
        requires
            self.glyphs_wf(),
        ensures
            entry == self.glyph_cache().glyph(fh, c),
            entry matches Some(e) ==> {
                &&& e.metrics.glyph_id != 0
                &&& e.rect matches Some(r) ==> r.within(self.glyph_cache().atlas())
            },
    ;
}

impl GlyphLookup for GliumFontCache {
    open spec fn glyph_cache(&self) -> FontCacheView {
        self@
    }

    open spec fn glyphs_wf(&self) -> bool {
        self.wf()
    }

    fn rect_for(&self, font_handle: FontHandle, code_point: char) -> (res: Result<
        Option<Rect>,
        CacheReadError,
    >) {
        GliumFontCache::rect_for(self, font_handle, code_point)
    }

    fn get_glyph(&self, fh: FontHandle, c: char) -> (entry: Option<GlyphEntry>) {
        GliumFontCache::get_glyph(self, fh, c)
    }
}

impl GlyphLookup for GliumGlyphLookup {
    open spec fn glyph_cache(&self) -> FontCacheView {
        self@
    }

    open spec fn glyphs_wf(&self) -> bool {
        self.wf()
    }

    fn rect_for(&self, font_handle: FontHandle, code_point: char) -> (res: Result<
        Option<Rect>,
        CacheReadError,
    >) {
        GliumGlyphLookup::rect_for(self, font_handle, code_point)
    }

    fn get_glyph(&self, fh: FontHandle, c: char) -> (entry: Option<GlyphEntry>) {
        GliumGlyphLookup::get_glyph(self, fh, c)
    }
}

} // verus!
