//! The producer's side: a buffer of vertices that is handed over as one unit,
//! the orders in which the corners of the shapes become triangles, and the
//! walk over a text that picks the glyph of each character.
//!
//! A controller holds what answers its lookups, of textures and of glyphs:
//! the caches themselves, or copies of their records that can be read while
//! the caches are written. A shape whose texture is not cached is not drawn:
//! the call collects nothing and answers with an error.
//!
//! Positions on screen and colours arrive as the bit patterns of
//! single-precision numbers and are copied, never computed with; whoever
//! calls has done the arithmetic. Positions in a texture are computed here,
//! in half pixels of the page.

use vstd::prelude::*;
use vstd::string::StrSliceExecFns;
use crate::font::{CacheReadError, FontHandle};
use crate::font_cache::{FontCacheView, GlyphEntry, GlyphLookup};
use crate::rect::Rect;
use crate::renderer::{TexType, Vertex};
use crate::tex::TexHandle;
use crate::tex_cache::{TexCacheView, TexHandleLookup};

verus! {

/// A texture was to be drawn that is not in the cache.
#[derive(Clone, Copy, Debug, Hash, PartialEq, Eq, Structural)]
pub struct RenderTextureError;

impl RenderTextureError {
    /// A sentence for the error.
    pub fn description(&self) -> (s: &'static str)
        ensures
            s@ == "Texture rendering failed - texture wasn't cached."@,
    {
        "Texture rendering failed - texture wasn't cached."
    }
}

impl vstd::std_specs::convert::FromSpecImpl<CacheReadError> for RenderTextureError {
    open spec fn obeys_from_spec() -> bool {
        true
    }

    open spec fn from_spec(e: CacheReadError) -> Self {
        RenderTextureError
    }
}

impl From<CacheReadError> for RenderTextureError {
    fn from(e: CacheReadError) -> (r: Self) {
        RenderTextureError
    }
}

/// A vertex at `pos` with the texture position `uv`.
pub open spec fn vertex_at(
    pos: [u32; 2],
    uv: [u64; 2],
    col: [u32; 4],
    tex_type: TexType,
    tex_ix: usize,
) -> Vertex {
    Vertex { pos, tex_coords: uv, col, tex_type, tex_ix }
}

/// The corner of a box on screen given by two opposite corners: the first or
/// the second horizontal value with the first or the second vertical one.
pub open spec fn box_corner(bounds: [u32; 4], right: bool, bottom: bool) -> [u32; 2] {
    [
        if right {
            bounds[2]
        } else {
            bounds[0]
        },
        if bottom {
            bounds[3]
        } else {
            bounds[1]
        },
    ]
}

/// The corner of a box in a texture, chosen as `box_corner` chooses.
pub open spec fn uv_corner(bounds: [u64; 4], right: bool, bottom: bool) -> [u64; 2] {
    [
        if right {
            bounds[2]
        } else {
            bounds[0]
        },
        if bottom {
            bounds[3]
        } else {
            bounds[1]
        },
    ]
}

/// The corners of a block in half pixels: left, top, right, bottom.
pub open spec fn upright_uv(rect: Rect) -> [u64; 4] {
    [
        (2 * rect.x) as u64,
        (2 * rect.y) as u64,
        (2 * (rect.x + rect.w)) as u64,
        (2 * (rect.y + rect.h)) as u64,
    ]
}

/// The corners of a block in half pixels with top and bottom exchanged:
/// left, bottom, right, top. An image is stored with its last row first, so
/// this is how its block is laid over a box on screen.
pub open spec fn flipped_uv(rect: Rect) -> [u64; 4] {
    [
        (2 * rect.x) as u64,
        (2 * (rect.y + rect.h)) as u64,
        (2 * (rect.x + rect.w)) as u64,
        (2 * rect.y) as u64,
    ]
}

/// The middle of a block in half pixels.
pub open spec fn middle_uv(rect: Rect) -> [u64; 2] {
    [(2 * rect.x + rect.w) as u64, (2 * rect.y + rect.h) as u64]
}

/// The middle of a block, as both corners of a box in the texture.
pub open spec fn middle_box_uv(rect: Rect) -> [u64; 4] {
    [
        (2 * rect.x + rect.w) as u64,
        (2 * rect.y + rect.h) as u64,
        (2 * rect.x + rect.w) as u64,
        (2 * rect.y + rect.h) as u64,
    ]
}

/// The two triangles of a box: first corner, its horizontal neighbour, the
/// opposite corner; then first corner, its vertical neighbour, the opposite
/// corner. Every vertex takes the corner of `uv` that matches its corner of
/// `pos`.
pub open spec fn quad_vertices(
    pos: [u32; 4],
    uv: [u64; 4],
    col: [u32; 4],
    tex_type: TexType,
    tex_ix: usize,
) -> Seq<Vertex> {
    let at = |right: bool, bottom: bool|
        vertex_at(
            box_corner(pos, right, bottom),
            uv_corner(uv, right, bottom),
            col,
            tex_type,
            tex_ix,
        );
    seq![
        at(false, false),
        at(true, false),
        at(true, true),
        at(false, false),
        at(false, true),
        at(true, true),
    ]
}

/// The two triangles of a line whose four corners are the left and right of
/// its start and the left and right of its end: left, right and far left,
/// then far left, far right and right. All vertices share one position in
/// the texture.
pub open spec fn line_vertices(
    corners: [[u32; 2]; 4],
    uv: [u64; 2],
    col: [u32; 4],
    tex_ix: usize,
) -> Seq<Vertex> {
    let at = |i: int| vertex_at(corners[i], uv, col, TexType::Texture, tex_ix);
    seq![at(0), at(1), at(2), at(2), at(3), at(1)]
}

/// The wedges of a fan: for each two neighbours on the ring a triangle from
/// the centre to the first and to the second. All vertices share one
/// position in the texture.
pub open spec fn fan_vertices(
    centre: [u32; 2],
    ring: Seq<[u32; 2]>,
    uv: [u64; 2],
    col: [u32; 4],
    tex_ix: usize,
) -> Seq<Vertex>
    decreases ring.len(),
{
    if ring.len() < 2 {
        Seq::empty()
    } else {
        fan_vertices(centre, ring.drop_last(), uv, col, tex_ix) + seq![
            vertex_at(centre, uv, col, TexType::Texture, tex_ix),
            vertex_at(ring[ring.len() - 2], uv, col, TexType::Texture, tex_ix),
            vertex_at(ring[ring.len() - 1], uv, col, TexType::Texture, tex_ix),
        ]
    }
}

/// What is drawn for one character of a text.
#[derive(Clone, Copy, Debug, PartialEq, Eq, Structural)]
pub struct GlyphStep {
    /// The glyph drawn: the character's own, or the fallback's where the
    /// character was never cached.
    pub entry: GlyphEntry,
    /// The number of the glyph drawn before this one, for kerning; `None`
    /// for the first glyph drawn and for a glyph that covers no pixel.
    pub kern_after: Option<u32>,
}

/// The character drawn in place of one that was never cached.
pub open spec fn fallback_char() -> char {
    '?'
}

/// Some character of `text` was never cached for the font, so that drawing
/// the text takes the fallback.
pub open spec fn needs_fallback(cache: FontCacheView, font: FontHandle, text: Seq<char>) -> bool {
    exists|i: int| 0 <= i < text.len() && cache.glyph(font, #[trigger] text[i]) is None
}

/// Every character of `text` can be drawn: each is cached for the font, or
/// the fallback is.
pub open spec fn can_draw(cache: FontCacheView, font: FontHandle, text: Seq<char>) -> bool {
    needs_fallback(cache, font, text) ==> cache.glyph(font, fallback_char()) is Some
}

/// The glyph drawn for a character: its own where it is cached, the
/// fallback's where it is not.
pub open spec fn glyph_drawn(cache: FontCacheView, font: FontHandle, c: char) -> GlyphEntry {
    match cache.glyph(font, c) {
        Some(entry) => entry,
        None => cache.glyph(font, fallback_char())->0,
    }
}

/// The glyphs drawn for a text, one for each character.
pub open spec fn glyphs_drawn(cache: FontCacheView, font: FontHandle, text: Seq<char>) -> Seq<
    GlyphEntry,
> {
    text.map_values(|c: char| glyph_drawn(cache, font, c))
}

/// The number of the last glyph among `entries` that covers a pixel.
pub open spec fn last_drawn(entries: Seq<GlyphEntry>) -> Option<u32>
    decreases entries.len(),
{
    if entries.len() == 0 {
        None
    } else if entries.last().rect is Some {
        Some(entries.last().metrics.glyph_id)
    } else {
        last_drawn(entries.drop_last())
    }
}

/// The steps of a text: for each character the glyph drawn, and for a glyph
/// that covers a pixel the number of the one drawn before it.
pub open spec fn steps_of(entries: Seq<GlyphEntry>) -> Seq<GlyphStep> {
    Seq::new(
        entries.len(),
        |i: int|
            GlyphStep {
                entry: entries[i],
                kern_after: if entries[i].rect is Some {
                    last_drawn(entries.take(i))
                } else {
                    None
                },
            },
    )
}

/// How many of the steps draw a glyph that covers a pixel.
pub open spec fn drawn_count(steps: Seq<GlyphStep>) -> nat
    decreases steps.len(),
{
    if steps.len() == 0 {
        0
    } else if steps.last().entry.rect is Some {
        drawn_count(steps.drop_last()) + 1
    } else {
        drawn_count(steps.drop_last())
    }
}

/// The triangles of a text: for each step whose glyph covers a pixel, in the
/// order of the steps, the two triangles of the glyph's box. `boxes` holds
/// the boxes on screen of those steps, one for each and in their order.
/// Every vertex samples the glyph atlas and carries the tint.
pub open spec fn text_vertices(steps: Seq<GlyphStep>, boxes: Seq<[u32; 4]>, tint: [u32; 4]) -> Seq<
    Vertex,
>
    decreases steps.len(),
{
    if steps.len() == 0 {
        Seq::empty()
    } else {
        match steps.last().entry.rect {
            Some(rect) => text_vertices(steps.drop_last(), boxes.drop_last(), tint) + quad_vertices(
                boxes.last(),
                upright_uv(rect),
                tint,
                TexType::Font,
                0,
            ),
            None => text_vertices(steps.drop_last(), boxes, tint),
        }
    }
}

/// The front of a text draws no more glyphs than the whole.
pub proof fn lemma_drawn_count_of_front(steps: Seq<GlyphStep>, n: int)
    requires
        0 <= n <= steps.len(),
    ensures
        drawn_count(steps.take(n)) <= drawn_count(steps),
        n < steps.len() && steps[n].entry.rect is Some ==> drawn_count(steps.take(n))
            < drawn_count(steps),
    decreases steps.len() - n,
{
    if n == steps.len() {
        assert(steps.take(n) =~= steps);
    } else {
        assert(steps.take(n + 1).drop_last() =~= steps.take(n));
        assert(steps.take(n + 1).last() == steps[n]);
        lemma_drawn_count_of_front(steps, n + 1);
    }
}

/// A text is drawn with six vertices for each glyph that covers a pixel, all
/// of them sampling the glyph atlas and carrying the tint; a text without
/// such a glyph, an empty one among them, is drawn with none.
pub proof fn lemma_text_vertices(steps: Seq<GlyphStep>, boxes: Seq<[u32; 4]>, tint: [u32; 4])
    ensures
        text_vertices(steps, boxes, tint).len() == 6 * drawn_count(steps),
        forall|i: int|
            0 <= i < text_vertices(steps, boxes, tint).len() ==> {
                &&& (#[trigger] text_vertices(steps, boxes, tint)[i]).tex_type == TexType::Font
                &&& text_vertices(steps, boxes, tint)[i].tex_ix == 0
                &&& text_vertices(steps, boxes, tint)[i].col == tint
            },
    decreases steps.len(),
{
    if steps.len() > 0 {
        let all = text_vertices(steps, boxes, tint);
        match steps.last().entry.rect {
            Some(rect) => {
                let front = text_vertices(steps.drop_last(), boxes.drop_last(), tint);
                let quad = quad_vertices(boxes.last(), upright_uv(rect), tint, TexType::Font, 0);
                lemma_text_vertices(steps.drop_last(), boxes.drop_last(), tint);
                assert(quad.len() == 6);
                assert forall|i: int| 0 <= i < all.len() implies {
                    &&& (#[trigger] all[i]).tex_type == TexType::Font
                    &&& all[i].tex_ix == 0
                    &&& all[i].col == tint
                } by {
                    if i < front.len() {
                        assert(all[i] == front[i]);
                    } else {
                        assert(all[i] == quad[i - front.len()]);
                    }
                }
            },
            None => {
                lemma_text_vertices(steps.drop_last(), boxes, tint);
            },
        }
    }
}

/// Collects the vertices of one producer and hands them over as one unit.
/// It holds what answers its lookups: of glyphs and of textures.
pub struct RendererController<G: GlyphLookup, T: TexHandleLookup> {
    /// What answers the lookups of glyphs.
    font_cache: G,
    /// What answers the lookups of textures.
    tex_cache: T,
    /// The texture whose pixel is white, for shapes of plain colour.
    white: TexHandle,
    /// The vertices collected since the last `flush`.
    buffer: Vec<Vertex>,
}

impl<G: GlyphLookup, T: TexHandleLookup> RendererController<G, T> {
    /// The vertices collected since the last `flush`.
    pub closed spec fn buffered(self) -> Seq<Vertex> {
        self.buffer@
    }

    /// The handle of the white texture.
    pub closed spec fn white_handle(self) -> TexHandle {
        self.white
    }

    /// The texture cache whose lookups the controller answers with.
    pub closed spec fn tex_view(self) -> TexCacheView {
        self.tex_cache.tex_cache()
    }

    /// The glyph cache whose lookups the controller answers with.
    pub closed spec fn font_view(self) -> FontCacheView {
        self.font_cache.glyph_cache()
    }

    /// What the controller holds for its lookups is fit to answer.
    pub closed spec fn wf(self) -> bool {
        self.tex_cache.lookup_wf() && self.font_cache.glyphs_wf()
    }

    /// The controller has the white texture and the lookups of `other`, and
    /// is fit to answer where `other` is.
    pub open spec fn same_setup(self, other: Self) -> bool {
        &&& self.white_handle() == other.white_handle()
        &&& self.tex_view() == other.tex_view()
        &&& self.font_view() == other.font_view()
        &&& other.wf() ==> self.wf()
    }

    /// A controller with an empty buffer that answers its lookups from
    /// `font_cache` and `tex_cache`. `white` names a texture whose pixels are
    /// white; shapes of plain colour are drawn with it.
    pub fn new(font_cache: G, tex_cache: T, white: TexHandle) -> (c: Self)
        requires
            font_cache.glyphs_wf(),
            tex_cache.lookup_wf(),
        ensures
            c.wf(),
            c.buffered() == Seq::<Vertex>::empty(),
            c.white_handle() == white,
            c.tex_view() == tex_cache.tex_cache(),
            c.font_view() == font_cache.glyph_cache(),
    {
        RendererController { font_cache, tex_cache, white, buffer: Vec::new() }
    }

    /// The handle of the white texture.
    pub fn white(&self) -> (white: TexHandle)
        ensures
            white == self.white_handle(),
    {
        self.white
    }

    /// Lets the controller answer its lookups of textures from `tex_cache`
    /// from now on: from a newer record of the cache, for one.
    pub fn set_tex_cache(&mut self, tex_cache: T)
        requires
            tex_cache.lookup_wf(),
        ensures
            final(self).tex_view() == tex_cache.tex_cache(),
            final(self).font_view() == old(self).font_view(),
            final(self).white_handle() == old(self).white_handle(),
            final(self).buffered() == old(self).buffered(),
            old(self).wf() ==> final(self).wf(),
    {
        self.tex_cache = tex_cache;
    }

    /// Lets the controller answer its lookups of glyphs from `font_cache`
    /// from now on.
    pub fn set_font_cache(&mut self, font_cache: G)
        requires
            font_cache.glyphs_wf(),
        ensures
            final(self).font_view() == font_cache.glyph_cache(),
            final(self).tex_view() == old(self).tex_view(),
            final(self).white_handle() == old(self).white_handle(),
            final(self).buffered() == old(self).buffered(),
            old(self).wf() ==> final(self).wf(),
    {
        self.font_cache = font_cache;
    }

    /// A controller with the same white texture and a copy of the buffer,
    /// that answers its lookups from `font_cache` and `tex_cache`.
    pub fn duplicate(&self, font_cache: G, tex_cache: T) -> (c: Self)
        requires
            font_cache.glyphs_wf(),
            tex_cache.lookup_wf(),
        ensures
            c.wf(),
            c.buffered() == self.buffered(),
            c.white_handle() == self.white_handle(),
            c.tex_view() == tex_cache.tex_cache(),
            c.font_view() == font_cache.glyph_cache(),
    {
        let mut buffer: Vec<Vertex> = Vec::new();
        let mut i: usize = 0;
        while i < self.buffer.len()
            invariant
                i <= self.buffer.len(),
                buffer@ == self.buffer@.take(i as int),
            decreases self.buffer.len() - i,
        {
            buffer.push(self.buffer[i]);
            i += 1;
            assert(buffer@ =~= self.buffer@.take(i as int));
        }
        assert(buffer@ =~= self.buffer@);
        RendererController { font_cache, tex_cache, white: self.white, buffer }
    }

    /// Takes the collected vertices out as one unit, in the order in which
    /// they were collected, and leaves the buffer empty. The unit is what a
    /// producer sends to the renderer in one message.
    pub fn flush(&mut self) -> (unit: Vec<Vertex>)
        ensures
            unit@ == old(self).buffered(),
            final(self).buffered() == Seq::<Vertex>::empty(),
            final(self).same_setup(*old(self)),
    {
        let mut unit = Vec::new();
        core::mem::swap(&mut unit, &mut self.buffer);
        unit
    }

    /// Where the image of `tex` lies, as the page and the two opposite
    /// corners of its block in pixels: left, top, right, bottom.
    pub fn lookup_tex(&self, tex: TexHandle) -> (res: Option<(usize, [u64; 4])>)
        requires
            self.wf(),
        ensures
            match self.tex_view().lookup(tex) {
                Some((page, rect)) => res matches Some((at, corners)) && at == page && corners[0]
                    == rect.x && corners[1] == rect.y && corners[2] == rect.x + rect.w
                    && corners[3] == rect.y + rect.h,
                None => res is None,
            },
    {
        match self.tex_cache.rect_for(tex) {
            None => None,
            Some((page, rect)) => {
                let corners = [
                    rect.x as u64,
                    rect.y as u64,
                    rect.x as u64 + rect.w as u64,
                    rect.y as u64 + rect.h as u64,
                ];
                assert(corners[0] == rect.x && corners[1] == rect.y && corners[2] == rect.x
                    + rect.w && corners[3] == rect.y + rect.h);
                Some((page, corners))
            },
        }
    }

    fn vertex(pos: [u32; 2], uv: [u64; 2], col: [u32; 4], tex_type: TexType, tex_ix: usize) -> (v:
        Vertex)
        ensures
            v == vertex_at(pos, uv, col, tex_type, tex_ix),
    {
        Vertex { pos, tex_coords: uv, col, tex_type, tex_ix }
    }

    fn corner(bounds: &[u32; 4], right: bool, bottom: bool) -> (c: [u32; 2])
        ensures
            c == box_corner(*bounds, right, bottom),
    {
        let c = [
            if right {
                bounds[2]
            } else {
                bounds[0]
            },
            if bottom {
                bounds[3]
            } else {
                bounds[1]
            },
        ];
        assert(c =~= box_corner(*bounds, right, bottom));
        c
    }

    fn corner_in_texture(bounds: &[u64; 4], right: bool, bottom: bool) -> (c: [u64; 2])
        ensures
            c == uv_corner(*bounds, right, bottom),
    {
        let c = [
            if right {
                bounds[2]
            } else {
                bounds[0]
            },
            if bottom {
                bounds[3]
            } else {
                bounds[1]
            },
        ];
        assert(c =~= uv_corner(*bounds, right, bottom));
        c
    }

    fn push_corner(
        &mut self,
        pos: &[u32; 4],
        uv: &[u64; 4],
        col: &[u32; 4],
        tex_type: TexType,
        tex_ix: usize,
        right: bool,
        bottom: bool,
    )
        ensures
            final(self).buffered() == old(self).buffered().push(
                vertex_at(
                    box_corner(*pos, right, bottom),
                    uv_corner(*uv, right, bottom),
                    *col,
                    tex_type,
                    tex_ix,
                ),
            ),
            final(self).same_setup(*old(self)),
    {
        let v = Self::vertex(
            Self::corner(pos, right, bottom),
            Self::corner_in_texture(uv, right, bottom),
            *col,
            tex_type,
            tex_ix,
        );
        self.buffer.push(v);
    }

    /// Collects a box as two triangles. `pos` and `uv` each hold two
    /// opposite corners, on screen and in the texture.
    fn quad(
        &mut self,
        tex_type: TexType,
        tex_ix: usize,
        pos: &[u32; 4],
        uv: &[u64; 4],
        col: &[u32; 4],
    )
        ensures
            final(self).buffered() == old(self).buffered() + quad_vertices(
                *pos,
                *uv,
                *col,
                tex_type,
                tex_ix,
            ),
            final(self).same_setup(*old(self)),
    {
        self.push_corner(pos, uv, col, tex_type, tex_ix, false, false);
        self.push_corner(pos, uv, col, tex_type, tex_ix, true, false);
        self.push_corner(pos, uv, col, tex_type, tex_ix, true, true);
        self.push_corner(pos, uv, col, tex_type, tex_ix, false, false);
        self.push_corner(pos, uv, col, tex_type, tex_ix, false, true);
        self.push_corner(pos, uv, col, tex_type, tex_ix, true, true);
        assert(self.buffer@ =~= old(self).buffer@ + quad_vertices(
            *pos,
            *uv,
            *col,
            tex_type,
            tex_ix,
        ));
    }

    /// The page of the white texture and the middle of its block, where the
    /// white texture is cached.
    fn white_point(&self) -> (res: Option<(usize, [u64; 2])>)
        requires
            self.wf(),
        ensures
            match self.tex_view().lookup(self.white_handle()) {
                Some((page, white)) => res == Some((page, middle_uv(white))),
                None => res is None,
            },
    {
        match self.tex_cache.rect_for(self.white) {
            Some((page, white)) => {
                let uv: [u64; 2] = [
                    2 * (white.x as u64) + white.w as u64,
                    2 * (white.y as u64) + white.h as u64,
                ];
                assert(uv =~= middle_uv(white));
                Some((page, uv))
            },
            None => None,
        }
    }

    /// Collects a line of plain colour as two triangles. `corners` are the
    /// left and the right of the line's start, then the left and the right of
    /// its end. Every vertex samples the middle of the white texture. Where
    /// the white texture is not cached, nothing is collected and the answer
    /// is an error.
    pub fn line(&mut self, corners: &[[u32; 2]; 4], col: &[u32; 4]) -> (res: Result<
        (),
        RenderTextureError,
    >)
        requires
            old(self).wf(),
        ensures
            match old(self).tex_view().lookup(old(self).white_handle()) {
                Some((page, white)) => res is Ok && final(self).buffered() == old(
                    self,
                ).buffered() + line_vertices(*corners, middle_uv(white), *col, page),
                None => res is Err && final(self).buffered() == old(self).buffered(),
            },
            final(self).same_setup(*old(self)),
    {
        let (page, uv) = match self.white_point() {
            Some(found) => found,
            None => {
                return Err(RenderTextureError);
            },
        };
        self.buffer.push(Self::vertex(corners[0], uv, *col, TexType::Texture, page));
        self.buffer.push(Self::vertex(corners[1], uv, *col, TexType::Texture, page));
        self.buffer.push(Self::vertex(corners[2], uv, *col, TexType::Texture, page));
        self.buffer.push(Self::vertex(corners[2], uv, *col, TexType::Texture, page));
        self.buffer.push(Self::vertex(corners[3], uv, *col, TexType::Texture, page));
        self.buffer.push(Self::vertex(corners[1], uv, *col, TexType::Texture, page));
        assert(self.buffer@ =~= old(self).buffer@ + line_vertices(*corners, uv, *col, page));
        Ok(())
    }

    /// Collects a rectangle of plain colour as two triangles. `pos` holds two
    /// opposite corners of the rectangle. Every vertex samples the middle of
    /// the white texture. Where the white texture is not cached, nothing is
    /// collected and the answer is an error.
    pub fn rect(&mut self, pos: &[u32; 4], col: &[u32; 4]) -> (res: Result<(), RenderTextureError>)
        requires
            old(self).wf(),
        ensures
            match old(self).tex_view().lookup(old(self).white_handle()) {
                Some((page, white)) => res is Ok && final(self).buffered() == old(
                    self,
                ).buffered() + quad_vertices(
                    *pos,
                    middle_box_uv(white),
                    *col,
                    TexType::Texture,
                    page,
                ),
                None => res is Err && final(self).buffered() == old(self).buffered(),
            },
            final(self).same_setup(*old(self)),
    {
        let (page, middle) = match self.white_point() {
            Some(found) => found,
            None => {
                return Err(RenderTextureError);
            },
        };
        let uv = [middle[0], middle[1], middle[0], middle[1]];
        proof {
            let white = self.tex_view().lookup(self.white_handle())->0;
            assert(uv =~= middle_box_uv(white.1));
        }
        self.quad(TexType::Texture, page, pos, &uv, col);
        Ok(())
    }

    /// Collects a disc of plain colour as a fan of wedges around `centre`,
    /// one for each two neighbours on `ring`. A circle of `n` segments is the
    /// fan over the `n + 1` points that close its outline. Every vertex
    /// samples the middle of the white texture. Where the white texture is
    /// not cached, nothing is collected and the answer is an error.
    pub fn circle(&mut self, centre: &[u32; 2], ring: &[[u32; 2]], col: &[u32; 4]) -> (res: Result<
        (),
        RenderTextureError,
    >)
        requires
            old(self).wf(),
        ensures
            match old(self).tex_view().lookup(old(self).white_handle()) {
                Some((page, white)) => res is Ok && final(self).buffered() == old(
                    self,
                ).buffered() + fan_vertices(*centre, ring@, middle_uv(white), *col, page),
                None => res is Err && final(self).buffered() == old(self).buffered(),
            },
            final(self).same_setup(*old(self)),
    {
        let (page, uv) = match self.white_point() {
            Some(found) => found,
            None => {
                return Err(RenderTextureError);
            },
        };
        self.fan(page, centre, ring, &uv, col);
        Ok(())
    }

    /// Collects a fan of wedges around `centre` that all sample `uv`.
    fn fan(
        &mut self,
        tex_ix: usize,
        centre: &[u32; 2],
        ring: &[[u32; 2]],
        uv: &[u64; 2],
        col: &[u32; 4],
    )
        ensures
            final(self).buffered() == old(self).buffered() + fan_vertices(
                *centre,
                ring@,
                *uv,
                *col,
                tex_ix,
            ),
            final(self).same_setup(*old(self)),
    {
        let mut i: usize = 1;
        proof {
            if ring.len() >= 1 {
                assert(fan_vertices(*centre, ring@.take(1), *uv, *col, tex_ix) =~= Seq::<
                    Vertex,
                >::empty());
            }
            assert(self.buffer@ + Seq::<Vertex>::empty() =~= self.buffer@);
        }
        while i < ring.len()
            invariant
                1 <= i,
                ring.len() >= 1 ==> i <= ring.len(),
                self.same_setup(*old(self)),
                ring.len() == 0 ==> self.buffer@ == old(self).buffer@,
                ring.len() >= 1 ==> self.buffer@ == old(self).buffer@ + fan_vertices(
                    *centre,
                    ring@.take(i as int),
                    *uv,
                    *col,
                    tex_ix,
                ),
            decreases ring.len() - i,
        {
            proof {
                assert(ring@.take(i + 1).drop_last() =~= ring@.take(i as int));
            }
            self.buffer.push(Self::vertex(*centre, *uv, *col, TexType::Texture, tex_ix));
            self.buffer.push(Self::vertex(ring[i - 1], *uv, *col, TexType::Texture, tex_ix));
            self.buffer.push(Self::vertex(ring[i], *uv, *col, TexType::Texture, tex_ix));
            i += 1;
            assert(self.buffer@ =~= old(self).buffer@ + fan_vertices(
                *centre,
                ring@.take(i as int),
                *uv,
                *col,
                tex_ix,
            ));
        }
        proof {
            if ring.len() >= 1 {
                assert(ring@.take(i as int) =~= ring@);
            } else {
                assert(fan_vertices(*centre, ring@, *uv, *col, tex_ix) =~= Seq::<Vertex>::empty());
                assert(self.buffer@ == old(self).buffer@);
                assert(self.buffer@ =~= old(self).buffer@ + fan_vertices(
                    *centre,
                    ring@,
                    *uv,
                    *col,
                    tex_ix,
                ));
            }
        }
    }

    /// Collects the image of `tex` as two triangles over the box `pos`, whose
    /// two opposite corners it holds, tinted with `tint`. The image's first
    /// row comes to lie on the first vertical value of `pos`. Where the cache
    /// holds no such image, nothing is collected and the answer is an error.
    pub fn tex(&mut self, tex: TexHandle, pos: &[u32; 4], tint: &[u32; 4]) -> (res: Result<
        (),
        RenderTextureError,
    >)
        requires
            old(self).wf(),
        ensures
            match old(self).tex_view().lookup(tex) {
                Some((page, rect)) => res is Ok && final(self).buffered() == old(
                    self,
                ).buffered() + quad_vertices(
                    *pos,
                    flipped_uv(rect),
                    *tint,
                    TexType::Texture,
                    page,
                ),
                None => res is Err && final(self).buffered() == old(self).buffered(),
            },
            final(self).same_setup(*old(self)),
    {
        let (page, rect) = match self.tex_cache.rect_for(tex) {
            Some(found) => found,
            None => {
                return Err(RenderTextureError);
            },
        };
        let uv: [u64; 4] = [
            2 * (rect.x as u64),
            2 * (rect.y as u64 + rect.h as u64),
            2 * (rect.x as u64 + rect.w as u64),
            2 * (rect.y as u64),
        ];
        assert(uv =~= flipped_uv(rect));
        self.quad(TexType::Texture, page, pos, &uv, tint);
        Ok(())
    }

    /// Collects the box of one glyph as two triangles over the box `pos`,
    /// whose two opposite corners it holds. `rect` is the block of the
    /// glyph's bitmap in the atlas.
    pub fn glyph(&mut self, rect: Rect, pos: &[u32; 4], tint: &[u32; 4])
        ensures
            final(self).buffered() == old(self).buffered() + quad_vertices(
                *pos,
                upright_uv(rect),
                *tint,
                TexType::Font,
                0,
            ),
            final(self).same_setup(*old(self)),
    {
        let uv: [u64; 4] = [
            2 * (rect.x as u64),
            2 * (rect.y as u64),
            2 * (rect.x as u64 + rect.w as u64),
            2 * (rect.y as u64 + rect.h as u64),
        ];
        assert(uv =~= upright_uv(rect));
        self.quad(TexType::Font, 0, pos, &uv, tint);
    }

    /// Whether every character of `text` can be drawn with the font: each
    /// is cached for it, or the glyph of `?` is.
    pub fn can_draw_text(&self, font_handle: FontHandle, text: &str) -> (drawable: bool)
        requires
            self.wf(),
        ensures
            drawable == can_draw(self.font_view(), font_handle, text@),
    {
        if self.font_cache.get_glyph(font_handle, '?').is_some() {
            return true;
        }
        let n = text.unicode_len();
        let mut i: usize = 0;
        while i < n
            invariant
                i <= n,
                n == text@.len(),
                self.wf(),
                self.font_view().glyph(font_handle, fallback_char()) is None,
                forall|k: int| 0 <= k < i ==> self.font_view().glyph(font_handle, #[trigger] text@[k]) is Some,
            decreases n - i,
        {
            if self.font_cache.get_glyph(font_handle, text.get_char(i)).is_none() {
                assert(self.font_view().glyph(font_handle, text@[i as int]) is None);
                return false;
            }
            i += 1;
        }
        true
    }

    /// Walks a text and says, character by character, what is drawn: the
    /// character's cached glyph, or the glyph of `?` where the character was
    /// never cached for the font; and for each glyph that covers a pixel the
    /// glyph drawn before it, with which it is kerned. The glyph of `?` has to
    /// be cached where some character of the text is not.
    pub fn text(&self, font_handle: FontHandle, text: &str) -> (steps: Vec<GlyphStep>)
        requires
            self.wf(),
            can_draw(self.font_view(), font_handle, text@),
        ensures
            steps@ == steps_of(glyphs_drawn(self.font_view(), font_handle, text@)),
    {
        let fallback = self.font_cache.get_glyph(font_handle, '?');
        let ghost entries = glyphs_drawn(self.font_view(), font_handle, text@);
        let n = text.unicode_len();
        let mut steps: Vec<GlyphStep> = Vec::new();
        let mut last_glyph_id: Option<u32> = None;
        let mut i: usize = 0;
        assert(entries.take(0) =~= Seq::<GlyphEntry>::empty());
        while i < n
            invariant
                i <= n,
                n == text@.len(),
                self.wf(),
                entries.len() == n,
                entries == glyphs_drawn(self.font_view(), font_handle, text@),
                can_draw(self.font_view(), font_handle, text@),
                fallback == self.font_view().glyph(font_handle, fallback_char()),
                steps.len() == i,
                forall|k: int| 0 <= k < i ==> #[trigger] steps[k] == steps_of(entries)[k],
                last_glyph_id == last_drawn(entries.take(i as int)),
            decreases n - i,
        {
            let c = text.get_char(i);
            let entry = match self.font_cache.get_glyph(font_handle, c) {
                Some(entry) => entry,
                None => {
                    assert(self.font_view().glyph(font_handle, text@[i as int]) is None);
                    match fallback {
                        Some(entry) => entry,
                        None => vstd::pervasive::unreached(),
                    }
                },
            };
            assert(entry == entries[i as int]);
            proof {
                assert(entries.take(i + 1).drop_last() =~= entries.take(i as int));
                assert(entries.take(i + 1).last() == entry);
            }
            if entry.rect.is_some() {
                steps.push(GlyphStep { entry, kern_after: last_glyph_id });
                last_glyph_id = Some(entry.metrics.glyph_id);
            } else {
                steps.push(GlyphStep { entry, kern_after: None });
            }
            i += 1;
        }
        assert(steps@ =~= steps_of(entries));
        steps
    }

    /// Collects the triangles of a text: for each step whose glyph covers a
    /// pixel, in the order of the steps, the box of that glyph as two
    /// triangles that sample the glyph's block in the atlas and carry the
    /// tint. `boxes` holds the boxes on screen of those steps, one for each
    /// and in their order. A text without such a step collects nothing.
    pub fn text_quads(&mut self, steps: &[GlyphStep], boxes: &[[u32; 4]], tint: &[u32; 4])
        requires
            boxes@.len() == drawn_count(steps@),
        ensures
            final(self).buffered() == old(self).buffered() + text_vertices(steps@, boxes@, *tint),
            final(self).same_setup(*old(self)),
    {
        let mut i: usize = 0;
        let mut b: usize = 0;
        proof {
            assert(steps@.take(0) =~= Seq::<GlyphStep>::empty());
            assert(self.buffer@ + Seq::<Vertex>::empty() =~= self.buffer@);
        }
        while i < steps.len()
            invariant
                i <= steps.len(),
                b <= boxes.len(),
                boxes@.len() == drawn_count(steps@),
                b == drawn_count(steps@.take(i as int)),
                self.same_setup(*old(self)),
                self.buffer@ == old(self).buffer@ + text_vertices(
                    steps@.take(i as int),
                    boxes@.take(b as int),
                    *tint,
                ),
            decreases steps.len() - i,
        {
            proof {
                lemma_drawn_count_of_front(steps@, i as int);
                assert(steps@.take(i + 1).drop_last() =~= steps@.take(i as int));
                assert(steps@.take(i + 1).last() == steps[i as int]);
            }
            match steps[i].entry.rect {
                Some(rect) => {
                    proof {
                        assert(boxes@.take(b + 1).drop_last() =~= boxes@.take(b as int));
                        assert(boxes@.take(b + 1).last() == boxes[b as int]);
                    }
                    let ghost before = self.buffer@;
                    self.glyph(rect, &boxes[b], tint);
                    b += 1;
                    assert(self.buffer@ =~= old(self).buffer@ + text_vertices(
                        steps@.take(i + 1),
                        boxes@.take(b as int),
                        *tint,
                    ));
                },
                None => {},
            }
            i += 1;
        }
        proof {
            assert(steps@.take(i as int) =~= steps@);
            assert(boxes@.take(b as int) =~= boxes@);
        }
    }
}

} // verus!
