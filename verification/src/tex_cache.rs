//! The texture cache: a growing list of atlas pages and the handles of the
//! images packed into them.
//!
//! The cache keeps the bookkeeping only. Creating a page's texture and
//! writing pixels into it is the caller's part: `cache_image` says where an
//! image went and whether its page is new. No two images of a page share a
//! pixel: `lemma_images_disjoint`.
//!
//! Beside the pages the cache keeps a record with one entry for each handle
//! it has issued, which says what the handle stands for. `get_tex_lookup`
//! hands out a copy of it, so that lookups can go on while the cache is
//! written. The number of the next handle is the length of the record, so
//! handles cannot run out before memory does.

use vstd::prelude::*;
use crate::binary_tree::{find_rect, has_fit, pairwise_disjoint, split_leaf, BinaryTreeNode};
use crate::lookup::{lemma_first_of_insert, lemma_first_of_listed};
use crate::rect::Rect;
use crate::tex::{CacheTexError, TexHandle};

verus! {

/// One page of the atlas: its size in pixels and its packing tree.
pub struct AtlasPage {
    width: u32,
    height: u32,
    tree: BinaryTreeNode,
}

impl AtlasPage {
    /// The tree is well formed and spans the page from its origin.
    pub closed spec fn wf(self) -> bool {
        &&& self.tree.wf()
        &&& self.tree.extent() == (Rect { x: 0, y: 0, w: self.width, h: self.height })
    }
}

/// Where a cached image went.
#[derive(Clone, Copy, Debug, PartialEq, Eq, Structural)]
pub struct Placement {
    /// The handle issued for the image.
    pub handle: TexHandle,
    /// The index of the page that holds it.
    pub page: usize,
    /// Its block inside that page, in pixels.
    pub rect: Rect,
    /// The page was created for this image.
    pub new_page: bool,
}

/// What a texture cache stands for.
pub struct TexCacheView {
    /// The most pages the cache may create; 0 for no limit.
    pub max_pages: nat,
    /// The size of the pages created from now on.
    pub page_size: (u32, u32),
    /// The packing trees of the pages, in the order of their creation.
    pub pages: Seq<BinaryTreeNode>,
    /// The handle the next cached image gets.
    pub next_handle: nat,
}

impl TexCacheView {
    /// The block of `handle` in page `page`, if the page holds the handle.
    pub open spec fn rect_in_page(self, page: int, handle: TexHandle) -> Option<Rect> {
        find_rect(self.pages[page].placements(), handle)
    }

    /// Page `page` is the first with a free leaf large enough for a `w` by
    /// `h` image.
    pub open spec fn is_first_page_with_room(self, page: int, w: u32, h: u32) -> bool {
        &&& 0 <= page < self.pages.len()
        &&& has_fit(self.pages[page].leaves(), w, h)
        &&& forall|i: int| 0 <= i < page ==> !has_fit((#[trigger] self.pages[i]).leaves(), w, h)
    }

    /// Some page has a free leaf large enough for a `w` by `h` image.
    pub open spec fn has_room(self, w: u32, h: u32) -> bool {
        exists|i: int| 0 <= i < self.pages.len() && has_fit((#[trigger] self.pages[i]).leaves(), w, h)
    }

    /// The cap on the number of pages allows one more.
    pub open spec fn may_grow(self) -> bool {
        self.max_pages == 0 || self.pages.len() < self.max_pages
    }

    /// `after` is this cache's list of pages once a `w` by `h` image was
    /// packed into the existing page `p.page`: that page's tree took the
    /// block, every other page is as it was.
    pub open spec fn packed_into_page(self, after: TexCacheView, p: Placement, w: u32, h: u32) -> bool {
        &&& self.is_first_page_with_room(p.page as int, w, h)
        &&& after.pages.len() == self.pages.len()
        &&& forall|i: int|
            0 <= i < self.pages.len() && i != p.page ==> #[trigger] after.pages[i] == self.pages[i]
        &&& self.pages[p.page as int].packed(after.pages[p.page as int], w, h, p.handle, p.rect)
        &&& after.pages[p.page as int].extent() == self.pages[p.page as int].extent()
    }

    /// `after` is this cache's list of pages once a `w` by `h` image was
    /// given a page of its own: a page of the configured size was added at
    /// the end, with the image in its top-left corner.
    pub open spec fn packed_into_new_page(self, after: TexCacheView, p: Placement, w: u32, h: u32) -> bool {
        let whole = Rect { x: 0, y: 0, w: self.page_size.0, h: self.page_size.1 };
        &&& p.page == self.pages.len()
        &&& p.rect == (Rect { x: 0, y: 0, w, h })
        &&& after.pages.len() == self.pages.len() + 1
        &&& forall|i: int| 0 <= i < self.pages.len() ==> #[trigger] after.pages[i] == self.pages[i]
        &&& after.pages[p.page as int].extent() == whole
        &&& after.pages[p.page as int].leaves() == split_leaf(seq![whole], 0, w, h)
        &&& after.pages[p.page as int].placements() == seq![(p.handle, p.rect)]
    }

    /// The answer a lookup of `handle` gives: the first page that holds the
    /// handle, with the handle's block there, or `None` where no page does.
    pub open spec fn is_lookup(self, handle: TexHandle, res: Option<(usize, Rect)>) -> bool {
        match res {
            Some((page, rect)) => {
                &&& page < self.pages.len()
                &&& self.rect_in_page(page as int, handle) == Some(rect)
                &&& forall|i: int| 0 <= i < page ==> #[trigger] self.rect_in_page(i, handle) is None
            },
            None => forall|i: int|
                0 <= i < self.pages.len() ==> #[trigger] self.rect_in_page(i, handle) is None,
        }
    }

    /// `after` and `res` are what caching a `w` by `h` image makes of this
    /// cache and answers.
    ///
    /// An image larger than the configured page size is turned away with
    /// `CacheTooSmall` and changes nothing. Any other image is issued the
    /// next handle. It goes into the first page that has room for it; where
    /// none has, into the corner of a new page; and where the cap on pages
    /// forbids that, the call fails with `NoSpace`, the handle spent and the
    /// pages untouched. A cached image is found under its handle, inside its
    /// page; whatever was found under another handle before is found there
    /// still.
    pub open spec fn image_cached(
        self,
        after: TexCacheView,
        w: u32,
        h: u32,
        res: Result<Placement, CacheTexError>,
    ) -> bool {
        let fits_page = w <= self.page_size.0 && h <= self.page_size.1;
        &&& after.max_pages == self.max_pages
        &&& after.page_size == self.page_size
        &&& res is Ok <==> fits_page && (self.has_room(w, h) || self.may_grow())
        &&& match res {
            Ok(p) => {
                &&& p.handle@ == self.next_handle
                &&& after.next_handle == self.next_handle + 1
                &&& p.new_page == !self.has_room(w, h)
                &&& if p.new_page {
                    self.packed_into_new_page(after, p, w, h)
                } else {
                    self.packed_into_page(after, p, w, h)
                }
                &&& p.rect.within(after.pages[p.page as int].extent())
                &&& after.is_lookup(p.handle, Some((p.page, p.rect)))
            },
            Err(e) => {
                &&& after.pages == self.pages
                &&& if fits_page {
                    e is NoSpace && after.next_handle == self.next_handle + 1
                } else {
                    e is CacheTooSmall && after.next_handle == self.next_handle
                }
            },
        }
        &&& forall|t: TexHandle, found: Option<(usize, Rect)>|
            t@ != self.next_handle && self.is_lookup(t, found) ==> #[trigger] after.is_lookup(
                t,
                found,
            )
    }

    /// A lookup has one answer.
    pub proof fn lemma_lookup_unique(
        self,
        handle: TexHandle,
        a: Option<(usize, Rect)>,
        b: Option<(usize, Rect)>,
    )
        requires
            self.is_lookup(handle, a),
            self.is_lookup(handle, b),
        ensures
            a == b,
    {
        match (a, b) {
            (Some((i, _)), Some((k, _))) => {
                assert(self.rect_in_page(i as int, handle) is Some);
                assert(self.rect_in_page(k as int, handle) is Some);
            },
            (Some((i, _)), None) => {
                assert(self.rect_in_page(i as int, handle) is Some);
            },
            (None, Some((k, _))) => {
                assert(self.rect_in_page(k as int, handle) is Some);
            },
            (None, None) => {},
        }
    }

    /// The answer a lookup of `handle` gives.
    pub open spec fn lookup(self, handle: TexHandle) -> Option<(usize, Rect)> {
        choose|res: Option<(usize, Rect)>| self.is_lookup(handle, res)
    }

    /// An answer that fits the pages is the answer of the lookup.
    pub proof fn lemma_lookup(self, handle: TexHandle, res: Option<(usize, Rect)>)
        requires
            self.is_lookup(handle, res),
        ensures
            self.lookup(handle) == res,
    {
        self.lemma_lookup_unique(handle, res, self.lookup(handle));
    }

    /// What a lookup answers depends on the pages alone.
    pub proof fn lemma_lookups_follow_pages(self, other: TexCacheView)
        requires
            self.pages == other.pages,
        ensures
            forall|t: TexHandle, found: Option<(usize, Rect)>|
                self.is_lookup(t, found) ==> #[trigger] other.is_lookup(t, found),
    {
        assert forall|t: TexHandle, found: Option<(usize, Rect)>|
            self.is_lookup(t, found) implies #[trigger] other.is_lookup(t, found) by {
            assert forall|i: int| 0 <= i < self.pages.len() implies other.rect_in_page(i, t)
                == self.rect_in_page(i, t) by {}
        }
    }
}

/// `states` and `answers` are what a run of requests makes of a cache:
/// request `i` asks for an image of the size `sizes[i]`, finds the cache as
/// `states[i]`, leaves it as `states[i + 1]` and is answered `answers[i]`.
pub open spec fn is_run(
    states: Seq<TexCacheView>,
    sizes: Seq<(u32, u32)>,
    answers: Seq<Result<Placement, CacheTexError>>,
) -> bool {
    &&& states.len() == sizes.len() + 1
    &&& answers.len() == sizes.len()
    &&& forall|i: int|
        0 <= i < sizes.len() ==> states[i].image_cached(
            states[i + 1],
            sizes[i].0,
            sizes[i].1,
            #[trigger] answers[i],
        )
}

/// Requests change neither the cap on the pages nor the size of new pages,
/// and take no handle back.
pub proof fn lemma_run_keeps_settings(
    states: Seq<TexCacheView>,
    sizes: Seq<(u32, u32)>,
    answers: Seq<Result<Placement, CacheTexError>>,
    a: int,
    b: int,
)
    requires
        is_run(states, sizes, answers),
        0 <= a <= b <= sizes.len(),
    ensures
        states[b].max_pages == states[a].max_pages,
        states[b].page_size == states[a].page_size,
        states[b].next_handle >= states[a].next_handle,
    decreases b - a,
{
    if a < b {
        lemma_run_keeps_settings(states, sizes, answers, a, b - 1);
        assert(states[b - 1].image_cached(
            states[b - 1 + 1],
            sizes[b - 1].0,
            sizes[b - 1].1,
            answers[b - 1],
        ));
    }
}

/// What a lookup of an issued handle answers, it answers after any further
/// requests, and the page it names keeps its extent.
pub proof fn lemma_run_keeps_lookups(
    states: Seq<TexCacheView>,
    sizes: Seq<(u32, u32)>,
    answers: Seq<Result<Placement, CacheTexError>>,
    a: int,
    b: int,
    handle: TexHandle,
    found: Option<(usize, Rect)>,
)
    requires
        is_run(states, sizes, answers),
        0 <= a <= b <= sizes.len(),
        handle@ < states[a].next_handle,
        states[a].is_lookup(handle, found),
    ensures
        states[b].is_lookup(handle, found),
        found matches Some((page, _)) ==> page < states[b].pages.len() && states[b].pages[page as int].extent()
            == states[a].pages[page as int].extent(),
    decreases b - a,
{
    if a < b {
        lemma_run_keeps_lookups(states, sizes, answers, a, b - 1, handle, found);
        lemma_run_keeps_settings(states, sizes, answers, a, b - 1);
        let before = states[b - 1];
        let after = states[b - 1 + 1];
        assert(before.image_cached(after, sizes[b - 1].0, sizes[b - 1].1, answers[b - 1]));
        assert(after.is_lookup(handle, found));
        if let Some((page, _)) = found {
            match answers[b - 1] {
                Ok(p) => {
                    if p.new_page {
                        assert(after.pages[page as int] == before.pages[page as int]);
                    } else if p.page != page {
                        assert(after.pages[page as int] == before.pages[page as int]);
                    }
                },
                Err(_) => {},
            }
        }
    }
}

/// A cache without a cap on its pages takes every image that is no larger
/// than a page: in a run of such requests every answer is a placement, and
/// at the end of the run every one of the images is found under its handle,
/// where its placement says, inside its page.
pub proof fn lemma_uncapped_run_succeeds(
    states: Seq<TexCacheView>,
    sizes: Seq<(u32, u32)>,
    answers: Seq<Result<Placement, CacheTexError>>,
    i: int,
)
    requires
        is_run(states, sizes, answers),
        states[0].max_pages == 0,
        forall|k: int|
            0 <= k < sizes.len() ==> (#[trigger] sizes[k]).0 <= states[0].page_size.0 && sizes[k].1
                <= states[0].page_size.1,
        0 <= i < sizes.len(),
    ensures
        answers[i] matches Ok(p) && {
            &&& states.last().is_lookup(p.handle, Some((p.page, p.rect)))
            &&& p.page < states.last().pages.len()
            &&& p.rect.within(states.last().pages[p.page as int].extent())
        },
{
    lemma_run_keeps_settings(states, sizes, answers, 0, i);
    assert(sizes[i].0 <= states[0].page_size.0);
    assert(states[i].image_cached(states[i + 1], sizes[i].0, sizes[i].1, answers[i]));
    assert(states[i].may_grow());
    let p = answers[i]->Ok_0;
    lemma_run_keeps_lookups(
        states,
        sizes,
        answers,
        i + 1,
        sizes.len() as int,
        p.handle,
        Some((p.page, p.rect)),
    );
}

/// A request that finds no room changes no lookup: whatever was found under
/// a handle before is found there after, and the pages are the same.
pub proof fn lemma_no_space_keeps_lookups(
    before: TexCacheView,
    after: TexCacheView,
    w: u32,
    h: u32,
    res: Result<Placement, CacheTexError>,
    handle: TexHandle,
    found: Option<(usize, Rect)>,
)
    requires
        before.image_cached(after, w, h, res),
        res is Err,
        before.is_lookup(handle, found),
    ensures
        after.pages == before.pages,
        after.is_lookup(handle, found),
{
    before.lemma_lookups_follow_pages(after);
}

/// An image decoded to four bytes for each pixel: red, green, blue and
/// alpha, row by row from the top.
#[derive(Clone, Debug, PartialEq, Eq)]
pub struct DecodedImage {
    pub width: u32,
    pub height: u32,
    pub pixels: Vec<u8>,
}

/// An image that was decoded and cached: where it went, and its pixels for
/// the caller to write there.
#[derive(Clone, Debug, PartialEq, Eq)]
pub struct CachedImage {
    pub placement: Placement,
    pub image: DecodedImage,
}

/// The image decoded from `bytes`: the format is the one `image::guess_format`
/// finds in the crate's own table of signatures, the decoder the one
/// `image::load_from_memory_with_format` builds for that format, and the
/// result is brought to eight bits for each of red, green, blue and alpha by
/// `DynamicImage::into_rgba8`. The value is width, height and the pixels'
/// bytes, or `None` where the format is not recognised or the bytes cannot be
/// decoded.
pub uninterp spec fn decoded_rgba(bytes: Seq<u8>) -> Option<(u32, u32, Seq<u8>)>;

/// `image::guess_format` followed by `image::load_from_memory_with_format`,
/// with the image converted by `DynamicImage::into_rgba8` and taken apart by
/// `ImageBuffer::dimensions` and `ImageBuffer::into_raw`. Both calls work
/// from what is compiled into the crate, without the decoders and signatures
/// that a process can register, so the answer depends on the bytes alone.
/// An `ImageBuffer` holds at least one byte for each channel of each pixel,
/// so the pixels number no less than four times width times height.
#[verifier::external_body]
fn load_rgba(bytes: &[u8]) -> (res: Result<DecodedImage, image::ImageError>)
    ensures
        match res {
            Ok(img) => {
                &&& decoded_rgba(bytes@) == Some((img.width, img.height, img.pixels@))
                &&& img.pixels@.len() >= 4 * img.width * img.height
            },
            Err(_) => decoded_rgba(bytes@) is None,
        },
{
    let format = match image::guess_format(bytes) {
        Ok(format) => format,
        Err(e) => return Err(e),
    };
    match image::load_from_memory_with_format(bytes, format) {
        Ok(img) => {
            let rgba = img.into_rgba8();
            let (width, height) = rgba.dimensions();
            Ok(DecodedImage { width, height, pixels: rgba.into_raw() })
        },
        Err(e) => Err(e),
    }
}

/// The pixels of a decoded image: of the bytes that the decoder hands out,
/// the four for each pixel of the image.
pub open spec fn pixels_of(w: u32, h: u32, decoded: Seq<u8>) -> Seq<u8> {
    decoded.take(4 * w * h)
}

/// Decodes an image file held in memory, to four bytes for each pixel.
/// Bytes that are no image in a known format are answered with
/// `ImageError`.
pub fn decode_image(bytes: &[u8]) -> (res: Result<DecodedImage, CacheTexError>)
    ensures
        match res {
            Ok(img) => {
                &&& decoded_rgba(bytes@) matches Some((w, h, decoded)) && img.width == w
                    && img.height == h && img.pixels@ == pixels_of(w, h, decoded)
                &&& img.pixels@.len() == 4 * img.width * img.height
            },
            Err(e) => e is ImageError && decoded_rgba(bytes@) is None,
        },
{
    match load_rgba(bytes) {
        Ok(img) => {
            let width = img.width;
            let height = img.height;
            let mut pixels = img.pixels;
            let wanted: u64 = 4 * (width as u64);
            let held = pixels.len();
            assert(held >= 4 * width * height);
            assert(4 * width * height == wanted * height) by (nonlinear_arith)
                requires
                    wanted == 4 * width,
            ;
            assert(wanted * height <= u128::MAX) by (nonlinear_arith)
                requires
                    wanted <= 0x4_0000_0000,
                    height <= 0xffff_ffff,
            ;
            let wanted: u128 = (wanted as u128) * (height as u128);
            pixels.truncate(wanted as usize);
            Ok(DecodedImage { width, height, pixels })
        },
        Err(e) => Err(CacheTexError::ImageError(e)),
    }
}

/// The bookkeeping of a texture cache.
pub struct GliumTexCache {
    /// The most pages to create; 0 for no limit.
    max_cache_textures: usize,
    /// The size of the pages created from now on.
    cache_texture_size: (u32, u32),
    /// The pages, in the order of their creation.
    bin_pack_trees: Vec<AtlasPage>,
    /// The handle the next cached image gets.
    next_tex_handle: TexHandle,
    /// What each handle issued so far stands for: the page and the block of
    /// its image, or `None` where its request found no room.
    cached: Vec<Option<(usize, Rect)>>,
}

impl View for GliumTexCache {
    type V = TexCacheView;

    closed spec fn view(&self) -> TexCacheView {
        TexCacheView {
            max_pages: self.max_cache_textures as nat,
            page_size: self.cache_texture_size,
            pages: self.bin_pack_trees@.map_values(|p: AtlasPage| p.tree),
            next_handle: self.next_tex_handle.0 as nat,
        }
    }
}

impl GliumTexCache {
    /// Every page is well formed and spans from its origin, and every handle
    /// in a page was issued by this cache.
    spec fn pages_wf(self) -> bool {
        &&& forall|i: int| 0 <= i < self.bin_pack_trees.len() ==> (#[trigger] self.bin_pack_trees[i]).wf()
        &&& forall|i: int, j: int|
            0 <= i < self.bin_pack_trees.len() && 0 <= j < self.bin_pack_trees[i].tree.placements().len()
                ==> (#[trigger] self.bin_pack_trees[i].tree.placements()[j]).0.0
                < self.next_tex_handle.0
    }

    /// The record of the issued handles has one entry for each, and each
    /// entry is what a lookup of its handle answers.
    spec fn record_wf(self) -> bool {
        &&& self.cached.len() == self.next_tex_handle.0
        &&& forall|h: int|
            0 <= h < self.cached.len() ==> self@.is_lookup(
                TexHandle(h as usize),
                #[trigger] self.cached[h],
            )
    }

    /// Every page is well formed and spans from its origin, every handle in
    /// a page was issued by this cache, and the record of the issued handles
    /// agrees with the pages.
    pub closed spec fn wf(self) -> bool {
        self.pages_wf() && self.record_wf()
    }

    /// An empty cache with pages of 2048 by 2048 pixels and no limit on
    /// their number.
    pub fn new() -> (cache: GliumTexCache)
        ensures
            cache.wf(),
            cache@ == (TexCacheView {
                max_pages: 0,
                page_size: (2048u32, 2048u32),
                pages: Seq::empty(),
                next_handle: 0,
            }),
    {
        let cache = GliumTexCache {
            max_cache_textures: 0,
            cache_texture_size: (2048, 2048),
            bin_pack_trees: Vec::new(),
            next_tex_handle: TexHandle(0),
            cached: Vec::new(),
        };
        assert(cache@.pages =~= Seq::empty());
        cache
    }
    /// Sets the most pages the cache may create; 0 lifts the limit. Pages that
    /// exist stay, also where they are more than the new limit.
    pub fn set_max_cache_textures(&mut self, max_cache_textures: usize)
        ensures
            final(self)@ == (TexCacheView { max_pages: max_cache_textures as nat, ..old(self)@ }),
            old(self).wf() ==> final(self).wf(),
    {
        self.max_cache_textures = max_cache_textures;
        proof {
            old(self)@.lemma_lookups_follow_pages(self@);
        }
    }

    /// Sets the size of the pages created from now on. Pages that exist keep
    /// their size.
    pub fn set_cache_texture_size(&mut self, w: u32, h: u32)
        ensures
            final(self)@ == (TexCacheView { page_size: (w, h), ..old(self)@ }),
            old(self).wf() ==> final(self).wf(),
    {
        self.cache_texture_size = (w, h);
        proof {
            old(self)@.lemma_lookups_follow_pages(self@);
        }
    }

    /// The most pages the cache may create; 0 for no limit.
    pub fn max_cache_textures(&self) -> (n: usize)
        ensures
            n == self@.max_pages,
    {
        self.max_cache_textures
    }

    /// The size of the pages created from now on.
    pub fn cache_texture_size(&self) -> (size: (u32, u32))
        ensures
            size == self@.page_size,
    {
        self.cache_texture_size
    }

    /// The handle the next cached image gets.
    pub fn next_tex_handle(&self) -> (handle: TexHandle)
        ensures
            handle@ == self@.next_handle,
    {
        self.next_tex_handle
    }

    /// The number of pages created so far.
    pub fn page_count(&self) -> (n: usize)
        ensures
            n == self@.pages.len(),
    {
        self.bin_pack_trees.len()
    }

    /// The size in pixels of page `ix`, or `None` where there is no such page.
    pub fn page_size(&self, ix: usize) -> (size: Option<(u32, u32)>)
        requires
            self.wf(),
        ensures
            size is Some <==> ix < self@.pages.len(),
            size matches Some((w, h)) ==> self@.pages[ix as int].extent() == (Rect {
                x: 0,
                y: 0,
                w,
                h,
            }),
    {
        if ix < self.bin_pack_trees.len() {
            Some((self.bin_pack_trees[ix].width, self.bin_pack_trees[ix].height))
        } else {
            None
        }
    }

    /// Where the image of `tex` lies: the index of its page and its block
    /// there, or `None` where the cache holds no such image.
    pub fn rect_for(&self, tex: TexHandle) -> (res: Option<(usize, Rect)>)
        ensures
            res == self@.lookup(tex),
            self@.is_lookup(tex, res),
            self.wf() ==> (res matches Some((page, rect)) ==> {
                &&& rect.within(self@.pages[page as int].extent())
                &&& self@.pages[page as int].extent().bounded()
            }),
    {
        let res = self.find(tex);
        proof {
            self@.lemma_lookup(tex, res);
        }
        res
    }

    /// The search behind `rect_for`: the pages are asked in the order of
    /// their creation.
    fn find(&self, tex: TexHandle) -> (res: Option<(usize, Rect)>)
        ensures
            self@.is_lookup(tex, res),
            self.wf() ==> (res matches Some((page, rect)) ==> {
                &&& rect.within(self@.pages[page as int].extent())
                &&& self@.pages[page as int].extent().bounded()
            }),
    {
        let mut i: usize = 0;
        while i < self.bin_pack_trees.len()
            invariant
                i <= self.bin_pack_trees.len(),
                forall|k: int| 0 <= k < i ==> #[trigger] self@.rect_in_page(k, tex) is None,
            decreases self.bin_pack_trees.len() - i,
        {
            let found = self.bin_pack_trees[i].tree.rect_for(tex);
            if let Some(rect) = found {
                proof {
                    if self.wf() {
                        let tree = self.bin_pack_trees[i as int].tree;
                        assert(self.bin_pack_trees[i as int].wf());
                        lemma_first_of_listed(tree.placements(), tex);
                        let at = choose|at: int|
                            0 <= at < tree.placements().len() && #[trigger] tree.placements()[at]
                                == (tex, rect);
                        tree.lemma_blocks_within_extent();
                        assert(tree.placements()[at].1.within(tree.extent()));
                    }
                }
                return Some((i, rect));
            }
            i += 1;
        }
        None
    }

    /// Whether the cache holds an image under `tex`.
    pub fn is_tex_cached(&self, tex: TexHandle) -> (cached: bool)
        ensures
            cached == (self@.lookup(tex) is Some),
            cached <==> exists|i: int|
                0 <= i < self@.pages.len() && #[trigger] self@.rect_in_page(i, tex) is Some,
    {
        self.rect_for(tex).is_some()
    }

    /// Caches a `w` by `h` image and says where it went: the handle issued
    /// for it, its page and its block there, and whether the page was created
    /// for it. The caller creates the texture of a new page and writes the
    /// image's pixels into the block.
    ///
    /// An image larger than the configured page size is turned away with
    /// `CacheTooSmall` before anything changes. Otherwise the image gets the
    /// next handle and goes into the first page that has room for it; where
    /// none has, into the corner of a new page of the configured size; and
    /// where the cap on pages forbids that, the call fails with `NoSpace`,
    /// the handle spent and the pages untouched. The blocks of all other
    /// handles stay where they are.
    pub fn cache_image(&mut self, w: u32, h: u32) -> (res: Result<Placement, CacheTexError>)
        requires
            old(self).wf(),
        ensures
            final(self).wf(),
            old(self)@.image_cached(final(self)@, w, h, res),
    {
        let ghost before = *self;
        let res = self.place(w, h);
        if let Ok(p) = &res {
            self.cached[p.handle.0] = Some((p.page, p.rect));
        }
        proof {
            let handle = TexHandle(before.next_tex_handle.0);
            assert forall|n: int| 0 <= n < self.cached.len() implies self@.is_lookup(
                TexHandle(n as usize),
                #[trigger] self.cached[n],
            ) by {
                if n < before.cached.len() {
                    assert(self.cached[n] == before.cached[n]);
                    assert(before@.is_lookup(TexHandle(n as usize), before.cached[n]));
                    if res is Err {
                        before@.lemma_lookups_follow_pages(self@);
                    }
                } else if res is Err {
                    assert forall|k: int| 0 <= k < self@.pages.len() implies #[trigger] self@.rect_in_page(
                        k,
                        handle,
                    ) is None by {
                        Self::lemma_unissued(before, k, handle);
                    }
                }
            }
        }
        res
    }

    /// Finds the place of a `w` by `h` image as `cache_image` says, and opens
    /// an entry in the record for the handle it issues.
    fn place(&mut self, w: u32, h: u32) -> (res: Result<Placement, CacheTexError>)
        requires
            old(self).pages_wf(),
            old(self).cached.len() == old(self).next_tex_handle.0,
        ensures
            final(self).pages_wf(),
            final(self).cached.len() == final(self).next_tex_handle.0,
            old(self)@.image_cached(final(self)@, w, h, res),
            final(self).cached@ == if w <= old(self)@.page_size.0 && h <= old(self)@.page_size.1 {
                old(self).cached@.push(None)
            } else {
                old(self).cached@
            },
    {
        if w > self.cache_texture_size.0 || h > self.cache_texture_size.1 {
            return Err(CacheTexError::CacheTooSmall);
        }
        let tex_handle = self.next_tex_handle;
        self.cached.push(None);
        self.next_tex_handle = TexHandle(self.cached.len());
        let ghost before = old(self)@;
        assert(self@.pages == before.pages);
        let mut i: usize = 0;
        while i < self.bin_pack_trees.len()
            invariant
                i <= self.bin_pack_trees.len(),
                old(self).pages_wf(),
                before == old(self)@,
                self.cached@ == old(self).cached@.push(None),
                old(self).cached.len() == tex_handle.0,
                self.bin_pack_trees@ == old(self).bin_pack_trees@,
                self.max_cache_textures == old(self).max_cache_textures,
                self.cache_texture_size == old(self).cache_texture_size,
                self.next_tex_handle.0 == tex_handle.0 + 1,
                tex_handle == old(self).next_tex_handle,
                w <= self.cache_texture_size.0,
                h <= self.cache_texture_size.1,
                forall|k: int| 0 <= k < i ==> !has_fit((#[trigger] before.pages[k]).leaves(), w, h),
            decreases self.bin_pack_trees.len() - i,
        {
            let ghost tree_before = self.bin_pack_trees[i as int].tree;
            assert(old(self).bin_pack_trees[i as int].wf());
            assert(before.pages[i as int] == tree_before);
            let packed = self.bin_pack_trees[i].tree.pack_rect(w, h, tex_handle);
            match packed {
                Ok(rect) => {
                    let p = Placement { handle: tex_handle, page: i, rect, new_page: false };
                    proof {
                        let tree_after = self.bin_pack_trees[i as int].tree;
                        let after = self@;
                        assert(after.pages.len() == before.pages.len());
                        assert(after.pages[i as int] == tree_after);
                        assert forall|k: int|
                            0 <= k < before.pages.len() && k != i implies #[trigger] after.pages[k]
                            == before.pages[k] by {
                            assert(self.bin_pack_trees[k] == old(self).bin_pack_trees[k]);
                        }
                        assert(before.is_first_page_with_room(i as int, w, h));
                        assert(before.has_room(w, h));
                        Self::lemma_packed_page(
                            *old(self),
                            *self,
                            i as int,
                            w,
                            h,
                            tex_handle,
                            rect,
                        );
                    }
                    return Ok(p);
                },
                Err(_) => {
                    assert(self.bin_pack_trees@ =~= old(self).bin_pack_trees@);
                },
            }
            i += 1;
        }
        assert(self@.pages == before.pages);
        assert(!before.has_room(w, h));
        if self.max_cache_textures > 0 && self.bin_pack_trees.len() >= self.max_cache_textures {
            proof {
                before.lemma_lookups_follow_pages(self@);
            }
            return Err(CacheTexError::NoSpace);
        }
        let whole = Rect { x: 0, y: 0, w: self.cache_texture_size.0, h: self.cache_texture_size.1 };
        let mut tree = BinaryTreeNode::new(whole);
        let packed = tree.pack_rect(w, h, tex_handle);
        assert(seq![whole][0].fits(w, h));
        let rect = match packed {
            Ok(rect) => rect,
            Err(_) => vstd::pervasive::unreached(),
        };
        let page = self.bin_pack_trees.len();
        self.bin_pack_trees.push(
            AtlasPage { width: self.cache_texture_size.0, height: self.cache_texture_size.1, tree },
        );
        let p = Placement { handle: tex_handle, page, rect, new_page: true };
        proof {
            let after = self@;
            assert(after.pages =~= before.pages.push(tree));
            assert(tree.placements() =~= seq![(tex_handle, rect)]);
            assert forall|k: int| 0 <= k < after.pages.len() implies #[trigger] before.rect_in_page(
                k,
                tex_handle,
            ) is None || k == page by {
                if k != page {
                    Self::lemma_unissued(*old(self), k, tex_handle);
                }
            }
            tree.lemma_blocks_within_extent();
            assert(tree.placements()[0].1.within(tree.extent()));
            assert(find_rect(tree.placements(), tex_handle) == Some(rect)) by {
                assert(tree.placements()[0] == (tex_handle, rect));
            }
            assert forall|t: TexHandle, found: Option<(usize, Rect)>|
                t@ != before.next_handle && before.is_lookup(t, found) implies #[trigger] after.is_lookup(
                t,
                found,
            ) by {
                assert(find_rect(tree.placements(), t) is None) by {
                    assert(tree.placements().drop_first() =~= Seq::<(TexHandle, Rect)>::empty());
                    assert(find_rect(tree.placements().drop_first(), t) is None);
                }
                assert forall|k: int| 0 <= k < before.pages.len() implies after.rect_in_page(k, t)
                    == before.rect_in_page(k, t) by {
                    assert(after.pages[k] == before.pages[k]);
                }
                assert(after.rect_in_page(page as int, t) is None);
            }
            assert forall|k: int| 0 <= k < page implies #[trigger] after.rect_in_page(
                k,
                tex_handle,
            ) is None by {
                assert(after.pages[k] == before.pages[k]);
                assert(before.rect_in_page(k, tex_handle) is None || k == page);
            }
            assert forall|k: int| 0 <= k < self.bin_pack_trees.len() implies (
            #[trigger] self.bin_pack_trees[k]).wf() by {
                if k < page {
                    assert(self.bin_pack_trees[k] == old(self).bin_pack_trees[k]);
                }
            }
            assert forall|k: int, j: int|
                0 <= k < self.bin_pack_trees.len() && 0 <= j
                    < self.bin_pack_trees[k].tree.placements().len() implies (
            #[trigger] self.bin_pack_trees[k].tree.placements()[j]).0.0
                < self.next_tex_handle.0 by {
                if k < page {
                    assert(self.bin_pack_trees[k] == old(self).bin_pack_trees[k]);
                }
            }
        }
        Ok(p)
    }

    /// Decodes an image file held in memory and caches the image. The answer
    /// holds the pixels beside the placement, for the caller to write them
    /// into the page. Bytes that cannot be decoded are answered with
    /// `ImageError` and change nothing; a decoded image is cached as
    /// `cache_image` caches one of its size.
    pub fn cache_tex_from_bytes(&mut self, bytes: &[u8]) -> (res: Result<
        CachedImage,
        CacheTexError,
    >)
        requires
            old(self).wf(),
        ensures
            final(self).wf(),
            match decoded_rgba(bytes@) {
                None => res matches Err(CacheTexError::ImageError(_)) && final(self)@ == old(
                    self,
                )@,
                Some((w, h, pixels)) => match res {
                    Ok(cached) => {
                        &&& old(self)@.image_cached(final(self)@, w, h, Ok(cached.placement))
                        &&& cached.image.width == w
                        &&& cached.image.height == h
                        &&& cached.image.pixels@ == pixels_of(w, h, pixels)
                        &&& cached.image.pixels@.len() == 4 * w * h
                    },
                    Err(e) => old(self)@.image_cached(final(self)@, w, h, Err(e)),
                },
            },
    {
        let image = match decode_image(bytes) {
            Ok(image) => image,
            Err(e) => {
                return Err(e);
            },
        };
        match self.cache_image(image.width, image.height) {
            Ok(placement) => Ok(CachedImage { placement, image }),
            Err(e) => Err(e),
        }
    }

    /// A record of what every handle stands for now, for lookups only. It
    /// answers as the cache answers at the time of the call and does not
    /// follow what is cached later, so that it can be read while the cache is
    /// written. It holds one entry for each handle and none of the trees.
    pub fn get_tex_lookup(&self) -> (lookup: GliumTexHandleLookup)
        requires
            self.wf(),
        ensures
            lookup@ == self@,
            lookup.wf(),
    {
        let mut cached: Vec<Option<(usize, Rect)>> = Vec::new();
        let mut h: usize = 0;
        while h < self.cached.len()
            invariant
                h <= self.cached.len(),
                cached@ == self.cached@.take(h as int),
            decreases self.cached.len() - h,
        {
            cached.push(self.cached[h]);
            h += 1;
            assert(cached@ =~= self.cached@.take(h as int));
        }
        assert(cached@ =~= self.cached@);
        let mut page_sizes: Vec<(u32, u32)> = Vec::new();
        let mut i: usize = 0;
        while i < self.bin_pack_trees.len()
            invariant
                i <= self.bin_pack_trees.len(),
                page_sizes.len() == i,
                forall|k: int|
                    0 <= k < i ==> #[trigger] page_sizes[k] == (
                        self.bin_pack_trees[k].width,
                        self.bin_pack_trees[k].height,
                    ),
            decreases self.bin_pack_trees.len() - i,
        {
            page_sizes.push((self.bin_pack_trees[i].width, self.bin_pack_trees[i].height));
            i += 1;
        }
        let lookup = GliumTexHandleLookup { cached, page_sizes, source: Ghost(self@) };
        proof {
            self.lemma_pages_well_formed();
            assert forall|t: TexHandle| t.0 >= lookup.cached.len() implies #[trigger] lookup@.is_lookup(
                t,
                None,
            ) by {
                assert forall|k: int| 0 <= k < self@.pages.len() implies #[trigger] self@.rect_in_page(
                    k,
                    t,
                ) is None by {
                    Self::lemma_unissued(*self, k, t);
                }
            }
            assert forall|k: int| 0 <= k < lookup.page_sizes.len() implies lookup@.pages[k].extent()
                == (Rect {
                x: 0,
                y: 0,
                w: (#[trigger] lookup.page_sizes[k]).0,
                h: lookup.page_sizes[k].1,
            }) by {
                assert(self.bin_pack_trees[k].wf());
            }
        }
        lookup
    }

    /// Removes the page created last, which holds the image cached last and
    /// no other. This undoes a `cache_image` that opened a page, for a caller
    /// whose backend then refused to create the page's texture. The handle of
    /// the image is not given back, and every other image stays where it is.
    pub fn discard_last_page(&mut self)
        requires
            old(self).wf(),
            old(self)@.pages.len() > 0,
            old(self)@.pages.last().placements().len() == 1,
            old(self)@.pages.last().placements()[0].0@ + 1 == old(self)@.next_handle,
        ensures
            final(self).wf(),
            final(self)@ == (TexCacheView { pages: old(self)@.pages.drop_last(), ..old(self)@ }),
            forall|t: TexHandle, found: Option<(usize, Rect)>|
                old(self)@.is_lookup(t, found) && t != old(self)@.pages.last().placements()[0].0
                    ==> #[trigger] final(self)@.is_lookup(t, found),
    {
        self.bin_pack_trees.pop();
        let last_issued = self.cached.len() - 1;
        let found = self.find(TexHandle(last_issued));
        self.cached[last_issued] = found;
        proof {
            let before = old(self)@;
            let after = self@;
            let last = before.pages.len() - 1;
            assert(after.pages =~= before.pages.drop_last());
            assert forall|k: int| 0 <= k < self.bin_pack_trees.len() implies (
            #[trigger] self.bin_pack_trees[k]).wf() by {
                assert(self.bin_pack_trees[k] == old(self).bin_pack_trees[k]);
            }
            assert forall|k: int, j: int|
                0 <= k < self.bin_pack_trees.len() && 0 <= j
                    < self.bin_pack_trees[k].tree.placements().len() implies (
            #[trigger] self.bin_pack_trees[k].tree.placements()[j]).0.0
                < self.next_tex_handle.0 by {
                assert(self.bin_pack_trees[k] == old(self).bin_pack_trees[k]);
            }
            let only = before.pages[last].placements();
            assert forall|t: TexHandle, found: Option<(usize, Rect)>|
                before.is_lookup(t, found) && t != only[0].0 implies #[trigger] after.is_lookup(
                t,
                found,
            ) by {
                lemma_first_of_listed(only, t);
                assert(before.rect_in_page(last, t) is None);
                assert forall|k: int| 0 <= k < after.pages.len() implies after.rect_in_page(k, t)
                    == before.rect_in_page(k, t) by {
                    assert(after.pages[k] == before.pages[k]);
                }
            }
            assert forall|n: int| 0 <= n < self.cached.len() implies after.is_lookup(
                TexHandle(n as usize),
                #[trigger] self.cached[n],
            ) by {
                if n != last_issued {
                    assert(self.cached[n] == old(self).cached[n]);
                    assert(before.is_lookup(TexHandle(n as usize), old(self).cached[n]));
                    assert(TexHandle(n as usize) != only[0].0);
                }
            }
        }
    }

    /// The tree of every page is well formed and spans its page from the
    /// origin, and no two blocks of a page share a pixel.
    pub proof fn lemma_pages_well_formed(self)
        requires
            self.wf(),
        ensures
            forall|i: int|
                0 <= i < self@.pages.len() ==> {
                    &&& (#[trigger] self@.pages[i]).wf()
                    &&& self@.pages[i].extent().x == 0
                    &&& self@.pages[i].extent().y == 0
                    &&& pairwise_disjoint(self@.pages[i].placements())
                },
    {
        assert forall|i: int| 0 <= i < self@.pages.len() implies {
            &&& (#[trigger] self@.pages[i]).wf()
            &&& self@.pages[i].extent().x == 0
            &&& self@.pages[i].extent().y == 0
            &&& pairwise_disjoint(self@.pages[i].placements())
        } by {
            assert(self.bin_pack_trees[i].wf());
            self@.pages[i].lemma_blocks_disjoint();
        }
    }

    /// No two images of a page share a pixel: two handles that are found on
    /// the same page are found in blocks that do not overlap.
    pub proof fn lemma_images_disjoint(
        self,
        a: TexHandle,
        b: TexHandle,
        page: usize,
        rect_a: Rect,
        rect_b: Rect,
    )
        requires
            self.wf(),
            a != b,
            self@.is_lookup(a, Some((page, rect_a))),
            self@.is_lookup(b, Some((page, rect_b))),
        ensures
            !rect_a.overlaps(rect_b),
    {
        self.lemma_pages_well_formed();
        let placed = self@.pages[page as int].placements();
        lemma_first_of_listed(placed, a);
        lemma_first_of_listed(placed, b);
        let i = choose|i: int| 0 <= i < placed.len() && #[trigger] placed[i] == (a, rect_a);
        let j = choose|j: int| 0 <= j < placed.len() && #[trigger] placed[j] == (b, rect_b);
        self@.pages[page as int].lemma_packed_rects_disjoint(i, j);
    }

    /// A handle the cache has not issued yet is in none of its pages.
    proof fn lemma_unissued(cache: GliumTexCache, page: int, handle: TexHandle)
        requires
            cache.pages_wf(),
            0 <= page < cache@.pages.len(),
            handle@ >= cache@.next_handle,
        ensures
            cache@.rect_in_page(page, handle) is None,
    {
        let placements = cache.bin_pack_trees[page].tree.placements();
        lemma_first_of_listed(placements, handle);
        if let Some(r) = find_rect(placements, handle) {
            let i = choose|i: int| 0 <= i < placements.len() && #[trigger] placements[i] == (handle, r);
            assert(cache.bin_pack_trees[page].tree.placements()[i].0.0 < cache.next_tex_handle.0);
        }
    }

    /// What follows for the cache when the tree of one page took a block
    /// under a handle that had not been issued before.
    proof fn lemma_packed_page(
        before: GliumTexCache,
        after: GliumTexCache,
        page: int,
        w: u32,
        h: u32,
        handle: TexHandle,
        rect: Rect,
    )
        requires
            before.pages_wf(),
            0 <= page < before.bin_pack_trees.len(),
            after.bin_pack_trees.len() == before.bin_pack_trees.len(),
            forall|k: int|
                0 <= k < before.bin_pack_trees.len() && k != page ==> after.bin_pack_trees[k]
                    == before.bin_pack_trees[k],
            after.bin_pack_trees[page].width == before.bin_pack_trees[page].width,
            after.bin_pack_trees[page].height == before.bin_pack_trees[page].height,
            after.bin_pack_trees[page].tree.wf(),
            after.bin_pack_trees[page].tree.extent() == before.bin_pack_trees[page].tree.extent(),
            before.bin_pack_trees[page].tree.packed(
                after.bin_pack_trees[page].tree,
                w,
                h,
                handle,
                rect,
            ),
            handle == before.next_tex_handle,
            after.next_tex_handle.0 == handle.0 + 1,
        ensures
            after.pages_wf(),
            rect.within(after@.pages[page].extent()),
            after@.is_lookup(handle, Some((page as usize, rect))),
            forall|t: TexHandle, found: Option<(usize, Rect)>|
                t != handle && before@.is_lookup(t, found) ==> #[trigger] after@.is_lookup(
                    t,
                    found,
                ),
    {
        let old_tree = before.bin_pack_trees[page].tree;
        let new_tree = after.bin_pack_trees[page].tree;
        let j = old_tree.slot(w, h);
        let grown = new_tree.placements();
        assert(before.bin_pack_trees[page].wf());
        assert forall|k: int| 0 <= k < after.bin_pack_trees.len() implies (
        #[trigger] after.bin_pack_trees[k]).wf() by {
            if k != page {
                assert(before.bin_pack_trees[k].wf());
            }
        }
        assert forall|k: int, i: int|
            0 <= k < after.bin_pack_trees.len() && 0 <= i
                < after.bin_pack_trees[k].tree.placements().len() implies (
        #[trigger] after.bin_pack_trees[k].tree.placements()[i]).0.0
            < after.next_tex_handle.0 by {
            if k != page {
                assert(before.bin_pack_trees[k].tree.placements()[i].0.0
                    < before.next_tex_handle.0);
            } else if i < j {
                assert(grown[i] == old_tree.placements()[i]);
                assert(before.bin_pack_trees[page].tree.placements()[i].0.0
                    < before.next_tex_handle.0);
            } else if i > j {
                assert(grown[i] == old_tree.placements()[i - 1]);
                assert(before.bin_pack_trees[page].tree.placements()[i - 1].0.0
                    < before.next_tex_handle.0);
            }
        }
        new_tree.lemma_blocks_within_extent();
        assert(grown[j] == (handle, rect));
        assert(grown[j].1.within(new_tree.extent()));
        Self::lemma_unissued(before, page, handle);
        lemma_first_of_insert(old_tree.placements(), j, handle, rect, handle);
        assert(after@.rect_in_page(page, handle) == Some(rect));
        assert forall|k: int| 0 <= k < page implies #[trigger] after@.rect_in_page(
            k,
            handle,
        ) is None by {
            Self::lemma_unissued(before, k, handle);
            assert(after@.pages[k] == before@.pages[k]);
        }
        assert forall|t: TexHandle, found: Option<(usize, Rect)>|
            t != handle && before@.is_lookup(t, found) implies #[trigger] after@.is_lookup(
            t,
            found,
        ) by {
            assert forall|k: int| 0 <= k < before@.pages.len() implies after@.rect_in_page(k, t)
                == before@.rect_in_page(k, t) by {
                if k == page {
                    lemma_first_of_insert(old_tree.placements(), j, handle, rect, t);
                } else {
                    assert(after@.pages[k] == before@.pages[k]);
                }
            }
        }
    }
}

/// A record of what every handle of a texture cache stood for at one time.
pub struct GliumTexHandleLookup {
    /// The page and block of each handle, under the handle's number.
    cached: Vec<Option<(usize, Rect)>>,
    /// The size of each page.
    page_sizes: Vec<(u32, u32)>,
    /// The cache as it was when the record was taken.
    source: Ghost<TexCacheView>,
}

impl View for GliumTexHandleLookup {
    type V = TexCacheView;

    closed spec fn view(&self) -> TexCacheView {
        self.source@
    }
}

impl GliumTexHandleLookup {
    /// The record agrees with the cache it was taken of: each entry is what
    /// a lookup of its handle answered, no further handle was cached, and
    /// the sizes are those of the pages, whose trees are well formed.
    pub closed spec fn wf(self) -> bool {
        &&& forall|h: int|
            0 <= h < self.cached.len() ==> self@.is_lookup(
                TexHandle(h as usize),
                #[trigger] self.cached[h],
            )
        &&& forall|t: TexHandle| t.0 >= self.cached.len() ==> #[trigger] self@.is_lookup(t, None)
        &&& self.page_sizes.len() == self@.pages.len()
        &&& forall|k: int|
            0 <= k < self.page_sizes.len() ==> self@.pages[k].extent() == (Rect {
                x: 0,
                y: 0,
                w: (#[trigger] self.page_sizes[k]).0,
                h: self.page_sizes[k].1,
            })
        &&& forall|k: int| 0 <= k < self@.pages.len() ==> (#[trigger] self@.pages[k]).wf()
    }

    /// Where the image of `tex` lies: the index of its page and its block
    /// there, or `None` where the cache held no such image.
    pub fn rect_for(&self, tex: TexHandle) -> (res: Option<(usize, Rect)>)
        requires
            self.wf(),
        ensures
            res == self@.lookup(tex),
            self@.is_lookup(tex, res),
            res matches Some((page, rect)) ==> {
                &&& rect.within(self@.pages[page as int].extent())
                &&& self@.pages[page as int].extent().bounded()
            },
    {
        let res = if tex.0 < self.cached.len() {
            self.cached[tex.0]
        } else {
            None
        };
        proof {
            assert(TexHandle(tex.0) == tex);
            assert(self@.is_lookup(tex, res));
            self@.lemma_lookup(tex, res);
            if let Some((page, rect)) = res {
                let tree = self@.pages[page as int];
                lemma_first_of_listed(tree.placements(), tex);
                let at = choose|at: int|
                    0 <= at < tree.placements().len() && #[trigger] tree.placements()[at] == (
                        tex,
                        rect,
                    );
                tree.lemma_blocks_within_extent();
                assert(tree.placements()[at].1.within(tree.extent()));
            }
        }
        res
    }

    /// Whether the cache held an image under `tex`.
    pub fn is_tex_cached(&self, tex: TexHandle) -> (cached: bool)
        requires
            self.wf(),
        ensures
            cached == (self@.lookup(tex) is Some),
            cached <==> exists|i: int|
                0 <= i < self@.pages.len() && #[trigger] self@.rect_in_page(i, tex) is Some,
    {
        let found = self.rect_for(tex);
        proof {
            if let Some((page, _)) = found {
                assert(self@.rect_in_page(page as int, tex) is Some);
            }
        }
        found.is_some()
    }

    /// The size in pixels of page `ix`, or `None` where there is no such page.
    pub fn page_size(&self, ix: usize) -> (size: Option<(u32, u32)>)
        requires
            self.wf(),
        ensures
            size is Some <==> ix < self@.pages.len(),
            size matches Some((w, h)) ==> self@.pages[ix as int].extent() == (Rect {
                x: 0,
                y: 0,
                w,
                h,
            }),
    {
        if ix < self.page_sizes.len() {
            Some(self.page_sizes[ix])
        } else {
            None
        }
    }
}

impl Clone for GliumTexHandleLookup {
    /// A copy of the record.
    fn clone(&self) -> (res: Self)
        ensures
            res@ == self@,
            self.wf() ==> res.wf(),
    {
        let mut cached: Vec<Option<(usize, Rect)>> = Vec::new();
        let mut h: usize = 0;
        while h < self.cached.len()
            invariant
                h <= self.cached.len(),
                cached@ == self.cached@.take(h as int),
            decreases self.cached.len() - h,
        {
            cached.push(self.cached[h]);
            h += 1;
            assert(cached@ =~= self.cached@.take(h as int));
        }
        assert(cached@ =~= self.cached@);
        let mut page_sizes: Vec<(u32, u32)> = Vec::new();
        let mut i: usize = 0;
        while i < self.page_sizes.len()
            invariant
                i <= self.page_sizes.len(),
                page_sizes@ == self.page_sizes@.take(i as int),
            decreases self.page_sizes.len() - i,
        {
            page_sizes.push(self.page_sizes[i]);
            i += 1;
            assert(page_sizes@ =~= self.page_sizes@.take(i as int));
        }
        assert(page_sizes@ =~= self.page_sizes@);
        GliumTexHandleLookup { cached, page_sizes, source: Ghost(self@) }
    }
}

/// What answers lookups of textures: a texture cache, or a record of its
/// handles.
pub trait TexHandleLookup {
    /// The cache that the answers are those of.
    spec fn tex_cache(&self) -> TexCacheView;

    /// What has to hold of the value for it to answer.
    spec fn lookup_wf(&self) -> bool;

    /// Whether the cache holds an image under `tex`.
    fn is_tex_cached(&self, tex: TexHandle) -> (cached: bool)
        requires
            self.lookup_wf(),
        ensures
            cached == (self.tex_cache().lookup(tex) is Some),
    ;

    /// Where the image of `tex` lies: the index of its page and its block
    /// there, or `None` where the cache holds no such image.
    fn rect_for(&self, tex: TexHandle) -> (res: Option<(usize, Rect)>)
        requires
            self.lookup_wf(),
        ensures
            res == self.tex_cache().lookup(tex),
            self.tex_cache().is_lookup(tex, res),
            res matches Some((page, rect)) ==> {
                &&& rect.within(self.tex_cache().pages[page as int].extent())
                &&& self.tex_cache().pages[page as int].extent().bounded()
            },
    ;
}

impl TexHandleLookup for GliumTexCache {
    open spec fn tex_cache(&self) -> TexCacheView {
        self@
    }

    open spec fn lookup_wf(&self) -> bool {
        self.wf()
    }

    fn is_tex_cached(&self, tex: TexHandle) -> (cached: bool) {
        GliumTexCache::is_tex_cached(self, tex)
    }

    fn rect_for(&self, tex: TexHandle) -> (res: Option<(usize, Rect)>) {
        GliumTexCache::rect_for(self, tex)
    }
}

impl TexHandleLookup for GliumTexHandleLookup {
    open spec fn tex_cache(&self) -> TexCacheView {
        self@
    }

    open spec fn lookup_wf(&self) -> bool {
        self.wf()
    }

    fn is_tex_cached(&self, tex: TexHandle) -> (cached: bool) {
        GliumTexHandleLookup::is_tex_cached(self, tex)
    }

    fn rect_for(&self, tex: TexHandle) -> (res: Option<(usize, Rect)>) {
        GliumTexHandleLookup::rect_for(self, tex)
    }
}

} // verus!
