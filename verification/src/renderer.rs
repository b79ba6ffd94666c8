//! The draw batcher: vertices drained from the producers are grouped by the
//! resource they are drawn with, one batch and one draw call per resource.

use vstd::prelude::*;
use crate::controller::RendererController;
use crate::font_cache::GlyphLookup;
use crate::tex::TexHandle;
use crate::tex_cache::TexHandleLookup;

verus! {

/// The number of vertices one draw call takes. Every batch is brought to
/// exactly this length.
pub const VBO_SIZE: usize = 65563;

/// Which cache the texture of a vertex comes from.
#[derive(Clone, Copy, Debug, PartialEq, Eq, Hash, Structural)]
pub enum TexType {
    /// A page of the texture cache, sampled in full colour.
    Texture,
    /// The glyph atlas, sampled for coverage only.
    Font,
}

/// One vertex as the producers submit it. Position and colour are
/// single-precision numbers carried as their bit patterns; nothing here
/// computes with them. The position in the texture is counted in half pixels
/// from the corner of the page, so that the middle of a pixel can be named;
/// dividing it by twice the page's size gives the texture coordinate.
#[derive(Clone, Copy, Debug, PartialEq, Eq)]
pub struct Vertex {
    /// The position on screen.
    pub pos: [u32; 2],
    /// The position inside the texture, in half pixels.
    pub tex_coords: [u64; 2],
    /// Red, green, blue and alpha.
    pub col: [u32; 4],
    /// The cache the texture comes from.
    pub tex_type: TexType,
    /// The index of the page in a texture cache; 0 for the glyph atlas.
    pub tex_ix: usize,
}

/// The vertices drawn with one resource, in the order of their submission.
#[derive(Clone, Debug, PartialEq, Eq)]
pub struct DrawBatch {
    /// The index of the page the batch is drawn with.
    pub tex_ix: usize,
    /// The cache that page is in.
    pub tex_type: TexType,
    /// The vertices of the batch.
    pub vertices: Vec<Vertex>,
}

/// The texture one draw call samples.
#[derive(Clone, Copy, Debug, PartialEq, Eq, Structural)]
pub enum TexSource {
    /// A page of the texture cache.
    Page(usize),
    /// The atlas of the glyph cache.
    GlyphAtlas,
}

/// One draw call: a list of triangles with the texture they sample.
#[derive(Clone, Debug, PartialEq, Eq)]
pub struct DrawCall {
    /// The texture to bind.
    pub texture: TexSource,
    /// The flag for the shader: 1 to sample coverage only, as for glyphs, 0 to
    /// sample full colour.
    pub is_font: i32,
    /// The vertices to draw, three for each triangle.
    pub vertices: Vec<Vertex>,
}

/// The test for a batch whose texture exists: any batch of glyphs, and a
/// batch of a page that is among the `page_count` pages of the texture cache.
pub open spec fn is_drawable(page_count: usize) -> spec_fn(DrawBatch) -> bool {
    |b: DrawBatch| b.tex_type is Font || b.tex_ix < page_count
}

/// The draw call of a batch.
pub open spec fn call_of(b: DrawBatch) -> DrawCall {
    match b.tex_type {
        TexType::Font => DrawCall { texture: TexSource::GlyphAtlas, is_font: 1, vertices: b.vertices },
        TexType::Texture => DrawCall {
            texture: TexSource::Page(b.tex_ix),
            is_font: 0,
            vertices: b.vertices,
        },
    }
}

/// The draw calls of the drawable batches among `batches`, in their order.
pub open spec fn calls_of(batches: Seq<DrawBatch>, page_count: usize) -> Seq<DrawCall> {
    batches.filter(is_drawable(page_count)).map_values(|b: DrawBatch| call_of(b))
}

/// The resource a vertex is drawn with.
pub open spec fn key_of(v: Vertex) -> (usize, TexType) {
    (v.tex_ix, v.tex_type)
}

/// The test for being drawn with the resource `key`.
pub open spec fn has_key(key: (usize, TexType)) -> spec_fn(Vertex) -> bool {
    |v: Vertex| key_of(v) == key
}

/// The vertex that fills the unused end of a batch: all zero, drawn with
/// page 0 of the texture cache.
pub open spec fn blank_vertex() -> Vertex {
    Vertex {
        pos: [0u32, 0u32],
        tex_coords: [0u64, 0u64],
        col: [0u32, 0u32, 0u32, 0u32],
        tex_type: TexType::Texture,
        tex_ix: 0,
    }
}

/// The resources of `vs`, each once, in the order in which they first occur.
pub open spec fn batch_keys(vs: Seq<Vertex>) -> Seq<(usize, TexType)>
    decreases vs.len(),
{
    if vs.len() == 0 {
        Seq::empty()
    } else {
        let before = batch_keys(vs.drop_last());
        if before.contains(key_of(vs.last())) {
            before
        } else {
            before.push(key_of(vs.last()))
        }
    }
}

/// `members` brought to the length `capacity`: cut off where there are more,
/// filled up with blank vertices where there are fewer.
pub open spec fn fit_to(members: Seq<Vertex>, capacity: nat) -> Seq<Vertex> {
    Seq::new(
        capacity,
        |i: int|
            if i < members.len() {
                members[i]
            } else {
                blank_vertex()
            },
    )
}

/// `batches` groups `vs`: one batch for each resource, in the order in which
/// the resources first occur, holding that resource's vertices in the order
/// in which they stand in `vs`.
pub open spec fn is_grouping(batches: Seq<DrawBatch>, vs: Seq<Vertex>) -> bool {
    &&& batches.len() == batch_keys(vs).len()
    &&& forall|b: int|
        0 <= b < batches.len() ==> {
            &&& ((#[trigger] batches[b]).tex_ix, batches[b].tex_type) == batch_keys(vs)[b]
            &&& batches[b].vertices@ == vs.filter(has_key(batch_keys(vs)[b]))
        }
}

/// `batches` is the grouping of `vs` with every batch brought to the length
/// `capacity`.
pub open spec fn is_batching(batches: Seq<DrawBatch>, vs: Seq<Vertex>, capacity: nat) -> bool {
    &&& batches.len() == batch_keys(vs).len()
    &&& forall|b: int|
        0 <= b < batches.len() ==> {
            &&& ((#[trigger] batches[b]).tex_ix, batches[b].tex_type) == batch_keys(vs)[b]
            &&& batches[b].vertices@ == fit_to(vs.filter(has_key(batch_keys(vs)[b])), capacity)
        }
}

/// The vertices of all packets, in the order of the packets.
pub open spec fn all_vertices(packets: Seq<Vec<Vertex>>) -> Seq<Vertex> {
    packets.map_values(|p: Vec<Vertex>| p@).flatten()
}

/// No resource is listed twice, and a vertex's resource is listed.
pub proof fn lemma_batch_keys(vs: Seq<Vertex>)
    ensures
        batch_keys(vs).no_duplicates(),
        forall|i: int| 0 <= i < vs.len() ==> batch_keys(vs).contains(key_of(#[trigger] vs[i])),
        forall|k: (usize, TexType)|
            !batch_keys(vs).contains(k) ==> (#[trigger] vs.filter(has_key(k))).len() == 0,
    decreases vs.len(),
{
    if vs.len() == 0 {
        assert forall|k: (usize, TexType)| (#[trigger] vs.filter(has_key(k))).len() == 0 by {
            reveal(Seq::filter);
        }
    } else {
        let front = vs.drop_last();
        lemma_batch_keys(front);
        let before = batch_keys(front);
        let key = key_of(vs.last());
        assert forall|i: int| 0 <= i < vs.len() implies batch_keys(vs).contains(
            key_of(#[trigger] vs[i]),
        ) by {
            if i < vs.len() - 1 {
                assert(front[i] == vs[i]);
                let at = choose|at: int| 0 <= at < before.len() && before[at] == key_of(front[i]);
                assert(batch_keys(vs)[at] == key_of(vs[i]));
            } else if before.contains(key) {
            } else {
                assert(batch_keys(vs)[before.len() as int] == key);
            }
        }
        assert forall|k: (usize, TexType)| !batch_keys(vs).contains(k) implies (
        #[trigger] vs.filter(has_key(k))).len() == 0 by {
            if before.contains(k) {
                let at = choose|at: int| 0 <= at < before.len() && before[at] == k;
                assert(batch_keys(vs)[at] == k);
            }
            if key == k {
                if !before.contains(key) {
                    assert(batch_keys(vs)[before.len() as int] == key);
                }
            }
            assert(vs =~= front.push(vs.last()));
            front.lemma_filter_push(vs.last(), has_key(k));
            assert(front.filter(has_key(k)).len() == 0);
        }
    }
}

/// A copy of the blank vertex.
pub fn blank() -> (v: Vertex)
    ensures
        v == blank_vertex(),
{
    let v = Vertex {
        pos: [0, 0],
        tex_coords: [0, 0],
        col: [0, 0, 0, 0],
        tex_type: TexType::Texture,
        tex_ix: 0,
    };
    assert(v.pos =~= blank_vertex().pos);
    assert(v.tex_coords =~= blank_vertex().tex_coords);
    assert(v.col =~= blank_vertex().col);
    v
}

/// The batches that group the drained vertices, and nothing else.
pub struct Renderer {
    /// The batches of the frame being prepared.
    v_data_list: Vec<DrawBatch>,
}

impl Renderer {
    /// The batches waiting to be drawn.
    pub closed spec fn batches(self) -> Seq<DrawBatch> {
        self.v_data_list@
    }

    /// A renderer with nothing to draw.
    pub fn new() -> (r: Renderer)
        ensures
            r.batches() == Seq::<DrawBatch>::empty(),
    {
        Renderer { v_data_list: Vec::new() }
    }

    /// The batches waiting to be drawn.
    pub fn waiting(&self) -> (batches: &Vec<DrawBatch>)
        ensures
            batches@ == self.batches(),
    {
        &self.v_data_list
    }

    /// A controller for one producer, which answers its lookups from
    /// `font_cache` and `tex_cache`. `white` names the texture that shapes of
    /// plain colour are drawn with.
    pub fn get_renderer_controller<G: GlyphLookup, T: TexHandleLookup>(
        &self,
        font_cache: G,
        tex_cache: T,
        white: TexHandle,
    ) -> (c: RendererController<G, T>)
        requires
            font_cache.glyphs_wf(),
            tex_cache.lookup_wf(),
        ensures
            c.wf(),
            c.buffered() == Seq::<Vertex>::empty(),
            c.white_handle() == white,
            c.tex_view() == tex_cache.tex_cache(),
            c.font_view() == font_cache.glyph_cache(),
    {
        RendererController::new(font_cache, tex_cache, white)
    }

    /// Adds one vertex to the batch of its resource, opening the batch where
    /// the resource is new.
    fn push_vertex(batches: &mut Vec<DrawBatch>, v: Vertex, Ghost(done): Ghost<Seq<Vertex>>)
        requires
            is_grouping(old(batches)@, done),
        ensures
            is_grouping(final(batches)@, done.push(v)),
    {
        let ghost keys = batch_keys(done);
        proof {
            lemma_batch_keys(done);
            assert(done.push(v).drop_last() =~= done);
            assert forall|k: (usize, TexType)| true implies #[trigger] done.push(v).filter(has_key(k))
                == if key_of(v) == k {
                done.filter(has_key(k)).push(v)
            } else {
                done.filter(has_key(k))
            } by {
                done.lemma_filter_push(v, has_key(k));
            }
        }
        let mut b: usize = 0;
        while b < batches.len()
            invariant
                b <= batches.len(),
                batches@ == old(batches)@,
                is_grouping(batches@, done),
                keys == batch_keys(done),
                keys.no_duplicates(),
                batch_keys(done.push(v)) == if keys.contains(key_of(v)) {
                    keys
                } else {
                    keys.push(key_of(v))
                },
                forall|k: (usize, TexType)|
                    true ==> #[trigger] done.push(v).filter(has_key(k)) == if key_of(v) == k {
                        done.filter(has_key(k)).push(v)
                    } else {
                        done.filter(has_key(k))
                    },
                forall|k: int| 0 <= k < b ==> #[trigger] keys[k] != key_of(v),
            decreases batches.len() - b,
        {
            if batches[b].tex_ix == v.tex_ix && batches[b].tex_type == v.tex_type {
                batches[b].vertices.push(v);
                proof {
                    assert(keys[b as int] == key_of(v));
                    assert(keys.contains(key_of(v)));
                    assert(batch_keys(done.push(v)) == keys);
                    assert forall|k: int| 0 <= k < batches.len() implies {
                        &&& ((#[trigger] batches[k]).tex_ix, batches[k].tex_type) == keys[k]
                        &&& batches[k].vertices@ == done.push(v).filter(has_key(keys[k]))
                    } by {
                        if k != b {
                            assert(batches[k] == old(batches)[k]);
                            assert(keys[k] != keys[b as int]);
                        }
                    }
                }
                return ;
            }
            proof {
                assert(keys[b as int] == (batches[b as int].tex_ix, batches[b as int].tex_type));
            }
            b += 1;
        }
        let mut list = Vec::new();
        list.push(v);
        batches.push(DrawBatch { tex_ix: v.tex_ix, tex_type: v.tex_type, vertices: list });
        proof {
            assert(!keys.contains(key_of(v)));
            assert(batch_keys(done.push(v)) == keys.push(key_of(v)));
            assert(done.filter(has_key(key_of(v))).len() == 0);
            assert(list@ =~= done.filter(has_key(key_of(v))).push(v));
            assert forall|k: int| 0 <= k < batches.len() implies {
                &&& ((#[trigger] batches[k]).tex_ix, batches[k].tex_type) == batch_keys(
                    done.push(v),
                )[k]
                &&& batches[k].vertices@ == done.push(v).filter(
                    has_key(batch_keys(done.push(v))[k]),
                )
            } by {
                if k < old(batches).len() {
                    assert(batches[k] == old(batches)[k]);
                    assert(keys[k] != key_of(v));
                }
            }
        }
    }

    /// Brings a list of vertices to the length `VBO_SIZE`.
    fn fit_to_capacity(list: &mut Vec<Vertex>)
        ensures
            final(list)@ == fit_to(old(list)@, VBO_SIZE as nat),
    {
        list.truncate(VBO_SIZE);
        while list.len() < VBO_SIZE
            invariant
                list.len() <= VBO_SIZE,
                list.len() == VBO_SIZE || list.len() >= old(list).len(),
                forall|i: int|
                    0 <= i < list.len() ==> list[i] == if i < old(list).len() {
                        old(list)[i]
                    } else {
                        blank_vertex()
                    },
            decreases VBO_SIZE - list.len(),
        {
            list.push(blank());
        }
        assert(list@ =~= fit_to(old(list)@, VBO_SIZE as nat));
    }

    /// Takes the packets drained from the producers and replaces the waiting
    /// batches by the grouping of their vertices: one batch for each
    /// resource, in the order in which the resources first occur, each
    /// holding its vertices in the order of their submission. A batch of more
    /// than `VBO_SIZE` vertices loses those beyond that number; a shorter
    /// one is filled up with blank vertices.
    pub fn recv_data(&mut self, packets: Vec<Vec<Vertex>>)
        ensures
            is_batching(final(self).batches(), all_vertices(packets@), VBO_SIZE as nat),
    {
        let mut v_data_list: Vec<DrawBatch> = Vec::new();
        let ghost lists = packets@.map_values(|p: Vec<Vertex>| p@);
        let mut p: usize = 0;
        assert(lists.take(0) =~= Seq::<Seq<Vertex>>::empty());
        while p < packets.len()
            invariant
                p <= packets.len(),
                lists == packets@.map_values(|p: Vec<Vertex>| p@),
                is_grouping(v_data_list@, lists.take(p as int).flatten()),
            decreases packets.len() - p,
        {
            let ghost done = lists.take(p as int).flatten();
            let mut q: usize = 0;
            assert(done + packets[p as int]@.take(0) =~= done);
            while q < packets[p].len()
                invariant
                    p < packets.len(),
                    q <= packets[p as int].len(),
                    is_grouping(v_data_list@, done + packets[p as int]@.take(q as int)),
                decreases packets[p as int].len() - q,
            {
                let v = packets[p][q];
                let ghost sofar = done + packets[p as int]@.take(q as int);
                Self::push_vertex(&mut v_data_list, v, Ghost(sofar));
                assert(sofar.push(v) =~= done + packets[p as int]@.take(q + 1));
                q += 1;
            }
            proof {
                assert(packets[p as int]@.take(q as int) =~= packets[p as int]@);
                assert(lists.take(p + 1) =~= lists.take(p as int).push(lists[p as int]));
                lists.take(p as int).lemma_flatten_push(lists[p as int]);
            }
            p += 1;
        }
        assert(lists.take(p as int) =~= lists);
        let ghost flat = all_vertices(packets@);
        let mut b: usize = 0;
        while b < v_data_list.len()
            invariant
                b <= v_data_list.len(),
                v_data_list.len() == batch_keys(flat).len(),
                forall|k: int|
                    0 <= k < v_data_list.len() ==> {
                        &&& ((#[trigger] v_data_list[k]).tex_ix, v_data_list[k].tex_type)
                            == batch_keys(flat)[k]
                        &&& v_data_list[k].vertices@ == if k < b {
                            fit_to(flat.filter(has_key(batch_keys(flat)[k])), VBO_SIZE as nat)
                        } else {
                            flat.filter(has_key(batch_keys(flat)[k]))
                        }
                    },
            decreases v_data_list.len() - b,
        {
            let ghost before = v_data_list@;
            Self::fit_to_capacity(&mut v_data_list[b].vertices);
            assert forall|k: int| 0 <= k < v_data_list.len() && k != b implies v_data_list[k]
                == before[k] by {}
            b += 1;
        }
        self.v_data_list = v_data_list;
    }

    /// Turns the waiting batches into draw calls, one for each batch and in
    /// the order of the batches, and leaves nothing waiting. A batch of
    /// glyphs samples the glyph atlas for coverage; a batch of a page samples
    /// that page in full colour. A batch that names a page the texture cache
    /// does not have, `page_count` being the number of its pages, is dropped
    /// without a draw call.
    pub fn render(&mut self, page_count: usize) -> (calls: Vec<DrawCall>)
        ensures
            calls@ == calls_of(old(self).batches(), page_count),
            final(self).batches() == Seq::<DrawBatch>::empty(),
    {
        let mut batches: Vec<DrawBatch> = Vec::new();
        core::mem::swap(&mut batches, &mut self.v_data_list);
        let ghost all = batches@;
        let ghost done: int = 0;
        let mut calls: Vec<DrawCall> = Vec::new();
        proof {
            assert(all.skip(0) =~= all);
            assert(all.take(0).filter(is_drawable(page_count)).len() == 0) by {
                reveal(Seq::filter);
            }
            assert(calls@ =~= calls_of(all.take(0), page_count));
        }
        while batches.len() > 0
            invariant
                0 <= done <= all.len(),
                batches@ == all.skip(done),
                calls@ == calls_of(all.take(done), page_count),
            decreases batches.len(),
        {
            let batch = batches.remove(0);
            proof {
                assert(batch == all[done]);
                assert(batches@ =~= all.skip(done + 1));
                assert(all.take(done + 1) =~= all.take(done).push(batch));
                all.take(done).lemma_filter_push(batch, is_drawable(page_count));
                done = done + 1;
            }
            match batch.tex_type {
                TexType::Font => {
                    calls.push(
                        DrawCall {
                            texture: TexSource::GlyphAtlas,
                            is_font: 1,
                            vertices: batch.vertices,
                        },
                    );
                    assert(calls@ =~= calls_of(all.take(done), page_count));
                },
                TexType::Texture => {
                    if batch.tex_ix < page_count {
                        calls.push(
                            DrawCall {
                                texture: TexSource::Page(batch.tex_ix),
                                is_font: 0,
                                vertices: batch.vertices,
                            },
                        );
                        assert(calls@ =~= calls_of(all.take(done), page_count));
                    }
                },
            }
        }
        assert(all.take(done) =~= all);
        calls
    }
}

} // verus!
