//! The packing tree of one atlas page.
//!
//! A page starts as a single free leaf that spans it. Packing a block into a
//! leaf narrows the leaf to the block and hangs two new leaves under it: the
//! space below the block and the space to its right. The tree only grows.
//!
//! The leaf to the right keeps the full height of the leaf that was split,
//! and the leaf below is as wide as the block. Block, leaf below and leaf to
//! the right thus share no pixel and together fill the leaf that was split,
//! so that no two blocks of a tree ever overlap: `lemma_blocks_disjoint`.
//!
//! The tree is specified through two sequences. `leaves` lists the free
//! leaves in the order in which packing tries them, `placements` lists the
//! packed blocks in the order in which a lookup meets them.

use vstd::prelude::*;
use crate::rect::Rect;
use crate::lookup::{first_of, lemma_first_of_concat, lemma_first_of_one};
use crate::tex::TexHandle;

verus! {

/// Why a block could not be packed.
#[derive(Clone, Copy, Debug, PartialEq, Eq, Structural)]
pub enum PackRectError {
    /// No free leaf of the tree is large enough for the block.
    SpaceTooSmall,
}

impl PackRectError {
    /// A sentence for the error, for logs and messages.
    pub fn description(&self) -> (s: &'static str)
        ensures
            s@
                == "This variant is returned when the space in the node is too small for\n      the given rect you're attempting to pack into it."@,
    {
        "This variant is returned when the space in the node is too small for\n      the given rect you're attempting to pack into it."
    }
}

/// The block a `w` by `h` request occupies once packed into `leaf`.
pub open spec fn placed_in(leaf: Rect, w: u32, h: u32) -> Rect {
    Rect { x: leaf.x, y: leaf.y, w, h }
}

/// The leaf left below a `w` by `h` block packed into `leaf`. It is as wide
/// as the block.
pub open spec fn below_of(leaf: Rect, w: u32, h: u32) -> Rect {
    Rect { x: leaf.x, y: (leaf.y + h) as u32, w, h: (leaf.h - h) as u32 }
}

/// The leaf left to the right of a `w` by `h` block packed into `leaf`. It
/// keeps the full height of `leaf`.
pub open spec fn right_of(leaf: Rect, w: u32, h: u32) -> Rect {
    Rect { x: (leaf.x + w) as u32, y: leaf.y, w: (leaf.w - w) as u32, h: leaf.h }
}

/// Some leaf is large enough for a `w` by `h` block.
pub open spec fn has_fit(leaves: Seq<Rect>, w: u32, h: u32) -> bool {
    exists|i: int| 0 <= i < leaves.len() && (#[trigger] leaves[i]).fits(w, h)
}

/// Leaf `k` is the first one large enough for a `w` by `h` block.
pub open spec fn is_first_fit(leaves: Seq<Rect>, k: int, w: u32, h: u32) -> bool {
    &&& 0 <= k < leaves.len()
    &&& leaves[k].fits(w, h)
    &&& forall|i: int| 0 <= i < k ==> !(#[trigger] leaves[i]).fits(w, h)
}

/// The index of the first leaf large enough for a `w` by `h` block, where
/// there is one.
pub open spec fn first_fit(leaves: Seq<Rect>, w: u32, h: u32) -> int {
    choose|k: int| is_first_fit(leaves, k, w, h)
}

/// There is one first leaf that is large enough.
pub proof fn lemma_first_fit(leaves: Seq<Rect>, k: int, w: u32, h: u32)
    requires
        is_first_fit(leaves, k, w, h),
    ensures
        first_fit(leaves, w, h) == k,
{
    let c = first_fit(leaves, w, h);
    assert(is_first_fit(leaves, c, w, h));
    if c < k {
        assert(!leaves[c].fits(w, h));
    } else if k < c {
        assert(!leaves[k].fits(w, h));
    }
}

/// The free leaves after a `w` by `h` block went into leaf `k`: the leaf is
/// replaced by what is left to the right of the block and below it, in the
/// order in which they will be tried.
pub open spec fn split_leaf(leaves: Seq<Rect>, k: int, w: u32, h: u32) -> Seq<Rect> {
    leaves.take(k) + seq![right_of(leaves[k], w, h), below_of(leaves[k], w, h)] + leaves.skip(
        k + 1,
    )
}

/// The block of the first placement made under `handle`, if there is one.
pub open spec fn find_rect(placements: Seq<(TexHandle, Rect)>, handle: TexHandle) -> Option<Rect> {
    first_of(placements, handle)
}

/// No two of the placements share a pixel.
pub open spec fn pairwise_disjoint(placements: Seq<(TexHandle, Rect)>) -> bool {
    forall|i: int, j: int|
        0 <= i < j < placements.len() ==> !(#[trigger] placements[i]).1.overlaps(
            (#[trigger] placements[j]).1,
        )
}

/// A first fit in a list of leaves is the first fit in the list followed by
/// more leaves.
proof fn lemma_fit_in_front(a: Seq<Rect>, b: Seq<Rect>, k: int, w: u32, h: u32)
    requires
        is_first_fit(a, k, w, h),
    ensures
        is_first_fit(a + b, k, w, h),
        (a + b)[k] == a[k],
        split_leaf(a + b, k, w, h) == split_leaf(a, k, w, h) + b,
{
    let all = a + b;
    assert forall|i: int| 0 <= i < k implies !(#[trigger] all[i]).fits(w, h) by {
        assert(all[i] == a[i]);
    }
    assert(all.take(k) =~= a.take(k));
    assert(all.skip(k + 1) =~= a.skip(k + 1) + b);
    assert(split_leaf(all, k, w, h) =~= split_leaf(a, k, w, h) + b);
}

/// Where the leaves in front have no room, a first fit in the leaves behind
/// them is the first fit of the whole list.
proof fn lemma_fit_in_back(a: Seq<Rect>, b: Seq<Rect>, k: int, w: u32, h: u32)
    requires
        !has_fit(a, w, h),
        is_first_fit(b, k, w, h),
    ensures
        is_first_fit(a + b, a.len() + k, w, h),
        (a + b)[a.len() + k] == b[k],
        split_leaf(a + b, a.len() + k, w, h) == a + split_leaf(b, k, w, h),
{
    let all = a + b;
    let n = a.len() as int;
    assert forall|i: int| 0 <= i < n + k implies !(#[trigger] all[i]).fits(w, h) by {
        if i < n {
            assert(all[i] == a[i]);
        } else {
            assert(all[i] == b[i - n]);
        }
    }
    assert(all.take(n + k) =~= a + b.take(k));
    assert(all.skip(n + k + 1) =~= b.skip(k + 1));
    assert(split_leaf(all, n + k, w, h) =~= a + split_leaf(b, k, w, h));
}

/// Two lists without room have none together, and a list with room keeps
/// it when leaves are added.
proof fn lemma_fit_of_concat(a: Seq<Rect>, b: Seq<Rect>, w: u32, h: u32)
    ensures
        has_fit(a + b, w, h) <==> has_fit(a, w, h) || has_fit(b, w, h),
{
    let all = a + b;
    if has_fit(all, w, h) {
        let i = choose|i: int| 0 <= i < all.len() && (#[trigger] all[i]).fits(w, h);
        if i < a.len() {
            assert(a[i].fits(w, h));
        } else {
            assert(b[i - a.len()].fits(w, h));
        }
    }
    if has_fit(a, w, h) {
        let i = choose|i: int| 0 <= i < a.len() && (#[trigger] a[i]).fits(w, h);
        assert(all[i].fits(w, h));
    }
    if has_fit(b, w, h) {
        let i = choose|i: int| 0 <= i < b.len() && (#[trigger] b[i]).fits(w, h);
        assert(all[a.len() + i].fits(w, h));
    }
}

/// One node of the packing tree, and through its children the subtree below
/// it.
pub struct BinaryTreeNode {
    /// The space below the packed block.
    l_child: Option<Box<BinaryTreeNode>>,
    /// The space to the right of the packed block.
    r_child: Option<Box<BinaryTreeNode>>,
    /// The free space of a leaf, or the block packed into an occupied node.
    space: Rect,
    /// The handle of the packed block; `None` on a leaf.
    tex_handle: Option<TexHandle>,
}

impl BinaryTreeNode {
    spec fn child_extent(child: Option<Box<BinaryTreeNode>>) -> Rect
        decreases child,
    {
        match child {
            Some(node) => node.extent(),
            None => Rect { x: 0, y: 0, w: 0, h: 0 },
        }
    }

    spec fn child_wf(child: Option<Box<BinaryTreeNode>>) -> bool
        decreases child,
    {
        match child {
            Some(node) => node.wf(),
            None => false,
        }
    }

    spec fn child_leaves(child: Option<Box<BinaryTreeNode>>) -> Seq<Rect>
        decreases child,
    {
        match child {
            Some(node) => node.leaves(),
            None => Seq::empty(),
        }
    }

    spec fn child_placements(child: Option<Box<BinaryTreeNode>>) -> Seq<(TexHandle, Rect)>
        decreases child,
    {
        match child {
            Some(node) => node.placements(),
            None => Seq::empty(),
        }
    }

    spec fn child_grown(child: Option<Box<BinaryTreeNode>>, w: u32, h: u32, tex: TexHandle) -> Option<
        Box<BinaryTreeNode>,
    >
        decreases child,
    {
        match child {
            Some(node) => Some(Box::new(node.grown(w, h, tex))),
            None => None,
        }
    }

    spec fn child_slot(child: Option<Box<BinaryTreeNode>>, w: u32, h: u32) -> int
        decreases child,
    {
        match child {
            Some(node) => node.slot(w, h),
            None => 0,
        }
    }

    /// The region that was free when this subtree was a single leaf. Packing
    /// never changes it.
    pub closed spec fn extent(self) -> Rect
        decreases self,
    {
        if self.tex_handle is None {
            self.space
        } else {
            Rect {
                x: self.space.x,
                y: self.space.y,
                w: (self.space.w + Self::child_extent(self.r_child).w) as u32,
                h: Self::child_extent(self.r_child).h,
            }
        }
    }

    /// The shape every tree built by `new` and `pack_rect` has: a leaf has no
    /// children; an occupied node has both, the one below starting under its
    /// block and as wide as the block, the one to the right starting beside
    /// its block with the full height of the node's extent.
    pub closed spec fn wf(self) -> bool
        decreases self,
    {
        if self.tex_handle is None {
            &&& self.l_child is None
            &&& self.r_child is None
            &&& self.space.bounded()
        } else {
            let below = Self::child_extent(self.l_child);
            let right = Self::child_extent(self.r_child);
            &&& Self::child_wf(self.l_child)
            &&& Self::child_wf(self.r_child)
            &&& below.x == self.space.x
            &&& below.y == self.space.y + self.space.h
            &&& right.x == self.space.x + self.space.w
            &&& right.y == self.space.y
            &&& below.w == self.space.w
            &&& below.h + self.space.h == right.h
        }
    }

    /// The free leaves, in the order in which `pack_rect` tries them: those
    /// to the right of a block before those below it.
    pub closed spec fn leaves(self) -> Seq<Rect>
        decreases self,
    {
        if self.tex_handle is None {
            seq![self.space]
        } else {
            Self::child_leaves(self.r_child) + Self::child_leaves(self.l_child)
        }
    }

    /// The packed blocks with their handles, in the order in which `rect_for`
    /// meets them: a node's own block, then those below it, then those to its
    /// right.
    pub closed spec fn placements(self) -> Seq<(TexHandle, Rect)>
        decreases self,
    {
        match self.tex_handle {
            None => Seq::empty(),
            Some(handle) => seq![(handle, self.space)] + Self::child_placements(self.l_child)
                + Self::child_placements(self.r_child),
        }
    }

    /// Where among the placements a `w` by `h` block enters when it is
    /// packed: the number of blocks that a lookup meets before it. A block
    /// packed to the right of a node comes after the node's own block and
    /// all blocks below the node, a block packed below a node after the
    /// node's own block.
    pub closed spec fn slot(self, w: u32, h: u32) -> int
        decreases self,
    {
        if self.tex_handle is None {
            0
        } else if has_fit(Self::child_leaves(self.r_child), w, h) {
            1 + Self::child_placements(self.l_child).len() + Self::child_slot(self.r_child, w, h)
        } else {
            1 + Self::child_slot(self.l_child, w, h)
        }
    }

    /// The tree of one free leaf that spans `space`.
    pub closed spec fn leaf(space: Rect) -> BinaryTreeNode {
        BinaryTreeNode { l_child: None, r_child: None, space, tex_handle: None }
    }

    /// The root holds a block.
    pub closed spec fn is_taken(self) -> bool {
        self.tex_handle is Some
    }

    /// The block of the root, with its handle.
    pub closed spec fn block(self) -> (TexHandle, Rect) {
        (self.tex_handle->0, self.space)
    }

    /// The tree of what is free below the block of the root.
    pub closed spec fn below(self) -> BinaryTreeNode {
        *self.l_child->0
    }

    /// The tree of what is free to the right of the block of the root.
    pub closed spec fn right(self) -> BinaryTreeNode {
        *self.r_child->0
    }

    /// The tree once a `w` by `h` block was packed under `tex`: a free leaf
    /// that is large enough takes the block in its corner and gets the two
    /// leaves left over as children; a node with a block hands the request to
    /// the tree to its right where that has room, and to the tree below it
    /// where it has not. A tree without room stays as it is.
    pub closed spec fn grown(self, w: u32, h: u32, tex: TexHandle) -> BinaryTreeNode
        decreases self,
    {
        if self.tex_handle is None {
            if self.space.fits(w, h) {
                BinaryTreeNode {
                    l_child: Some(Box::new(Self::leaf(below_of(self.space, w, h)))),
                    r_child: Some(Box::new(Self::leaf(right_of(self.space, w, h)))),
                    space: placed_in(self.space, w, h),
                    tex_handle: Some(tex),
                }
            } else {
                self
            }
        } else if has_fit(Self::child_leaves(self.r_child), w, h) {
            BinaryTreeNode { r_child: Self::child_grown(self.r_child, w, h, tex), ..self }
        } else {
            BinaryTreeNode { l_child: Self::child_grown(self.l_child, w, h, tex), ..self }
        }
    }

    /// `after` is this tree once a `w` by `h` block was packed under `tex`
    /// and came to lie at `rect`: the block took the corner of the first
    /// leaf that was large enough, that leaf gave way to the two leaves left
    /// over, and the block joined the placements at its slot, all others
    /// keeping their order. The block shares no pixel with a block packed
    /// before.
    pub open spec fn packed(
        self,
        after: BinaryTreeNode,
        w: u32,
        h: u32,
        tex: TexHandle,
        rect: Rect,
    ) -> bool {
        &&& exists|k: int|
            {
                &&& #[trigger] is_first_fit(self.leaves(), k, w, h)
                &&& rect == placed_in(self.leaves()[k], w, h)
                &&& after.leaves() == split_leaf(self.leaves(), k, w, h)
            }
        &&& 0 <= self.slot(w, h) <= self.placements().len()
        &&& after.placements() == self.placements().insert(self.slot(w, h), (tex, rect))
        &&& forall|i: int|
            0 <= i < self.placements().len() ==> !rect.overlaps((#[trigger] self.placements()[i]).1)
    }

    /// A free leaf that spans `space`.
    pub fn new(space: Rect) -> (node: BinaryTreeNode)
        requires
            space.bounded(),
        ensures
            node.wf(),
            node.extent() == space,
            node.leaves() == seq![space],
            node.placements() == Seq::<(TexHandle, Rect)>::empty(),
            node == Self::leaf(space),
    {
        BinaryTreeNode { l_child: None, r_child: None, space, tex_handle: None }
    }

    /// Whether the node is a free leaf, that is, holds no block.
    pub fn is_leaf(&self) -> (leaf: bool)
        ensures
            leaf == (self.placements().len() == 0),
            leaf && self.wf() ==> self.leaves() == seq![self.extent()],
    {
        self.tex_handle.is_none()
    }

    /// Packs a `w` by `h` block under the handle `tex` into the first free
    /// leaf that is large enough, and returns where the block went. The leaf
    /// is replaced by the space to the right of the block and the space below
    /// it. When no leaf is large enough the tree is left as it was.
    pub fn pack_rect(&mut self, w: u32, h: u32, tex: TexHandle) -> (res: Result<
        Rect,
        PackRectError,
    >)
        requires
            old(self).wf(),
        ensures
            final(self).wf(),
            final(self).extent() == old(self).extent(),
            res is Ok <==> has_fit(old(self).leaves(), w, h),
            res is Err ==> *final(self) == *old(self),
            res matches Ok(rect) ==> old(self).packed(*final(self), w, h, tex, rect),
            res is Ok ==> *final(self) == old(self).grown(w, h, tex),
            res matches Ok(rect) ==> forall|i: int|
                0 <= i < old(self).placements().len() ==> !rect.overlaps(
                    (#[trigger] old(self).placements()[i]).1,
                ),
        decreases *old(self),
    {
        proof {
            old(self).lemma_blocks_disjoint();
            old(self).lemma_blocks_within_extent();
        }
        if !self.is_leaf() {
            let ghost right_leaves = Self::child_leaves(self.r_child);
            let ghost below_leaves = Self::child_leaves(self.l_child);
            let ghost right_placed = Self::child_placements(self.r_child);
            let ghost below_placed = Self::child_placements(self.l_child);
            let ghost own = seq![(self.tex_handle->0, self.space)];
            proof {
                lemma_fit_of_concat(right_leaves, below_leaves, w, h);
            }
            let in_right = Self::pack_into(&mut self.r_child, w, h, tex);
            match in_right {
                Ok(rect) => {
                    proof {
                        let k = choose|k: int|
                            {
                                &&& #[trigger] is_first_fit(right_leaves, k, w, h)
                                &&& rect == placed_in(right_leaves[k], w, h)
                                &&& Self::child_leaves(self.r_child) == split_leaf(
                                    right_leaves,
                                    k,
                                    w,
                                    h,
                                )
                            };
                        lemma_fit_in_front(right_leaves, below_leaves, k, w, h);
                        assert(is_first_fit(old(self).leaves(), k, w, h));
                        assert(right_leaves[k].fits(w, h));
                        let j = Self::child_slot(old(self).r_child, w, h);
                        let at = 1 + below_placed.len() + j;
                        assert(old(self).slot(w, h) == at);
                        assert(self.placements() =~= old(self).placements().insert(
                            at,
                            (tex, rect),
                        ));
                        assert(rect.within(old(self).leaves()[k]));
                    }
                    return Ok(rect);
                },
                Err(PackRectError::SpaceTooSmall) => {
                    let in_below = Self::pack_into(&mut self.l_child, w, h, tex);
                    proof {
                        if let Ok(rect) = in_below {
                            let k = choose|k: int|
                                {
                                    &&& #[trigger] is_first_fit(below_leaves, k, w, h)
                                    &&& rect == placed_in(below_leaves[k], w, h)
                                    &&& Self::child_leaves(self.l_child) == split_leaf(
                                        below_leaves,
                                        k,
                                        w,
                                        h,
                                    )
                                };
                            lemma_fit_in_back(right_leaves, below_leaves, k, w, h);
                            assert(is_first_fit(
                                old(self).leaves(),
                                right_leaves.len() + k,
                                w,
                                h,
                            ));
                            let j = Self::child_slot(old(self).l_child, w, h);
                            assert(old(self).slot(w, h) == 1 + j);
                            assert(self.placements() =~= old(self).placements().insert(
                                1 + j,
                                (tex, rect),
                            ));
                            assert(rect.within(old(self).leaves()[right_leaves.len() + k]));
                        }
                    }
                    return in_below;
                },
            }
        }
        let ghost leaf = self.space;
        assert(old(self).leaves()[0] == leaf);
        if w > self.space.w || h > self.space.h {
            return Err(PackRectError::SpaceTooSmall);
        }
        let space_below = Rect { x: self.space.x, y: self.space.y + h, w, h: self.space.h - h };
        let space_right = Rect {
            x: self.space.x + w,
            y: self.space.y,
            w: self.space.w - w,
            h: self.space.h,
        };
        let rect = Rect { x: self.space.x, y: self.space.y, w, h };
        self.l_child = Some(Box::new(BinaryTreeNode::new(space_below)));
        self.r_child = Some(Box::new(BinaryTreeNode::new(space_right)));
        self.space = rect;
        self.tex_handle = Some(tex);
        proof {
            assert(is_first_fit(old(self).leaves(), 0, w, h));
            assert(self.leaves() =~= split_leaf(old(self).leaves(), 0, w, h));
            assert(self.placements() =~= old(self).placements().insert(0, (tex, rect)));
        }
        Ok(rect)
    }

    /// `pack_rect` on a child that is known to be there.
    fn pack_into(node: &mut Option<Box<BinaryTreeNode>>, w: u32, h: u32, tex: TexHandle) -> (res:
        Result<Rect, PackRectError>)
        requires
            Self::child_wf(*old(node)),
        ensures
            Self::child_wf(*final(node)),
            Self::child_extent(*final(node)) == Self::child_extent(*old(node)),
            res is Ok <==> has_fit(Self::child_leaves(*old(node)), w, h),
            res is Err ==> *final(node) == *old(node),
            res is Ok ==> *final(node) == Self::child_grown(*old(node), w, h, tex),
            res matches Ok(rect) ==> exists|k: int|
                {
                    &&& #[trigger] is_first_fit(Self::child_leaves(*old(node)), k, w, h)
                    &&& rect == placed_in(Self::child_leaves(*old(node))[k], w, h)
                    &&& Self::child_leaves(*final(node)) == split_leaf(
                        Self::child_leaves(*old(node)),
                        k,
                        w,
                        h,
                    )
                },
            res matches Ok(rect) ==> {
                &&& 0 <= Self::child_slot(*old(node), w, h) <= Self::child_placements(
                    *old(node),
                ).len()
                &&& Self::child_placements(*final(node)) == Self::child_placements(
                    *old(node),
                ).insert(Self::child_slot(*old(node), w, h), (tex, rect))
            },
        decreases *old(node),
    {
        let ghost placed_before = Self::child_placements(*old(node));
        let ghost leaves_before = Self::child_leaves(*old(node));
        let ghost slot_before = Self::child_slot(*old(node), w, h);
        match node.take() {
            None => Err(PackRectError::SpaceTooSmall),
            Some(mut boxed) => {
                let res = (&mut *boxed).pack_rect(w, h, tex);
                *node = Some(boxed);
                proof {
                    if let Ok(rect) = res {
                        assert(Self::child_placements(*node) == placed_before.insert(
                            slot_before,
                            (tex, rect),
                        ));
                        let k = choose|k: int|
                            {
                                &&& #[trigger] is_first_fit(leaves_before, k, w, h)
                                &&& rect == placed_in(leaves_before[k], w, h)
                                &&& boxed.leaves() == split_leaf(leaves_before, k, w, h)
                            };
                        assert(is_first_fit(leaves_before, k, w, h));
                        assert(Self::child_leaves(*node) == split_leaf(leaves_before, k, w, h));
                    }
                }
                res
            },
        }
    }

    /// Nothing leaves the region the tree was given: every free leaf and every
    /// packed block lies inside the extent, and the extent's far edges are
    /// representable.
    pub proof fn lemma_blocks_within_extent(self)
        requires
            self.wf(),
        ensures
            self.extent().bounded(),
            forall|i: int|
                0 <= i < self.leaves().len() ==> (#[trigger] self.leaves()[i]).within(
                    self.extent(),
                ),
            forall|i: int|
                0 <= i < self.placements().len() ==> (#[trigger] self.placements()[i]).1.within(
                    self.extent(),
                ),
        decreases self,
    {
        if self.tex_handle is Some {
            let below = *self.l_child->0;
            let right = *self.r_child->0;
            below.lemma_blocks_within_extent();
            right.lemma_blocks_within_extent();
            let own = seq![(self.tex_handle->0, self.space)];
            assert forall|i: int| 0 <= i < self.leaves().len() implies (
            #[trigger] self.leaves()[i]).within(self.extent()) by {
                if i < right.leaves().len() {
                    assert(self.leaves()[i] == right.leaves()[i]);
                } else {
                    assert(self.leaves()[i] == below.leaves()[i - right.leaves().len()]);
                }
            }
            assert forall|i: int| 0 <= i < self.placements().len() implies (
            #[trigger] self.placements()[i]).1.within(self.extent()) by {
                if i == 0 {
                    assert(self.placements()[i] == own[0]);
                } else if i < 1 + below.placements().len() {
                    assert(self.placements()[i] == below.placements()[i - 1]);
                } else {
                    assert(self.placements()[i] == right.placements()[i - 1
                        - below.placements().len()]);
                }
            }
        }
    }

    /// No two blocks of a tree share a pixel, and no block shares one with a
    /// free leaf.
    pub proof fn lemma_blocks_disjoint(self)
        requires
            self.wf(),
        ensures
            pairwise_disjoint(self.placements()),
            forall|i: int, j: int|
                0 <= i < self.placements().len() && 0 <= j < self.leaves().len() ==> !(
                #[trigger] self.placements()[i]).1.overlaps(#[trigger] self.leaves()[j]),
        decreases self,
    {
        if self.tex_handle is Some {
            let below = *self.l_child->0;
            let right = *self.r_child->0;
            below.lemma_blocks_disjoint();
            right.lemma_blocks_disjoint();
            below.lemma_blocks_within_extent();
            right.lemma_blocks_within_extent();
            let all = self.placements();
            let free = self.leaves();
            let bp = below.placements();
            let rp = right.placements();
            let bl = below.leaves();
            let rl = right.leaves();
            let n = bp.len() as int;
            let m = rl.len() as int;
            assert(Self::child_extent(self.l_child) == below.extent());
            assert(Self::child_extent(self.r_child) == right.extent());
            assert(all.len() == 1 + n + rp.len());
            assert(all[0].1 == self.space);
            assert forall|i: int| 0 <= i < n implies #[trigger] all[1 + i] == bp[i] by {}
            assert forall|j: int| 0 <= j < rp.len() implies #[trigger] all[1 + n + j] == rp[j] by {}
            assert forall|i: int, j: int| 0 <= i < j < all.len() implies !(
            #[trigger] all[i]).1.overlaps((#[trigger] all[j]).1) by {
                if i == 0 {
                    if j < 1 + n {
                        assert(all[1 + (j - 1)] == bp[j - 1]);
                        assert(bp[j - 1].1.within(below.extent()));
                    } else {
                        assert(all[1 + n + (j - 1 - n)] == rp[j - 1 - n]);
                        assert(rp[j - 1 - n].1.within(right.extent()));
                    }
                } else if j < 1 + n {
                    assert(all[1 + (i - 1)] == bp[i - 1]);
                    assert(all[1 + (j - 1)] == bp[j - 1]);
                    assert(!bp[i - 1].1.overlaps(bp[j - 1].1));
                } else if i < 1 + n {
                    assert(all[1 + (i - 1)] == bp[i - 1]);
                    assert(all[1 + n + (j - 1 - n)] == rp[j - 1 - n]);
                    assert(bp[i - 1].1.within(below.extent()));
                    assert(rp[j - 1 - n].1.within(right.extent()));
                } else {
                    assert(all[1 + n + (i - 1 - n)] == rp[i - 1 - n]);
                    assert(all[1 + n + (j - 1 - n)] == rp[j - 1 - n]);
                    assert(!rp[i - 1 - n].1.overlaps(rp[j - 1 - n].1));
                }
            }
            assert forall|i: int, j: int| 0 <= i < all.len() && 0 <= j < free.len() implies !(
            #[trigger] all[i]).1.overlaps(#[trigger] free[j]) by {
                let leaf = free[j];
                if j < m {
                    assert(leaf == rl[j]);
                    assert(rl[j].within(right.extent()));
                } else {
                    assert(leaf == bl[j - m]);
                    assert(bl[j - m].within(below.extent()));
                }
                if i == 0 {
                } else if i < 1 + n {
                    assert(all[1 + (i - 1)] == bp[i - 1]);
                    assert(bp[i - 1].1.within(below.extent()));
                    if j >= m {
                        assert(!bp[i - 1].1.overlaps(bl[j - m]));
                    }
                } else {
                    assert(all[1 + n + (i - 1 - n)] == rp[i - 1 - n]);
                    assert(rp[i - 1 - n].1.within(right.extent()));
                    if j < m {
                        assert(!rp[i - 1 - n].1.overlaps(rl[j]));
                    }
                }
            }
        }
    }

    /// No two blocks packed into a tree share a pixel.
    pub proof fn lemma_packed_rects_disjoint(self, i: int, j: int)
        requires
            self.wf(),
            0 <= i < self.placements().len(),
            0 <= j < self.placements().len(),
            i != j,
        ensures
            !self.placements()[i].1.overlaps(self.placements()[j].1),
    {
        self.lemma_blocks_disjoint();
        if i < j {
            assert(!self.placements()[i].1.overlaps(self.placements()[j].1));
        } else {
            assert(!self.placements()[j].1.overlaps(self.placements()[i].1));
        }
    }

    /// A tree of one free leaf: it holds no block, spans its space, and is
    /// well formed where the far edges of the space are representable.
    pub proof fn lemma_leaf(space: Rect)
        ensures
            !Self::leaf(space).is_taken(),
            Self::leaf(space).extent() == space,
            Self::leaf(space).wf() <==> space.bounded(),
    {
    }

    /// A tree taken apart. A tree whose root holds no block is one free
    /// leaf. A tree whose root holds a block consists of that block, the tree
    /// below it and the tree to its right: its leaves are those to the right
    /// and then those below, its placements the block of the root, then those
    /// below, then those to the right. Packing goes to the right where there
    /// is room and below where there is not, and this fixes both the slot of
    /// the new block and the tree after packing.
    pub proof fn lemma_parts(self, w: u32, h: u32, tex: TexHandle)
        requires
            self.wf(),
        ensures
            self.is_taken() <==> self.placements().len() > 0,
            !self.is_taken() ==> {
                &&& self == Self::leaf(self.extent())
                &&& self.leaves() == seq![self.extent()]
                &&& self.slot(w, h) == 0
                &&& self.extent().fits(w, h) ==> {
                    &&& self.grown(w, h, tex).is_taken()
                    &&& self.grown(w, h, tex).block() == (tex, placed_in(self.extent(), w, h))
                    &&& self.grown(w, h, tex).below() == Self::leaf(below_of(self.extent(), w, h))
                    &&& self.grown(w, h, tex).right() == Self::leaf(right_of(self.extent(), w, h))
                }
            },
            self.is_taken() ==> {
                &&& self.below().wf()
                &&& self.right().wf()
                &&& self.leaves() == self.right().leaves() + self.below().leaves()
                &&& self.placements() == seq![self.block()] + self.below().placements()
                    + self.right().placements()
                &&& self.grown(w, h, tex).is_taken()
                &&& self.grown(w, h, tex).block() == self.block()
                &&& if has_fit(self.right().leaves(), w, h) {
                    &&& self.slot(w, h) == 1 + self.below().placements().len() + self.right().slot(
                        w,
                        h,
                    )
                    &&& self.grown(w, h, tex).right() == self.right().grown(w, h, tex)
                    &&& self.grown(w, h, tex).below() == self.below()
                } else {
                    &&& self.slot(w, h) == 1 + self.below().slot(w, h)
                    &&& self.grown(w, h, tex).below() == self.below().grown(w, h, tex)
                    &&& self.grown(w, h, tex).right() == self.right()
                }
            },
    {
    }

    /// A block packed into a tree that holds blocks is met by a lookup after
    /// the first of them: the block of the root stays in front.
    pub proof fn lemma_slot_behind_first(self, w: u32, h: u32)
        requires
            self.placements().len() > 0,
        ensures
            self.slot(w, h) >= 1,
    {
        match self.l_child {
            Some(node) => node.lemma_slot_in_range(w, h),
            None => {},
        }
        match self.r_child {
            Some(node) => node.lemma_slot_in_range(w, h),
            None => {},
        }
    }

    /// The slot of a block lies among the placements or right behind them.
    pub proof fn lemma_slot_in_range(self, w: u32, h: u32)
        ensures
            0 <= self.slot(w, h) <= self.placements().len(),
        decreases self,
    {
        if self.tex_handle is Some {
            match self.l_child {
                Some(node) => node.lemma_slot_in_range(w, h),
                None => {},
            }
            match self.r_child {
                Some(node) => node.lemma_slot_in_range(w, h),
                None => {},
            }
        }
    }

    /// The block of the first placement made under `tex_handle`, or `None`
    /// where the tree holds none.
    pub fn rect_for(&self, tex_handle: TexHandle) -> (res: Option<Rect>)
        ensures
            res == find_rect(self.placements(), tex_handle),
        decreases self,
    {
        let own = match self.tex_handle {
            None => {
                return None;
            },
            Some(handle) => handle,
        };
        proof {
            let first = seq![(own, self.space)];
            let below = Self::child_placements(self.l_child);
            let right = Self::child_placements(self.r_child);
            lemma_first_of_concat(first, below + right, tex_handle);
            lemma_first_of_concat(below, right, tex_handle);
            lemma_first_of_one((own, self.space), tex_handle);
            assert(first + below + right =~= first + (below + right));
            assert(self.placements() == first + below + right);
            assert(first_of(Seq::<(TexHandle, Rect)>::empty(), tex_handle) is None);
        }
        if own == tex_handle {
            return Some(self.space);
        }
        let below = match &self.l_child {
            Some(node) => node.rect_for(tex_handle),
            None => None,
        };
        if below.is_some() {
            return below;
        }
        match &self.r_child {
            Some(node) => node.rect_for(tex_handle),
            None => None,
        }
    }
}

impl Clone for BinaryTreeNode {
    /// A copy of the whole subtree.
    fn clone(&self) -> (res: Self)
        ensures
            res == *self,
        decreases self,
    {
        BinaryTreeNode {
            l_child: match &self.l_child {
                Some(node) => Some(Box::new((&**node).clone())),
                None => None,
            },
            r_child: match &self.r_child {
                Some(node) => Some(Box::new((&**node).clone())),
                None => None,
            },
            space: self.space,
            tex_handle: self.tex_handle,
        }
    }
}

} // verus!
